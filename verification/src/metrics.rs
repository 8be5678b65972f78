//! Metrics: database rows, the schema-migration plan, and the text of the
//! metrics table and the CSV export.
use crate::report::{csv_escape, csv_field, pad_left, pad_right, push_padded_left, push_padded_right};
use crate::text::{chars_to_string, int_text, nat_text, push_i64_text, push_str, push_u64_text, str_to_chars};
use vstd::prelude::*;

verus! {

/// Number of evaluations per tier.
#[derive(Clone, Debug, PartialEq)]
pub struct TierDistribution {
    pub tier1: u64,
    pub tier2: u64,
    pub tier3: u64,
}

/// A criterion with how often it failed out of how often it was scored.
#[derive(Clone, Debug, PartialEq)]
pub struct FailingCriterion {
    pub name: String,
    pub fail_count: u64,
    pub total_count: u64,
}

/// A pending telemetry entry from the queue.
#[derive(Clone, Debug, PartialEq)]
pub struct TelemetryEntry {
    pub id: i64,
    pub payload_json: String,
}

/// A seam finding row to insert. `status` is `passed`, `warning` or
/// `failed`.
#[derive(Clone, Debug, PartialEq)]
pub struct SeamFindingRow<'a> {
    pub layer: &'a str,
    pub boundary: &'a str,
    pub check_id: &'a str,
    pub category: u8,
    pub status: &'a str,
    pub details: Option<&'a str>,
}

/// The newest schema version of the metrics database.
pub const LATEST_SCHEMA_VERSION: i64 = 4;

/// The versions in `1..=upto` above `current`, ascending.
pub open spec fn versions_above(current: i64, upto: u32) -> Seq<u32>
    decreases upto,
{
    if upto == 0 {
        Seq::empty()
    } else {
        versions_above(current, (upto - 1) as u32) + (if current < upto {
            seq![upto]
        } else {
            Seq::empty()
        })
    }
}

/// The migrations a database at schema version `current` still needs, in
/// the order they run: every version above `current`, up to the latest.
pub open spec fn migrations_after(current: i64) -> Seq<u32> {
    versions_above(current, 4)
}

/// The migrations to run for a database at schema version `current`.
pub fn pending_migrations(current: i64) -> (r: Vec<u32>)
    ensures
        r@ == migrations_after(current),
{
    let mut r: Vec<u32> = Vec::new();
    let mut v: u32 = 1;
    while v <= 4
        invariant
            1 <= v <= 5,
            r@ == versions_above(current, (v - 1) as u32),
        decreases 5 - v,
    {
        if current < v as i64 {
            r.push(v);
        }
        assert(r@ =~= versions_above(current, v));
        v = v + 1;
    }
    r
}

/// Applying the pending migrations brings any database to the latest
/// version: the plan is strictly increasing, ends at the latest version
/// unless the database is already current, and skips no version above
/// `current`.
pub proof fn lemma_migrations_complete(current: i64)
    ensures
        forall|i: int, j: int|
            0 <= i < j < migrations_after(current).len() ==> migrations_after(current)[i]
                < migrations_after(current)[j],
        forall|v: u32| 1 <= v <= 4 ==> (migrations_after(current).contains(v) <==> current < v),
        current < LATEST_SCHEMA_VERSION ==> migrations_after(current).last() == 4,
        current >= LATEST_SCHEMA_VERSION ==> migrations_after(current).len() == 0,
{
    let m = migrations_after(current);
    reveal_with_fuel(versions_above, 5);
    if current < 1 {
        assert(m =~= seq![1u32, 2, 3, 4]);
    } else if current < 2 {
        assert(m =~= seq![2u32, 3, 4]);
    } else if current < 3 {
        assert(m =~= seq![3u32, 4]);
    } else if current < 4 {
        assert(m =~= seq![4u32]);
    } else {
        assert(m =~= Seq::<u32>::empty());
    }
    assert forall|v: u32| 1 <= v <= 4 implies (m.contains(v) <==> current < v) by {
        if current < v {
            if current < 1 {
                assert(m[v - 1] == v);
            } else if current < 2 {
                assert(m[v - 2] == v);
            } else if current < 3 {
                assert(m[v - 3] == v);
            } else {
                assert(m[v - 4] == v);
            }
        }
    }
}

// ─── Reports ───────────────────────────────────────────────────────────────

/// What the metrics table shows; the rates and averages arrive already
/// rendered with one decimal in a column of four (`{:>4.1}`).
#[derive(Clone, Debug, PartialEq)]
pub struct MetricsTableView {
    pub total_evaluations: u64,
    pub total_loops: u64,
    pub pass_rate: String,
    pub avg_score: String,
    pub last_30_evaluations: u64,
    pub last_30_pass_rate: String,
    pub last_30_avg_score: String,
    pub tier_distribution: TierDistribution,
    pub top_failing_criteria: Vec<FailingCriterion>,
}

pub open spec fn count5(n: u64) -> Seq<char> {
    pad_left(nat_text(n as nat), 5)
}

pub open spec fn failure_lines(cs: Seq<FailingCriterion>) -> Seq<char>
    decreases cs.len(),
{
    if cs.len() == 0 {
        Seq::empty()
    } else {
        let c = cs.last();
        failure_lines(cs.drop_last()) + "  "@ + pad_right(c.name@, 20) + " "@ + nat_text(
            c.fail_count as nat,
        ) + "/"@ + nat_text(c.total_count as nat) + " failures\n"@
    }
}

/// The metrics table.
pub open spec fn metrics_table(v: MetricsTableView) -> Seq<char> {
    "PICE Metrics\n"@ + Seq::new(39, |i: int| '═') + "\n\n"@ + "Total evaluations:   "@ + count5(
        v.total_evaluations,
    ) + "\n"@ + "Total PICE loops:    "@ + count5(v.total_loops) + "\n"@
        + "Pass rate:           "@ + v.pass_rate@ + "%\n"@ + "Average score:       "@
        + v.avg_score@ + "/10\n"@ + "\nLast 30 days:\n  Evaluations:       "@ + count5(
        v.last_30_evaluations,
    ) + "\n  Pass rate:         "@ + v.last_30_pass_rate@ + "%\n  Average score:     "@
        + v.last_30_avg_score@ + "/10\n"@ + "\nTier distribution:\n  Tier 1:            "@
        + count5(v.tier_distribution.tier1) + "\n  Tier 2:            "@ + count5(
        v.tier_distribution.tier2,
    ) + "\n  Tier 3:            "@ + count5(v.tier_distribution.tier3) + "\n"@ + if v.top_failing_criteria@.len()
        == 0 {
        Seq::empty()
    } else {
        "\nMost common failures:\n"@ + failure_lines(v.top_failing_criteria@)
    }
}

fn push_count5(out: &mut Vec<char>, n: u64)
    ensures
        final(out)@ == old(out)@ + count5(n),
{
    let mut t: Vec<char> = Vec::new();
    push_u64_text(&mut t, n);
    assert(t@ =~= nat_text(n as nat));
    push_padded_left(out, &t, 5);
}

/// Render the metrics table.
pub fn format_table(v: &MetricsTableView) -> (r: String)
    ensures
        r@ == metrics_table(*v),
{
    let mut out = str_to_chars("PICE Metrics\n");
    let ghost o0 = out@;
    let mut i: usize = 0;
    while i < 39
        invariant
            i <= 39,
            out@ == o0 + Seq::new(i as nat, |j: int| '═'),
        decreases 39 - i,
    {
        out.push('═');
        i = i + 1;
        assert(out@ =~= o0 + Seq::new(i as nat, |j: int| '═'));
    }
    push_str(&mut out, "\n\n");
    push_str(&mut out, "Total evaluations:   ");
    push_count5(&mut out, v.total_evaluations);
    push_str(&mut out, "\n");
    push_str(&mut out, "Total PICE loops:    ");
    push_count5(&mut out, v.total_loops);
    push_str(&mut out, "\n");
    push_str(&mut out, "Pass rate:           ");
    push_str(&mut out, v.pass_rate.as_str());
    push_str(&mut out, "%\n");
    push_str(&mut out, "Average score:       ");
    push_str(&mut out, v.avg_score.as_str());
    push_str(&mut out, "/10\n");
    push_str(&mut out, "\nLast 30 days:\n  Evaluations:       ");
    push_count5(&mut out, v.last_30_evaluations);
    push_str(&mut out, "\n  Pass rate:         ");
    push_str(&mut out, v.last_30_pass_rate.as_str());
    push_str(&mut out, "%\n  Average score:     ");
    push_str(&mut out, v.last_30_avg_score.as_str());
    push_str(&mut out, "/10\n");
    push_str(&mut out, "\nTier distribution:\n  Tier 1:            ");
    push_count5(&mut out, v.tier_distribution.tier1);
    push_str(&mut out, "\n  Tier 2:            ");
    push_count5(&mut out, v.tier_distribution.tier2);
    push_str(&mut out, "\n  Tier 3:            ");
    push_count5(&mut out, v.tier_distribution.tier3);
    push_str(&mut out, "\n");
    let ghost head = out@;
    let cs = &v.top_failing_criteria;
    let n = cs.len();
    if n > 0 {
        push_str(&mut out, "\nMost common failures:\n");
        let ghost head2 = out@;
        let mut k: usize = 0;
        while k < n
            invariant
                n == cs@.len(),
                k <= n,
                out@ == head2 + failure_lines(cs@.subrange(0, k as int)),
            decreases n - k,
        {
            assert(cs@.subrange(0, k + 1).drop_last() =~= cs@.subrange(0, k as int));
            let c = &cs[k];
            push_str(&mut out, "  ");
            let name = str_to_chars(c.name.as_str());
            push_padded_right(&mut out, &name, 20);
            push_str(&mut out, " ");
            push_u64_text(&mut out, c.fail_count);
            push_str(&mut out, "/");
            push_u64_text(&mut out, c.total_count);
            push_str(&mut out, " failures\n");
            k = k + 1;
            assert(out@ =~= head2 + failure_lines(cs@.subrange(0, k as int)));
        }
        assert(cs@.subrange(0, n as int) =~= cs@);
    }
    assert(out@ =~= metrics_table(*v));
    chars_to_string(&out)
}

/// The first line of the CSV export.
pub const CSV_HEADER: &'static str = "id,plan_path,feature_name,tier,passed,avg_score,timestamp\n";

/// One evaluation as a CSV line (without the line break); the average score
/// arrives rendered with one decimal.
pub open spec fn csv_row_text(
    id: i64,
    plan_path: Seq<char>,
    feature_name: Seq<char>,
    tier: u8,
    passed: bool,
    avg_score: Seq<char>,
    timestamp: Seq<char>,
) -> Seq<char> {
    int_text(id as int) + ","@ + csv_field(plan_path) + ","@ + csv_field(feature_name) + ","@
        + nat_text(tier as nat) + ","@ + (if passed {
        "true"@
    } else {
        "false"@
    }) + ","@ + avg_score + ","@ + timestamp
}

/// Render one evaluation as a CSV line.
pub fn csv_row(
    id: i64,
    plan_path: &str,
    feature_name: &str,
    tier: u8,
    passed: bool,
    avg_score: &str,
    timestamp: &str,
) -> (r: String)
    ensures
        r@ == csv_row_text(id, plan_path@, feature_name@, tier, passed, avg_score@, timestamp@),
{
    let mut out: Vec<char> = Vec::new();
    push_i64_text(&mut out, id);
    push_str(&mut out, ",");
    let p = csv_escape(plan_path);
    push_str(&mut out, p.as_str());
    push_str(&mut out, ",");
    let f = csv_escape(feature_name);
    push_str(&mut out, f.as_str());
    push_str(&mut out, ",");
    push_u64_text(&mut out, tier as u64);
    push_str(&mut out, ",");
    push_str(
        &mut out,
        if passed {
            "true"
        } else {
            "false"
        },
    );
    push_str(&mut out, ",");
    push_str(&mut out, avg_score);
    push_str(&mut out, ",");
    push_str(&mut out, timestamp);
    assert(out@ =~= csv_row_text(id, plan_path@, feature_name@, tier, passed, avg_score@, timestamp@));
    chars_to_string(&out)
}

} // verus!
