//! `.pice/layers.toml`: the layer table that workflow validation checks
//! layer names against.
use crate::strmap::{lookup, StrMap};
use crate::text::{chars_to_string, nat_text, push_str, push_u64_text, string_of};
use vstd::prelude::*;

verus! {

/// One layer's definition.
#[derive(Clone, Debug, PartialEq)]
pub struct LayerDef {
    pub paths: Vec<String>,
    pub always_run: bool,
    pub depends_on: Vec<String>,
}

/// The `[layers]` table: the evaluation order and the definitions by name.
/// Only names present in both are live at run time.
#[derive(Debug, PartialEq)]
pub struct LayersTable {
    pub order: Vec<String>,
    pub defs: StrMap<LayerDef>,
}

/// The parsed `layers.toml`.
#[derive(Debug, PartialEq)]
pub struct LayersConfig {
    pub layers: LayersTable,
}

// ─── Layer detection ───────────────────────────────────────────────────────

/// Why `layers detect` stops, if it does: no top-level layer was detected
/// (with a hint that depends on whether monorepo stacks were), or the
/// config is to be written over an existing one without `force`.
pub open spec fn detect_refusal_text(
    order_len: nat,
    has_stacks: bool,
    write: bool,
    exists: bool,
    force: bool,
) -> Option<Seq<char>> {
    if order_len == 0 {
        Some(
            "No layers detected."@ + if has_stacks {
                " Monorepo stacks were detected but no top-level layers. Create .pice/layers.toml manually with the layers relevant to your root project."@
            } else {
                " Try adding framework dependencies or organizing code into recognizable directories."@
            },
        )
    } else if write && exists && !force {
        Some(".pice/layers.toml already exists. Use --force to overwrite."@)
    } else {
        None
    }
}

/// Whether `layers detect` stops before writing or showing the detected
/// table: `Some` with exit code 1 and the message, or `None` to go on.
pub fn detect_refusal(table: &LayersTable, has_stacks: bool, write: bool, exists: bool, force: bool) -> (r: Option<(i32, String)>)
    ensures
        match (detect_refusal_text(table.order@.len(), has_stacks, write, exists, force), r) {
            (Some(m), Some((code, msg))) => code == 1 && msg@ == m,
            (None, None) => true,
            _ => false,
        },
{
    if table.order.len() == 0 {
        let mut v: Vec<char> = Vec::new();
        push_str(&mut v, "No layers detected.");
        if has_stacks {
            push_str(
                &mut v,
                " Monorepo stacks were detected but no top-level layers. Create .pice/layers.toml manually with the layers relevant to your root project.",
            );
        } else {
            push_str(
                &mut v,
                " Try adding framework dependencies or organizing code into recognizable directories.",
            );
        }
        Some((1, chars_to_string(v.as_slice())))
    } else if write && exists && !force {
        Some((1, string_of(".pice/layers.toml already exists. Use --force to overwrite.")))
    } else {
        None
    }
}

/// One line per layer of `order` that has a definition, marked when it
/// always runs.
pub open spec fn written_lines(order: Seq<String>, defs: Seq<(String, LayerDef)>) -> Seq<char>
    decreases order.len(),
{
    if order.len() == 0 {
        Seq::empty()
    } else {
        written_lines(order.drop_last(), defs) + match lookup(defs, order.last()@) {
            Some(def) => "  - "@ + order.last()@ + (if def.always_run {
                " (always_run)"@
            } else {
                Seq::empty()
            }) + "\n"@,
            None => Seq::empty(),
        }
    }
}

/// The summary after writing the detected table and `created` contract
/// templates.
pub open spec fn written_summary_text(t: LayersTable, created: nat) -> Seq<char> {
    "Wrote .pice/layers.toml with "@ + nat_text(t.order@.len()) + " layers:\n"@ + written_lines(
        t.order@,
        t.defs.kv(),
    ) + if created > 0 {
        "\nCreated "@ + nat_text(created) + " contract templates in .pice/contracts/\n"@
    } else {
        Seq::empty()
    }
}

/// The summary after writing the detected table (see
/// `written_summary_text`).
pub fn written_summary(t: &LayersTable, created: usize) -> (s: String)
    ensures
        s@ == written_summary_text(*t, created as nat),
{
    let mut v: Vec<char> = Vec::new();
    push_str(&mut v, "Wrote .pice/layers.toml with ");
    push_u64_text(&mut v, t.order.len() as u64);
    push_str(&mut v, " layers:\n");
    let ghost head = v@;
    let mut i: usize = 0;
    while i < t.order.len()
        invariant
            i <= t.order@.len(),
            v@ == head + written_lines(t.order@.take(i as int), t.defs.kv()),
        decreases t.order@.len() - i,
    {
        let name = &t.order[i];
        let ghost before = v@;
        match t.defs.get(name.as_str()) {
            Some(def) => {
                push_str(&mut v, "  - ");
                push_str(&mut v, name.as_str());
                if def.always_run {
                    push_str(&mut v, " (always_run)");
                }
                push_str(&mut v, "\n");
            },
            None => {},
        }
        assert(t.order@.take(i + 1).drop_last() =~= t.order@.take(i as int));
        assert(t.order@.take(i + 1).last() == t.order@[i as int]);
        assert(v@ =~= head + written_lines(t.order@.take(i + 1), t.defs.kv()));
        i = i + 1;
    }
    assert(t.order@.take(t.order@.len() as int) =~= t.order@);
    if created > 0 {
        push_str(&mut v, "\nCreated ");
        push_u64_text(&mut v, created as u64);
        push_str(&mut v, " contract templates in .pice/contracts/\n");
    }
    assert(v@ =~= written_summary_text(*t, created as nat));
    chars_to_string(v.as_slice())
}

/// The dry-run answer: the number of layers, then the proposed TOML.
pub open spec fn dry_run_text(t: LayersTable, toml: Seq<char>) -> Seq<char> {
    "Detected "@ + nat_text(t.order@.len()) + " layers (dry run \u{2014} use --write to persist):\n\n"@
        + toml
}

/// The dry-run answer (see `dry_run_text`).
pub fn dry_run_summary(t: &LayersTable, toml: &str) -> (s: String)
    ensures
        s@ == dry_run_text(*t, toml@),
{
    let mut v: Vec<char> = Vec::new();
    push_str(&mut v, "Detected ");
    push_u64_text(&mut v, t.order.len() as u64);
    push_str(&mut v, " layers (dry run \u{2014} use --write to persist):\n\n");
    push_str(&mut v, toml);
    assert(v@ =~= dry_run_text(*t, toml@));
    chars_to_string(v.as_slice())
}

} // verus!
