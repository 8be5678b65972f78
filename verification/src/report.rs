//! Text shaping for the daemon's human-facing output: table-cell
//! truncation, cleanup of model-written commit messages, and CSV quoting.
use crate::text::{chars_to_string, nat_text, push_chars, push_range, push_str, push_u64_text, str_to_chars};
use vstd::prelude::*;

verus! {

/// Whether `c` has the Unicode `White_Space` property, as
/// `char::is_whitespace` reports it: tab through carriage return, space,
/// U+0085, U+00A0, U+1680, U+2000 through U+200A, U+2028, U+2029, U+202F,
/// U+205F and U+3000.
pub open spec fn unicode_white_space(c: char) -> bool {
    ('\u{9}' <= c && c <= '\u{d}') || c == ' ' || c == '\u{85}' || c == '\u{a0}' || c
        == '\u{1680}' || ('\u{2000}' <= c && c <= '\u{200a}') || c == '\u{2028}' || c
        == '\u{2029}' || c == '\u{202f}' || c == '\u{205f}' || c == '\u{3000}'
}

fn char_is_whitespace(c: char) -> (b: bool)
    ensures
        b == unicode_white_space(c),
{
    ('\u{9}' <= c && c <= '\u{d}') || c == ' ' || c == '\u{85}' || c == '\u{a0}' || c
        == '\u{1680}' || ('\u{2000}' <= c && c <= '\u{200a}') || c == '\u{2028}' || c
        == '\u{2029}' || c == '\u{202f}' || c == '\u{205f}' || c == '\u{3000}'
}

// ─── Truncation ────────────────────────────────────────────────────────────

/// `s` cut to at most `max` characters: unchanged when it fits, else its
/// first `max - 1` characters and `…` (nothing when `max` is 0).
pub open spec fn truncated(s: Seq<char>, max: nat) -> Seq<char> {
    if s.len() <= max {
        s
    } else if max == 0 {
        Seq::empty()
    } else {
        s.take(max - 1) + seq!['…']
    }
}

/// Truncate a table cell to `max` characters, marking the cut with `…`.
pub fn truncate(s: &str, max: usize) -> (r: String)
    ensures
        r@ == truncated(s@, max as nat),
{
    let cs = str_to_chars(s);
    if cs.len() <= max {
        return chars_to_string(&cs);
    }
    let mut out: Vec<char> = Vec::new();
    if max == 0 {
        assert(out@ =~= truncated(s@, max as nat));
        return chars_to_string(&out);
    }
    push_range(&mut out, cs.as_slice(), 0, max - 1);
    out.push('…');
    assert(out@ =~= truncated(s@, max as nat));
    chars_to_string(&out)
}

/// A truncated cell never exceeds `max` characters, keeps a cell that fits
/// unchanged, and keeps the start of one that does not, marked with `…`.
pub proof fn lemma_truncate_fits(s: Seq<char>, max: nat)
    ensures
        truncated(s, max).len() <= max,
        s.len() <= max ==> truncated(s, max) == s,
        s.len() > max && max >= 1 ==> truncated(s, max).take(max - 1) == s.take(max - 1)
            && truncated(s, max).last() == '…',
{
    if s.len() > max && max >= 1 {
        assert(truncated(s, max).take(max - 1) =~= s.take(max - 1));
    }
}

// ─── Commit messages ───────────────────────────────────────────────────────

/// Index of the first character at or after `i` that is not whitespace.
pub open spec fn skip_space(s: Seq<char>, i: int) -> int
    decreases s.len() - i,
{
    if 0 <= i < s.len() && unicode_white_space(s[i]) {
        skip_space(s, i + 1)
    } else {
        i
    }
}

/// Walking back from `j` while above `lo`: the end after the last
/// character that is not whitespace.
pub open spec fn skip_space_back(s: Seq<char>, j: int, lo: int) -> int
    decreases j - lo,
{
    if lo < j <= s.len() && unicode_white_space(s[j - 1]) {
        skip_space_back(s, j - 1, lo)
    } else {
        j
    }
}

/// `s` without leading and trailing whitespace (`str::trim`).
pub open spec fn trimmed(s: Seq<char>) -> Seq<char> {
    let lo = skip_space(s, 0);
    s.subrange(lo, skip_space_back(s, s.len() as int, lo))
}

pub proof fn lemma_skip_space(s: Seq<char>, i: int)
    requires
        0 <= i <= s.len(),
    ensures
        i <= skip_space(s, i) <= s.len(),
    decreases s.len() - i,
{
    if i < s.len() && unicode_white_space(s[i]) {
        lemma_skip_space(s, i + 1);
    }
}

pub proof fn lemma_skip_space_back(s: Seq<char>, j: int, lo: int)
    requires
        0 <= lo <= j <= s.len(),
    ensures
        lo <= skip_space_back(s, j, lo) <= j,
    decreases j - lo,
{
    if lo < j && unicode_white_space(s[j - 1]) {
        lemma_skip_space_back(s, j - 1, lo);
    }
}

pub proof fn lemma_skip_space_stops(s: Seq<char>, i: int)
    requires
        0 <= i <= s.len(),
    ensures
        skip_space(s, i) < s.len() ==> !unicode_white_space(s[skip_space(s, i)]),
    decreases s.len() - i,
{
    if i < s.len() && unicode_white_space(s[i]) {
        lemma_skip_space_stops(s, i + 1);
    }
}

pub proof fn lemma_skip_space_back_stops(s: Seq<char>, j: int, lo: int)
    requires
        0 <= lo <= j <= s.len(),
    ensures
        skip_space_back(s, j, lo) > lo ==> !unicode_white_space(s[skip_space_back(s, j, lo) - 1]),
    decreases j - lo,
{
    if lo < j && unicode_white_space(s[j - 1]) {
        lemma_skip_space_back_stops(s, j - 1, lo);
    }
}

/// A trimmed text neither starts nor ends with whitespace.
pub proof fn lemma_trimmed_has_no_outer_space(s: Seq<char>)
    ensures
        trimmed(s).len() > 0 ==> !unicode_white_space(trimmed(s)[0])
            && !unicode_white_space(trimmed(s).last()),
{
    let lo = skip_space(s, 0);
    lemma_skip_space(s, 0);
    lemma_skip_space_stops(s, 0);
    lemma_skip_space_back(s, s.len() as int, lo);
    lemma_skip_space_back_stops(s, s.len() as int, lo);
}

/// A cleaned commit message neither starts nor ends with whitespace.
pub proof fn lemma_cleaned_commit_message_trimmed(raw: Seq<char>)
    ensures
        cleaned_commit_message(raw).len() > 0 ==> !unicode_white_space(
            cleaned_commit_message(raw)[0],
        ) && !unicode_white_space(cleaned_commit_message(raw).last()),
{
    let m1 = trimmed(raw);
    let m2 = if starts_with_fence(m1) {
        match find_newline(m1, 0) {
            Some(e) => m1.skip(e + 1),
            None => m1,
        }
    } else {
        m1
    };
    let m3 = if ends_with_fence(m2) {
        m2.take(m2.len() - 3)
    } else {
        m2
    };
    lemma_trimmed_has_no_outer_space(m3);
}

pub(crate) fn trim_chars(s: &Vec<char>) -> (r: Vec<char>)
    ensures
        r@ == trimmed(s@),
{
    let n = s.len();
    let mut lo: usize = 0;
    while lo < n && char_is_whitespace(s[lo])
        invariant
            n == s@.len(),
            lo <= n,
            skip_space(s@, 0) == skip_space(s@, lo as int),
        decreases n - lo,
    {
        lo = lo + 1;
    }
    let mut hi: usize = n;
    while hi > lo && char_is_whitespace(s[hi - 1])
        invariant
            n == s@.len(),
            lo <= hi <= n,
            lo == skip_space(s@, 0),
            skip_space_back(s@, n as int, lo as int) == skip_space_back(s@, hi as int, lo as int),
        decreases hi,
    {
        hi = hi - 1;
    }
    let mut out: Vec<char> = Vec::new();
    push_range(&mut out, s.as_slice(), lo, hi);
    assert(out@ =~= trimmed(s@));
    out
}

/// Index of the first `'\n'` at or after `i`.
pub open spec fn find_newline(s: Seq<char>, i: int) -> Option<int>
    decreases s.len() - i,
{
    if i < 0 || i >= s.len() {
        None
    } else if s[i] == '\n' {
        Some(i)
    } else {
        find_newline(s, i + 1)
    }
}

pub open spec fn fence() -> Seq<char> {
    seq!['`', '`', '`']
}

pub open spec fn starts_with_fence(s: Seq<char>) -> bool {
    s.len() >= 3 && s.take(3) == fence()
}

pub open spec fn ends_with_fence(s: Seq<char>) -> bool {
    s.len() >= 3 && s.skip(s.len() - 3) == fence()
}

/// A model-written commit message cleaned up: trimmed; an opening code fence
/// dropped through the end of its line; a closing fence dropped; trimmed
/// again.
pub open spec fn cleaned_commit_message(raw: Seq<char>) -> Seq<char> {
    let m1 = trimmed(raw);
    let m2 = if starts_with_fence(m1) {
        match find_newline(m1, 0) {
            Some(e) => m1.skip(e + 1),
            None => m1,
        }
    } else {
        m1
    };
    let m3 = if ends_with_fence(m2) {
        m2.take(m2.len() - 3)
    } else {
        m2
    };
    trimmed(m3)
}

fn starts_with_fence_exec(s: &Vec<char>) -> (b: bool)
    ensures
        b == starts_with_fence(s@),
{
    let b = s.len() >= 3 && s[0] == '`' && s[1] == '`' && s[2] == '`';
    if s.len() >= 3 {
        if b {
            assert(s@.take(3) =~= fence());
        } else {
            assert(s@.take(3)[0] == s@[0] && s@.take(3)[1] == s@[1] && s@.take(3)[2] == s@[2]);
        }
    }
    b
}

fn ends_with_fence_exec(s: &Vec<char>) -> (b: bool)
    ensures
        b == ends_with_fence(s@),
{
    let n = s.len();
    let b = n >= 3 && s[n - 3] == '`' && s[n - 2] == '`' && s[n - 1] == '`';
    if n >= 3 {
        let ghost t = s@.skip(n - 3);
        if b {
            assert(t =~= fence());
        } else {
            assert(t[0] == s@[n - 3] && t[1] == s@[n - 2] && t[2] == s@[n - 1]);
        }
    }
    b
}

/// Clean up a model-written commit message: trim whitespace and strip
/// markdown code fences around it.
pub fn clean_commit_message(raw: &str) -> (r: String)
    ensures
        r@ == cleaned_commit_message(raw@),
{
    let cs = str_to_chars(raw);
    let m1 = trim_chars(&cs);
    let ghost g1 = m1@;
    let m2 = if starts_with_fence_exec(&m1) {
        let n = m1.len();
        let mut e: usize = 0;
        while e < n && m1[e] != '\n'
            invariant
                n == m1@.len(),
                e <= n,
                find_newline(m1@, 0) == find_newline(m1@, e as int),
            decreases n - e,
        {
            e = e + 1;
        }
        if e < n {
            let mut t: Vec<char> = Vec::new();
            push_range(&mut t, m1.as_slice(), e + 1, n);
            assert(t@ =~= m1@.skip(e + 1));
            t
        } else {
            m1
        }
    } else {
        m1
    };
    let m3 = if ends_with_fence_exec(&m2) {
        let mut t: Vec<char> = Vec::new();
        push_range(&mut t, m2.as_slice(), 0, m2.len() - 3);
        assert(t@ =~= m2@.take(m2@.len() - 3));
        t
    } else {
        m2
    };
    let out = trim_chars(&m3);
    chars_to_string(&out)
}

// ─── CSV ───────────────────────────────────────────────────────────────────

/// A field needs quoting when it holds a comma, a quote or a line break.
pub open spec fn needs_csv_quoting(s: Seq<char>) -> bool {
    s.contains(',') || s.contains('"') || s.contains('\n') || s.contains('\r')
}

/// `s` with every `"` doubled.
pub open spec fn double_quotes(s: Seq<char>) -> Seq<char>
    decreases s.len(),
{
    if s.len() == 0 {
        Seq::empty()
    } else {
        double_quotes(s.drop_last()) + if s.last() == '"' {
            seq!['"', '"']
        } else {
            seq![s.last()]
        }
    }
}

/// `s` as a quoted CSV field: wrapped in `"`, with inner quotes doubled
/// when the field needs quoting.
pub open spec fn csv_field(s: Seq<char>) -> Seq<char> {
    seq!['"'] + (if needs_csv_quoting(s) {
        double_quotes(s)
    } else {
        s
    }) + seq!['"']
}

/// `t` with every `""` read back as `"`, pairs taken from the left (as
/// `str::replace` takes them).
pub open spec fn undouble_quotes(t: Seq<char>) -> Seq<char>
    decreases t.len(),
{
    if t.len() == 0 {
        Seq::empty()
    } else if t.len() >= 2 && t[0] == '"' && t[1] == '"' {
        seq!['"'] + undouble_quotes(t.skip(2))
    } else {
        seq![t[0]] + undouble_quotes(t.skip(1))
    }
}

proof fn lemma_double_quotes_front(c: char, s: Seq<char>)
    ensures
        double_quotes(seq![c] + s) == (if c == '"' {
            seq!['"', '"']
        } else {
            seq![c]
        }) + double_quotes(s),
    decreases s.len(),
{
    let t = seq![c] + s;
    let qc = if c == '"' {
        seq!['"', '"']
    } else {
        seq![c]
    };
    if s.len() == 0 {
        assert(t.drop_last() =~= Seq::<char>::empty());
        assert(t.last() == c);
        assert(double_quotes(Seq::<char>::empty()) =~= Seq::<char>::empty());
        assert(double_quotes(t) =~= qc);
        assert(double_quotes(s) =~= Seq::<char>::empty());
        assert(double_quotes(t) =~= qc + double_quotes(s));
    } else {
        assert(t.drop_last() =~= seq![c] + s.drop_last());
        assert(t.last() == s.last());
        lemma_double_quotes_front(c, s.drop_last());
        let ql = if s.last() == '"' {
            seq!['"', '"']
        } else {
            seq![s.last()]
        };
        assert(double_quotes(t) == double_quotes(t.drop_last()) + ql);
        assert(double_quotes(s) == double_quotes(s.drop_last()) + ql);
        assert(double_quotes(t) =~= qc + double_quotes(s));
    }
}

proof fn lemma_undouble_double(s: Seq<char>)
    ensures
        undouble_quotes(double_quotes(s)) == s,
    decreases s.len(),
{
    if s.len() > 0 {
        let c = s[0];
        let r = s.skip(1);
        assert(s =~= seq![c] + r);
        lemma_double_quotes_front(c, r);
        lemma_undouble_double(r);
        let d = double_quotes(r);
        if c == '"' {
            let t = seq!['"', '"'] + d;
            assert(t.skip(2) =~= d);
            assert(undouble_quotes(t) =~= seq!['"'] + r);
        } else {
            let t = seq![c] + d;
            assert(t.skip(1) =~= d);
            assert(undouble_quotes(t) =~= seq![c] + r);
        }
    } else {
        assert(double_quotes(s) =~= Seq::<char>::empty());
    }
}

proof fn lemma_double_quotes_plain(s: Seq<char>)
    requires
        !s.contains('"'),
    ensures
        double_quotes(s) == s,
    decreases s.len(),
{
    if s.len() > 0 {
        assert(!s.drop_last().contains('"')) by {
            if s.drop_last().contains('"') {
                let i = choose|i: int| 0 <= i < s.drop_last().len() && s.drop_last()[i] == '"';
                assert(s[i] == '"');
            }
        }
        lemma_double_quotes_plain(s.drop_last());
        assert(s.last() != '"') by {
            assert(s[s.len() - 1] == s.last());
        }
        assert(s =~= s.drop_last() + seq![s.last()]);
    }
}

/// A quoted CSV field reads back to its text: it is wrapped in `"`, the
/// text between holds the field with every `"` doubled, and reading each
/// `""` back as `"` gives the field again.
pub proof fn lemma_csv_field_round_trip(s: Seq<char>)
    ensures
        csv_field(s).len() >= 2,
        csv_field(s)[0] == '"',
        csv_field(s).last() == '"',
        csv_field(s).subrange(1, csv_field(s).len() - 1) == double_quotes(s),
        undouble_quotes(csv_field(s).subrange(1, csv_field(s).len() - 1)) == s,
{
    let r = csv_field(s);
    if !needs_csv_quoting(s) {
        lemma_double_quotes_plain(s);
    }
    assert(r.subrange(1, r.len() - 1) =~= double_quotes(s));
    lemma_undouble_double(s);
}

fn contains_char(s: &Vec<char>, c: char) -> (b: bool)
    ensures
        b == s@.contains(c),
{
    let n = s.len();
    let mut i: usize = 0;
    while i < n
        invariant
            n == s@.len(),
            i <= n,
            forall|j: int| 0 <= j < i ==> s@[j] != c,
        decreases n - i,
    {
        if s[i] == c {
            return true;
        }
        i = i + 1;
    }
    false
}

/// Quote one CSV field.
pub fn csv_escape(s: &str) -> (r: String)
    ensures
        r@ == csv_field(s@),
{
    let cs = str_to_chars(s);
    let quote = contains_char(&cs, ',') || contains_char(&cs, '"') || contains_char(&cs, '\n')
        || contains_char(&cs, '\r');
    let mut out: Vec<char> = Vec::new();
    out.push('"');
    if quote {
        let n = cs.len();
        let mut i: usize = 0;
        while i < n
            invariant
                n == cs@.len(),
                i <= n,
                out@ == seq!['"'] + double_quotes(cs@.take(i as int)),
            decreases n - i,
        {
            assert(cs@.take(i + 1).drop_last() =~= cs@.take(i as int));
            if cs[i] == '"' {
                out.push('"');
                out.push('"');
            } else {
                out.push(cs[i]);
            }
            i = i + 1;
            assert(out@ =~= seq!['"'] + double_quotes(cs@.take(i as int)));
        }
        assert(cs@.take(n as int) =~= cs@);
    } else {
        push_chars(&mut out, &cs);
    }
    out.push('"');
    assert(out@ =~= csv_field(s@));
    chars_to_string(&out)
}

// ─── Status: adaptive block ────────────────────────────────────────────────

/// What the status report reads of one layer's record: its name, the passes
/// used, whether a `halted_by`, a `final_confidence` and a `total_cost_usd`
/// entry are present, the halt reason, and the confidence already rendered
/// with three decimals.
#[derive(Clone, Debug, PartialEq)]
pub struct AdaptiveLayerView {
    pub name: Option<String>,
    pub passes_used: Option<u64>,
    pub halted_by_present: bool,
    pub halted_by: Option<String>,
    pub confidence_present: bool,
    pub confidence_text: Option<String>,
    pub cost_present: bool,
}

/// A layer with any adaptive field set.
pub open spec fn is_adaptive(l: AdaptiveLayerView) -> bool {
    l.halted_by_present || l.confidence_present || l.cost_present || match l.passes_used {
        Some(p) => p > 0,
        None => false,
    }
}

/// `s` left-aligned in a column of `w` characters (`{:<w}`).
pub open spec fn pad_right(s: Seq<char>, w: nat) -> Seq<char> {
    if s.len() < w {
        s + Seq::new((w - s.len()) as nat, |i: int| ' ')
    } else {
        s
    }
}

/// `s` right-aligned in a column of `w` characters (`{:>w}`).
pub open spec fn pad_left(s: Seq<char>, w: nat) -> Seq<char> {
    if s.len() < w {
        Seq::new((w - s.len()) as nat, |i: int| ' ') + s
    } else {
        s
    }
}

pub open spec fn text_or(o: Option<String>, d: Seq<char>) -> Seq<char> {
    match o {
        Some(s) => s@,
        None => d,
    }
}

pub open spec fn box_rule(left: char, right: char) -> Seq<char> {
    seq![' ', ' ', left] + Seq::new(38, |i: int| '═') + seq![right, '\n']
}

/// One row: `  ║ <name> p=<passes> <halted> c=<confidence> ║`.
pub open spec fn adaptive_row(l: AdaptiveLayerView) -> Seq<char> {
    "  ║ "@ + pad_right(truncated(text_or(l.name, "?"@), 12), 12) + " p="@ + pad_right(
        nat_text(
            match l.passes_used {
                Some(p) => p as nat,
                None => 0,
            },
        ),
        2,
    ) + " "@ + pad_right(truncated(text_or(l.halted_by, "-"@), 14), 14) + " c="@ + pad_right(
        text_or(l.confidence_text, "-"@),
        6,
    ) + " ║\n"@
}

pub open spec fn adaptive_rows(ls: Seq<AdaptiveLayerView>) -> Seq<char>
    decreases ls.len(),
{
    if ls.len() == 0 {
        Seq::empty()
    } else {
        adaptive_rows(ls.drop_last()) + adaptive_row(ls.last())
    }
}

/// The block: empty unless some layer has an adaptive field, else a boxed
/// table with one row per layer.
pub open spec fn adaptive_block(ls: Seq<AdaptiveLayerView>) -> Seq<char> {
    if exists|i: int| 0 <= i < ls.len() && is_adaptive(#[trigger] ls[i]) {
        box_rule('╔', '╗') + "  ║ Adaptive (per-layer)                ║\n"@ + box_rule('╠', '╣')
            + adaptive_rows(ls) + box_rule('╚', '╝')
    } else {
        Seq::empty()
    }
}

fn push_box_rule(out: &mut Vec<char>, left: char, right: char)
    ensures
        final(out)@ == old(out)@ + box_rule(left, right),
{
    let ghost o0 = out@;
    out.push(' ');
    out.push(' ');
    out.push(left);
    let mut i: usize = 0;
    while i < 38
        invariant
            i <= 38,
            out@ == o0 + seq![' ', ' ', left] + Seq::new(i as nat, |j: int| '═'),
        decreases 38 - i,
    {
        out.push('═');
        i = i + 1;
        assert(out@ =~= o0 + seq![' ', ' ', left] + Seq::new(i as nat, |j: int| '═'));
    }
    out.push(right);
    out.push('\n');
    assert(out@ =~= o0 + box_rule(left, right));
}

pub(crate) fn push_padded_right(out: &mut Vec<char>, s: &Vec<char>, w: usize)
    ensures
        final(out)@ == old(out)@ + pad_right(s@, w as nat),
{
    let ghost o0 = out@;
    push_chars(out, s);
    if s.len() < w {
        let mut i: usize = s.len();
        while i < w
            invariant
                s@.len() <= i <= w,
                out@ == o0 + s@ + Seq::new((i - s@.len()) as nat, |j: int| ' '),
            decreases w - i,
        {
            out.push(' ');
            i = i + 1;
            assert(out@ =~= o0 + s@ + Seq::new((i - s@.len()) as nat, |j: int| ' '));
        }
    } else {
        assert(out@ =~= o0 + s@);
    }
}

pub(crate) fn push_padded_left(out: &mut Vec<char>, s: &Vec<char>, w: usize)
    ensures
        final(out)@ == old(out)@ + pad_left(s@, w as nat),
{
    let ghost o0 = out@;
    if s.len() < w {
        let mut i: usize = s.len();
        while i < w
            invariant
                s@.len() <= i <= w,
                out@ == o0 + Seq::new((i - s@.len()) as nat, |j: int| ' '),
            decreases w - i,
        {
            out.push(' ');
            i = i + 1;
            assert(out@ =~= o0 + Seq::new((i - s@.len()) as nat, |j: int| ' '));
        }
    }
    push_chars(out, s);
    assert(out@ =~= o0 + pad_left(s@, w as nat));
}

fn text_or_exec(o: &Option<String>, d: &str) -> (v: Vec<char>)
    ensures
        v@ == text_or(*o, d@),
{
    match o {
        Some(s) => str_to_chars(s.as_str()),
        None => str_to_chars(d),
    }
}

fn truncated_chars(s: &Vec<char>, max: usize) -> (r: Vec<char>)
    ensures
        r@ == truncated(s@, max as nat),
{
    if s.len() <= max {
        let mut r: Vec<char> = Vec::new();
        push_chars(&mut r, s);
        assert(r@ =~= s@);
        return r;
    }
    let mut out: Vec<char> = Vec::new();
    if max == 0 {
        assert(out@ =~= truncated(s@, max as nat));
        return out;
    }
    push_range(&mut out, s.as_slice(), 0, max - 1);
    out.push('…');
    assert(out@ =~= truncated(s@, max as nat));
    out
}

fn push_adaptive_row(out: &mut Vec<char>, l: &AdaptiveLayerView)
    ensures
        final(out)@ == old(out)@ + adaptive_row(*l),
{
    let ghost o0 = out@;
    push_str(out, "  ║ ");
    let name = truncated_chars(&text_or_exec(&l.name, "?"), 12);
    push_padded_right(out, &name, 12);
    push_str(out, " p=");
    let mut passes: Vec<char> = Vec::new();
    push_u64_text(
        &mut passes,
        match l.passes_used {
            Some(p) => p,
            None => 0,
        },
    );
    push_padded_right(out, &passes, 2);
    push_str(out, " ");
    let halted = truncated_chars(&text_or_exec(&l.halted_by, "-"), 14);
    push_padded_right(out, &halted, 14);
    push_str(out, " c=");
    let conf = text_or_exec(&l.confidence_text, "-");
    push_padded_right(out, &conf, 6);
    push_str(out, " ║\n");
    assert(out@ =~= o0 + adaptive_row(*l));
}

/// Append the per-layer adaptive block of the status report to `output`;
/// nothing when no layer has an adaptive field.
pub fn render_adaptive_layer_block(output: &mut String, layers: &[AdaptiveLayerView])
    ensures
        final(output)@ == old(output)@ + adaptive_block(layers@),
{
    let n = layers.len();
    let mut any = false;
    let mut i: usize = 0;
    while i < n
        invariant
            n == layers@.len(),
            i <= n,
            any == exists|j: int| 0 <= j < i && is_adaptive(#[trigger] layers@[j]),
        decreases n - i,
    {
        let l = &layers[i];
        let a = l.halted_by_present || l.confidence_present || l.cost_present || match l.passes_used {
            Some(p) => p > 0,
            None => false,
        };
        if a {
            assert(is_adaptive(layers@[i as int]));
        }
        any = any || a;
        i = i + 1;
    }
    if !any {
        assert(adaptive_block(layers@) =~= Seq::<char>::empty());
        assert(output@ =~= old(output)@ + adaptive_block(layers@));
        return ;
    }
    let mut out = str_to_chars(output.as_str());
    let ghost o0 = out@;
    push_box_rule(&mut out, '╔', '╗');
    push_str(&mut out, "  ║ Adaptive (per-layer)                ║\n");
    push_box_rule(&mut out, '╠', '╣');
    let ghost head = out@;
    let mut k: usize = 0;
    while k < n
        invariant
            n == layers@.len(),
            k <= n,
            out@ == head + adaptive_rows(layers@.subrange(0, k as int)),
        decreases n - k,
    {
        assert(layers@.subrange(0, k + 1).drop_last() =~= layers@.subrange(0, k as int));
        push_adaptive_row(&mut out, &layers[k]);
        k = k + 1;
        assert(out@ =~= head + adaptive_rows(layers@.subrange(0, k as int)));
    }
    assert(layers@.subrange(0, n as int) =~= layers@);
    push_box_rule(&mut out, '╚', '╝');
    assert(out@ =~= old(output)@ + adaptive_block(layers@));
    *output = chars_to_string(&out);
}

} // verus!
