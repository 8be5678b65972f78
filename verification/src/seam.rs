//! Seam boundaries (`"A↔B"` / `"A<->B"`) and the registry of seam checks
//! that workflow validation consults.
use crate::strmap::{chars_lt, str_lt};
use crate::text::{chars_eq, chars_to_string, push_chars, push_range, str_to_chars};
use vstd::prelude::*;

verus! {

/// Longest accepted layer name in a boundary, in characters.
pub const MAX_BOUNDARY_NAME_LEN: usize = 64;

/// Length of the separator starting at `i` (`↔` is one character, `<->`
/// three), or 0 when none starts there.
pub open spec fn sep_len(s: Seq<char>, i: int) -> int {
    if 0 <= i < s.len() && s[i] == '↔' {
        1
    } else if 0 <= i && i + 3 <= s.len() && s[i] == '<' && s[i + 1] == '-' && s[i + 2] == '>' {
        3
    } else {
        0
    }
}

/// The first separator at or after `i`: its position and length.
pub open spec fn find_sep(s: Seq<char>, i: int) -> Option<(int, int)>
    decreases s.len() - i,
{
    if i < 0 || i >= s.len() {
        None
    } else if sep_len(s, i) > 0 {
        Some((i, sep_len(s, i)))
    } else {
        find_sep(s, i + 1)
    }
}

/// Why a boundary key was refused.
#[derive(Clone, Debug, PartialEq)]
pub enum ParseBoundaryError {
    MissingSeparator(String),
    TooManySeparators(String),
    EmptySide(String),
    SelfBoundary(String),
    NameTooLong { name: String, limit: usize },
}

/// Why a boundary key was refused, with what the error carries: the raw
/// key, the repeated layer, or the over-long name and the limit.
pub enum SpecBoundaryError {
    MissingSeparator(Seq<char>),
    TooManySeparators(Seq<char>),
    EmptySide(Seq<char>),
    SelfBoundary(Seq<char>),
    NameTooLong(Seq<char>, nat),
}

/// A parsed boundary between two distinct layers, `a` sorting before `b`.
#[derive(Clone, Debug, PartialEq)]
pub struct LayerBoundary {
    pub a: String,
    pub b: String,
}

/// The two layer names of a boundary key, in ascending order, or why the
/// key is refused: no separator, more than one, an empty side, the same
/// layer on both sides, or a name longer than the limit.
pub open spec fn spec_parse_boundary(s: Seq<char>) -> Result<(Seq<char>, Seq<char>), SpecBoundaryError> {
    match find_sep(s, 0) {
        None => Err(SpecBoundaryError::MissingSeparator(s)),
        Some((p, l)) => {
            let left = s.subrange(0, p);
            let right = s.subrange(p + l, s.len() as int);
            if find_sep(s, p + l) is Some {
                Err(SpecBoundaryError::TooManySeparators(s))
            } else if left.len() == 0 || right.len() == 0 {
                Err(SpecBoundaryError::EmptySide(s))
            } else if left == right {
                Err(SpecBoundaryError::SelfBoundary(left))
            } else if left.len() > MAX_BOUNDARY_NAME_LEN {
                Err(SpecBoundaryError::NameTooLong(left, MAX_BOUNDARY_NAME_LEN as nat))
            } else if right.len() > MAX_BOUNDARY_NAME_LEN {
                Err(SpecBoundaryError::NameTooLong(right, MAX_BOUNDARY_NAME_LEN as nat))
            } else if str_lt(right, left) {
                Ok((right, left))
            } else {
                Ok((left, right))
            }
        },
    }
}

/// The canonical spelling `a↔b` of a boundary.
pub open spec fn canonical_text(a: Seq<char>, b: Seq<char>) -> Seq<char> {
    a + seq!['↔'] + b
}

/// The canonical spelling of a boundary key, when it parses.
pub open spec fn canonical_key(s: Seq<char>) -> Option<Seq<char>> {
    match spec_parse_boundary(s) {
        Ok((a, b)) => Some(canonical_text(a, b)),
        Err(_) => None,
    }
}

impl View for ParseBoundaryError {
    type V = SpecBoundaryError;

    open spec fn view(&self) -> SpecBoundaryError {
        match self {
            ParseBoundaryError::MissingSeparator(k) => SpecBoundaryError::MissingSeparator(k@),
            ParseBoundaryError::TooManySeparators(k) => SpecBoundaryError::TooManySeparators(k@),
            ParseBoundaryError::EmptySide(k) => SpecBoundaryError::EmptySide(k@),
            ParseBoundaryError::SelfBoundary(n) => SpecBoundaryError::SelfBoundary(n@),
            ParseBoundaryError::NameTooLong { name, limit } => SpecBoundaryError::NameTooLong(
                name@,
                *limit as nat,
            ),
        }
    }
}

pub proof fn lemma_find_sep(s: Seq<char>, i: int)
    requires
        0 <= i,
    ensures
        match find_sep(s, i) {
            Some((p, l)) => i <= p && p + l <= s.len() && l == sep_len(s, p) && l > 0 && forall|
                q: int,
            | i <= q < p ==> sep_len(s, q) == 0,
            None => forall|q: int| i <= q < s.len() ==> sep_len(s, q) == 0,
        },
    decreases s.len() - i,
{
    if i < s.len() && sep_len(s, i) == 0 {
        lemma_find_sep(s, i + 1);
    }
}

fn sep_len_exec(s: &Vec<char>, i: usize) -> (l: usize)
    requires
        i <= s@.len(),
    ensures
        l == sep_len(s@, i as int),
{
    if i < s.len() && s[i] == '↔' {
        1
    } else if 3 <= s.len() - i && s[i] == '<' && s[i + 1] == '-' && s[i + 2] == '>' {
        3
    } else {
        0
    }
}

fn find_sep_exec(s: &Vec<char>, i: usize) -> (r: Option<(usize, usize)>)
    requires
        i <= s@.len(),
    ensures
        match r {
            Some((p, l)) => find_sep(s@, i as int) == Some((p as int, l as int)),
            None => find_sep(s@, i as int) is None,
        },
{
    let mut j = i;
    while j < s.len()
        invariant
            i <= j <= s@.len(),
            find_sep(s@, i as int) == find_sep(s@, j as int),
        decreases s@.len() - j,
    {
        let l = sep_len_exec(s, j);
        if l > 0 {
            return Some((j, l));
        }
        j = j + 1;
    }
    None
}

impl LayerBoundary {
    /// Parse `"A↔B"` or `"A<->B"`; the sides come out in ascending order.
    pub fn parse(raw: &str) -> (r: Result<LayerBoundary, ParseBoundaryError>)
        ensures
            match r {
                Ok(b) => spec_parse_boundary(raw@) == Ok::<
                    (Seq<char>, Seq<char>),
                    SpecBoundaryError,
                >((b.a@, b.b@)),
                Err(e) => spec_parse_boundary(raw@) == Err::<
                    (Seq<char>, Seq<char>),
                    SpecBoundaryError,
                >(e@),
            },
    {
        let s = str_to_chars(raw);
        let raw_copy = chars_to_string(&s);
        let (p, l) = match find_sep_exec(&s, 0) {
            Some(x) => x,
            None => return Err(ParseBoundaryError::MissingSeparator(raw_copy)),
        };
        proof {
            lemma_find_sep(s@, 0);
        }
        if find_sep_exec(&s, p + l).is_some() {
            return Err(ParseBoundaryError::TooManySeparators(raw_copy));
        }
        let mut left: Vec<char> = Vec::new();
        push_range(&mut left, s.as_slice(), 0, p);
        let mut right: Vec<char> = Vec::new();
        push_range(&mut right, s.as_slice(), p + l, s.len());
        assert(left@ =~= s@.subrange(0, p as int));
        assert(right@ =~= s@.subrange((p + l) as int, s@.len() as int));
        if left.len() == 0 || right.len() == 0 {
            return Err(ParseBoundaryError::EmptySide(raw_copy));
        }
        if chars_eq(&left, &right) {
            return Err(ParseBoundaryError::SelfBoundary(chars_to_string(&left)));
        }
        if left.len() > MAX_BOUNDARY_NAME_LEN {
            return Err(
                ParseBoundaryError::NameTooLong {
                    name: chars_to_string(&left),
                    limit: MAX_BOUNDARY_NAME_LEN,
                },
            );
        }
        if right.len() > MAX_BOUNDARY_NAME_LEN {
            return Err(
                ParseBoundaryError::NameTooLong {
                    name: chars_to_string(&right),
                    limit: MAX_BOUNDARY_NAME_LEN,
                },
            );
        }
        if chars_lt(&right, &left) {
            Ok(LayerBoundary { a: chars_to_string(&right), b: chars_to_string(&left) })
        } else {
            Ok(LayerBoundary { a: chars_to_string(&left), b: chars_to_string(&right) })
        }
    }

    /// The canonical spelling `a↔b`.
    pub fn canonical(&self) -> (s: String)
        ensures
            s@ == canonical_text(self.a@, self.b@),
    {
        let mut v = str_to_chars(self.a.as_str());
        v.push('↔');
        let bc = str_to_chars(self.b.as_str());
        push_chars(&mut v, &bc);
        chars_to_string(&v)
    }
}

/// A registered seam check: its id, its category label, and the layers it
/// inspects (it applies to a boundary that touches one of them).
#[derive(Clone, Debug, PartialEq)]
pub struct SeamCheck {
    pub id: String,
    pub category: String,
    pub layers: Vec<String>,
}

/// Whether a check with layer list `layers` applies to boundary `a↔b`.
pub open spec fn check_applies(layers: Seq<Seq<char>>, a: Seq<char>, b: Seq<char>) -> bool {
    layers.contains(a) || layers.contains(b)
}

pub open spec fn strings_view(v: Seq<String>) -> Seq<Seq<char>> {
    v.map_values(|s: String| s@)
}

impl SeamCheck {
    /// Whether this check inspects boundary `boundary`.
    pub fn applies_to(&self, boundary: &LayerBoundary) -> (r: bool)
        ensures
            r == check_applies(strings_view(self.layers@), boundary.a@, boundary.b@),
    {
        let n = self.layers.len();
        let mut i: usize = 0;
        while i < n
            invariant
                n == self.layers@.len(),
                i <= n,
                forall|j: int|
                    0 <= j < i ==> (#[trigger] self.layers@[j])@ != boundary.a@ && self.layers@[j]@
                        != boundary.b@,
            decreases n - i,
        {
            if crate::text::str_eq(self.layers[i].as_str(), boundary.a.as_str())
                || crate::text::str_eq(self.layers[i].as_str(), boundary.b.as_str()) {
                assert(strings_view(self.layers@)[i as int] == self.layers@[i as int]@);
                return true;
            }
            i = i + 1;
        }
        proof {
            let v = strings_view(self.layers@);
            assert(!v.contains(boundary.a@)) by {
                if v.contains(boundary.a@) {
                    let k = choose|k: int| 0 <= k < v.len() && v[k] == boundary.a@;
                    assert(self.layers@[k]@ == v[k]);
                }
            }
            assert(!v.contains(boundary.b@)) by {
                if v.contains(boundary.b@) {
                    let k = choose|k: int| 0 <= k < v.len() && v[k] == boundary.b@;
                    assert(self.layers@[k]@ == v[k]);
                }
            }
        }
        false
    }
}

/// The seam checks known to validation, in registration order.
#[derive(Clone, Debug, PartialEq)]
pub struct Registry {
    pub checks: Vec<SeamCheck>,
}

/// Index of the first check with id `id`.
pub open spec fn find_check(checks: Seq<SeamCheck>, id: Seq<char>, i: int) -> Option<int>
    decreases checks.len() - i,
{
    if i < 0 || i >= checks.len() {
        None
    } else if checks[i].id@ == id {
        Some(i)
    } else {
        find_check(checks, id, i + 1)
    }
}

/// The ids of `checks`, in order.
pub open spec fn check_ids(checks: Seq<SeamCheck>) -> Seq<Seq<char>> {
    checks.map_values(|c: SeamCheck| c.id@)
}

/// The first check with id `id`.
pub open spec fn lookup_check(checks: Seq<SeamCheck>, id: Seq<char>) -> Option<SeamCheck> {
    match find_check(checks, id, 0) {
        Some(i) => Some(checks[i]),
        None => None,
    }
}

impl Registry {
    /// The registered check ids, in registration order.
    pub fn ids_in_order(&self) -> (r: Vec<String>)
        ensures
            strings_view(r@) == check_ids(self.checks@),
    {
        let n = self.checks.len();
        let mut r: Vec<String> = Vec::new();
        let mut i: usize = 0;
        while i < n
            invariant
                n == self.checks@.len(),
                i <= n,
                strings_view(r@) == check_ids(self.checks@.subrange(0, i as int)),
            decreases n - i,
        {
            let ghost r0 = r@;
            let id = self.checks[i].id.clone();
            r.push(id);
            assert(strings_view(r@) =~= strings_view(r0).push(self.checks@[i as int].id@));
            assert(check_ids(self.checks@.subrange(0, i + 1)) =~= check_ids(
                self.checks@.subrange(0, i as int),
            ).push(self.checks@[i as int].id@));
            i = i + 1;
        }
        assert(self.checks@.subrange(0, n as int) =~= self.checks@);
        r
    }

    /// The first registered check with this id.
    pub fn get(&self, id: &str) -> (r: Option<&SeamCheck>)
        ensures
            match r {
                Some(c) => exists|i: int|
                    find_check(self.checks@, id@, 0) == Some(i) && self.checks@[i] == *c,
                None => find_check(self.checks@, id@, 0) is None,
            },
    {
        let n = self.checks.len();
        let mut i: usize = 0;
        while i < n
            invariant
                n == self.checks@.len(),
                i <= n,
                find_check(self.checks@, id@, 0) == find_check(self.checks@, id@, i as int),
            decreases n - i,
        {
            if crate::text::str_eq(self.checks[i].id.as_str(), id) {
                return Some(&self.checks[i]);
            }
            i = i + 1;
        }
        None
    }
}

} // verus!
