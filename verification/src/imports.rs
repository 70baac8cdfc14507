//! Scanning a module source for import-like specifiers.
//!
//! Three independent pattern scans over the raw text find the specifiers
//! of `import ... from "x"`, `export ... from "x"` and dynamic
//! `import("x")` forms. The scans are not syntax-aware: they do not
//! parse the language, a form may span several lines, and text inside
//! string literals or comments that looks like an import is picked up as
//! well.

use vstd::prelude::*;

use crate::text::{
    is_quote, is_space, lit_at, quote_char, skip_nonquote, skip_spaces, space_char,
    spec_skip_nonquote, spec_skip_spaces, starts_with_at, to_chars,
};
use crate::text::{copy_range, from_chars, lemma_skip_nonquote, lemma_skip_spaces};

verus! {

/// Where a recognized form sits: the captured specifier is
/// `s[spec_start..spec_end]` and the whole match ends at `end`.
pub ghost struct ImportMatch {
    pub spec_start: int,
    pub spec_end: int,
    pub end: int,
}

/// A quoted specifier at `q`: a quote, at least one non-quote character,
/// and a closing quote. Returns the capture bounds and the match end.
pub open spec fn quoted_at(s: Seq<char>, q: int) -> Option<(int, int, int)> {
    if !(0 <= q && q < s.len() && is_quote(s[q])) {
        None
    } else {
        let e = spec_skip_nonquote(s, q + 1);
        if e > q + 1 && e < s.len() {
            Some((q + 1, e, e + 1))
        } else {
            None
        }
    }
}

pub proof fn lemma_quoted_at(s: Seq<char>, q: int)
    requires
        0 <= q <= s.len(),
    ensures
        quoted_at(s, q) matches Some(m) ==> q < m.0 < m.1 < m.2 <= s.len(),
{
    if 0 <= q && q < s.len() && is_quote(s[q]) {
        lemma_skip_nonquote(s, q + 1);
    }
}

/// A `from` clause at `w`: whitespace before, the word `from`, at least one
/// whitespace character, optional further whitespace, then a quoted
/// specifier.
pub open spec fn from_clause_at(s: Seq<char>, w: int) -> Option<(int, int, int)> {
    if !(1 <= w && w + 5 <= s.len() && is_space(s[w - 1]) && starts_with_at(
        s,
        w,
        "from"@,
    ) && is_space(s[w + 4])) {
        None
    } else {
        quoted_at(s, spec_skip_spaces(s, w + 4))
    }
}

pub proof fn lemma_from_clause_at(s: Seq<char>, w: int)
    requires
        0 <= w <= s.len(),
    ensures
        from_clause_at(s, w) matches Some(m) ==> w + 4 < m.0 < m.1 < m.2 <= s.len(),
{
    if 1 <= w && w + 5 <= s.len() && is_space(s[w - 1]) && starts_with_at(s, w, "from"@)
        && is_space(s[w + 4]) {
        lemma_skip_spaces(s, w + 4);
        lemma_quoted_at(s, spec_skip_spaces(s, w + 4));
    }
}

/// The earliest position `w' >= w` with a `from` clause, if any.
pub open spec fn spec_find_from(s: Seq<char>, w: int) -> Option<int>
    decreases s.len() - w when 0 <= w <= s.len()
{
    if w >= s.len() {
        None
    } else if from_clause_at(s, w) is Some {
        Some(w)
    } else {
        spec_find_from(s, w + 1)
    }
}

pub proof fn lemma_find_from(s: Seq<char>, w: int)
    requires
        0 <= w <= s.len(),
    ensures
        spec_find_from(s, w) matches Some(p) ==> w <= p < s.len() && from_clause_at(s, p) is Some,
    decreases s.len() - w,
{
    if w < s.len() && from_clause_at(s, w) is None {
        lemma_find_from(s, w + 1);
    }
}

/// A `<kw> ... from "x"` statement at `i`: the six-character keyword, a
/// whitespace character, then the earliest following `from` clause.
pub open spec fn stmt_from_at(s: Seq<char>, i: int, kw: Seq<char>) -> Option<ImportMatch> {
    if !(0 <= i && i + 7 <= s.len() && starts_with_at(s, i, kw) && kw.len() == 6 && is_space(
        s[i + 6],
    )) {
        None
    } else {
        match spec_find_from(s, i + 7) {
            Some(w) => match from_clause_at(s, w) {
                Some(m) => Some(ImportMatch { spec_start: m.0, spec_end: m.1, end: m.2 }),
                None => None,
            },
            None => None,
        }
    }
}

pub proof fn lemma_stmt_from_at(s: Seq<char>, i: int, kw: Seq<char>)
    requires
        0 <= i <= s.len(),
    ensures
        stmt_from_at(s, i, kw) matches Some(m) ==> i < m.spec_start < m.spec_end < m.end
            <= s.len(),
{
    if 0 <= i && i + 7 <= s.len() && starts_with_at(s, i, kw) && kw.len() == 6 && is_space(
        s[i + 6],
    ) {
        lemma_find_from(s, i + 7);
        if spec_find_from(s, i + 7) is Some {
            lemma_from_clause_at(s, spec_find_from(s, i + 7)->Some_0);
        }
    }
}

/// A dynamic `import("x")` at `i`: the keyword, optional whitespace, `(`,
/// optional whitespace, a quoted specifier, optional whitespace, `)`.
pub open spec fn dynamic_at(s: Seq<char>, i: int) -> Option<ImportMatch> {
    if !(0 <= i && i + 6 <= s.len() && starts_with_at(s, i, "import"@)) {
        None
    } else {
        let t = spec_skip_spaces(s, i + 6);
        if !(t < s.len() && s[t] == '(') {
            None
        } else {
            match quoted_at(s, spec_skip_spaces(s, t + 1)) {
                Some(m) => {
                    let z = spec_skip_spaces(s, m.2);
                    if z < s.len() && s[z] == ')' {
                        Some(ImportMatch { spec_start: m.0, spec_end: m.1, end: z + 1 })
                    } else {
                        None
                    }
                },
                None => None,
            }
        }
    }
}

pub proof fn lemma_dynamic_at(s: Seq<char>, i: int)
    requires
        0 <= i <= s.len(),
    ensures
        dynamic_at(s, i) matches Some(m) ==> i < m.spec_start < m.spec_end < m.end <= s.len(),
{
    if 0 <= i && i + 6 <= s.len() && starts_with_at(s, i, "import"@) {
        lemma_skip_spaces(s, i + 6);
        let t = spec_skip_spaces(s, i + 6);
        if t < s.len() && s[t] == '(' {
            lemma_skip_spaces(s, t + 1);
            lemma_quoted_at(s, spec_skip_spaces(s, t + 1));
            if quoted_at(s, spec_skip_spaces(s, t + 1)) is Some {
                lemma_skip_spaces(s, quoted_at(s, spec_skip_spaces(s, t + 1))->Some_0.2);
            }
        }
    }
}

/// Which of the three scans is running.
#[derive(PartialEq, Eq, Structural, Clone, Copy)]
pub enum ScanKind {
    ImportFrom,
    ExportFrom,
    Dynamic,
}

/// The match for the given scan kind at position `i`.
pub open spec fn match_at(s: Seq<char>, i: int, kind: ScanKind) -> Option<ImportMatch> {
    match kind {
        ScanKind::ImportFrom => stmt_from_at(s, i, "import"@),
        ScanKind::ExportFrom => stmt_from_at(s, i, "export"@),
        ScanKind::Dynamic => dynamic_at(s, i),
    }
}

pub proof fn lemma_match_at(s: Seq<char>, i: int, kind: ScanKind)
    requires
        0 <= i <= s.len(),
    ensures
        match_at(s, i, kind) matches Some(m) ==> i < m.spec_start < m.spec_end < m.end <= s.len(),
{
    lemma_stmt_from_at(s, i, "import"@);
    lemma_stmt_from_at(s, i, "export"@);
    lemma_dynamic_at(s, i);
}

/// The specifiers found by a left-to-right, non-overlapping scan from `i`.
pub open spec fn spec_scan(s: Seq<char>, i: int, kind: ScanKind) -> Seq<Seq<char>>
    decreases s.len() - i when 0 <= i <= s.len() via spec_scan_dec
{
    if i >= s.len() {
        Seq::empty()
    } else {
        match match_at(s, i, kind) {
            Some(m) => seq![s.subrange(m.spec_start, m.spec_end)] + spec_scan(s, m.end, kind),
            None => spec_scan(s, i + 1, kind),
        }
    }
}

#[via_fn]
proof fn spec_scan_dec(s: Seq<char>, i: int, kind: ScanKind) {
    lemma_match_at(s, i, kind);
}

/// All specifiers of a module source: the `import ... from` matches, then
/// the `export ... from` matches, then the dynamic `import(...)` matches.
pub open spec fn spec_parse_imports(s: Seq<char>) -> Seq<Seq<char>> {
    spec_scan(s, 0, ScanKind::ImportFrom) + spec_scan(s, 0, ScanKind::ExportFrom) + spec_scan(
        s,
        0,
        ScanKind::Dynamic,
    )
}

/// Executable match of a quoted specifier at `q`.
pub(crate) fn quoted_match(v: &Vec<char>, q: usize) -> (r: Option<(usize, usize, usize)>)
    requires
        q <= v@.len(),
    ensures
        match r {
            Some((a, b, e)) => quoted_at(v@, q as int) == Some((a as int, b as int, e as int)),
            None => quoted_at(v@, q as int) is None,
        },
{
    if !(q < v.len() && quote_char(v[q])) {
        return None;
    }
    let e = skip_nonquote(v, q + 1);
    if e > q + 1 && e < v.len() {
        Some((q + 1, e, e + 1))
    } else {
        None
    }
}

/// Executable match of a `from` clause at `w`.
fn from_clause_match(v: &Vec<char>, w: usize) -> (r: Option<(usize, usize, usize)>)
    requires
        w <= v@.len(),
    ensures
        match r {
            Some((a, b, e)) => from_clause_at(v@, w as int) == Some((a as int, b as int, e as int)),
            None => from_clause_at(v@, w as int) is None,
        },
{
    if !(1 <= w && v.len() >= 5 && w <= v.len() - 5 && space_char(v[w - 1]) && lit_at(v, w, "from")
        && space_char(v[w + 4])) {
        return None;
    }
    quoted_match(v, skip_spaces(v, w + 4))
}

/// Executable match for a scan kind at position `i`.
fn kind_match(v: &Vec<char>, i: usize, kind: ScanKind) -> (r: Option<(usize, usize, usize)>)
    requires
        i <= v@.len(),
    ensures
        match r {
            Some((a, b, e)) => match_at(v@, i as int, kind) == Some(
                ImportMatch { spec_start: a as int, spec_end: b as int, end: e as int },
            ) && i < e <= v@.len() && a <= b <= v@.len(),
            None => match_at(v@, i as int, kind) is None,
        },
{
    proof {
        lemma_match_at(v@, i as int, kind);
    }
    match kind {
        ScanKind::Dynamic => {
            if !(v.len() >= 6 && i <= v.len() - 6 && lit_at(v, i, "import")) {
                return None;
            }
            let t = skip_spaces(v, i + 6);
            if !(t < v.len() && v[t] == '(') {
                return None;
            }
            match quoted_match(v, skip_spaces(v, t + 1)) {
                Some((a, b, e)) => {
                    let z = skip_spaces(v, e);
                    if z < v.len() && v[z] == ')' {
                        Some((a, b, z + 1))
                    } else {
                        None
                    }
                },
                None => None,
            }
        },
        _ => {
            let kw: &str = if matches!(kind, ScanKind::ImportFrom) {
                "import"
            } else {
                "export"
            };
            proof {
                reveal_strlit("import");
                reveal_strlit("export");
            }
            if !(v.len() >= 7 && i <= v.len() - 7 && lit_at(v, i, kw) && space_char(v[i + 6])) {
                return None;
            }
            let mut w: usize = i + 7;
            loop
                invariant
                    i + 7 <= w <= v@.len(),
                    kw@.len() == 6,
                    starts_with_at(v@, i as int, kw@),
                    is_space(v@[i as int + 6]),
                    match_at(v@, i as int, kind) == stmt_from_at(v@, i as int, kw@),
                    spec_find_from(v@, i as int + 7) == spec_find_from(v@, w as int),
                decreases v@.len() - w,
            {
                if w >= v.len() {
                    return None;
                }
                match from_clause_match(v, w) {
                    Some((a, b, e)) => {
                        proof {
                            lemma_from_clause_at(v@, w as int);
                            assert(spec_find_from(v@, w as int) == Some(w as int));
                        }
                        return Some((a, b, e));
                    },
                    None => {},
                }
                w = w + 1;
            }
        },
    }
}

/// Scans `v` for one kind of import form.
fn scan_kind(v: &Vec<char>, kind: ScanKind) -> (r: Vec<String>)
    ensures
        r@.map_values(|x: String| x@) == spec_scan(v@, 0, kind),
{
    let mut r: Vec<String> = Vec::new();
    let mut i: usize = 0;
    while i < v.len()
        invariant
            i <= v@.len(),
            spec_scan(v@, 0, kind) == r@.map_values(|x: String| x@) + spec_scan(
                v@,
                i as int,
                kind,
            ),
        decreases v@.len() - i,
    {
        match kind_match(v, i, kind) {
            Some((a, b, e)) => {
                r.push(from_chars(&copy_range(v, a, b)));
                i = e;
            },
            None => {
                i = i + 1;
            },
        }
        proof {
            assert(spec_scan(v@, 0, kind) =~= r@.map_values(|x: String| x@) + spec_scan(
                v@,
                i as int,
                kind,
            ));
        }
    }
    assert(r@.map_values(|x: String| x@) =~= spec_scan(v@, 0, kind));
    r
}

/// Extracts all import-like specifiers of a module source, in the order
/// the three scans find them.
pub fn parse_imports(source: &str) -> (r: Vec<String>)
    ensures
        r@.map_values(|x: String| x@) == spec_parse_imports(source@),
{
    let v = to_chars(source);
    let mut r = scan_kind(&v, ScanKind::ImportFrom);
    let mut r2 = scan_kind(&v, ScanKind::ExportFrom);
    let mut r3 = scan_kind(&v, ScanKind::Dynamic);
    let ghost g1 = r@.map_values(|x: String| x@);
    let ghost g2 = r2@.map_values(|x: String| x@);
    let ghost g3 = r3@.map_values(|x: String| x@);
    r.append(&mut r2);
    r.append(&mut r3);
    proof {
        assert(r@.map_values(|x: String| x@) =~= g1 + g2 + g3);
    }
    r
}

} // verus!
