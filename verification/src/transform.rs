//! Rewriting one module's import/export forms into `require`-style code.
//!
//! The rewriter applies ordered, independent text substitution passes:
//! named imports, default imports, namespace imports, re-exports,
//! wildcard re-exports, bare export lists, exported declarations, and
//! `export default`. Later passes must not re-match text a more specific
//! earlier pass consumed, so the order is fixed; the bare export pass
//! additionally skips any match whose text still contains `from`. Each
//! specifier is replaced by the path it maps to in the given
//! specifier-to-path table, or by the raw specifier itself when the table
//! has no entry for it.

use vstd::prelude::*;

use crate::config::{spec_lookup, AliasTable};
use crate::imports::quoted_at;
use crate::imports::quoted_match;
use crate::text::{
    contains_seq, copy_range, from_chars, is_space, lit_at, push_chars, push_quoted,
    push_str_chars, skip_nonbrace, skip_spaces, skip_word, space_char, spec_quote,
    spec_skip_nonbrace, spec_skip_spaces, spec_skip_word, spec_trim, starts_with_at, to_chars,
    trim,
};
use crate::text::{contains, find_seq, lemma_skip_nonbrace, lemma_skip_spaces, lemma_skip_word};
use crate::text::spec_find_seq;
use crate::text::{join_pieces, spec_join, spec_split, split_all};

verus! {

/// The path a specifier rewrites to: its entry in the table, or the raw
/// specifier itself when the table has none.
pub open spec fn spec_path_of(map: Seq<(Seq<char>, Seq<char>)>, sp: Seq<char>) -> Seq<char> {
    match spec_lookup(map, sp) {
        Some(p) => p,
        None => sp,
    }
}

/// Executable counterpart of `spec_path_of`.
pub fn path_of(map: &AliasTable, sp: &Vec<char>) -> (r: Vec<char>)
    ensures
        r@ == spec_path_of(map@, sp@),
{
    let key = from_chars(sp);
    match map.lookup(&key) {
        Some(val) => to_chars(val.as_str()),
        None => copy_range(sp, 0, sp.len()),
    }
}

/// A `from` clause as the rewrite passes see it: the word `from`, optional
/// whitespace, then a quoted specifier.
pub open spec fn from_q_at(s: Seq<char>, u: int) -> Option<(int, int, int)> {
    if starts_with_at(s, u, "from"@) {
        quoted_at(s, spec_skip_spaces(s, u + 4))
    } else {
        None
    }
}

pub proof fn lemma_from_q_at(s: Seq<char>, u: int)
    requires
        0 <= u <= s.len(),
    ensures
        from_q_at(s, u) matches Some(m) ==> u + 4 < m.0 < m.1 < m.2 <= s.len(),
{
    reveal_strlit("from");
    if starts_with_at(s, u, "from"@) {
        lemma_skip_spaces(s, u + 4);
        crate::imports::lemma_quoted_at(s, spec_skip_spaces(s, u + 4));
    }
}

/// Executable counterpart of `from_q_at`.
fn from_q_match(v: &Vec<char>, u: usize) -> (r: Option<(usize, usize, usize)>)
    requires
        u <= v@.len(),
    ensures
        match r {
            Some((a, b, e)) => from_q_at(v@, u as int) == Some((a as int, b as int, e as int)),
            None => from_q_at(v@, u as int) is None,
        },
{
    if !lit_at(v, u, "from") {
        return None;
    }
    let n = v.len();
    proof {
        reveal_strlit("from");
        assert(u + 4 <= n);
    }
    quoted_match(v, skip_spaces(v, u + 4))
}

/// The rewrite passes, in the order they are applied.
#[derive(PartialEq, Eq, Structural, Clone, Copy)]
pub enum Pass {
    /// `import { a, b } from "m"`
    NamedImport,
    /// `import def from "m"`
    DefaultImport,
    /// `import * as ns from "m"`
    StarImport,
    /// `export { a, b } from "m"`
    ReExport,
    /// `export * from "m"`
    StarExport,
    /// `export { a, b }` without `from`
    BareExport,
    /// `export const|let|var|function|class NAME ...`: the declaration
    /// is kept (up to its statement end, or its brace-matched body for
    /// `function` and `class`) and `exports.NAME = NAME` is assigned
    /// after it.
    ExportDecl,
}

/// Where a pass matched: two capture ranges and the match end. Which
/// range holds what depends on the pass; an unused range is empty.
pub ghost struct PassMatch {
    pub a1: int,
    pub b1: int,
    pub a2: int,
    pub b2: int,
    pub end: int,
}

/// A braced list followed by a `from` clause, after the six-character
/// keyword at `i`: `kw { NAMES } from "m"` with optional whitespace.
pub open spec fn braced_from_at(s: Seq<char>, i: int, kw: Seq<char>) -> Option<PassMatch> {
    if !(starts_with_at(s, i, kw) && kw.len() == 6) {
        None
    } else {
        let t = spec_skip_spaces(s, i + 6);
        if !(t < s.len() && s[t] == '{') {
            None
        } else {
            let nb = spec_skip_nonbrace(s, t + 1);
            if !(nb > t + 1 && nb < s.len()) {
                None
            } else {
                let u = spec_skip_spaces(s, nb + 1);
                match from_q_at(s, u) {
                    Some((a, b, e)) => Some(
                        PassMatch { a1: t + 1, b1: nb, a2: a, b2: b, end: e },
                    ),
                    None => None,
                }
            }
        }
    }
}

/// The match of `pass` at position `i`.
pub open spec fn pass_match_at(s: Seq<char>, i: int, pass: Pass) -> Option<PassMatch> {
    match pass {
        Pass::NamedImport => braced_from_at(s, i, "import"@),
        Pass::ReExport => braced_from_at(s, i, "export"@),
        Pass::DefaultImport => {
            if !(starts_with_at(s, i, "import"@) && i + 6 < s.len() && is_space(s[i + 6])) {
                None
            } else {
                let t = spec_skip_spaces(s, i + 6);
                let ne = spec_skip_word(s, t);
                if !(ne > t && ne < s.len() && is_space(s[ne])) {
                    None
                } else {
                    let u = spec_skip_spaces(s, ne);
                    match from_q_at(s, u) {
                        Some((a, b, e)) => Some(PassMatch { a1: t, b1: ne, a2: a, b2: b, end: e }),
                        None => None,
                    }
                }
            }
        },
        Pass::StarImport => {
            if !starts_with_at(s, i, "import"@) {
                None
            } else {
                let t = spec_skip_spaces(s, i + 6);
                if !(t < s.len() && s[t] == '*') {
                    None
                } else {
                    let u = spec_skip_spaces(s, t + 1);
                    if !(starts_with_at(s, u, "as"@) && u + 2 < s.len() && is_space(s[u + 2])) {
                        None
                    } else {
                        let n0 = spec_skip_spaces(s, u + 2);
                        let ne = spec_skip_word(s, n0);
                        if !(ne > n0 && ne < s.len() && is_space(s[ne])) {
                            None
                        } else {
                            let f = spec_skip_spaces(s, ne);
                            match from_q_at(s, f) {
                                Some((a, b, e)) => Some(
                                    PassMatch { a1: n0, b1: ne, a2: a, b2: b, end: e },
                                ),
                                None => None,
                            }
                        }
                    }
                }
            }
        },
        Pass::StarExport => {
            if !starts_with_at(s, i, "export"@) {
                None
            } else {
                let t = spec_skip_spaces(s, i + 6);
                if !(t < s.len() && s[t] == '*') {
                    None
                } else {
                    let u = spec_skip_spaces(s, t + 1);
                    match from_q_at(s, u) {
                        Some((a, b, e)) => Some(PassMatch { a1: i, b1: i, a2: a, b2: b, end: e }),
                        None => None,
                    }
                }
            }
        },
        Pass::BareExport => {
            if !starts_with_at(s, i, "export"@) {
                None
            } else {
                let t = spec_skip_spaces(s, i + 6);
                if !(t < s.len() && s[t] == '{') {
                    None
                } else {
                    let nb = spec_skip_nonbrace(s, t + 1);
                    if !(nb > t + 1 && nb < s.len()) {
                        None
                    } else {
                        Some(PassMatch { a1: t + 1, b1: nb, a2: i, b2: i, end: nb + 1 })
                    }
                }
            }
        },
        Pass::ExportDecl => {
            if !(starts_with_at(s, i, "export"@) && i + 6 < s.len() && is_space(s[i + 6])) {
                None
            } else {
                let t = spec_skip_spaces(s, i + 6);
                let kw = decl_kw_at(s, t);
                if kw.len() == 0 {
                    None
                } else {
                    let ka = t + kw.len();
                    if !(ka < s.len() && is_space(s[ka])) {
                        None
                    } else {
                        let n0 = spec_skip_spaces(s, ka);
                        let ne = spec_skip_word(s, n0);
                        if !(ne > n0) {
                            None
                        } else if kw == "function"@ || kw == "class"@ {
                            match spec_find_seq(s, ne, "{"@) {
                                Some(bp) => match spec_block_end(s, bp, 0) {
                                    Some(e) => Some(
                                        PassMatch { a1: n0, b1: ne, a2: t, b2: ka, end: e },
                                    ),
                                    None => None,
                                },
                                None => None,
                            }
                        } else {
                            let j = spec_skip_stmt(s, ne);
                            let e = if j < s.len() && s[j] == ';' {
                                j + 1
                            } else {
                                j
                            };
                            Some(PassMatch { a1: n0, b1: ne, a2: t, b2: ka, end: e })
                        }
                    }
                }
            }
        },
    }
}

/// The end of the run of characters before a statement boundary: the
/// first `;` or newline at or after `i`.
pub open spec fn spec_skip_stmt(s: Seq<char>, i: int) -> int
    decreases s.len() - i when 0 <= i <= s.len()
{
    if i < s.len() && s[i] != ';' && s[i] != '\n' {
        spec_skip_stmt(s, i + 1)
    } else {
        i
    }
}

pub proof fn lemma_skip_stmt(s: Seq<char>, i: int)
    requires
        0 <= i <= s.len(),
    ensures
        i <= spec_skip_stmt(s, i) <= s.len(),
    decreases s.len() - i,
{
    if i < s.len() && s[i] != ';' && s[i] != '\n' {
        lemma_skip_stmt(s, i + 1);
    }
}

/// Executable counterpart of `spec_skip_stmt`.
fn skip_stmt(v: &Vec<char>, i: usize) -> (r: usize)
    requires
        i <= v@.len(),
    ensures
        r == spec_skip_stmt(v@, i as int),
        i <= r <= v@.len(),
{
    proof {
        lemma_skip_stmt(v@, i as int);
    }
    let mut k: usize = i;
    while k < v.len() && v[k] != ';' && v[k] != '\n'
        invariant
            i <= k <= v@.len(),
            spec_skip_stmt(v@, i as int) == spec_skip_stmt(v@, k as int),
        decreases v@.len() - k,
    {
        k = k + 1;
    }
    k
}

/// The position just past the brace that closes the block whose braces
/// are counted by `depth`; the scan is not syntax-aware, so braces
/// inside string literals count too.
pub open spec fn spec_block_end(s: Seq<char>, i: int, depth: int) -> Option<int>
    decreases s.len() - i when 0 <= i <= s.len()
{
    if i >= s.len() {
        None
    } else if s[i] == '{' {
        spec_block_end(s, i + 1, depth + 1)
    } else if s[i] == '}' {
        if depth == 1 {
            Some(i + 1)
        } else {
            spec_block_end(s, i + 1, depth - 1)
        }
    } else {
        spec_block_end(s, i + 1, depth)
    }
}

pub proof fn lemma_block_end(s: Seq<char>, i: int, depth: int)
    requires
        0 <= i <= s.len(),
    ensures
        spec_block_end(s, i, depth) matches Some(e) ==> i < e <= s.len(),
    decreases s.len() - i,
{
    if i < s.len() {
        lemma_block_end(s, i + 1, depth + 1);
        lemma_block_end(s, i + 1, depth - 1);
        lemma_block_end(s, i + 1, depth);
    }
}

/// Executable counterpart of `spec_block_end`, starting at an opening
/// brace.
fn block_end(v: &Vec<char>, i: usize) -> (r: Option<usize>)
    requires
        i < v@.len(),
        v@[i as int] == '{',
    ensures
        match r {
            Some(e) => spec_block_end(v@, i as int, 0) == Some(e as int) && i < e && e <= v@.len(),
            None => spec_block_end(v@, i as int, 0) is None,
        },
{
    let n = v.len();
    let mut k: usize = i + 1;
    let mut depth: usize = 1;
    while k < n
        invariant
            n == v@.len(),
            i < k <= v@.len(),
            1 <= depth <= k,
            spec_block_end(v@, i as int, 0) == spec_block_end(v@, k as int, depth as int),
        decreases v@.len() - k,
    {
        let c = v[k];
        if c == '{' {
            depth = depth + 1;
        } else if c == '}' {
            if depth == 1 {
                return Some(k + 1);
            }
            depth = depth - 1;
        }
        k = k + 1;
    }
    None
}

/// The declaration keyword starting at `t`, or the empty sequence.
pub open spec fn decl_kw_at(s: Seq<char>, t: int) -> Seq<char> {
    if starts_with_at(s, t, "const"@) {
        "const"@
    } else if starts_with_at(s, t, "let"@) {
        "let"@
    } else if starts_with_at(s, t, "var"@) {
        "var"@
    } else if starts_with_at(s, t, "function"@) {
        "function"@
    } else if starts_with_at(s, t, "class"@) {
        "class"@
    } else {
        Seq::empty()
    }
}

/// No two declaration keywords can start at the same position: their
/// first or second characters differ.
proof fn lemma_kw_disambig(s: Seq<char>, t: int)
    requires
        0 <= t <= s.len(),
    ensures
        !(starts_with_at(s, t, "const"@) && starts_with_at(s, t, "function"@)),
        !(starts_with_at(s, t, "const"@) && starts_with_at(s, t, "class"@)),
        !(starts_with_at(s, t, "let"@) && starts_with_at(s, t, "function"@)),
        !(starts_with_at(s, t, "let"@) && starts_with_at(s, t, "class"@)),
        !(starts_with_at(s, t, "var"@) && starts_with_at(s, t, "function"@)),
        !(starts_with_at(s, t, "var"@) && starts_with_at(s, t, "class"@)),
{
    reveal_strlit("const");
    reveal_strlit("let");
    reveal_strlit("var");
    reveal_strlit("function");
    reveal_strlit("class");
    if starts_with_at(s, t, "const"@) {
        assert(s[t + 0] == "const"@[0]);
        assert(s[t + 1] == "const"@[1]);
    }
    if starts_with_at(s, t, "let"@) {
        assert(s[t + 0] == "let"@[0]);
    }
    if starts_with_at(s, t, "var"@) {
        assert(s[t + 0] == "var"@[0]);
    }
    if starts_with_at(s, t, "function"@) {
        assert(s[t + 0] == "function"@[0]);
    }
    if starts_with_at(s, t, "class"@) {
        assert(s[t + 0] == "class"@[0]);
        assert(s[t + 1] == "class"@[1]);
    }
}

pub proof fn lemma_pass_match_at(s: Seq<char>, i: int, pass: Pass)
    requires
        0 <= i <= s.len(),
    ensures
        pass_match_at(s, i, pass) matches Some(m) ==> i < m.end <= s.len() && i <= m.a1 <= m.b1
            <= s.len() && i <= m.a2 <= m.b2 <= s.len() && m.a2 <= m.end,
{
    reveal_strlit("import");
    reveal_strlit("export");
    reveal_strlit("as");
    reveal_strlit("const");
    reveal_strlit("let");
    reveal_strlit("var");
    reveal_strlit("function");
    reveal_strlit("class");
    match pass {
        Pass::NamedImport => {
            lemma_braced_from_at(s, i, "import"@);
        },
        Pass::ReExport => {
            lemma_braced_from_at(s, i, "export"@);
        },
        Pass::DefaultImport => {
            if starts_with_at(s, i, "import"@) && i + 6 < s.len() && is_space(s[i + 6]) {
                lemma_skip_spaces(s, i + 6);
                let t = spec_skip_spaces(s, i + 6);
                lemma_skip_word(s, t);
                let ne = spec_skip_word(s, t);
                if ne > t && ne < s.len() && is_space(s[ne]) {
                    lemma_skip_spaces(s, ne);
                    lemma_from_q_at(s, spec_skip_spaces(s, ne));
                }
            }
        },
        Pass::StarImport => {
            if starts_with_at(s, i, "import"@) {
                lemma_skip_spaces(s, i + 6);
                let t = spec_skip_spaces(s, i + 6);
                if t < s.len() && s[t] == '*' {
                    lemma_skip_spaces(s, t + 1);
                    let u = spec_skip_spaces(s, t + 1);
                    if starts_with_at(s, u, "as"@) && u + 2 < s.len() && is_space(s[u + 2]) {
                        lemma_skip_spaces(s, u + 2);
                        let n0 = spec_skip_spaces(s, u + 2);
                        lemma_skip_word(s, n0);
                        let ne = spec_skip_word(s, n0);
                        if ne > n0 && ne < s.len() && is_space(s[ne]) {
                            lemma_skip_spaces(s, ne);
                            lemma_from_q_at(s, spec_skip_spaces(s, ne));
                        }
                    }
                }
            }
        },
        Pass::StarExport => {
            if starts_with_at(s, i, "export"@) {
                lemma_skip_spaces(s, i + 6);
                let t = spec_skip_spaces(s, i + 6);
                if t < s.len() && s[t] == '*' {
                    lemma_skip_spaces(s, t + 1);
                    lemma_from_q_at(s, spec_skip_spaces(s, t + 1));
                }
            }
        },
        Pass::BareExport => {
            if starts_with_at(s, i, "export"@) {
                lemma_skip_spaces(s, i + 6);
                let t = spec_skip_spaces(s, i + 6);
                if t < s.len() && s[t] == '{' {
                    lemma_skip_nonbrace(s, t + 1);
                }
            }
        },
        Pass::ExportDecl => {
            if starts_with_at(s, i, "export"@) && i + 6 < s.len() && is_space(s[i + 6]) {
                lemma_skip_spaces(s, i + 6);
                let t = spec_skip_spaces(s, i + 6);
                let kw = decl_kw_at(s, t);
                if kw.len() > 0 {
                    assert(t + kw.len() <= s.len());
                    let ka = t + kw.len();
                    if ka < s.len() && is_space(s[ka]) {
                        lemma_skip_spaces(s, ka);
                        let n0 = spec_skip_spaces(s, ka);
                        lemma_skip_word(s, n0);
                        let ne = spec_skip_word(s, n0);
                        if ne > n0 {
                            crate::text::lemma_find_seq(s, ne, "{"@);
                            if spec_find_seq(s, ne, "{"@) is Some {
                                lemma_block_end(s, spec_find_seq(s, ne, "{"@)->Some_0, 0);
                            }
                            lemma_skip_stmt(s, ne);
                        }
                    }
                }
            }
        },
    }
}

pub proof fn lemma_braced_from_at(s: Seq<char>, i: int, kw: Seq<char>)
    requires
        0 <= i <= s.len(),
    ensures
        braced_from_at(s, i, kw) matches Some(m) ==> i < m.end <= s.len() && i <= m.a1 <= m.b1
            <= s.len() && i <= m.a2 <= m.b2 <= s.len() && m.a2 <= m.end,
{
    if starts_with_at(s, i, kw) && kw.len() == 6 {
        lemma_skip_spaces(s, i + 6);
        let t = spec_skip_spaces(s, i + 6);
        if t < s.len() && s[t] == '{' {
            lemma_skip_nonbrace(s, t + 1);
            let nb = spec_skip_nonbrace(s, t + 1);
            if nb > t + 1 && nb < s.len() {
                lemma_skip_spaces(s, nb + 1);
                lemma_from_q_at(s, spec_skip_spaces(s, nb + 1));
            }
        }
    }
}

/// The two halves of an export-list entry: the entry trimmed and split on
/// a single ` as ` separator; with no (or several) separators the entry
/// stands for both halves.
pub open spec fn spec_as_parts(n: Seq<char>) -> (Seq<char>, Seq<char>) {
    let t = spec_trim(n);
    let asp = spec_split(t, " as "@);
    if asp.len() == 2 {
        (spec_trim(asp[0]), spec_trim(asp[1]))
    } else {
        (t, t)
    }
}

/// One assignment of a re-export list: `exports.TO = require(Q).FROM`.
pub open spec fn spec_reexport_one(n: Seq<char>, q: Seq<char>) -> Seq<char> {
    let p = spec_as_parts(n);
    "exports."@ + p.1 + " = require("@ + q + ")."@ + p.0
}

/// One assignment of a bare export list: `exports.EXPORTED = LOCAL`.
pub open spec fn spec_bare_one(n: Seq<char>) -> Seq<char> {
    let p = spec_as_parts(n);
    "exports."@ + p.1 + " = "@ + p.0
}

/// What a match of `pass` at `i` is replaced with.
pub open spec fn pass_repl(
    s: Seq<char>,
    i: int,
    m: PassMatch,
    map: Seq<(Seq<char>, Seq<char>)>,
    pass: Pass,
) -> Seq<char> {
    let cap1 = s.subrange(m.a1, m.b1);
    let q = spec_quote(spec_path_of(map, s.subrange(m.a2, m.b2)));
    match pass {
        Pass::NamedImport => "const {"@ + cap1 + "} = require("@ + q + ")"@,
        Pass::DefaultImport => "const "@ + cap1 + " = (function(){ var m = require("@ + q
            + "); return m.default || m; })()"@,
        Pass::StarImport => "const "@ + cap1 + " = require("@ + q + ")"@,
        Pass::ReExport => spec_join(
            spec_split(cap1, ","@).map_values(|n: Seq<char>| spec_reexport_one(n, q)),
            "; "@,
        ),
        Pass::StarExport => "Object.assign(exports, require("@ + q + "))"@,
        Pass::BareExport => {
            if contains_seq(s.subrange(i, m.end), "from"@) {
                s.subrange(i, m.end)
            } else {
                spec_join(spec_split(cap1, ","@).map_values(|n: Seq<char>| spec_bare_one(n)), "; "@)
            }
        },
        Pass::ExportDecl => {
            let decl = s.subrange(m.a2, m.end);
            let sep = if decl.len() > 0 && decl.last() == ';' {
                " "@
            } else {
                "; "@
            };
            decl + sep + "exports."@ + cap1 + " = "@ + cap1 + ";"@
        },
    }
}

/// One full left-to-right, non-overlapping rewrite of `pass` from `i`.
pub open spec fn spec_run_pass(
    s: Seq<char>,
    map: Seq<(Seq<char>, Seq<char>)>,
    i: int,
    pass: Pass,
) -> Seq<char>
    decreases s.len() - i when 0 <= i <= s.len() via spec_run_pass_dec
{
    if i >= s.len() {
        Seq::empty()
    } else {
        match pass_match_at(s, i, pass) {
            Some(m) => pass_repl(s, i, m, map, pass) + spec_run_pass(s, map, m.end, pass),
            None => seq![s[i]] + spec_run_pass(s, map, i + 1, pass),
        }
    }
}

#[via_fn]
proof fn spec_run_pass_dec(s: Seq<char>, map: Seq<(Seq<char>, Seq<char>)>, i: int, pass: Pass) {
    lemma_pass_match_at(s, i, pass);
}

/// The whole text rewritten by `pass`.
pub open spec fn spec_apply_pass(
    s: Seq<char>,
    map: Seq<(Seq<char>, Seq<char>)>,
    pass: Pass,
) -> Seq<char> {
    spec_run_pass(s, map, 0, pass)
}

/// Replacement of every occurrence of `export default` from `i` on.
pub open spec fn spec_replace_default_from(s: Seq<char>, i: int) -> Seq<char>
    decreases s.len() - i when 0 <= i <= s.len() via spec_replace_default_from_dec
{
    if i >= s.len() {
        Seq::empty()
    } else if starts_with_at(s, i, "export default"@) {
        "exports.default ="@ + spec_replace_default_from(s, i + 14)
    } else {
        seq![s[i]] + spec_replace_default_from(s, i + 1)
    }
}

#[via_fn]
proof fn spec_replace_default_from_dec(s: Seq<char>, i: int) {
    reveal_strlit("export default");
}

/// Every `export default` replaced by `exports.default =`.
pub open spec fn spec_replace_default(s: Seq<char>) -> Seq<char> {
    spec_replace_default_from(s, 0)
}

/// The passes in application order.
pub open spec fn pass_order() -> Seq<Pass> {
    seq![
        Pass::NamedImport,
        Pass::DefaultImport,
        Pass::StarImport,
        Pass::ReExport,
        Pass::StarExport,
        Pass::BareExport,
        Pass::ExportDecl,
    ]
}

/// The text after the first `k` passes of the order.
pub open spec fn spec_passes_upto(s: Seq<char>, map: Seq<(Seq<char>, Seq<char>)>, k: int) -> Seq<
    char,
>
    decreases k,
{
    if k <= 0 {
        s
    } else {
        spec_apply_pass(spec_passes_upto(s, map, k - 1), map, pass_order()[k - 1])
    }
}

/// The full module rewrite: the seven substitution passes in order, then
/// the `export default` replacement.
pub open spec fn spec_transform(s: Seq<char>, map: Seq<(Seq<char>, Seq<char>)>) -> Seq<char> {
    spec_replace_default(spec_passes_upto(s, map, 7))
}

/// Executable match of a braced list with `from` clause.
fn braced_from_match(v: &Vec<char>, i: usize, kw: &str) -> (r: Option<
    (usize, usize, usize, usize, usize),
>)
    requires
        i <= v@.len(),
        kw@.len() == 6,
    ensures
        match r {
            Some((a1, b1, a2, b2, e)) => braced_from_at(v@, i as int, kw@) == Some(
                PassMatch {
                    a1: a1 as int,
                    b1: b1 as int,
                    a2: a2 as int,
                    b2: b2 as int,
                    end: e as int,
                },
            ),
            None => braced_from_at(v@, i as int, kw@) is None,
        },
{
    if !lit_at(v, i, kw) {
        return None;
    }
    let n = v.len();
    let t = skip_spaces(v, i + 6);
    if !(t < n && v[t] == '{') {
        return None;
    }
    let nb = skip_nonbrace(v, t + 1);
    if !(nb > t + 1 && nb < n) {
        return None;
    }
    let u = skip_spaces(v, nb + 1);
    match from_q_match(v, u) {
        Some((a, b, e)) => Some((t + 1, nb, a, b, e)),
        None => None,
    }
}

/// Executable match of `pass` at position `i`.
fn pass_match(v: &Vec<char>, i: usize, pass: Pass) -> (r: Option<
    (usize, usize, usize, usize, usize),
>)
    requires
        i <= v@.len(),
    ensures
        match r {
            Some((a1, b1, a2, b2, e)) => pass_match_at(v@, i as int, pass) == Some(
                PassMatch {
                    a1: a1 as int,
                    b1: b1 as int,
                    a2: a2 as int,
                    b2: b2 as int,
                    end: e as int,
                },
            ) && i < e <= v@.len() && i <= a1 <= b1 <= v@.len() && i <= a2 <= b2 <= v@.len() && a2
                <= e,
            None => pass_match_at(v@, i as int, pass) is None,
        },
{
    proof {
        lemma_pass_match_at(v@, i as int, pass);
    }
    match pass {
        Pass::NamedImport => {
            proof {
                reveal_strlit("import");
            }
            braced_from_match(v, i, "import")
        },
        Pass::ReExport => {
            proof {
                reveal_strlit("export");
            }
            braced_from_match(v, i, "export")
        },
        Pass::DefaultImport => {
            if !lit_at(v, i, "import") {
                return None;
            }
            proof {
                reveal_strlit("import");
            }
            let n = v.len();
            if !(i + 6 < n && space_char(v[i + 6])) {
                return None;
            }
            let t = skip_spaces(v, i + 6);
            let ne = skip_word(v, t);
            if !(ne > t && ne < n && space_char(v[ne])) {
                return None;
            }
            let u = skip_spaces(v, ne);
            match from_q_match(v, u) {
                Some((a, b, e)) => Some((t, ne, a, b, e)),
                None => None,
            }
        },
        Pass::StarImport => {
            if !lit_at(v, i, "import") {
                return None;
            }
            proof {
                reveal_strlit("import");
            }
            let n = v.len();
            let t = skip_spaces(v, i + 6);
            if !(t < n && v[t] == '*') {
                return None;
            }
            let u = skip_spaces(v, t + 1);
            if !lit_at(v, u, "as") {
                return None;
            }
            proof {
                reveal_strlit("as");
            }
            if !(u + 2 < n && space_char(v[u + 2])) {
                return None;
            }
            let n0 = skip_spaces(v, u + 2);
            let ne = skip_word(v, n0);
            if !(ne > n0 && ne < n && space_char(v[ne])) {
                return None;
            }
            let f = skip_spaces(v, ne);
            match from_q_match(v, f) {
                Some((a, b, e)) => Some((n0, ne, a, b, e)),
                None => None,
            }
        },
        Pass::StarExport => {
            if !lit_at(v, i, "export") {
                return None;
            }
            proof {
                reveal_strlit("export");
            }
            let n = v.len();
            let t = skip_spaces(v, i + 6);
            if !(t < n && v[t] == '*') {
                return None;
            }
            let u = skip_spaces(v, t + 1);
            match from_q_match(v, u) {
                Some((a, b, e)) => Some((i, i, a, b, e)),
                None => None,
            }
        },
        Pass::BareExport => {
            if !lit_at(v, i, "export") {
                return None;
            }
            proof {
                reveal_strlit("export");
            }
            let n = v.len();
            let t = skip_spaces(v, i + 6);
            if !(t < n && v[t] == '{') {
                return None;
            }
            let nb = skip_nonbrace(v, t + 1);
            if !(nb > t + 1 && nb < n) {
                return None;
            }
            Some((t + 1, nb, i, i, nb + 1))
        },
        Pass::ExportDecl => {
            if !lit_at(v, i, "export") {
                return None;
            }
            proof {
                reveal_strlit("export");
            }
            let n = v.len();
            if !(i + 6 < n && space_char(v[i + 6])) {
                return None;
            }
            let t = skip_spaces(v, i + 6);
            let is_fc: bool = lit_at(v, t, "function") || lit_at(v, t, "class");
            let klen: usize = if lit_at(v, t, "const") {
                5
            } else if lit_at(v, t, "let") {
                3
            } else if lit_at(v, t, "var") {
                3
            } else if lit_at(v, t, "function") {
                8
            } else if lit_at(v, t, "class") {
                5
            } else {
                0
            };
            proof {
                reveal_strlit("const");
                reveal_strlit("let");
                reveal_strlit("var");
                reveal_strlit("function");
                reveal_strlit("class");
            }
            if klen == 0 {
                return None;
            }
            proof {
                reveal_strlit("const");
                reveal_strlit("let");
                reveal_strlit("var");
                reveal_strlit("function");
                reveal_strlit("class");
                lemma_kw_disambig(v@, t as int);
                let kw = decl_kw_at(v@, t as int);
                assert(decl_kw_at(v@, t as int).len() == klen);
                assert(is_fc == (kw == "function"@ || kw == "class"@)) by {
                    assert("const"@[1] != "class"@[1]);
                }
                assert(t + klen <= v@.len());
            }
            let ka = t + klen;
            if !(ka < n && space_char(v[ka])) {
                return None;
            }
            let n0 = skip_spaces(v, ka);
            let ne = skip_word(v, n0);
            if !(ne > n0) {
                return None;
            }
            if is_fc {
                proof {
                    reveal_strlit("{");
                }
                match find_seq(v, ne, "{") {
                    Some(bp) => {
                        proof {
                            reveal_strlit("{");
                            crate::text::lemma_find_seq(v@, ne as int, "{"@);
                            assert(starts_with_at(v@, bp as int, "{"@));
                            assert(v@[bp as int + 0] == "{"@[0]);
                            assert(v@[bp as int] == '{');
                        }
                        match block_end(v, bp) {
                            Some(e) => Some((n0, ne, t, ka, e)),
                            None => None,
                        }
                    },
                    None => None,
                }
            } else {
                let j = skip_stmt(v, ne);
                let e = if j < n && v[j] == ';' {
                    j + 1
                } else {
                    j
                };
                Some((n0, ne, t, ka, e))
            }
        },
    }
}

/// Executable counterpart of `spec_as_parts`.
fn as_parts(nv: &Vec<char>) -> (r: (Vec<char>, Vec<char>))
    ensures
        r.0@ == spec_as_parts(nv@).0,
        r.1@ == spec_as_parts(nv@).1,
{
    let t = trim(nv);
    proof {
        reveal_strlit(" as ");
    }
    let asp = split_all(&t, " as ");
    if asp.len() == 2 {
        proof {
            assert(asp@.map_values(|p: Vec<char>| p@)[0] == asp@[0]@);
            assert(asp@.map_values(|p: Vec<char>| p@)[1] == asp@[1]@);
        }
        (trim(&asp[0]), trim(&asp[1]))
    } else {
        let c = copy_range(&t, 0, t.len());
        proof {
            assert(c@ =~= t@);
        }
        (c, t)
    }
}

/// Appends the export-list assignments for a re-export or bare export.
fn push_assign_list(out: &mut Vec<char>, names: &Vec<char>, path: Option<&Vec<char>>)
    ensures
        final(out)@ == old(out)@ + (match path {
            Some(p) => spec_join(
                spec_split(names@, ","@).map_values(
                    |n: Seq<char>| spec_reexport_one(n, spec_quote(p@)),
                ),
                "; "@,
            ),
            None => spec_join(
                spec_split(names@, ","@).map_values(|n: Seq<char>| spec_bare_one(n)),
                "; "@,
            ),
        }),
{
    proof {
        reveal_strlit(",");
    }
    let parts = split_all(names, ",");
    let ghost split = spec_split(names@, ","@);
    let ghost mapped = match path {
        Some(p) => split.map_values(|n: Seq<char>| spec_reexport_one(n, spec_quote(p@))),
        None => split.map_values(|n: Seq<char>| spec_bare_one(n)),
    };
    let mut pieces: Vec<Vec<char>> = Vec::new();
    let mut k: usize = 0;
    while k < parts.len()
        invariant
            k <= parts@.len(),
            parts@.map_values(|p: Vec<char>| p@) == split,
            mapped == (match path {
                Some(p) => split.map_values(
                    |n: Seq<char>| spec_reexport_one(n, spec_quote(p@)),
                ),
                None => split.map_values(|n: Seq<char>| spec_bare_one(n)),
            }),
            pieces@.map_values(|p: Vec<char>| p@) == mapped.take(k as int),
        decreases parts@.len() - k,
    {
        proof {
            assert(parts@.map_values(|p: Vec<char>| p@)[k as int] == parts@[k as int]@);
        }
        let (from_n, to_n) = as_parts(&parts[k]);
        let mut piece: Vec<char> = Vec::new();
        push_str_chars(&mut piece, "exports.");
        push_chars(&mut piece, &to_n);
        match path {
            Some(p) => {
                push_str_chars(&mut piece, " = require(");
                push_quoted(&mut piece, p);
                push_str_chars(&mut piece, ").");
                push_chars(&mut piece, &from_n);
                proof {
                    assert(piece@ =~= spec_reexport_one(split[k as int], spec_quote(p@)));
                }
            },
            None => {
                push_str_chars(&mut piece, " = ");
                push_chars(&mut piece, &from_n);
                proof {
                    assert(piece@ =~= spec_bare_one(split[k as int]));
                }
            },
        }
        let ghost oldpieces = pieces@;
        let ghost piecev = piece@;
        pieces.push(piece);
        proof {
            match path {
                Some(p) => {
                    assert(mapped[k as int] == spec_reexport_one(split[k as int], spec_quote(p@)));
                },
                None => {
                    assert(mapped[k as int] == spec_bare_one(split[k as int]));
                },
            }
            assert(oldpieces.map_values(|p: Vec<char>| p@).len() == k as int);
            assert(oldpieces.len() == k as int);
            assert(pieces@.len() == k + 1);
            let newmapped = pieces@.map_values(|p: Vec<char>| p@);
            assert(newmapped.len() == k + 1);
            assert forall|j: int| 0 <= j < k + 1 implies newmapped[j] == mapped.take(
                k as int + 1,
            )[j] by {
                assert(newmapped[j] == pieces@[j]@);
                if j < k {
                    assert(pieces@[j] == oldpieces[j]);
                    assert(oldpieces.map_values(|p: Vec<char>| p@)[j] == oldpieces[j]@);
                } else {
                    assert(pieces@[j]@ == piecev);
                }
            }
            assert(newmapped =~= mapped.take(k as int + 1));
        }
        k = k + 1;
    }
    proof {
        assert(mapped.take(mapped.len() as int) =~= mapped);
    }
    let joined = join_pieces(&pieces, "; ");
    push_chars(out, &joined);
}

/// Appends the replacement text of a match of `pass`.
fn push_repl(
    out: &mut Vec<char>,
    v: &Vec<char>,
    i: usize,
    m: (usize, usize, usize, usize, usize),
    map: &AliasTable,
    pass: Pass,
)
    requires
        m.0 <= m.1 <= v@.len(),
        m.2 <= m.3 <= v@.len(),
        m.2 <= m.4,
        i <= m.4 <= v@.len(),
    ensures
        final(out)@ == old(out)@ + pass_repl(
            v@,
            i as int,
            PassMatch {
                a1: m.0 as int,
                b1: m.1 as int,
                a2: m.2 as int,
                b2: m.3 as int,
                end: m.4 as int,
            },
            map@,
            pass,
        ),
{
    let (a1, b1, a2, b2, end) = m;
    let cap1 = copy_range(v, a1, b1);
    let path = path_of(map, &copy_range(v, a2, b2));
    let ghost mm = PassMatch {
        a1: a1 as int,
        b1: b1 as int,
        a2: a2 as int,
        b2: b2 as int,
        end: end as int,
    };
    match pass {
        Pass::NamedImport => {
            push_str_chars(out, "const {");
            push_chars(out, &cap1);
            push_str_chars(out, "} = require(");
            push_quoted(out, &path);
            push_str_chars(out, ")");
            proof {
                assert(out@ =~= old(out)@ + pass_repl(v@, i as int, mm, map@, pass));
            }
        },
        Pass::DefaultImport => {
            push_str_chars(out, "const ");
            push_chars(out, &cap1);
            push_str_chars(out, " = (function(){ var m = require(");
            push_quoted(out, &path);
            push_str_chars(out, "); return m.default || m; })()");
            proof {
                assert(out@ =~= old(out)@ + pass_repl(v@, i as int, mm, map@, pass));
            }
        },
        Pass::StarImport => {
            push_str_chars(out, "const ");
            push_chars(out, &cap1);
            push_str_chars(out, " = require(");
            push_quoted(out, &path);
            push_str_chars(out, ")");
            proof {
                assert(out@ =~= old(out)@ + pass_repl(v@, i as int, mm, map@, pass));
            }
        },
        Pass::ReExport => {
            push_assign_list(out, &cap1, Some(&path));
            proof {
                assert(out@ =~= old(out)@ + pass_repl(v@, i as int, mm, map@, pass));
            }
        },
        Pass::StarExport => {
            push_str_chars(out, "Object.assign(exports, require(");
            push_quoted(out, &path);
            push_str_chars(out, "))");
            proof {
                assert(out@ =~= old(out)@ + pass_repl(v@, i as int, mm, map@, pass));
            }
        },
        Pass::BareExport => {
            let whole = copy_range(v, i, end);
            proof {
                reveal_strlit("from");
            }
            if contains(&whole, "from") {
                push_chars(out, &whole);
                proof {
                    assert(out@ =~= old(out)@ + pass_repl(v@, i as int, mm, map@, pass));
                }
            } else {
                push_assign_list(out, &cap1, None);
                proof {
                    assert(out@ =~= old(out)@ + pass_repl(v@, i as int, mm, map@, pass));
                }
            }
        },
        Pass::ExportDecl => {
            let decl = copy_range(v, a2, end);
            let dn = decl.len();
            push_chars(out, &decl);
            if dn > 0 && decl[dn - 1] == ';' {
                push_str_chars(out, " ");
            } else {
                push_str_chars(out, "; ");
            }
            push_str_chars(out, "exports.");
            push_chars(out, &cap1);
            push_str_chars(out, " = ");
            push_chars(out, &cap1);
            push_str_chars(out, ";");
            proof {
                if dn > 0 {
                    assert(decl@.last() == decl@[dn - 1]);
                }
                assert(out@ =~= old(out)@ + pass_repl(v@, i as int, mm, map@, pass));
            }
        },
    }
}

/// Runs one rewrite pass over the whole text.
fn run_pass(v: &Vec<char>, map: &AliasTable, pass: Pass) -> (r: Vec<char>)
    ensures
        r@ == spec_apply_pass(v@, map@, pass),
{
    let mut out: Vec<char> = Vec::new();
    let mut i: usize = 0;
    while i < v.len()
        invariant
            i <= v@.len(),
            spec_apply_pass(v@, map@, pass) == out@ + spec_run_pass(v@, map@, i as int, pass),
        decreases v@.len() - i,
    {
        match pass_match(v, i, pass) {
            Some((a1, b1, a2, b2, e)) => {
                push_repl(&mut out, v, i, (a1, b1, a2, b2, e), map, pass);
                i = e;
            },
            None => {
                out.push(v[i]);
                i = i + 1;
            },
        }
        proof {
            assert(spec_apply_pass(v@, map@, pass) =~= out@ + spec_run_pass(
                v@,
                map@,
                i as int,
                pass,
            ));
        }
    }
    assert(out@ =~= spec_apply_pass(v@, map@, pass));
    out
}

/// Replaces every `export default` with `exports.default =`.
fn replace_default_chars(v: &Vec<char>) -> (r: Vec<char>)
    ensures
        r@ == spec_replace_default(v@),
{
    let mut out: Vec<char> = Vec::new();
    let mut i: usize = 0;
    while i < v.len()
        invariant
            i <= v@.len(),
            spec_replace_default(v@) == out@ + spec_replace_default_from(v@, i as int),
        decreases v@.len() - i,
    {
        if lit_at(v, i, "export default") {
            proof {
                reveal_strlit("export default");
            }
            push_str_chars(&mut out, "exports.default =");
            i = i + 14;
        } else {
            out.push(v[i]);
            i = i + 1;
        }
        proof {
            assert(spec_replace_default(v@) =~= out@ + spec_replace_default_from(v@, i as int));
        }
    }
    assert(out@ =~= spec_replace_default(v@));
    out
}

/// Rewrites one module source: the seven substitution passes in their
/// fixed order, then the `export default` replacement. The table maps
/// each import specifier to the path its `require` call should use.
pub fn transform_module(source: &str, map: &AliasTable) -> (r: String)
    ensures
        r@ == spec_transform(source@, map@),
{
    let v0 = to_chars(source);
    let v1 = run_pass(&v0, map, Pass::NamedImport);
    let v2 = run_pass(&v1, map, Pass::DefaultImport);
    let v3 = run_pass(&v2, map, Pass::StarImport);
    let v4 = run_pass(&v3, map, Pass::ReExport);
    let v5 = run_pass(&v4, map, Pass::StarExport);
    let v6 = run_pass(&v5, map, Pass::BareExport);
    let v7 = run_pass(&v6, map, Pass::ExportDecl);
    let v8 = replace_default_chars(&v7);
    proof {
        assert(spec_passes_upto(source@, map@, 0) == source@);
        assert(pass_order()[0] == Pass::NamedImport);
        assert(pass_order()[1] == Pass::DefaultImport);
        assert(pass_order()[2] == Pass::StarImport);
        assert(pass_order()[3] == Pass::ReExport);
        assert(pass_order()[4] == Pass::StarExport);
        assert(pass_order()[5] == Pass::BareExport);
        assert(pass_order()[6] == Pass::ExportDecl);
        assert(spec_passes_upto(source@, map@, 1) == v1@);
        assert(spec_passes_upto(source@, map@, 2) == v2@);
        assert(spec_passes_upto(source@, map@, 3) == v3@);
        assert(spec_passes_upto(source@, map@, 4) == v4@);
        assert(spec_passes_upto(source@, map@, 5) == v5@);
        assert(spec_passes_upto(source@, map@, 6) == v6@);
        assert(spec_passes_upto(source@, map@, 7) == v7@);
    }
    from_chars(&v8)
}

} // verus!
