//! Alias table extraction from a configuration text.
//!
//! The configuration is a script-like text that somewhere contains
//! `"name": "path"` pairs. Extraction first strips `//` line comments, then
//! `/*...*/` block comments (in that fixed order), and then scans the
//! remaining text for quoted key/value pairs. A key is an optional `@`
//! followed by at least one word character, `-` or `/`; a value is any
//! non-empty run of characters other than quotes. Duplicated keys keep the
//! value written last.

use vstd::prelude::*;

use crate::text::{
    copy_range, from_chars, is_quote, quote_char, skip_nonquote, skip_spaces,
    spec_skip_nonquote, spec_skip_spaces, to_chars,
};
use crate::text::{lemma_skip_nonquote, lemma_skip_spaces};

verus! {

// ---------------------------------------------------------------------------
// Comment stripping
// ---------------------------------------------------------------------------
/// Line-comment stripping from position `i`. When `in_comment` holds, the
/// scan is inside a `//` comment and drops characters up to the next newline
/// (the newline itself is kept).
pub open spec fn spec_strip_line_from(s: Seq<char>, i: int, in_comment: bool) -> Seq<char>
    decreases s.len() - i when 0 <= i <= s.len()
{
    if i >= s.len() {
        Seq::empty()
    } else if in_comment {
        if s[i] == '\n' {
            seq!['\n'] + spec_strip_line_from(s, i + 1, false)
        } else {
            spec_strip_line_from(s, i + 1, true)
        }
    } else if s[i] == '/' && i + 1 < s.len() && s[i + 1] == '/' {
        spec_strip_line_from(s, i + 2, true)
    } else {
        seq![s[i]] + spec_strip_line_from(s, i + 1, false)
    }
}

/// The text with every `//` comment removed up to its end of line.
pub open spec fn spec_strip_line(s: Seq<char>) -> Seq<char> {
    spec_strip_line_from(s, 0, false)
}

/// The first position `k >= i` where `*/` starts, if any.
pub open spec fn spec_find_close(s: Seq<char>, i: int) -> Option<int>
    decreases s.len() - i when 0 <= i <= s.len()
{
    if i + 2 > s.len() {
        None
    } else if s[i] == '*' && s[i + 1] == '/' {
        Some(i)
    } else {
        spec_find_close(s, i + 1)
    }
}

pub proof fn lemma_find_close(s: Seq<char>, i: int)
    requires
        0 <= i <= s.len(),
    ensures
        spec_find_close(s, i) matches Some(k) ==> i <= k && k + 2 <= s.len() && s[k] == '*'
            && s[k + 1] == '/',
    decreases s.len() - i,
{
    if i + 2 <= s.len() && !(s[i] == '*' && s[i + 1] == '/') {
        lemma_find_close(s, i + 1);
    }
}

/// Block-comment stripping from position `i`: each `/*` with a later `*/`
/// is removed together with everything between; an unclosed `/*` stays.
pub open spec fn spec_strip_block_from(s: Seq<char>, i: int) -> Seq<char>
    decreases s.len() - i when 0 <= i <= s.len() via spec_strip_block_from_dec
{
    if i >= s.len() {
        Seq::empty()
    } else if s[i] == '/' && i + 1 < s.len() && s[i + 1] == '*' && spec_find_close(s, i + 2)
        is Some {
        spec_strip_block_from(s, spec_find_close(s, i + 2)->Some_0 + 2)
    } else {
        seq![s[i]] + spec_strip_block_from(s, i + 1)
    }
}

#[via_fn]
proof fn spec_strip_block_from_dec(s: Seq<char>, i: int) {
    if i < s.len() && s[i] == '/' && i + 1 < s.len() && s[i + 1] == '*' {
        lemma_find_close(s, i + 2);
    }
}

/// The text with every closed `/*...*/` comment removed.
pub open spec fn spec_strip_block(s: Seq<char>) -> Seq<char> {
    spec_strip_block_from(s, 0)
}

/// Both stripping passes: line comments first, then block comments.
pub open spec fn spec_strip_comments(s: Seq<char>) -> Seq<char> {
    spec_strip_block(spec_strip_line(s))
}

/// Strips `//` comments from `v`, keeping newlines.
pub fn strip_line_comments(v: &Vec<char>) -> (r: Vec<char>)
    ensures
        r@ == spec_strip_line(v@),
{
    let mut r: Vec<char> = Vec::new();
    let mut i: usize = 0;
    let mut in_comment: bool = false;
    while i < v.len()
        invariant
            i <= v@.len(),
            spec_strip_line(v@) == r@ + spec_strip_line_from(v@, i as int, in_comment),
        decreases v@.len() - i,
    {
        if in_comment {
            if v[i] == '\n' {
                r.push('\n');
                in_comment = false;
            }
            i = i + 1;
        } else if v[i] == '/' && i + 1 < v.len() && v[i + 1] == '/' {
            in_comment = true;
            i = i + 2;
        } else {
            r.push(v[i]);
            i = i + 1;
        }
        proof {
            assert(spec_strip_line(v@) == r@ + spec_strip_line_from(v@, i as int, in_comment))
                by {
                assert(spec_strip_line(v@) =~= r@ + spec_strip_line_from(v@, i as int, in_comment));
            }
        }
    }
    assert(r@ =~= spec_strip_line(v@));
    r
}

/// Finds the start of the first `*/` at or after `i`, if any.
fn find_close(v: &Vec<char>, i: usize) -> (r: Option<usize>)
    requires
        i <= v@.len(),
    ensures
        match r {
            Some(k) => spec_find_close(v@, i as int) == Some(k as int) && i <= k && k + 2
                <= v@.len(),
            None => spec_find_close(v@, i as int) is None,
        },
{
    let mut k: usize = i;
    while k < v.len()
        invariant
            i <= k <= v@.len(),
            spec_find_close(v@, i as int) == spec_find_close(v@, k as int),
        decreases v@.len() - k,
    {
        if k + 1 < v.len() {
            if v[k] == '*' && v[k + 1] == '/' {
                return Some(k);
            }
        } else {
            return None;
        }
        k = k + 1;
    }
    None
}

/// Strips closed `/*...*/` comments from `v`.
pub fn strip_block_comments(v: &Vec<char>) -> (r: Vec<char>)
    ensures
        r@ == spec_strip_block(v@),
{
    let mut r: Vec<char> = Vec::new();
    let mut i: usize = 0;
    while i < v.len()
        invariant
            i <= v@.len(),
            spec_strip_block(v@) == r@ + spec_strip_block_from(v@, i as int),
        decreases v@.len() - i,
    {
        if v[i] == '/' && i + 1 < v.len() && v[i + 1] == '*' {
            match find_close(v, i + 2) {
                Some(k) => {
                    i = k + 2;
                },
                None => {
                    r.push(v[i]);
                    i = i + 1;
                },
            }
        } else {
            r.push(v[i]);
            i = i + 1;
        }
        proof {
            assert(spec_strip_block(v@) =~= r@ + spec_strip_block_from(v@, i as int));
        }
    }
    assert(r@ =~= spec_strip_block(v@));
    r
}

// ---------------------------------------------------------------------------
// Pair scanning
// ---------------------------------------------------------------------------
/// A key character: a word character, `-` or `/`.
pub open spec fn is_key_char(c: char) -> bool {
    crate::text::is_word(c) || c == '-' || c == '/'
}

/// Executable test of `is_key_char`.
pub fn key_char(c: char) -> (r: bool)
    ensures
        r == is_key_char(c),
{
    crate::text::word_char(c) || c == '-' || c == '/'
}

/// The end of the maximal run of key characters starting at `i`.
pub open spec fn spec_skip_key(s: Seq<char>, i: int) -> int
    decreases s.len() - i when 0 <= i <= s.len()
{
    if i < s.len() && is_key_char(s[i]) {
        spec_skip_key(s, i + 1)
    } else {
        i
    }
}

pub proof fn lemma_skip_key(s: Seq<char>, i: int)
    requires
        0 <= i <= s.len(),
    ensures
        i <= spec_skip_key(s, i) <= s.len(),
    decreases s.len() - i,
{
    if i < s.len() && is_key_char(s[i]) {
        lemma_skip_key(s, i + 1);
    }
}

/// Executable counterpart of `spec_skip_key`.
fn skip_key(v: &Vec<char>, i: usize) -> (r: usize)
    requires
        i <= v@.len(),
    ensures
        r == spec_skip_key(v@, i as int),
        i <= r <= v@.len(),
{
    proof {
        lemma_skip_key(v@, i as int);
    }
    let mut k: usize = i;
    while k < v.len() && key_char(v[k])
        invariant
            i <= k <= v@.len(),
            spec_skip_key(v@, i as int) == spec_skip_key(v@, k as int),
        decreases v@.len() - k,
    {
        k = k + 1;
    }
    k
}

/// The shape of a `"key": "value"` pair match: where the captures sit and
/// where the match ends.
pub ghost struct PairShape {
    pub kstart: int,
    pub kend: int,
    pub vstart: int,
    pub vend: int,
    pub end: int,
}

/// The pair match starting at position `i`, if the grammar matches there:
/// a quote, an optional `@`, at least one key character, a quote, optional
/// whitespace, `:`, optional whitespace, a quote, at least one non-quote
/// character, and a quote. The key capture starts right after the opening
/// quote (including the `@`, if present).
pub open spec fn spec_pair_shape(s: Seq<char>, i: int) -> Option<PairShape> {
    if !(0 <= i && i < s.len() && is_quote(s[i])) {
        None
    } else {
        let k0 = i + 1;
        let kb = if k0 < s.len() && s[k0] == '@' {
            k0 + 1
        } else {
            k0
        };
        let ke = spec_skip_key(s, kb);
        if ke == kb || ke >= s.len() || !is_quote(s[ke]) {
            None
        } else {
            let c = spec_skip_spaces(s, ke + 1);
            if c >= s.len() || s[c] != ':' {
                None
            } else {
                let q = spec_skip_spaces(s, c + 1);
                if q >= s.len() || !is_quote(s[q]) {
                    None
                } else {
                    let vs = q + 1;
                    let ve = spec_skip_nonquote(s, vs);
                    if ve == vs || ve >= s.len() {
                        None
                    } else {
                        Some(
                            PairShape {
                                kstart: k0,
                                kend: ke,
                                vstart: vs,
                                vend: ve,
                                end: ve + 1,
                            },
                        )
                    }
                }
            }
        }
    }
}

pub proof fn lemma_pair_shape(s: Seq<char>, i: int)
    requires
        0 <= i <= s.len(),
    ensures
        spec_pair_shape(s, i) matches Some(p) ==> i < p.kstart <= p.kend < p.vstart <= p.vend
            < p.end <= s.len(),
{
    if 0 <= i && i < s.len() && is_quote(s[i]) {
        let k0 = i + 1;
        let kb = if k0 < s.len() && s[k0] == '@' {
            k0 + 1
        } else {
            k0
        };
        if kb <= s.len() {
            lemma_skip_key(s, kb);
            let ke = spec_skip_key(s, kb);
            if !(ke == kb || ke >= s.len() || !is_quote(s[ke])) {
                lemma_skip_spaces(s, ke + 1);
                let c = spec_skip_spaces(s, ke + 1);
                if !(c >= s.len() || s[c] != ':') {
                    lemma_skip_spaces(s, c + 1);
                    let q = spec_skip_spaces(s, c + 1);
                    if !(q >= s.len() || !is_quote(s[q])) {
                        lemma_skip_nonquote(s, q + 1);
                    }
                }
            }
        }
    }
}

/// Executable match of the pair grammar at position `i`.
fn pair_match(v: &Vec<char>, i: usize) -> (r: Option<(usize, usize, usize, usize, usize)>)
    requires
        i <= v@.len(),
    ensures
        match r {
            Some((kstart, kend, vstart, vend, end)) => spec_pair_shape(v@, i as int) == Some(
                PairShape {
                    kstart: kstart as int,
                    kend: kend as int,
                    vstart: vstart as int,
                    vend: vend as int,
                    end: end as int,
                },
            ),
            None => spec_pair_shape(v@, i as int) is None,
        },
{
    if !(i < v.len() && quote_char(v[i])) {
        return None;
    }
    let k0 = i + 1;
    let kb = if k0 < v.len() && v[k0] == '@' {
        k0 + 1
    } else {
        k0
    };
    let ke = skip_key(v, kb);
    if ke == kb || ke >= v.len() || !quote_char(v[ke]) {
        return None;
    }
    let c = skip_spaces(v, ke + 1);
    if c >= v.len() || v[c] != ':' {
        return None;
    }
    let q = skip_spaces(v, c + 1);
    if q >= v.len() || !quote_char(v[q]) {
        return None;
    }
    let vs = q + 1;
    let ve = skip_nonquote(v, vs);
    if ve == vs || ve >= v.len() {
        return None;
    }
    Some((k0, ke, vs, ve, ve + 1))
}

/// The pairs found by the left-to-right, non-overlapping scan from `i`.
pub open spec fn spec_scan_pairs(s: Seq<char>, i: int) -> Seq<(Seq<char>, Seq<char>)>
    decreases s.len() - i when 0 <= i <= s.len() via spec_scan_pairs_dec
{
    if i >= s.len() {
        Seq::empty()
    } else {
        match spec_pair_shape(s, i) {
            Some(p) => seq![(s.subrange(p.kstart, p.kend), s.subrange(p.vstart, p.vend))]
                + spec_scan_pairs(s, p.end),
            None => spec_scan_pairs(s, i + 1),
        }
    }
}

#[via_fn]
proof fn spec_scan_pairs_dec(s: Seq<char>, i: int) {
    lemma_pair_shape(s, i);
}

/// Scans `v` for pairs, returning the captured keys and values as strings.
pub fn scan_pairs(v: &Vec<char>) -> (r: Vec<(String, String)>)
    ensures
        r@.map_values(|p: (String, String)| (p.0@, p.1@)) == spec_scan_pairs(v@, 0),
{
    let ghost full = spec_scan_pairs(v@, 0);
    let mut r: Vec<(String, String)> = Vec::new();
    let mut i: usize = 0;
    while i < v.len()
        invariant
            i <= v@.len(),
            spec_scan_pairs(v@, 0) == r@.map_values(|p: (String, String)| (p.0@, p.1@))
                + spec_scan_pairs(v@, i as int),
        decreases v@.len() - i,
    {
        match pair_match(v, i) {
            Some((kstart, kend, vstart, vend, end)) => {
                proof {
                    lemma_pair_shape(v@, i as int);
                }
                let key = from_chars(&copy_range(v, kstart, kend));
                let val = from_chars(&copy_range(v, vstart, vend));
                r.push((key, val));
                i = end;
            },
            None => {
                i = i + 1;
            },
        }
        proof {
            assert(spec_scan_pairs(v@, 0) =~= r@.map_values(|p: (String, String)| (p.0@, p.1@))
                + spec_scan_pairs(v@, i as int));
        }
    }
    assert(r@.map_values(|p: (String, String)| (p.0@, p.1@)) =~= spec_scan_pairs(v@, 0));
    r
}

// ---------------------------------------------------------------------------
// The alias table
// ---------------------------------------------------------------------------
/// A sequence of key/value pairs has pairwise distinct keys.
pub open spec fn keys_distinct(t: Seq<(Seq<char>, Seq<char>)>) -> bool {
    forall|j1: int, j2: int| 0 <= j1 < j2 < t.len() ==> t[j1].0 != t[j2].0
}

/// Whether some pair of `t` has key `k`.
pub open spec fn has_key(t: Seq<(Seq<char>, Seq<char>)>, k: Seq<char>) -> bool {
    exists|j: int| 0 <= j < t.len() && t[j].0 == k
}

/// The value of the first pair of `t` with key `k`, if any.
pub open spec fn spec_lookup(t: Seq<(Seq<char>, Seq<char>)>, k: Seq<char>) -> Option<Seq<char>>
    decreases t.len(),
{
    if t.len() == 0 {
        None
    } else if t.first().0 == k {
        Some(t.first().1)
    } else {
        spec_lookup(t.drop_first(), k)
    }
}

/// Insertion with the last write winning: an existing key keeps its place
/// and takes the new value; a new key is appended.
pub open spec fn spec_insert(
    t: Seq<(Seq<char>, Seq<char>)>,
    k: Seq<char>,
    v: Seq<char>,
) -> Seq<(Seq<char>, Seq<char>)>
    decreases t.len(),
{
    if t.len() == 0 {
        seq![(k, v)]
    } else if t.first().0 == k {
        seq![(k, v)] + t.drop_first()
    } else {
        seq![t.first()] + spec_insert(t.drop_first(), k, v)
    }
}

/// The table built from the first `j` scanned pairs, in scan order.
pub open spec fn spec_table_upto(ps: Seq<(Seq<char>, Seq<char>)>, j: int) -> Seq<
    (Seq<char>, Seq<char>),
>
    decreases j,
{
    if j <= 0 {
        Seq::empty()
    } else {
        spec_insert(spec_table_upto(ps, j - 1), ps[j - 1].0, ps[j - 1].1)
    }
}

/// The table built from all scanned pairs.
pub open spec fn spec_table(ps: Seq<(Seq<char>, Seq<char>)>) -> Seq<(Seq<char>, Seq<char>)> {
    spec_table_upto(ps, ps.len() as int)
}

/// What alias extraction yields on a configuration text: strip comments,
/// scan for pairs, fold them into a table.
pub open spec fn spec_parse_config(s: Seq<char>) -> Seq<(Seq<char>, Seq<char>)> {
    spec_table(spec_scan_pairs(spec_strip_comments(s), 0))
}

/// The name-to-path alias table read from the configuration, in first-seen
/// order, with pairwise distinct names.
pub struct AliasTable {
    pub pairs: Vec<(String, String)>,
}

impl View for AliasTable {
    type V = Seq<(Seq<char>, Seq<char>)>;

    open spec fn view(&self) -> Seq<(Seq<char>, Seq<char>)> {
        self.pairs@.map_values(|p: (String, String)| (p.0@, p.1@))
    }
}

impl AliasTable {
    /// The table invariant: no alias name occurs twice.
    pub open spec fn wf(&self) -> bool {
        keys_distinct(self@)
    }

    /// An empty table.
    pub fn new() -> (r: AliasTable)
        ensures
            r@ == Seq::<(Seq<char>, Seq<char>)>::empty(),
            r.wf(),
    {
        let r = AliasTable { pairs: Vec::new() };
        assert(r@ =~= Seq::<(Seq<char>, Seq<char>)>::empty());
        r
    }

    /// The number of aliases.
    pub fn len(&self) -> (n: usize)
        ensures
            n == self@.len(),
    {
        self.pairs.len()
    }

    /// The pair at position `j`.
    pub fn get(&self, j: usize) -> (r: (&String, &String))
        requires
            j < self@.len(),
        ensures
            r.0@ == self@[j as int].0,
            r.1@ == self@[j as int].1,
    {
        let p = &self.pairs[j];
        (&p.0, &p.1)
    }

    /// Inserts a pair, the last write winning.
    pub fn insert(&mut self, key: String, val: String)
        ensures
            final(self)@ == spec_insert(old(self)@, key@, val@),
            old(self).wf() ==> final(self).wf(),
    {
        let ghost t0 = self@;
        proof {
            if keys_distinct(t0) {
                lemma_insert_wf(t0, key@, val@);
            }
        }
        let mut j: usize = 0;
        while j < self.pairs.len()
            invariant
                j <= self.pairs.len(),
                t0 == old(self)@,
                self@ == t0,
                self.pairs@.len() == t0.len(),
                forall|m: int| 0 <= m < j ==> t0[m].0 != key@,
            decreases self.pairs.len() - j,
        {
            proof {
                assert(t0[j as int] == (self.pairs@[j as int].0@, self.pairs@[j as int].1@));
            }
            if compare_strings(&self.pairs[j].0, &key) {
                proof {
                    lemma_insert_update(t0, j as int, key@, val@);
                }
                self.pairs.set(j, (key, val));
                proof {
                    assert forall|m: int| 0 <= m < self.pairs@.len() implies self@[m] == (
                    self.pairs@[m].0@,
                    self.pairs@[m].1@,
                    ) by {}
                    assert(self@ =~= t0.update(j as int, (key@, val@)));
                }
                return ;
            }
            j = j + 1;
        }
        proof {
            assert(!has_key(t0, key@));
            lemma_insert_append(t0, key@, val@);
        }
        self.pairs.push((key, val));
        proof {
            assert forall|m: int| 0 <= m < self.pairs@.len() implies self@[m] == (
            self.pairs@[m].0@,
            self.pairs@[m].1@,
            ) by {}
            assert(self@ =~= t0.push((key@, val@)));
        }
    }

    /// Looks the name up, returning the configured path if present.
    pub fn lookup(&self, key: &String) -> (r: Option<&String>)
        ensures
            match r {
                Some(val) => spec_lookup(self@, key@) == Some(val@),
                None => spec_lookup(self@, key@) is None,
            },
    {
        proof {
            assert(self@.skip(0) =~= self@);
        }
        let mut j: usize = 0;
        while j < self.pairs.len()
            invariant
                j <= self.pairs.len(),
                spec_lookup(self@, key@) == spec_lookup(self@.skip(j as int), key@),
            decreases self.pairs.len() - j,
        {
            proof {
                assert(self@.skip(j as int).first() == self@[j as int]);
                assert(self@.skip(j as int).drop_first() =~= self@.skip(j as int + 1));
            }
            if compare_strings(&self.pairs[j].0, key) {
                return Some(&self.pairs[j].1);
            }
            j = j + 1;
        }
        None
    }
}

/// When `k` first occurs at position `j`, insertion updates that slot.
pub proof fn lemma_insert_update(t: Seq<(Seq<char>, Seq<char>)>, j: int, k: Seq<char>, v: Seq<char>)
    requires
        0 <= j < t.len(),
        t[j].0 == k,
        forall|m: int| 0 <= m < j ==> t[m].0 != k,
    ensures
        spec_insert(t, k, v) == t.update(j, (k, v)),
    decreases t.len(),
{
    if j == 0 {
        assert(t.first().0 == k);
        assert(seq![(k, v)] + t.drop_first() =~= t.update(0, (k, v)));
    } else {
        assert(t.first().0 != k);
        assert(forall|m: int| 0 <= m < t.drop_first().len() ==> t.drop_first()[m] == t[m + 1]);
        lemma_insert_update(t.drop_first(), j - 1, k, v);
        assert(seq![t.first()] + t.drop_first().update(j - 1, (k, v)) =~= t.update(j, (k, v)));
    }
}

/// When `k` is absent, insertion appends the pair.
pub proof fn lemma_insert_append(t: Seq<(Seq<char>, Seq<char>)>, k: Seq<char>, v: Seq<char>)
    requires
        !has_key(t, k),
    ensures
        spec_insert(t, k, v) == t.push((k, v)),
    decreases t.len(),
{
    if t.len() == 0 {
        assert(seq![(k, v)] =~= t.push((k, v)));
    } else {
        assert(t.first().0 != k);
        assert(forall|m: int| 0 <= m < t.drop_first().len() ==> t.drop_first()[m] == t[m + 1]);
        assert(!has_key(t.drop_first(), k)) by {
            if has_key(t.drop_first(), k) {
                let w = choose|m: int| 0 <= m < t.drop_first().len() && t.drop_first()[m].0 == k;
                assert(t[w + 1].0 == k);
            }
        }
        lemma_insert_append(t.drop_first(), k, v);
        assert(seq![t.first()] + t.drop_first().push((k, v)) =~= t.push((k, v)));
    }
}

/// Insertion never breaks key distinctness and never drops a key.
pub proof fn lemma_insert_wf(t: Seq<(Seq<char>, Seq<char>)>, k: Seq<char>, v: Seq<char>)
    requires
        keys_distinct(t),
    ensures
        keys_distinct(spec_insert(t, k, v)),
        spec_insert(t, k, v).len() == if has_key(t, k) {
            t.len() as int
        } else {
            t.len() + 1 as int
        },
    decreases t.len(),
{
    if t.len() == 0 {
    } else if t.first().0 == k {
        assert(spec_insert(t, k, v) =~= seq![(k, v)] + t.drop_first());
        assert forall|j1: int, j2: int|
            0 <= j1 < j2 < spec_insert(t, k, v).len() implies spec_insert(t, k, v)[j1].0
            != spec_insert(t, k, v)[j2].0 by {
            if j1 == 0 {
                assert(t.drop_first()[j2 - 1] == t[j2]);
            } else {
                assert(t.drop_first()[j1 - 1] == t[j1]);
                assert(t.drop_first()[j2 - 1] == t[j2]);
            }
        }
        assert(0 <= 0 < t.len() && t[0].0 == k);
    } else {
        assert(keys_distinct(t.drop_first())) by {
            assert(forall|m: int| 0 <= m < t.drop_first().len() ==> t.drop_first()[m] == t[m + 1]);
        }
        lemma_insert_wf(t.drop_first(), k, v);
        let rest = spec_insert(t.drop_first(), k, v);
        assert(spec_insert(t, k, v) == seq![t.first()] + rest);
        assert forall|j1: int, j2: int|
            0 <= j1 < j2 < spec_insert(t, k, v).len() implies spec_insert(t, k, v)[j1].0
            != spec_insert(t, k, v)[j2].0 by {
            if j1 == 0 {
                lemma_insert_keys(t.drop_first(), k, v, j2 - 1);
                assert(forall|m: int|
                    0 <= m < t.drop_first().len() ==> t.drop_first()[m] == t[m + 1]);
            }
        }
        if has_key(t, k) {
            let w = choose|j: int| 0 <= j < t.len() && t[j].0 == k;
            assert(t.drop_first()[w - 1] == t[w]);
            assert(has_key(t.drop_first(), k));
        }
        if has_key(t.drop_first(), k) {
            let w = choose|j: int| 0 <= j < t.drop_first().len() && t.drop_first()[j].0 == k;
            assert(t[w + 1] == t.drop_first()[w]);
            assert(has_key(t, k));
        }
    }
}

/// Every key of `spec_insert(t, k, v)` is `k` or a key of `t`.
pub proof fn lemma_insert_keys(t: Seq<(Seq<char>, Seq<char>)>, k: Seq<char>, v: Seq<char>, j: int)
    requires
        0 <= j < spec_insert(t, k, v).len(),
    ensures
        spec_insert(t, k, v)[j].0 == k || exists|m: int|
            0 <= m < t.len() && t[m].0 == spec_insert(t, k, v)[j].0,
    decreases t.len(),
{
    if t.len() == 0 {
    } else if t.first().0 == k {
        if j > 0 {
            assert(spec_insert(t, k, v)[j] == t.drop_first()[j - 1]);
            assert(t.drop_first()[j - 1] == t[j]);
        }
    } else {
        if j > 0 {
            lemma_insert_keys(t.drop_first(), k, v, j - 1);
            assert(spec_insert(t, k, v)[j] == spec_insert(t.drop_first(), k, v)[j - 1]);
            if spec_insert(t.drop_first(), k, v)[j - 1].0 != k {
                let m = choose|m: int|
                    0 <= m < t.drop_first().len() && t.drop_first()[m].0 == spec_insert(
                        t.drop_first(),
                        k,
                        v,
                    )[j - 1].0;
                assert(t[m + 1] == t.drop_first()[m]);
            }
        }
    }
}

/// String equality by view.
pub fn compare_strings(a: &String, b: &String) -> (r: bool)
    ensures
        r == (a@ == b@),
{
    a.eq(b)
}

/// Reads the alias table out of a configuration text: comments are
/// stripped (line comments first, block comments second), the remainder is
/// scanned for quoted `name: path` pairs, and duplicated names keep the
/// value written last.
pub fn parse_config(content: &str) -> (r: AliasTable)
    ensures
        r@ == spec_parse_config(content@),
        r.wf(),
{
    let chars = to_chars(content);
    let stripped = strip_block_comments(&strip_line_comments(&chars));
    let ps = scan_pairs(&stripped);
    let ghost psv = ps@.map_values(|p: (String, String)| (p.0@, p.1@));
    let mut table = AliasTable::new();
    let mut j: usize = 0;
    while j < ps.len()
        invariant
            j <= ps.len(),
            psv == ps@.map_values(|p: (String, String)| (p.0@, p.1@)),
            table@ == spec_table_upto(psv, j as int),
            table.wf(),
        decreases ps.len() - j,
    {
        let (key, val) = (clone_string(&ps[j].0), clone_string(&ps[j].1));
        table.insert(key, val);
        j = j + 1;
    }
    table
}

/// A clone that keeps the view.
pub fn clone_string(s: &String) -> (r: String)
    ensures
        r@ == s@,
{
    let r: String = s.clone();
    r
}

// ---------------------------------------------------------------------------
// Extraction is insensitive to a second stripping pass
// ---------------------------------------------------------------------------
/// No `//` occurs in `s`.
pub open spec fn no_dslash(s: Seq<char>) -> bool {
    forall|j: int| #![trigger s[j]] 0 <= j && j + 1 < s.len() ==> !(s[j] == '/' && s[j + 1] == '/')
}

/// A `*/` starts at `j`.
pub open spec fn star_slash_at(s: Seq<char>, j: int) -> bool {
    0 <= j && j + 1 < s.len() && s[j] == '*' && s[j + 1] == '/'
}

/// A `/*` starts at `j`.
pub open spec fn slash_star_at(s: Seq<char>, j: int) -> bool {
    0 <= j && j + 1 < s.len() && s[j] == '/' && s[j + 1] == '*'
}

/// No `*/` occurs in `s`.
pub open spec fn no_star_slash(s: Seq<char>) -> bool {
    forall|j: int| !star_slash_at(s, j)
}

/// No closed block comment occurs in `s`: no `/*` with a `*/` after it.
pub open spec fn no_open(s: Seq<char>) -> bool {
    forall|j1: int, j2: int| !(slash_star_at(s, j1) && star_slash_at(s, j2) && j2 >= j1 + 2)
}

/// `spec_find_close` finds a close exactly when one exists.
pub proof fn lemma_find_close_iff(s: Seq<char>, m: int)
    requires
        0 <= m <= s.len(),
    ensures
        (spec_find_close(s, m) is Some) <==> exists|j: int| j >= m && star_slash_at(s, j),
    decreases s.len() - m,
{
    if m + 2 > s.len() {
        assert forall|j: int| j >= m implies !star_slash_at(s, j) by {}
    } else if s[m] == '*' && s[m + 1] == '/' {
        assert(star_slash_at(s, m));
    } else {
        lemma_find_close_iff(s, m + 1);
        if exists|j: int| j >= m && star_slash_at(s, j) {
            let j = choose|j: int| j >= m && star_slash_at(s, j);
            assert(j != m);
            assert(j >= m + 1 && star_slash_at(s, j));
        }
    }
}

/// A closed block comment starts at `i`.
pub open spec fn open_at(s: Seq<char>, i: int) -> bool {
    0 <= i && i + 1 < s.len() && s[i] == '/' && s[i + 1] == '*' && spec_find_close(s, i + 2)
        is Some
}

/// Line stripping does nothing to a text without `//`.
pub proof fn lemma_strip_line_id(s: Seq<char>, i: int)
    requires
        no_dslash(s),
        0 <= i <= s.len(),
    ensures
        spec_strip_line_from(s, i, false) == s.skip(i),
    decreases s.len() - i,
{
    if i >= s.len() {
        assert(s.skip(i) =~= Seq::<char>::empty());
    } else {
        assert(!(s[i] == '/' && i + 1 < s.len() && s[i + 1] == '/'));
        lemma_strip_line_id(s, i + 1);
        assert(seq![s[i]] + s.skip(i + 1) =~= s.skip(i));
    }
}

/// Block stripping does nothing to a text without a closed block comment.
pub proof fn lemma_strip_block_id(s: Seq<char>, i: int)
    requires
        no_open(s),
        0 <= i <= s.len(),
    ensures
        spec_strip_block_from(s, i) == s.skip(i),
    decreases s.len() - i,
{
    if i >= s.len() {
        assert(s.skip(i) =~= Seq::<char>::empty());
    } else {
        if s[i] == '/' && i + 1 < s.len() && s[i + 1] == '*' && spec_find_close(s, i + 2)
            is Some {
            lemma_find_close_iff(s, i + 2);
            let j2 = choose|j: int| j >= i + 2 && star_slash_at(s, j);
            assert(slash_star_at(s, i));
            assert(false);
        }
        lemma_strip_block_id(s, i + 1);
        assert(seq![s[i]] + s.skip(i + 1) =~= s.skip(i));
    }
}

/// Prepending a character keeps `no_dslash` when no `//` forms at the
/// seam.
proof fn lemma_no_dslash_cons(c: char, r: Seq<char>)
    requires
        no_dslash(r),
        !(c == '/' && r.len() > 0 && r.first() == '/'),
    ensures
        no_dslash(seq![c] + r),
{
    let t = seq![c] + r;
    assert forall|j: int| #![trigger t[j]] 0 <= j && j + 1 < t.len() implies !(t[j] == '/'
        && t[j + 1] == '/') by {
        if j == 0 {
            assert(t[0] == c);
            if r.len() > 0 {
                assert(t[1] == r[0]);
            }
        } else {
            assert(t[j] == r[j - 1]);
            assert(t[j + 1] == r[j]);
        }
    }
}

/// What line stripping emits: a text without `//` whose first character
/// is a newline or the character the scan stood on.
pub proof fn lemma_strip_line_props(s: Seq<char>, i: int, in_comment: bool)
    requires
        0 <= i <= s.len(),
    ensures
        no_dslash(spec_strip_line_from(s, i, in_comment)),
        spec_strip_line_from(s, i, in_comment).len() > 0 ==> (spec_strip_line_from(
            s,
            i,
            in_comment,
        ).first() == '\n' || (!in_comment && i < s.len() && spec_strip_line_from(
            s,
            i,
            in_comment,
        ).first() == s[i] && !(s[i] == '/' && i + 1 < s.len() && s[i + 1] == '/'))),
    decreases s.len() - i,
{
    let out = spec_strip_line_from(s, i, in_comment);
    if i >= s.len() {
    } else if in_comment {
        lemma_strip_line_props(s, i + 1, s[i] != '\n');
        if s[i] == '\n' {
            let rest = spec_strip_line_from(s, i + 1, false);
            assert(!('\n' == '/' && rest.len() > 0 && rest.first() == '/'));
            lemma_no_dslash_cons('\n', rest);
            assert(out.first() == '\n');
        }
    } else if s[i] == '/' && i + 1 < s.len() && s[i + 1] == '/' {
        lemma_strip_line_props(s, i + 2, true);
    } else {
        lemma_strip_line_props(s, i + 1, false);
        let rest = spec_strip_line_from(s, i + 1, false);
        if s[i] == '/' && rest.len() > 0 && rest.first() == '/' {
            assert(rest.first() == '\n' || (i + 1 < s.len() && rest.first() == s[i + 1]));
            assert(i + 1 < s.len() && s[i + 1] == '/');
            assert(false);
        }
        lemma_no_dslash_cons(s[i], rest);
        assert(out.first() == s[i]);
    }
}

/// What block stripping emits on a text without `//`: still no `//`, no
/// closed block comment, no `*/` at all when none was in reach, and a
/// first character carried over from the scan position.
pub proof fn lemma_strip_block_props(s: Seq<char>, i: int)
    requires
        no_dslash(s),
        0 <= i <= s.len(),
    ensures
        no_dslash(spec_strip_block_from(s, i)),
        no_open(spec_strip_block_from(s, i)),
        spec_strip_block_from(s, i).len() > 0 && !open_at(s, i) ==> spec_strip_block_from(
            s,
            i,
        ).first() == s[i],
        spec_find_close(s, i) is None ==> no_star_slash(spec_strip_block_from(s, i)),
    decreases s.len() - i,
{
    let out = spec_strip_block_from(s, i);
    if i >= s.len() {
        assert(no_dslash(out));
        assert forall|j1: int, j2: int|
            !(slash_star_at(out, j1) && star_slash_at(out, j2) && j2 >= j1 + 2) by {}
        assert forall|j: int| !star_slash_at(out, j) by {}
    } else if s[i] == '/' && i + 1 < s.len() && s[i + 1] == '*' && spec_find_close(s, i + 2)
        is Some {
        let k = spec_find_close(s, i + 2)->Some_0;
        lemma_find_close(s, i + 2);
        lemma_strip_block_props(s, k + 2);
        if spec_find_close(s, i) is None {
            lemma_find_close_iff(s, i);
            lemma_find_close_iff(s, i + 2);
            let j = choose|j: int| j >= i + 2 && star_slash_at(s, j);
            assert(j >= i && star_slash_at(s, j));
            assert(false);
        }
    } else {
        lemma_strip_block_props(s, i + 1);
        let rest = spec_strip_block_from(s, i + 1);
        assert(out == seq![s[i]] + rest);
        // the character after the seam
        if rest.len() > 0 {
            if open_at(s, i + 1) {
                assert(s[i + 1] == '/');
                if s[i] == '/' {
                    assert(false);
                }
            } else {
                assert(rest.first() == s[i + 1]);
            }
        }
        // no new `//`
        if s[i] == '/' && rest.len() > 0 && rest.first() == '/' {
            assert(!open_at(s, i + 1));
            assert(i + 1 < s.len() && s[i + 1] == '/');
            assert(false);
        }
        lemma_no_dslash_cons(s[i], rest);
        // no closed block comment in the output
        assert forall|j1: int, j2: int|
            !(slash_star_at(out, j1) && star_slash_at(out, j2) && j2 >= j1 + 2) by {
            if slash_star_at(out, j1) && star_slash_at(out, j2) && j2 >= j1 + 2 {
                if j1 >= 1 {
                    assert(out[j1] == rest[j1 - 1]);
                    assert(out[j1 + 1] == rest[j1]);
                    assert(out[j2] == rest[j2 - 1]);
                    assert(out[j2 + 1] == rest[j2]);
                    assert(slash_star_at(rest, j1 - 1));
                    assert(star_slash_at(rest, j2 - 1));
                    assert(false);
                } else {
                    // a closed `/*` at the seam: the text after it holds
                    // no `*/`, since no close was found from `i + 2`
                    assert(out[0] == s[i]);
                    assert(out[1] == rest[0]);
                    assert(s[i] == '/');
                    assert(rest.len() > 0 && rest.first() == '*');
                    assert(!open_at(s, i + 1));
                    assert(i + 1 < s.len() && s[i + 1] == '*');
                    assert(spec_find_close(s, i + 2) is None) by {
                        if spec_find_close(s, i + 2) is Some {
                            assert(open_at(s, i));
                            assert(false);
                        }
                    }
                    assert(!open_at(s, i + 1));
                    assert(rest == seq![s[i + 1]] + spec_strip_block_from(s, i + 2));
                    let tail = spec_strip_block_from(s, i + 2);
                    lemma_strip_block_props(s, i + 2);
                    assert(no_star_slash(tail));
                    assert(out.len() == 2 + tail.len());
                    assert(out[j2] == tail[j2 - 2]);
                    assert(out[j2 + 1] == tail[j2 - 1]);
                    assert(star_slash_at(tail, j2 - 2));
                    assert(false);
                }
            }
        }
        // no `*/` at all when none is in reach
        if spec_find_close(s, i) is None {
            assert(spec_find_close(s, i + 1) is None) by {
                lemma_find_close_iff(s, i);
                lemma_find_close_iff(s, i + 1);
                if spec_find_close(s, i + 1) is Some {
                    let j = choose|j: int| j >= i + 1 && star_slash_at(s, j);
                    assert(j >= i && star_slash_at(s, j));
                }
            }
            assert forall|j: int| !star_slash_at(out, j) by {
                if star_slash_at(out, j) {
                    if j >= 1 {
                        assert(out[j] == rest[j - 1]);
                        assert(out[j + 1] == rest[j]);
                        assert(star_slash_at(rest, j - 1));
                        assert(false);
                    } else {
                        assert(out[0] == s[i]);
                        assert(out[1] == rest[0]);
                        assert(s[i] == '*');
                        if open_at(s, i + 1) {
                            lemma_find_close(s, i + 1 + 2);
                            lemma_find_close_iff(s, i + 3);
                            lemma_find_close_iff(s, i);
                            let j3 = choose|j3: int| j3 >= i + 3 && star_slash_at(s, j3);
                            assert(j3 >= i && star_slash_at(s, j3));
                            assert(false);
                        }
                        assert(rest.len() > 0);
                        assert(i + 1 < s.len()) by {
                            if i + 1 >= s.len() {
                                assert(rest =~= Seq::<char>::empty());
                            }
                        }
                        assert(rest.first() == s[i + 1]);
                        assert(star_slash_at(s, i));
                        lemma_find_close_iff(s, i);
                        assert(false);
                    }
                }
            }
        }
    }
}

/// A second stripping pass changes nothing: the first pass leaves no
/// line comment and no closed block comment behind.
pub proof fn lemma_strip_comments_idempotent(c: Seq<char>)
    ensures
        spec_strip_comments(spec_strip_comments(c)) == spec_strip_comments(c),
{
    let u = spec_strip_line(c);
    let v = spec_strip_block(u);
    lemma_strip_line_props(c, 0, false);
    lemma_strip_block_props(u, 0);
    lemma_strip_line_id(v, 0);
    assert(v.skip(0) =~= v);
    assert(spec_strip_line(v) == v);
    lemma_strip_block_id(v, 0);
    assert(spec_strip_block(v) == v);
}

/// Alias extraction is insensitive to decorative comments: extracting
/// from the comment-stripped text yields the same table as extracting
/// from the text the stripping started from.
pub proof fn lemma_parse_config_idempotent(c: Seq<char>)
    ensures
        spec_parse_config(spec_strip_comments(c)) == spec_parse_config(c),
{
    lemma_strip_comments_idempotent(c);
}

} // verus!
