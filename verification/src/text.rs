//! Character-level helpers shared by the scanners and rewriters.
//!
//! All source text is handled as `Vec<char>` in executable code and as
//! `Seq<char>` in specifications, so that every contract speaks directly
//! about the view of the strings that cross the crate's boundary.

use vstd::prelude::*;

verus! {

/// The whitespace characters the scanners recognize.
pub open spec fn is_space(c: char) -> bool {
    c == ' ' || c == '\t' || c == '\n' || c == '\r' || c == '\u{b}' || c == '\u{c}'
}

/// The word characters the scanners recognize (identifier characters).
pub open spec fn is_word(c: char) -> bool {
    ('a' <= c && c <= 'z') || ('A' <= c && c <= 'Z') || ('0' <= c && c <= '9') || c == '_'
}

/// A quote character: either kind of string-literal delimiter.
pub open spec fn is_quote(c: char) -> bool {
    c == '\'' || c == '"'
}

/// `pat` occurs in `s` starting at position `i`.
pub open spec fn starts_with_at(s: Seq<char>, i: int, pat: Seq<char>) -> bool {
    &&& 0 <= i
    &&& i + pat.len() <= s.len()
    &&& forall|k: int| 0 <= k < pat.len() ==> s[i + k] == pat[k]
}

/// Executable test of `is_space`.
pub fn space_char(c: char) -> (r: bool)
    ensures
        r == is_space(c),
{
    c == ' ' || c == '\t' || c == '\n' || c == '\r' || c == '\u{b}' || c == '\u{c}'
}

/// Executable test of `is_word`.
pub fn word_char(c: char) -> (r: bool)
    ensures
        r == is_word(c),
{
    ('a' <= c && c <= 'z') || ('A' <= c && c <= 'Z') || ('0' <= c && c <= '9') || c == '_'
}

/// Executable test of `is_quote`.
pub fn quote_char(c: char) -> (r: bool)
    ensures
        r == is_quote(c),
{
    c == '\'' || c == '"'
}

/// Does `pat` occur in `v` at position `i`?
pub fn lit_at(v: &Vec<char>, i: usize, pat: &str) -> (r: bool)
    ensures
        r == starts_with_at(v@, i as int, pat@),
{
    let n = pat.unicode_len();
    if i > v.len() || n > v.len() - i {
        return false;
    }
    let mut k: usize = 0;
    while k < n
        invariant
            i + n <= v.len(),
            n == pat@.len(),
            k <= n,
            forall|m: int| 0 <= m < k ==> v@[i + m] == pat@[m],
        decreases n - k,
    {
        if v[i + k] != pat.get_char(k) {
            return false;
        }
        k = k + 1;
    }
    true
}

/// Converts a string slice to its character vector; the view is unchanged.
pub fn to_chars(s: &str) -> (r: Vec<char>)
    ensures
        r@ == s@,
{
    let n = s.unicode_len();
    let mut r: Vec<char> = Vec::new();
    let mut k: usize = 0;
    while k < n
        invariant
            n == s@.len(),
            k <= n,
            r@ == s@.take(k as int),
        decreases n - k,
    {
        r.push(s.get_char(k));
        assert(r@ =~= s@.take(k as int + 1));
        k = k + 1;
    }
    assert(r@ =~= s@);
    r
}

/// Builds a `String` from a character vector; the view is unchanged.
///
/// Relies on `String`'s `FromIterator` over `char`: the collected string
/// consists of exactly the characters of the iterator, in order.
#[verifier::external_body]
pub fn from_chars(v: &Vec<char>) -> (r: String)
    ensures
        r@ == v@,
{
    v.iter().collect()
}

/// The end of the maximal run of whitespace characters starting at `i`.
pub open spec fn spec_skip_spaces(s: Seq<char>, i: int) -> int
    decreases s.len() - i when 0 <= i <= s.len()
{
    if i < s.len() && is_space(s[i]) {
        spec_skip_spaces(s, i + 1)
    } else {
        i
    }
}

/// `spec_skip_spaces` stays within bounds and only skips whitespace.
pub proof fn lemma_skip_spaces(s: Seq<char>, i: int)
    requires
        0 <= i <= s.len(),
    ensures
        i <= spec_skip_spaces(s, i) <= s.len(),
        forall|m: int| i <= m < spec_skip_spaces(s, i) ==> is_space(s[m]),
        spec_skip_spaces(s, i) < s.len() ==> !is_space(s[spec_skip_spaces(s, i)]),
    decreases s.len() - i,
{
    if i < s.len() && is_space(s[i]) {
        lemma_skip_spaces(s, i + 1);
    }
}

/// Executable counterpart of `spec_skip_spaces`.
pub fn skip_spaces(v: &Vec<char>, i: usize) -> (r: usize)
    requires
        i <= v@.len(),
    ensures
        r == spec_skip_spaces(v@, i as int),
        i <= r <= v@.len(),
{
    proof {
        lemma_skip_spaces(v@, i as int);
    }
    let mut k: usize = i;
    while k < v.len() && space_char(v[k])
        invariant
            i <= k <= v@.len(),
            spec_skip_spaces(v@, i as int) == spec_skip_spaces(v@, k as int),
        decreases v@.len() - k,
    {
        k = k + 1;
    }
    k
}

/// Copies the characters of `v` in the range `[a, b)`.
pub fn copy_range(v: &Vec<char>, a: usize, b: usize) -> (r: Vec<char>)
    requires
        a <= b <= v@.len(),
    ensures
        r@ == v@.subrange(a as int, b as int),
{
    let mut r: Vec<char> = Vec::new();
    let mut k: usize = a;
    while k < b
        invariant
            a <= k <= b <= v@.len(),
            r@ == v@.subrange(a as int, k as int),
        decreases b - k,
    {
        r.push(v[k]);
        assert(r@ =~= v@.subrange(a as int, k as int + 1));
        k = k + 1;
    }
    r
}

/// The end of the maximal run of non-quote characters starting at `i`.
pub open spec fn spec_skip_nonquote(s: Seq<char>, i: int) -> int
    decreases s.len() - i when 0 <= i <= s.len()
{
    if i < s.len() && !is_quote(s[i]) {
        spec_skip_nonquote(s, i + 1)
    } else {
        i
    }
}

/// `spec_skip_nonquote` stays within bounds and stops at a quote.
pub proof fn lemma_skip_nonquote(s: Seq<char>, i: int)
    requires
        0 <= i <= s.len(),
    ensures
        i <= spec_skip_nonquote(s, i) <= s.len(),
        forall|m: int| i <= m < spec_skip_nonquote(s, i) ==> !is_quote(s[m]),
        spec_skip_nonquote(s, i) < s.len() ==> is_quote(s[spec_skip_nonquote(s, i)]),
    decreases s.len() - i,
{
    if i < s.len() && !is_quote(s[i]) {
        lemma_skip_nonquote(s, i + 1);
    }
}

/// Executable counterpart of `spec_skip_nonquote`.
pub fn skip_nonquote(v: &Vec<char>, i: usize) -> (r: usize)
    requires
        i <= v@.len(),
    ensures
        r == spec_skip_nonquote(v@, i as int),
        i <= r <= v@.len(),
{
    proof {
        lemma_skip_nonquote(v@, i as int);
    }
    let mut k: usize = i;
    while k < v.len() && !quote_char(v[k])
        invariant
            i <= k <= v@.len(),
            spec_skip_nonquote(v@, i as int) == spec_skip_nonquote(v@, k as int),
        decreases v@.len() - k,
    {
        k = k + 1;
    }
    k
}

/// The end of the maximal run of word characters starting at `i`.
pub open spec fn spec_skip_word(s: Seq<char>, i: int) -> int
    decreases s.len() - i when 0 <= i <= s.len()
{
    if i < s.len() && is_word(s[i]) {
        spec_skip_word(s, i + 1)
    } else {
        i
    }
}

/// `spec_skip_word` stays within bounds.
pub proof fn lemma_skip_word(s: Seq<char>, i: int)
    requires
        0 <= i <= s.len(),
    ensures
        i <= spec_skip_word(s, i) <= s.len(),
    decreases s.len() - i,
{
    if i < s.len() && is_word(s[i]) {
        lemma_skip_word(s, i + 1);
    }
}

/// Executable counterpart of `spec_skip_word`.
pub fn skip_word(v: &Vec<char>, i: usize) -> (r: usize)
    requires
        i <= v@.len(),
    ensures
        r == spec_skip_word(v@, i as int),
        i <= r <= v@.len(),
{
    proof {
        lemma_skip_word(v@, i as int);
    }
    let mut k: usize = i;
    while k < v.len() && word_char(v[k])
        invariant
            i <= k <= v@.len(),
            spec_skip_word(v@, i as int) == spec_skip_word(v@, k as int),
        decreases v@.len() - k,
    {
        k = k + 1;
    }
    k
}

/// The end of the maximal run of characters other than `}` starting at `i`.
pub open spec fn spec_skip_nonbrace(s: Seq<char>, i: int) -> int
    decreases s.len() - i when 0 <= i <= s.len()
{
    if i < s.len() && s[i] != '}' {
        spec_skip_nonbrace(s, i + 1)
    } else {
        i
    }
}

/// `spec_skip_nonbrace` stays within bounds and stops at `}`.
pub proof fn lemma_skip_nonbrace(s: Seq<char>, i: int)
    requires
        0 <= i <= s.len(),
    ensures
        i <= spec_skip_nonbrace(s, i) <= s.len(),
        spec_skip_nonbrace(s, i) < s.len() ==> s[spec_skip_nonbrace(s, i)] == '}',
    decreases s.len() - i,
{
    if i < s.len() && s[i] != '}' {
        lemma_skip_nonbrace(s, i + 1);
    }
}

/// Executable counterpart of `spec_skip_nonbrace`.
pub fn skip_nonbrace(v: &Vec<char>, i: usize) -> (r: usize)
    requires
        i <= v@.len(),
    ensures
        r == spec_skip_nonbrace(v@, i as int),
        i <= r <= v@.len(),
{
    proof {
        lemma_skip_nonbrace(v@, i as int);
    }
    let mut k: usize = i;
    while k < v.len() && v[k] != '}'
        invariant
            i <= k <= v@.len(),
            spec_skip_nonbrace(v@, i as int) == spec_skip_nonbrace(v@, k as int),
        decreases v@.len() - k,
    {
        k = k + 1;
    }
    k
}

/// The first position `j` in `[i, s.len()]` where `pat` occurs, if any.
pub open spec fn spec_find_seq(s: Seq<char>, i: int, pat: Seq<char>) -> Option<int>
    decreases s.len() - i when 0 <= i <= s.len()
{
    if i + pat.len() > s.len() {
        None
    } else if starts_with_at(s, i, pat) {
        Some(i)
    } else {
        spec_find_seq(s, i + 1, pat)
    }
}

pub proof fn lemma_find_seq(s: Seq<char>, i: int, pat: Seq<char>)
    requires
        0 <= i <= s.len(),
    ensures
        spec_find_seq(s, i, pat) matches Some(j) ==> i <= j && j + pat.len() <= s.len()
            && starts_with_at(s, j, pat),
    decreases s.len() - i,
{
    if i + pat.len() <= s.len() && !starts_with_at(s, i, pat) {
        lemma_find_seq(s, i + 1, pat);
    }
}

/// Executable counterpart of `spec_find_seq`.
pub fn find_seq(v: &Vec<char>, i: usize, pat: &str) -> (r: Option<usize>)
    requires
        i <= v@.len(),
    ensures
        match r {
            Some(j) => spec_find_seq(v@, i as int, pat@) == Some(j as int) && i <= j && j
                + pat@.len() <= v@.len(),
            None => spec_find_seq(v@, i as int, pat@) is None,
        },
{
    let n = pat.unicode_len();
    let mut k: usize = i;
    loop
        invariant
            i <= k <= v@.len(),
            n == pat@.len(),
            spec_find_seq(v@, i as int, pat@) == spec_find_seq(v@, k as int, pat@),
        decreases v@.len() - k,
    {
        if k > v.len() || n > v.len() - k {
            return None;
        }
        if lit_at(v, k, pat) {
            return Some(k);
        }
        if k == v.len() {
            return None;
        }
        k = k + 1;
    }
}

/// Whether `pat` occurs anywhere in `s`.
pub open spec fn contains_seq(s: Seq<char>, pat: Seq<char>) -> bool {
    spec_find_seq(s, 0, pat) is Some
}

/// Executable counterpart of `contains_seq`.
pub fn contains(v: &Vec<char>, pat: &str) -> (r: bool)
    ensures
        r == contains_seq(v@, pat@),
{
    match find_seq(v, 0, pat) {
        Some(_) => true,
        None => false,
    }
}

/// The text without leading whitespace.
pub open spec fn spec_trim_start(s: Seq<char>) -> Seq<char>
    decreases s.len(),
{
    if s.len() > 0 && is_space(s.first()) {
        spec_trim_start(s.drop_first())
    } else {
        s
    }
}

/// The text without trailing whitespace.
pub open spec fn spec_trim_end(s: Seq<char>) -> Seq<char>
    decreases s.len(),
{
    if s.len() > 0 && is_space(s.last()) {
        spec_trim_end(s.drop_last())
    } else {
        s
    }
}

/// The text without leading and trailing whitespace.
pub open spec fn spec_trim(s: Seq<char>) -> Seq<char> {
    spec_trim_end(spec_trim_start(s))
}

/// Executable counterpart of `spec_trim`.
pub fn trim(v: &Vec<char>) -> (r: Vec<char>)
    ensures
        r@ == spec_trim(v@),
{
    proof {
        assert(v@.skip(0) =~= v@);
    }
    let mut a: usize = 0;
    while a < v.len() && space_char(v[a])
        invariant
            a <= v@.len(),
            spec_trim_start(v@) == spec_trim_start(v@.skip(a as int)),
            forall|m: int| 0 <= m < a ==> is_space(v@[m]),
        decreases v@.len() - a,
    {
        proof {
            assert(v@.skip(a as int).drop_first() =~= v@.skip(a as int + 1));
        }
        a = a + 1;
    }
    proof {
        assert(spec_trim_start(v@.skip(a as int)) == v@.skip(a as int));
    }
    let mut b: usize = v.len();
    while b > a && space_char(v[b - 1])
        invariant
            a <= b <= v@.len(),
            spec_trim_end(v@.skip(a as int)) == spec_trim_end(v@.subrange(a as int, b as int)),
        decreases b,
    {
        proof {
            assert(v@.subrange(a as int, b as int).last() == v@[b - 1]);
            assert(v@.subrange(a as int, b as int).drop_last() =~= v@.subrange(
                a as int,
                b as int - 1,
            ));
        }
        b = b - 1;
    }
    proof {
        if b > a {
            assert(v@.subrange(a as int, b as int).last() == v@[b - 1]);
        }
        assert(spec_trim_end(v@.subrange(a as int, b as int)) == v@.subrange(a as int, b as int));
        assert(spec_trim(v@) == v@.subrange(a as int, b as int)) by {
            assert(v@.skip(a as int) =~= v@.subrange(a as int, v@.len() as int));
        }
    }
    copy_range(v, a, b)
}

/// Appends the characters of a string slice to `out`.
pub fn push_str_chars(out: &mut Vec<char>, lit: &str)
    ensures
        final(out)@ == old(out)@ + lit@,
{
    let n = lit.unicode_len();
    let mut k: usize = 0;
    while k < n
        invariant
            n == lit@.len(),
            k <= n,
            out@ == old(out)@ + lit@.take(k as int),
        decreases n - k,
    {
        out.push(lit.get_char(k));
        assert(out@ =~= old(out)@ + lit@.take(k as int + 1));
        k = k + 1;
    }
    assert(out@ =~= old(out)@ + lit@);
}

/// Appends the characters of `piece` to `out`.
pub fn push_chars(out: &mut Vec<char>, piece: &Vec<char>)
    ensures
        final(out)@ == old(out)@ + piece@,
{
    let mut k: usize = 0;
    while k < piece.len()
        invariant
            k <= piece@.len(),
            out@ == old(out)@ + piece@.take(k as int),
        decreases piece@.len() - k,
    {
        out.push(piece[k]);
        assert(out@ =~= old(out)@ + piece@.take(k as int + 1));
        k = k + 1;
    }
    assert(out@ =~= old(out)@ + piece@);
}

/// The escaping used when a path is embedded in generated source: the text
/// in double quotes, with backslashes, double quotes, newlines, tabs and
/// carriage returns escaped.
pub open spec fn spec_escape(s: Seq<char>) -> Seq<char>
    decreases s.len(),
{
    if s.len() == 0 {
        Seq::empty()
    } else {
        let head = if s.first() == '\\' {
            seq!['\\', '\\']
        } else if s.first() == '"' {
            seq!['\\', '"']
        } else if s.first() == '\n' {
            seq!['\\', 'n']
        } else if s.first() == '\t' {
            seq!['\\', 't']
        } else if s.first() == '\r' {
            seq!['\\', 'r']
        } else {
            seq![s.first()]
        };
        head + spec_escape(s.drop_first())
    }
}

/// A quoted form of `s`: `"` + the escaped text + `"`.
pub open spec fn spec_quote(s: Seq<char>) -> Seq<char> {
    seq!['"'] + spec_escape(s) + seq!['"']
}

/// Appends the quoted form of `path` to `out`.
pub fn push_quoted(out: &mut Vec<char>, path: &Vec<char>)
    ensures
        final(out)@ == old(out)@ + spec_quote(path@),
{
    out.push('"');
    let ghost base = out@;
    let mut k: usize = 0;
    while k < path.len()
        invariant
            k <= path@.len(),
            out@ == base + spec_escape(path@.take(k as int)),
        decreases path@.len() - k,
    {
        let c = path[k];
        if c == '\\' {
            out.push('\\');
            out.push('\\');
        } else if c == '"' {
            out.push('\\');
            out.push('"');
        } else if c == '\n' {
            out.push('\\');
            out.push('n');
        } else if c == '\t' {
            out.push('\\');
            out.push('t');
        } else if c == '\r' {
            out.push('\\');
            out.push('r');
        } else {
            out.push(c);
        }
        proof {
            assert(seq![c].first() == c);
            assert(seq![c].drop_first() =~= Seq::<char>::empty());
            assert(spec_escape(Seq::<char>::empty()) == Seq::<char>::empty());
            lemma_escape_snoc(path@, k as int);
            assert(out@ =~= base + spec_escape(path@.take(k as int + 1)));
        }
        k = k + 1;
    }
    out.push('"');
    proof {
        assert(path@.take(path@.len() as int) =~= path@);
        assert(out@ =~= old(out)@ + spec_quote(path@));
    }
}

/// Unfolds `spec_escape` one character at the end.
pub proof fn lemma_escape_snoc(s: Seq<char>, k: int)
    requires
        0 <= k < s.len(),
    ensures
        spec_escape(s.take(k + 1)) == spec_escape(s.take(k)) + spec_escape(seq![s[k]]),
    decreases k,
{
    lemma_escape_app(s.take(k), seq![s[k]]);
    assert(s.take(k + 1) =~= s.take(k) + seq![s[k]]);
}

/// `spec_escape` distributes over concatenation.
pub proof fn lemma_escape_app(a: Seq<char>, b: Seq<char>)
    ensures
        spec_escape(a + b) == spec_escape(a) + spec_escape(b),
    decreases a.len(),
{
    if a.len() == 0 {
        assert(a + b =~= b);
        assert(spec_escape(a) =~= Seq::empty());
    } else {
        assert((a + b).first() == a.first());
        assert((a + b).drop_first() =~= a.drop_first() + b);
        lemma_escape_app(a.drop_first(), b);
    }
}

/// The pieces of `s` split on non-overlapping occurrences of `sep`,
/// scanning left to right. Splitting the empty text yields one empty piece.
pub open spec fn spec_split(s: Seq<char>, sep: Seq<char>) -> Seq<Seq<char>>
    decreases s.len() when sep.len() >= 1 via spec_split_dec
{
    match spec_find_seq(s, 0, sep) {
        None => seq![s],
        Some(j) => seq![s.take(j)] + spec_split(s.skip(j + sep.len()), sep),
    }
}

#[via_fn]
proof fn spec_split_dec(s: Seq<char>, sep: Seq<char>) {
    lemma_find_seq(s, 0, sep);
}

/// Executable counterpart of `spec_split`.
pub fn split_all(v: &Vec<char>, sep: &str) -> (r: Vec<Vec<char>>)
    requires
        sep@.len() >= 1,
    ensures
        r@.map_values(|p: Vec<char>| p@) == spec_split(v@, sep@),
{
    let n = sep.unicode_len();
    let mut r: Vec<Vec<char>> = Vec::new();
    let mut rest: Vec<char> = copy_range(v, 0, v.len());
    proof {
        assert(rest@ =~= v@);
    }
    loop
        invariant
            n == sep@.len(),
            n >= 1,
            spec_split(v@, sep@) == r@.map_values(|p: Vec<char>| p@) + spec_split(rest@, sep@),
        decreases rest@.len(),
    {
        match find_seq(&rest, 0, sep) {
            Some(j) => {
                proof {
                    lemma_find_seq(rest@, 0, sep@);
                }
                let piece = copy_range(&rest, 0, j);
                proof {
                    assert(piece@ =~= rest@.take(j as int));
                }
                let newrest = copy_range(&rest, j + n, rest.len());
                proof {
                    assert(newrest@ =~= rest@.skip(j as int + sep@.len()));
                }
                r.push(piece);
                proof {
                    assert(spec_split(v@, sep@) =~= r@.map_values(|p: Vec<char>| p@)
                        + spec_split(newrest@, sep@));
                }
                rest = newrest;
            },
            None => {
                r.push(rest);
                proof {
                    assert(spec_split(v@, sep@) =~= r@.map_values(|p: Vec<char>| p@));
                }
                return r;
            },
        }
    }
}

/// A split always yields at least one piece.
pub proof fn lemma_split_nonempty(s: Seq<char>, sep: Seq<char>)
    requires
        sep.len() >= 1,
    ensures
        spec_split(s, sep).len() >= 1,
{
    lemma_find_seq(s, 0, sep);
}

/// The pieces joined with `sep` between neighbours.
pub open spec fn spec_join(ps: Seq<Seq<char>>, sep: Seq<char>) -> Seq<char>
    decreases ps.len(),
{
    if ps.len() == 0 {
        Seq::empty()
    } else if ps.len() == 1 {
        ps[0]
    } else {
        ps[0] + sep + spec_join(ps.drop_first(), sep)
    }
}

/// Unfolds `spec_join` one piece at the end.
pub proof fn lemma_join_snoc(ps: Seq<Seq<char>>, p: Seq<char>, sep: Seq<char>)
    ensures
        spec_join(ps.push(p), sep) == if ps.len() == 0 {
            p
        } else {
            spec_join(ps, sep) + sep + p
        },
    decreases ps.len(),
{
    if ps.len() == 0 {
        assert(ps.push(p)[0] == p);
    } else if ps.len() == 1 {
        assert(ps.push(p).drop_first() =~= ps.drop_first().push(p));
        lemma_join_snoc(ps.drop_first(), p, sep);
        assert(ps.push(p)[0] == ps[0]);
        assert(spec_join(ps.drop_first().push(p), sep) == p);
        assert(spec_join(ps, sep) == ps[0]);
    } else {
        assert(ps.push(p).drop_first() =~= ps.drop_first().push(p));
        lemma_join_snoc(ps.drop_first(), p, sep);
        assert(ps.push(p)[0] == ps[0]);
    }
}

/// Joins the pieces with `sep` between neighbours.
pub fn join_pieces(ps: &Vec<Vec<char>>, sep: &str) -> (r: Vec<char>)
    ensures
        r@ == spec_join(ps@.map_values(|p: Vec<char>| p@), sep@),
{
    let mut r: Vec<char> = Vec::new();
    let mut k: usize = 0;
    while k < ps.len()
        invariant
            k <= ps@.len(),
            r@ == spec_join(ps@.map_values(|p: Vec<char>| p@).take(k as int), sep@),
        decreases ps@.len() - k,
    {
        if k > 0 {
            push_str_chars(&mut r, sep);
        }
        push_chars(&mut r, &ps[k]);
        proof {
            let mapped = ps@.map_values(|p: Vec<char>| p@);
            assert(mapped.take(k as int).push(mapped[k as int]) =~= mapped.take(k as int + 1));
            lemma_join_snoc(mapped.take(k as int), mapped[k as int], sep@);
        }
        k = k + 1;
    }
    proof {
        let mapped = ps@.map_values(|p: Vec<char>| p@);
        assert(mapped.take(mapped.len() as int) =~= mapped);
    }
    r
}

} // verus!
