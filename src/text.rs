//! Character-level text operations, each proved against a spec function
//! over `Seq<char>`.
use vstd::prelude::*;

verus! {

/// Unicode `White_Space`, the set that `str::trim_start` strips.
pub open spec fn is_ws(c: char) -> bool {
    c == '\t' || c == '\n' || c == '\x0B' || c == '\x0C' || c == '\r' || c == ' ' || c
        == '\u{85}' || c == '\u{A0}' || c == '\u{1680}' || ('\u{2000}' <= c && c <= '\u{200A}')
        || c == '\u{2028}' || c == '\u{2029}' || c == '\u{202F}' || c == '\u{205F}' || c
        == '\u{3000}'
}

pub fn is_white(c: char) -> (r: bool)
    ensures
        r == is_ws(c),
{
    c == '\t' || c == '\n' || c == '\x0B' || c == '\x0C' || c == '\r' || c == ' ' || c
        == '\u{85}' || c == '\u{A0}' || c == '\u{1680}' || ('\u{2000}' <= c && c <= '\u{200A}')
        || c == '\u{2028}' || c == '\u{2029}' || c == '\u{202F}' || c == '\u{205F}' || c
        == '\u{3000}'
}

/// Number of leading whitespace characters of `s`.
pub open spec fn indent(s: Seq<char>) -> nat
    decreases s.len(),
{
    if s.len() > 0 && is_ws(s[0]) {
        1 + indent(s.drop_first())
    } else {
        0
    }
}

/// `s` without its leading whitespace.
pub open spec fn trim_start(s: Seq<char>) -> Seq<char> {
    s.skip(indent(s) as int)
}

pub fn indent_of(s: &str) -> (n: usize)
    ensures
        n == indent(s@),
        n <= s@.len(),
{
    let len = s.unicode_len();
    let mut i: usize = 0;
    assert(s@.skip(0) =~= s@);
    while i < len && is_white(s.get_char(i))
        invariant
            len == s@.len(),
            i <= len,
            indent(s@) == i + indent(s@.skip(i as int)),
        decreases len - i,
    {
        assert(s@.skip(i as int).drop_first() =~= s@.skip(i + 1));
        i += 1;
    }
    assert(indent(s@.skip(i as int)) == 0);
    i
}

pub fn str_eq(a: &str, b: &str) -> (r: bool)
    ensures
        r == (a@ == b@),
{
    let n = a.unicode_len();
    if n != b.unicode_len() {
        return false;
    }
    let mut i: usize = 0;
    while i < n
        invariant
            n == a@.len(),
            n == b@.len(),
            i <= n,
            a@.subrange(0, i as int) == b@.subrange(0, i as int),
        decreases n - i,
    {
        if a.get_char(i) != b.get_char(i) {
            return false;
        }
        assert(a@.subrange(0, i + 1) =~= a@.subrange(0, i as int).push(a@[i as int]));
        assert(b@.subrange(0, i + 1) =~= b@.subrange(0, i as int).push(b@[i as int]));
        i += 1;
    }
    assert(a@ =~= a@.subrange(0, n as int));
    assert(b@ =~= b@.subrange(0, n as int));
    true
}

/// `p` occurs in `s` starting at `i`.
pub open spec fn occurs_at(s: Seq<char>, p: Seq<char>, i: int) -> bool {
    0 <= i && i + p.len() <= s.len() && s.subrange(i, i + p.len()) == p
}

/// The first position at or after `k` where `p` occurs in `s`.
pub open spec fn find_from(s: Seq<char>, p: Seq<char>, k: int) -> Option<int>
    decreases s.len() + 1 - k,
{
    if k < 0 || k + p.len() > s.len() {
        None
    } else if occurs_at(s, p, k) {
        Some(k)
    } else {
        find_from(s, p, k + 1)
    }
}

/// `s` with the first occurrence of `p` replaced by `r` (as
/// `str::replacen(p, r, 1)`); `s` itself where `p` does not occur.
pub open spec fn replace_first(s: Seq<char>, p: Seq<char>, r: Seq<char>) -> Seq<char> {
    match find_from(s, p, 0) {
        Some(i) => s.subrange(0, i) + r + s.subrange(i + p.len(), s.len() as int),
        None => s,
    }
}

pub proof fn lemma_find_from_bounds(s: Seq<char>, p: Seq<char>, k: int)
    ensures
        find_from(s, p, k) matches Some(i) ==> k <= i && occurs_at(s, p, i),
    decreases s.len() + 1 - k,
{
    if k < 0 || k + p.len() > s.len() {
    } else if occurs_at(s, p, k) {
    } else {
        lemma_find_from_bounds(s, p, k + 1);
    }
}

fn occurs_at_exec(s: &str, p: &str, i: usize, slen: usize, plen: usize) -> (r: bool)
    requires
        slen == s@.len(),
        plen == p@.len(),
        i + plen <= slen,
    ensures
        r == occurs_at(s@, p@, i as int),
{
    let mut j: usize = 0;
    while j < plen
        invariant
            slen == s@.len(),
            plen == p@.len(),
            i + plen <= slen,
            j <= plen,
            s@.subrange(i as int, i + j) == p@.subrange(0, j as int),
        decreases plen - j,
    {
        if s.get_char(i + j) != p.get_char(j) {
            assert(s@.subrange(i as int, i + plen)[j as int] != p@[j as int]);
            return false;
        }
        assert(s@.subrange(i as int, i + j + 1) =~= s@.subrange(i as int, i + j).push(
            s@[i + j],
        ));
        assert(p@.subrange(0, j + 1) =~= p@.subrange(0, j as int).push(p@[j as int]));
        j += 1;
    }
    assert(p@ =~= p@.subrange(0, plen as int));
    true
}

/// `s` with the first occurrence of `p` replaced by `r`.
pub fn replace_first_exec(s: &str, p: &str, r: &str) -> (out: String)
    ensures
        out@ == replace_first(s@, p@, r@),
{
    let slen = s.unicode_len();
    let plen = p.unicode_len();
    if plen > slen {
        return String::from_str(s);
    }
    let mut i: usize = 0;
    while i <= slen - plen
        invariant
            slen == s@.len(),
            plen == p@.len(),
            plen <= slen,
            i <= slen - plen + 1,
            find_from(s@, p@, 0) == find_from(s@, p@, i as int),
        decreases slen + 1 - i,
    {
        if occurs_at_exec(s, p, i, slen, plen) {
            let mut out = String::from_str(s.substring_char(0, i));
            out.append(r);
            out.append(s.substring_char(i + plen, slen));
            return out;
        }
        if i == slen - plen {
            assert(find_from(s@, p@, i + 1) is None);
            assert(find_from(s@, p@, i as int) is None);
            return String::from_str(s);
        }
        i += 1;
    }
    String::from_str(s)
}

/// `s` without its trailing colons.
pub open spec fn strip_colons(s: Seq<char>) -> Seq<char>
    decreases s.len(),
{
    if s.len() > 0 && s.last() == ':' {
        strip_colons(s.drop_last())
    } else {
        s
    }
}

pub fn strip_colons_exec(s: &str) -> (out: String)
    ensures
        out@ == strip_colons(s@),
{
    let mut n = s.unicode_len();
    assert(s@.subrange(0, n as int) =~= s@);
    while n > 0 && s.get_char(n - 1) == ':'
        invariant
            n <= s@.len(),
            strip_colons(s@) == strip_colons(s@.subrange(0, n as int)),
        decreases n,
    {
        assert(s@.subrange(0, n as int).drop_last() =~= s@.subrange(0, n - 1));
        n -= 1;
    }
    String::from_str(s.substring_char(0, n))
}

/// `a` orders strictly before `b`, comparing characters by code point and a
/// proper prefix before its extensions (the order of `str`).
pub open spec fn lex_lt(a: Seq<char>, b: Seq<char>) -> bool {
    exists|i: int| lex_lt_at(a, b, i)
}

/// `a` and `b` agree before `i`, and at `i` either `a` ends while `b` goes on
/// or `a` has the smaller character.
pub open spec fn lex_lt_at(a: Seq<char>, b: Seq<char>, i: int) -> bool {
    0 <= i <= a.len() && i <= b.len() && (forall|k: int| 0 <= k < i ==> a[k] == b[k]) && ((i
        == a.len() && i < b.len()) || (i < a.len() && i < b.len() && (a[i] as u32) < (
    b[i] as u32)))
}

pub proof fn lemma_lex_lt_transitive(a: Seq<char>, b: Seq<char>, c: Seq<char>)
    requires
        lex_lt(a, b),
        lex_lt(b, c),
    ensures
        lex_lt(a, c),
{
    let i = choose|i: int| lex_lt_at(a, b, i);
    let j = choose|j: int| lex_lt_at(b, c, j);
    if i < j {
        assert(lex_lt_at(a, c, i));
    } else if i == j {
        assert(lex_lt_at(a, c, i));
    } else {
        assert(lex_lt_at(a, c, j));
    }
}

/// Three-way comparison: negative, zero or positive as `a` orders before,
/// equal to or after `b`.
pub fn compare_str(a: &str, b: &str) -> (r: i8)
    ensures
        r < 0 ==> lex_lt(a@, b@),
        r == 0 ==> a@ == b@,
        r > 0 ==> lex_lt(b@, a@),
{
    let alen = a.unicode_len();
    let blen = b.unicode_len();
    let mut i: usize = 0;
    while i < alen && i < blen
        invariant
            alen == a@.len(),
            blen == b@.len(),
            i <= alen,
            i <= blen,
            forall|k: int| 0 <= k < i ==> a@[k] == b@[k],
        decreases alen - i,
    {
        let x = a.get_char(i);
        let y = b.get_char(i);
        if (x as u32) < (y as u32) {
            assert(lex_lt_at(a@, b@, i as int));
            return -1;
        }
        if (y as u32) < (x as u32) {
            assert(lex_lt_at(b@, a@, i as int));
            return 1;
        }
        assert(x == y) by {
            assert((x as u32) == (y as u32));
        }
        i += 1;
    }
    if alen < blen {
        assert(lex_lt_at(a@, b@, i as int));
        -1
    } else if blen < alen {
        assert(lex_lt_at(b@, a@, i as int));
        1
    } else {
        assert(a@ =~= b@);
        0
    }
}

} // verus!
