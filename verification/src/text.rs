//! Character-level building blocks: scanning, trimming and comparing text
//! held as a vector of `char`s, with the spec functions that describe them.

use vstd::prelude::*;
use vstd::string::StrSliceExecFns;

verus! {

broadcast use vstd::string::group_string_axioms;

/// White space in the sense of Unicode's `White_Space` property, which is
/// exactly the set of characters that `char::is_whitespace` accepts.
pub open spec fn is_space(c: char) -> bool {
    ||| ('\u{9}' <= c && c <= '\u{d}')
    ||| c == ' '
    ||| c == '\u{85}'
    ||| c == '\u{a0}'
    ||| c == '\u{1680}'
    ||| ('\u{2000}' <= c && c <= '\u{200a}')
    ||| c == '\u{2028}'
    ||| c == '\u{2029}'
    ||| c == '\u{202f}'
    ||| c == '\u{205f}'
    ||| c == '\u{3000}'
}

pub fn is_space_char(c: char) -> (b: bool)
    ensures
        b == is_space(c),
{
    ('\u{9}' <= c && c <= '\u{d}') || c == ' ' || c == '\u{85}' || c == '\u{a0}' || c
        == '\u{1680}' || ('\u{2000}' <= c && c <= '\u{200a}') || c == '\u{2028}' || c
        == '\u{2029}' || c == '\u{202f}' || c == '\u{205f}' || c == '\u{3000}'
}

/// Number of white-space characters at the start of `s`.
pub open spec fn leading_spaces(s: Seq<char>) -> nat
    decreases s.len(),
{
    if s.len() == 0 {
        0
    } else if is_space(s[0]) {
        1 + leading_spaces(s.drop_first())
    } else {
        0
    }
}

/// Number of white-space characters at the end of `s`.
pub open spec fn trailing_spaces(s: Seq<char>) -> nat
    decreases s.len(),
{
    if s.len() == 0 {
        0
    } else if is_space(s.last()) {
        1 + trailing_spaces(s.drop_last())
    } else {
        0
    }
}

/// `s` without its leading and trailing white space (what `str::trim` gives).
pub open spec fn trim(s: Seq<char>) -> Seq<char> {
    let t = s.skip(leading_spaces(s) as int);
    t.take(t.len() - trailing_spaces(t))
}

/// Position of the first `c` in `s`, or `s.len()` when `s` holds no `c`.
pub open spec fn first_index(s: Seq<char>, c: char) -> nat
    decreases s.len(),
{
    if s.len() == 0 {
        0
    } else if s[0] == c {
        0
    } else {
        1 + first_index(s.drop_first(), c)
    }
}

/// `k` is the first position of `c` in `s` (or `s.len()` if there is none)
/// exactly when no earlier character is `c` and the one at `k` is.
pub proof fn lemma_first_index_is(s: Seq<char>, c: char, k: int)
    requires
        0 <= k <= s.len(),
        forall|j: int| 0 <= j < k ==> s[j] != c,
        k < s.len() ==> s[k] == c,
    ensures
        first_index(s, c) == k,
    decreases k,
{
    if k > 0 {
        let t = s.drop_first();
        assert forall|j: int| 0 <= j < k - 1 implies t[j] != c by {
            assert(t[j] == s[j + 1]);
        }
        lemma_first_index_is(t, c, k - 1);
    }
}

/// The first position of `c` lies within `s`, is preceded by no `c`, and
/// holds `c` unless it is `s.len()`.
pub proof fn lemma_first_index_props(s: Seq<char>, c: char)
    ensures
        first_index(s, c) <= s.len(),
        forall|j: int| 0 <= j < first_index(s, c) ==> s[j] != c,
        first_index(s, c) < s.len() ==> s[first_index(s, c) as int] == c,
    decreases s.len(),
{
    if s.len() > 0 && s[0] != c {
        let t = s.drop_first();
        lemma_first_index_props(t, c);
        assert forall|j: int| 0 <= j < first_index(s, c) implies s[j] != c by {
            if j > 0 {
                assert(s[j] == t[j - 1]);
            }
        }
    }
}

pub proof fn lemma_leading_spaces_is(s: Seq<char>, k: int)
    requires
        0 <= k <= s.len(),
        forall|j: int| 0 <= j < k ==> is_space(s[j]),
        k < s.len() ==> !is_space(s[k]),
    ensures
        leading_spaces(s) == k,
    decreases k,
{
    if k > 0 {
        let t = s.drop_first();
        assert forall|j: int| 0 <= j < k - 1 implies is_space(t[j]) by {
            assert(t[j] == s[j + 1]);
        }
        lemma_leading_spaces_is(t, k - 1);
    }
}

pub proof fn lemma_trailing_spaces_is(s: Seq<char>, k: int)
    requires
        0 <= k <= s.len(),
        forall|j: int| s.len() - k <= j < s.len() ==> is_space(s[j]),
        k < s.len() ==> !is_space(s[s.len() - 1 - k]),
    ensures
        trailing_spaces(s) == k,
    decreases k,
{
    if k > 0 {
        let t = s.drop_last();
        assert forall|j: int| t.len() - (k - 1) <= j < t.len() implies is_space(t[j]) by {
            assert(t[j] == s[j]);
        }
        lemma_trailing_spaces_is(t, k - 1);
    }
}

/// Number of bytes that `c` takes in UTF-8.
pub open spec fn utf8_width(c: char) -> nat {
    let v = c as u32;
    if v <= 0x7f {
        1
    } else if v <= 0x7ff {
        2
    } else if v <= 0xffff {
        3
    } else {
        4
    }
}

/// Number of bytes that `s` takes in UTF-8 (what `str::len` reports).
pub open spec fn utf8_len(s: Seq<char>) -> nat
    decreases s.len(),
{
    if s.len() == 0 {
        0
    } else {
        utf8_len(s.drop_last()) + utf8_width(s.last())
    }
}

proof fn lemma_utf8_len_first(s: Seq<char>)
    requires
        s.len() > 0,
    ensures
        utf8_len(s) == utf8_width(s[0]) + utf8_len(s.drop_first()),
    decreases s.len(),
{
    if s.len() > 1 {
        lemma_utf8_len_first(s.drop_last());
        assert(s.drop_last().drop_first() =~= s.drop_first().drop_last());
        assert(s.drop_first().last() == s.last());
        assert(s.drop_last()[0] == s[0]);
        assert(utf8_len(s.drop_first()) == utf8_len(s.drop_first().drop_last()) + utf8_width(
            s.drop_first().last(),
        ));
    } else {
        assert(s.drop_first().len() == 0);
        assert(s.drop_last().len() == 0);
        assert(utf8_len(s.drop_last()) == 0);
        assert(utf8_len(s.drop_first()) == 0);
        assert(s.last() == s[0]);
    }
}

/// `utf8_len` counts exactly the bytes of vstd's UTF-8 encoding.
pub proof fn lemma_utf8_len_is_encoding_len(s: Seq<char>)
    ensures
        utf8_len(s) == vstd::utf8::encode_utf8(s).len(),
    decreases s.len(),
{
    if s.len() > 0 {
        lemma_utf8_len_first(s);
        lemma_utf8_len_is_encoding_len(s.drop_first());
        vstd::utf8::char_is_scalar(s[0]);
    }
}

/// Every character takes at least one byte.
pub proof fn lemma_utf8_len_at_least_len(s: Seq<char>)
    ensures
        utf8_len(s) >= s.len(),
    decreases s.len(),
{
    if s.len() > 0 {
        lemma_utf8_len_at_least_len(s.drop_last());
    }
}

fn utf8_width_exec(c: char) -> (w: usize)
    ensures
        w == utf8_width(c),
{
    let v = c as u32;
    if v <= 0x7f {
        1
    } else if v <= 0x7ff {
        2
    } else if v <= 0xffff {
        3
    } else {
        4
    }
}

/// Whether `v[lo..hi]` takes more than `limit` bytes in UTF-8.
pub fn range_utf8_longer_than(v: &Vec<char>, lo: usize, hi: usize, limit: usize) -> (b: bool)
    requires
        lo <= hi <= v.len(),
        limit <= 0x1000_0000,
    ensures
        b == (utf8_len(v@.subrange(lo as int, hi as int)) > limit),
{
    if hi - lo > limit {
        proof {
            lemma_utf8_len_at_least_len(v@.subrange(lo as int, hi as int));
        }
        return true;
    }
    let mut bytes: usize = 0;
    let mut i = lo;
    while i < hi
        invariant
            lo <= i <= hi <= v.len(),
            hi - lo <= limit <= 0x1000_0000,
            bytes == utf8_len(v@.subrange(lo as int, i as int)),
            bytes <= 4 * (i - lo),
        decreases hi - i,
    {
        let w = utf8_width_exec(v[i]);
        proof {
            let s = v@.subrange(lo as int, i + 1);
            assert(s.drop_last() =~= v@.subrange(lo as int, i as int));
        }
        bytes = bytes + w;
        i = i + 1;
    }
    bytes > limit
}

/// Trimming removes exactly the white space around the text: for text `s`
/// that neither starts nor ends with white space, surrounded by runs `a` and
/// `b` of white space (space, tab, line breaks, no-break space and the
/// like), `trim(a + s + b)` is `s`.
pub proof fn lemma_trim_strips_spaces(a: Seq<char>, s: Seq<char>, b: Seq<char>)
    requires
        forall|i: int| 0 <= i < a.len() ==> is_space(#[trigger] a[i]),
        forall|i: int| 0 <= i < b.len() ==> is_space(#[trigger] b[i]),
        s.len() > 0 ==> !is_space(s[0]) && !is_space(s.last()),
    ensures
        is_space(' ') && is_space('\t') && is_space('\n') && is_space('\r') && is_space('\u{a0}')
            && is_space('\u{3000}'),
        trim(a + s + b) == s,
{
    let x = a + s + b;
    if s.len() > 0 {
        assert forall|j: int| 0 <= j < a.len() implies is_space(x[j]) by {
            assert(x[j] == a[j]);
        }
        assert(x[a.len() as int] == s[0]);
        lemma_leading_spaces_is(x, a.len() as int);
        let t = x.skip(a.len() as int);
        assert(t =~= s + b);
        assert forall|j: int| t.len() - b.len() <= j < t.len() implies is_space(t[j]) by {
            assert(t[j] == b[j - s.len()]);
        }
        assert(t[t.len() - 1 - b.len()] == s.last());
        lemma_trailing_spaces_is(t, b.len() as int);
        assert(t.take(t.len() - b.len()) =~= s);
    } else {
        let ab = a + b;
        assert(x =~= ab);
        assert forall|j: int| 0 <= j < ab.len() implies is_space(ab[j]) by {
            if j < a.len() {
                assert(ab[j] == a[j]);
            } else {
                assert(ab[j] == b[j - a.len()]);
            }
        }
        lemma_leading_spaces_is(ab, ab.len() as int);
        assert(ab.skip(ab.len() as int) =~= Seq::<char>::empty());
        assert(trailing_spaces(Seq::<char>::empty()) == 0);
        assert(trim(x) =~= Seq::<char>::empty());
    }
}

/// The characters of `s`, in order.
pub fn chars_of(s: &str) -> (v: Vec<char>)
    ensures
        v@ == s@,
{
    let mut v: Vec<char> = Vec::new();
    for c in it: s.chars()
        invariant
            v@ == it.seq().take(it.index() as int),
    {
        v.push(c);
    }
    v
}

/// First position of `c` in `v[lo..hi]`, counted from `lo`; `hi` if absent.
pub fn find_char(v: &Vec<char>, lo: usize, hi: usize, c: char) -> (k: usize)
    requires
        lo <= hi <= v.len(),
    ensures
        lo <= k <= hi,
        k - lo == first_index(v@.subrange(lo as int, hi as int), c),
{
    let mut k = lo;
    while k < hi && v[k] != c
        invariant
            lo <= k <= hi,
            hi <= v.len(),
            forall|j: int| lo <= j < k ==> v@[j] != c,
        decreases hi - k,
    {
        k = k + 1;
    }
    proof {
        lemma_first_index_is(v@.subrange(lo as int, hi as int), c, k - lo);
    }
    k
}

/// Whether `v[lo..hi]` holds the character `c`.
pub fn range_contains(v: &Vec<char>, lo: usize, hi: usize, c: char) -> (b: bool)
    requires
        lo <= hi <= v.len(),
    ensures
        b == v@.subrange(lo as int, hi as int).contains(c),
{
    let k = find_char(v, lo, hi, c);
    proof {
        let s = v@.subrange(lo as int, hi as int);
        lemma_first_index_props(s, c);
        if k < hi {
            assert(s[k - lo] == c);
        }
    }
    k < hi
}

/// Whether `v[lo..hi]` is the text `w`.
pub fn range_eq(v: &Vec<char>, lo: usize, hi: usize, w: &Vec<char>) -> (b: bool)
    requires
        lo <= hi <= v.len(),
    ensures
        b == (v@.subrange(lo as int, hi as int) == w@),
{
    if hi - lo != w.len() {
        return false;
    }
    let mut i: usize = 0;
    while i < w.len()
        invariant
            lo <= hi <= v.len(),
            hi - lo == w.len(),
            i <= w.len(),
            forall|j: int| 0 <= j < i ==> v@[lo + j] == w@[j],
        decreases w.len() - i,
    {
        if v[lo + i] != w[i] {
            assert(v@.subrange(lo as int, hi as int)[i as int] != w@[i as int]);
            return false;
        }
        i = i + 1;
    }
    assert(v@.subrange(lo as int, hi as int) =~= w@);
    true
}

/// Whether `v[lo..hi]` begins with the text `w`.
pub fn range_starts_with(v: &Vec<char>, lo: usize, hi: usize, w: &Vec<char>) -> (b: bool)
    requires
        lo <= hi <= v.len(),
    ensures
        b == (w@.len() <= hi - lo && v@.subrange(lo as int, lo + w@.len()) == w@),
{
    if w.len() > hi - lo {
        return false;
    }
    range_eq(v, lo, lo + w.len(), w)
}

/// The text `s[lo..hi]`, counted in characters, as an owned `String`.
pub fn substring(s: &str, lo: usize, hi: usize) -> (r: String)
    requires
        lo <= hi <= s@.len(),
    ensures
        r@ == s@.subrange(lo as int, hi as int),
{
    let part = s.substring_char(lo, hi);
    part.to_owned()
}

} // verus!
