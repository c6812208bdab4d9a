//! Checking the host and port that a proxy session is asked to reach.

use vstd::prelude::*;

use crate::text::{
    chars_of, find_char, is_space, is_space_char, lemma_leading_spaces_is,
    lemma_trailing_spaces_is, range_contains, range_utf8_longer_than, trim, utf8_len,
};

verus! {

broadcast use vstd::string::group_string_axioms;

/// Longest host name, in UTF-8 bytes, that a target may have.
pub const MAX_HOST_BYTES: usize = 255;

/// A character that a host name may hold: an ASCII letter or digit, `.` or `-`.
pub open spec fn is_host_char(c: char) -> bool {
    ||| ('a' <= c && c <= 'z')
    ||| ('A' <= c && c <= 'Z')
    ||| ('0' <= c && c <= '9')
    ||| c == '.'
    ||| c == '-'
}

/// Why a target is refused, or `None` when the proxy may connect to it.
/// The host is judged after trimming white space at both ends.
pub open spec fn target_error(host: Seq<char>, port: u16) -> Option<Seq<char>> {
    let h = trim(host);
    if h.len() == 0 {
        Some("host is required"@)
    } else if utf8_len(h) > MAX_HOST_BYTES {
        Some("host is too long"@)
    } else if port == 0 {
        Some("port must be between 1 and 65535"@)
    } else if h.contains('/') || h.contains('\\') || h.contains('@') || h.contains(':') {
        Some("host must be a hostname or IP address without a scheme or port"@)
    } else if !(forall|i: int| 0 <= i < h.len() ==> is_host_char(#[trigger] h[i])) {
        Some("host contains unsupported characters"@)
    } else {
        None
    }
}

fn is_host_char_exec(c: char) -> (b: bool)
    ensures
        b == is_host_char(c),
{
    ('a' <= c && c <= 'z') || ('A' <= c && c <= 'Z') || ('0' <= c && c <= '9') || c == '.' || c
        == '-'
}

/// Whether every character of `v[lo..hi]` may stand in a host name.
fn all_host_chars(v: &Vec<char>, lo: usize, hi: usize) -> (b: bool)
    requires
        lo <= hi <= v.len(),
    ensures
        b == (forall|k: int|
            0 <= k < hi - lo ==> is_host_char(#[trigger] v@.subrange(lo as int, hi as int)[k])),
{
    let ghost h = v@.subrange(lo as int, hi as int);
    let mut i = lo;
    while i < hi
        invariant
            lo <= i <= hi <= v.len(),
            h == v@.subrange(lo as int, hi as int),
            forall|j: int| lo <= j < i ==> is_host_char(v@[j]),
        decreases hi - i,
    {
        if !is_host_char_exec(v[i]) {
            assert(!is_host_char(h[i - lo]));
            return false;
        }
        i = i + 1;
    }
    assert forall|k: int| 0 <= k < h.len() implies is_host_char(#[trigger] h[k]) by {
        assert(h[k] == v@[lo + k]);
    }
    true
}

/// Bounds `[lo, hi)` of `trim(v)` inside `v`.
fn trim_bounds(v: &Vec<char>) -> (r: (usize, usize))
    ensures
        r.0 <= r.1 <= v.len(),
        v@.subrange(r.0 as int, r.1 as int) == trim(v@),
{
    let n = v.len();
    let mut lo: usize = 0;
    while lo < n && is_space_char(v[lo])
        invariant
            lo <= n == v.len(),
            forall|j: int| 0 <= j < lo ==> is_space(v@[j]),
        decreases n - lo,
    {
        lo = lo + 1;
    }
    proof {
        lemma_leading_spaces_is(v@, lo as int);
    }
    let mut hi: usize = n;
    while hi > lo && is_space_char(v[hi - 1])
        invariant
            lo <= hi <= n == v.len(),
            forall|j: int| hi <= j < n ==> is_space(v@[j]),
        decreases hi - lo,
    {
        hi = hi - 1;
    }
    proof {
        let t = v@.skip(lo as int);
        assert forall|j: int| t.len() - (n - hi) <= j < t.len() implies is_space(t[j]) by {
            assert(t[j] == v@[lo + j]);
        }
        if n - hi < t.len() {
            assert(t[t.len() - 1 - (n - hi)] == v@[hi - 1]);
        }
        lemma_trailing_spaces_is(t, (n - hi) as int);
        assert(v@.subrange(lo as int, hi as int) =~= t.take(t.len() - (n - hi)));
    }
    (lo, hi)
}

/// Checks that `host:port` names a plain host (a host name or an IPv4
/// address) and a real port, as the proxy requires before it opens a
/// session; the host is trimmed of surrounding white space first.
pub fn validate_target(host: &str, port: u16) -> (r: Result<(), String>)
    ensures
        match r {
            Ok(()) => target_error(host@, port) is None,
            Err(e) => target_error(host@, port) == Some(e@),
        },
{
    let v = chars_of(host);
    let (lo, hi) = trim_bounds(&v);
    let ghost h = trim(host@);
    assert(h == v@.subrange(lo as int, hi as int));
    if lo == hi {
        return Err("host is required".to_string());
    }
    if range_utf8_longer_than(&v, lo, hi, MAX_HOST_BYTES) {
        return Err("host is too long".to_string());
    }
    if port == 0 {
        return Err("port must be between 1 and 65535".to_string());
    }
    if range_contains(&v, lo, hi, '/') || range_contains(&v, lo, hi, '\\') || range_contains(
        &v,
        lo,
        hi,
        '@',
    ) || range_contains(&v, lo, hi, ':') {
        return Err("host must be a hostname or IP address without a scheme or port".to_string());
    }
    if !all_host_chars(&v, lo, hi) {
        return Err("host contains unsupported characters".to_string());
    }
    Ok(())
}

/// Every ASCII letter of either case, every ASCII digit, `.` and `-` may
/// stand in a host name; and a host that, once trimmed, is non-empty, at most
/// `MAX_HOST_BYTES` bytes long and made only of such characters is accepted
/// with any non-zero port.
pub proof fn lemma_plain_hosts_accepted(host: Seq<char>, port: u16)
    ensures
        forall|c: char|
            ('a' <= c && c <= 'z') || ('A' <= c && c <= 'Z') || ('0' <= c && c <= '9') || c
                == '.' || c == '-' ==> #[trigger] is_host_char(c),
        ({
            let h = trim(host);
            &&& h.len() > 0
            &&& utf8_len(h) <= 255
            &&& port != 0
            &&& forall|i: int|
                0 <= i < h.len() ==> ('a' <= #[trigger] h[i] && h[i] <= 'z') || ('A' <= h[i]
                    && h[i] <= 'Z') || ('0' <= h[i] && h[i] <= '9') || h[i] == '.' || h[i] == '-'
        }) ==> target_error(host, port) is None,
{
    let h = trim(host);
    if h.len() > 0 && utf8_len(h) <= 255 && port != 0 && (forall|i: int|
        0 <= i < h.len() ==> ('a' <= #[trigger] h[i] && h[i] <= 'z') || ('A' <= h[i] && h[i]
            <= 'Z') || ('0' <= h[i] && h[i] <= '9') || h[i] == '.' || h[i] == '-') {
        assert(!h.contains('/'));
        assert(!h.contains('\\'));
        assert(!h.contains('@'));
        assert(!h.contains(':'));
        assert forall|i: int| 0 <= i < h.len() implies is_host_char(#[trigger] h[i]) by {}
    }
}

} // verus!
