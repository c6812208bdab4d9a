//! The table of proxy sessions: each session is a one-time route, valid for
//! a short time, from the WebView to one VNC host and port.

use vstd::prelude::*;
use vstd::string::{StrSliceExecFns, StringExecFns};

use crate::request::{
    is_token, is_token_char, lemma_session_route_roundtrip, session_path, session_route,
};
use crate::target::{target_error, validate_target};

verus! {

broadcast use vstd::string::group_string_axioms;

/// How long, in nanoseconds, a session may wait for its client: 45 seconds.
pub const SESSION_TTL_NANOS: u64 = 45_000_000_000;

/// A session waiting for its WebSocket client. `created_at` is the time of
/// its creation, in nanoseconds on the proxy's monotonic clock.
pub struct ProxySession {
    pub host: String,
    pub port: u16,
    pub secret: String,
    pub created_at: u64,
}

/// What a session holds, as plain values.
pub struct SessionView {
    pub host: Seq<char>,
    pub port: u16,
    pub secret: Seq<char>,
    pub created_at: u64,
}

impl View for ProxySession {
    type V = SessionView;

    open spec fn view(&self) -> SessionView {
        SessionView {
            host: self.host@,
            port: self.port,
            secret: self.secret@,
            created_at: self.created_at,
        }
    }
}

/// The decimal digit `d` (`d < 10`) as a character.
pub open spec fn digit_char(d: nat) -> char {
    (d + 48) as char
}

/// The decimal text of `n`, without leading zeros.
pub open spec fn decimal(n: nat) -> Seq<char>
    decreases n,
{
    if n < 10 {
        seq![digit_char(n)]
    } else {
        decimal(n / 10) + seq![digit_char(n % 10)]
    }
}

fn digit_text(d: u16) -> (t: &'static str)
    requires
        d < 10,
    ensures
        t@ == seq![digit_char(d as nat)],
{
    proof {
        reveal_strlit("0");
        reveal_strlit("1");
        reveal_strlit("2");
        reveal_strlit("3");
        reveal_strlit("4");
        reveal_strlit("5");
        reveal_strlit("6");
        reveal_strlit("7");
        reveal_strlit("8");
        reveal_strlit("9");
    }
    match d {
        0 => "0",
        1 => "1",
        2 => "2",
        3 => "3",
        4 => "4",
        5 => "5",
        6 => "6",
        7 => "7",
        8 => "8",
        _ => "9",
    }
}

/// Appends the decimal text of `n` to `out`.
fn push_decimal(out: &mut String, n: u16)
    ensures
        final(out)@ == old(out)@ + decimal(n as nat),
    decreases n,
{
    if n >= 10 {
        push_decimal(out, n / 10);
    }
    out.append(digit_text(n % 10));
    assert(out@ =~= old(out)@ + decimal(n as nat));
}

/// The number that decimal text `s` reads as, each character counting as
/// its distance from `'0'`.
pub open spec fn decimal_value(s: Seq<char>) -> int
    decreases s.len(),
{
    if s.len() == 0 {
        0
    } else {
        10 * decimal_value(s.drop_last()) + (s.last() as int - '0' as int)
    }
}

/// The decimal text of a number is made of the ASCII digits `0` to `9`,
/// starts with a non-zero digit unless it is `0` itself, and reads back as
/// that number.
pub proof fn lemma_decimal_reads_back(n: nat)
    ensures
        decimal(n).len() > 0,
        forall|i: int| 0 <= i < decimal(n).len() ==> '0' <= #[trigger] decimal(n)[i] && decimal(n)[i] <= '9',
        n > 0 ==> decimal(n)[0] != '0',
        decimal_value(decimal(n)) == n,
    decreases n,
{
    let r = n % 10;
    assert(digit_char(r) as int == r + 48);
    assert('0' as int == 48);
    assert(n == 10 * (n / 10) + r);
    let d = decimal(n);
    assert(d.last() == digit_char(r));
    assert(decimal_value(d) == 10 * decimal_value(d.drop_last()) + (d.last() as int - '0' as int));
    if n < 10 {
        assert(d.drop_last().len() == 0);
        assert(decimal_value(d.drop_last()) == 0);
    } else {
        lemma_decimal_reads_back(n / 10);
        assert(d.drop_last() =~= decimal(n / 10));
        assert forall|i: int| 0 <= i < d.len() implies '0' <= #[trigger] d[i] && d[i] <= '9' by {
            if i < d.len() - 1 {
                assert(d[i] == decimal(n / 10)[i]);
            }
        }
        assert(d[0] == decimal(n / 10)[0]);
    }
}

impl ProxySession {
    /// The address that the proxy connects to for this session: `host:port`.
    pub fn target(&self) -> (a: String)
        ensures
            a@ == self.host@ + ":"@ + decimal(self.port as nat),
    {
        let mut a = self.host.clone();
        a.append(":");
        push_decimal(&mut a, self.port);
        a
    }
}

/// Time that has passed since `created_at` at time `now`; none if the clock
/// reads earlier than `created_at`.
pub open spec fn elapsed(created_at: u64, now: u64) -> int {
    if now >= created_at {
        now - created_at
    } else {
        0
    }
}

/// A session has expired once more than `SESSION_TTL_NANOS` have passed
/// since it was created.
pub open spec fn is_expired(s: SessionView, now: u64) -> bool {
    elapsed(s.created_at, now) > SESSION_TTL_NANOS
}

/// A session has expired exactly when more than 45 seconds have passed
/// since its creation, however long ago that was; and once expired, it stays
/// expired at every later time.
pub proof fn lemma_expiry_is_monotone(s: SessionView, t: u64, later: u64)
    ensures
        is_expired(s, t) <==> (t as int) - (s.created_at as int) > 45_000_000_000,
        is_expired(s, t) && t <= later ==> is_expired(s, later),
{
}

/// A session opened under a fresh id joins the live sessions without
/// disturbing them: the table grows by exactly one, and every session live
/// before keeps its id, host, port, secret and creation time.
pub proof fn lemma_fresh_session_keeps_live_ones(
    m: Map<Seq<char>, SessionView>,
    now: u64,
    id: Seq<char>,
    v: SessionView,
)
    requires
        m.dom().finite(),
        !live_sessions(m, now).contains_key(id),
    ensures
        live_sessions(m, now).dom().finite(),
        live_sessions(m, now).insert(id, v).len() == live_sessions(m, now).len() + 1,
        forall|k: Seq<char>| #[trigger]
            live_sessions(m, now).contains_key(k) ==> live_sessions(m, now).insert(
                id,
                v,
            ).contains_key(k) && live_sessions(m, now).insert(id, v)[k] == m[k],
{
    assert(live_sessions(m, now).dom().subset_of(m.dom()));
    vstd::set_lib::lemma_len_subset(live_sessions(m, now).dom(), m.dom());
}

/// The sessions of `m` that have not expired at time `now`.
pub open spec fn live_sessions(m: Map<Seq<char>, SessionView>, now: u64) -> Map<
    Seq<char>,
    SessionView,
> {
    Map::new(|k: Seq<char>| m.contains_key(k) && !is_expired(m[k], now), |k: Seq<char>| m[k])
}

/// Why a client presenting `id` and `secret` at time `now` is turned away
/// before its connection is admitted, or `None` if it may go on.
pub open spec fn check_error(
    m: Map<Seq<char>, SessionView>,
    id: Seq<char>,
    secret: Seq<char>,
    now: u64,
) -> Option<Seq<char>> {
    if !m.contains_key(id) {
        Some("proxy session not found or already used"@)
    } else if m[id].secret != secret {
        Some("proxy session secret is invalid"@)
    } else if is_expired(m[id], now) {
        Some("proxy session expired"@)
    } else {
        None
    }
}

/// The table after that check: an expired session presented with its own
/// secret is dropped; nothing else changes.
pub open spec fn after_check(
    m: Map<Seq<char>, SessionView>,
    id: Seq<char>,
    secret: Seq<char>,
    now: u64,
) -> Map<Seq<char>, SessionView> {
    if m.contains_key(id) && m[id].secret == secret && is_expired(m[id], now) {
        m.remove(id)
    } else {
        m
    }
}

/// What claiming session `id` with `secret` at time `now` gives: the
/// session, or why it is refused. The session leaves the table either way.
pub open spec fn claim_outcome(
    m: Map<Seq<char>, SessionView>,
    id: Seq<char>,
    secret: Seq<char>,
    now: u64,
) -> Result<SessionView, Seq<char>> {
    if !m.contains_key(id) {
        Err("proxy session already used"@)
    } else if m[id].secret != secret {
        Err("proxy session secret is invalid"@)
    } else if is_expired(m[id], now) {
        Err("proxy session expired"@)
    } else {
        Ok(m[id])
    }
}

/// The URL that a WebView opens to reach a session through the listener at
/// `listen_addr`: `ws://<listen_addr>/vnc/<id>?secret=<secret>`.
pub open spec fn ws_url(listen_addr: Seq<char>, id: Seq<char>, secret: Seq<char>) -> Seq<char> {
    "ws://"@ + listen_addr + session_path(id, secret)
}

pub open spec fn is_lower_hex(c: char) -> bool {
    ('0' <= c && c <= '9') || ('a' <= c && c <= 'f')
}

/// The hyphenated lower-case text of a random (version 4, RFC 4122 variant)
/// UUID, such as `67e55044-10b1-426f-9247-bb680e5fe0c8`.
pub open spec fn is_uuid_v4_text(s: Seq<char>) -> bool {
    &&& s.len() == 36
    &&& forall|i: int|
        0 <= i < 36 ==> if i == 8 || i == 13 || i == 18 || i == 23 {
            s[i] == '-'
        } else {
            is_lower_hex(#[trigger] s[i])
        }
    &&& s[14] == '4'
    &&& (s[19] == '8' || s[19] == '9' || s[19] == 'a' || s[19] == 'b')
}

/// A UUID's text is a non-empty token, so it can stand in a session route.
pub proof fn lemma_uuid_text_is_token(s: Seq<char>)
    requires
        is_uuid_v4_text(s),
    ensures
        s.len() > 0,
        is_token(s),
{
    assert forall|i: int| 0 <= i < s.len() implies is_token_char(#[trigger] s[i]) by {
        if !(i == 8 || i == 13 || i == 18 || i == 23) {
            assert(is_lower_hex(s[i]));
        }
    }
}

/// A fresh random token: `uuid::Uuid::new_v4().to_string()`. The uuid crate
/// sets the version nibble to 4 and the variant bits to `10`, and writes a
/// UUID's text as 32 lower-case hex digits in groups of 8-4-4-4-12 joined
/// by `-`; which digits come out is left to chance.
#[verifier::external_body]
fn random_token() -> (s: String)
    ensures
        is_uuid_v4_text(s@),
{
    uuid::Uuid::new_v4().to_string()
}

/// A session just opened at time `now` can be used by its client with its
/// secret at any time `t` up to `SESSION_TTL_NANOS` later: the check lets
/// the client through and leaves the table as it is, and the claim hands
/// out the session with the host and port it was opened for.
pub proof fn lemma_new_session_redeemable(
    m: Map<Seq<char>, SessionView>,
    now: u64,
    id: Seq<char>,
    host: Seq<char>,
    port: u16,
    secret: Seq<char>,
    t: u64,
)
    requires
        elapsed(now, t) <= SESSION_TTL_NANOS,
    ensures
        ({
            let m1 = live_sessions(m, now).insert(
                id,
                SessionView { host, port, secret, created_at: now },
            );
            &&& check_error(m1, id, secret, t) is None
            &&& after_check(m1, id, secret, t) == m1
            &&& claim_outcome(m1, id, secret, t) == Ok::<_, Seq<char>>(
                SessionView { host, port, secret, created_at: now },
            )
        }),
{
}

/// Sessions are one-time: once a session has been claimed, whatever the
/// outcome, a second claim of it is refused as already used and the check
/// no longer finds it.
pub proof fn lemma_claim_is_one_time(
    m: Map<Seq<char>, SessionView>,
    id: Seq<char>,
    secret: Seq<char>,
    t: u64,
)
    ensures
        claim_outcome(m.remove(id), id, secret, t) == Err::<SessionView, _>(
            "proxy session already used"@,
        ),
        check_error(m.remove(id), id, secret, t) == Some("proxy session not found or already used"@),
{
}

/// A client with the wrong secret is refused by both the check and the
/// claim, and the check leaves the session in place for its rightful client.
pub proof fn lemma_wrong_secret_refused(
    m: Map<Seq<char>, SessionView>,
    id: Seq<char>,
    secret: Seq<char>,
    t: u64,
)
    requires
        m.contains_key(id),
        m[id].secret != secret,
    ensures
        check_error(m, id, secret, t) == Some("proxy session secret is invalid"@),
        after_check(m, id, secret, t) == m,
        claim_outcome(m, id, secret, t) == Err::<SessionView, _>("proxy session secret is invalid"@),
{
}

/// An expired session is refused even with its own secret, and the check
/// drops it from the table.
pub proof fn lemma_expired_session_refused(m: Map<Seq<char>, SessionView>, id: Seq<char>, t: u64)
    requires
        m.contains_key(id),
        is_expired(m[id], t),
    ensures
        check_error(m, id, m[id].secret, t) == Some("proxy session expired"@),
        after_check(m, id, m[id].secret, t) == m.remove(id),
        claim_outcome(m, id, m[id].secret, t) == Err::<SessionView, _>("proxy session expired"@),
{
}

/// Dropping expired sessions leaves none that has expired, keeps every
/// other session as it was, and a second sweep at the same time changes
/// nothing.
pub proof fn lemma_live_sessions(m: Map<Seq<char>, SessionView>, t: u64)
    ensures
        forall|k: Seq<char>| #[trigger]
            live_sessions(m, t).contains_key(k) ==> !is_expired(live_sessions(m, t)[k], t),
        forall|k: Seq<char>|
            m.contains_key(k) && !is_expired(m[k], t) ==> #[trigger] live_sessions(
                m,
                t,
            ).contains_key(k) && live_sessions(m, t)[k] == m[k],
        live_sessions(live_sessions(m, t), t) == live_sessions(m, t),
{
    assert(live_sessions(live_sessions(m, t), t) =~= live_sessions(m, t));
}

/// What `create_session` hands out works: for a session opened at `now`
/// with UUID id and secret (as `create_session` makes them), the request
/// path of its URL names that id and secret, and a client presenting them
/// within `SESSION_TTL_NANOS` passes the check and claims the session.
pub proof fn lemma_created_session_route_works(
    m: Map<Seq<char>, SessionView>,
    now: u64,
    id: Seq<char>,
    host: Seq<char>,
    port: u16,
    secret: Seq<char>,
    t: u64,
)
    requires
        is_uuid_v4_text(id),
        is_uuid_v4_text(secret),
        elapsed(now, t) <= SESSION_TTL_NANOS,
    ensures
        session_route(session_path(id, secret)) == Ok::<_, Seq<char>>((id, secret)),
        ({
            let m1 = live_sessions(m, now).insert(
                id,
                SessionView { host, port, secret, created_at: now },
            );
            &&& check_error(m1, id, secret, t) is None
            &&& claim_outcome(m1, id, secret, t) == Ok::<_, Seq<char>>(
                SessionView { host, port, secret, created_at: now },
            )
        }),
{
    lemma_uuid_text_is_token(id);
    lemma_uuid_text_is_token(secret);
    lemma_session_route_roundtrip(id, secret);
    lemma_new_session_redeemable(m, now, id, host, port, secret, t);
}

/// The lower-case hex digit of `d` (`d < 16`).
pub open spec fn hex_char(d: nat) -> char {
    if d < 10 {
        (d + 48) as char
    } else {
        (d + 87) as char
    }
}

/// 16 to the power `m`.
pub open spec fn pow16(m: nat) -> nat
    decreases m,
{
    if m == 0 {
        1
    } else {
        16 * pow16((m - 1) as nat)
    }
}

/// The last `m` hex digits of `i`, most significant first.
pub open spec fn hex_text(i: nat, m: nat) -> Seq<char>
    decreases m,
{
    if m == 0 {
        Seq::empty()
    } else {
        hex_text(i / 16, (m - 1) as nat).push(hex_char(i % 16))
    }
}

proof fn lemma_hex_text_shape(i: nat, m: nat)
    ensures
        hex_text(i, m).len() == m,
        forall|k: int| 0 <= k < m ==> is_lower_hex(#[trigger] hex_text(i, m)[k]),
    decreases m,
{
    if m > 0 {
        lemma_hex_text_shape(i / 16, (m - 1) as nat);
        let h = hex_text(i, m);
        assert forall|k: int| 0 <= k < m implies is_lower_hex(#[trigger] h[k]) by {
            if k < m - 1 {
                assert(h[k] == hex_text(i / 16, (m - 1) as nat)[k]);
            } else {
                let d = i % 16;
                if d < 10 {
                    assert(h[k] as int == d + 48);
                } else {
                    assert(h[k] as int == d + 87);
                }
            }
        }
    }
}

/// Numbers below `16^m` have distinct `m`-digit hex texts.
proof fn lemma_hex_text_injective(i: nat, j: nat, m: nat)
    requires
        i < pow16(m),
        j < pow16(m),
        hex_text(i, m) == hex_text(j, m),
    ensures
        i == j,
    decreases m,
{
    if m > 0 {
        let a = i % 16;
        let b = j % 16;
        assert(hex_text(i, m).last() == hex_char(a));
        assert(hex_text(j, m).last() == hex_char(b));
        assert(hex_char(a) as int == if a < 10 { a + 48 } else { a + 87 });
        assert(hex_char(b) as int == if b < 10 { b + 48 } else { b + 87 });
        assert(a == b);
        assert(hex_text(i, m).drop_last() == hex_text(i / 16, (m - 1) as nat));
        assert(hex_text(j, m).drop_last() == hex_text(j / 16, (m - 1) as nat));
        assert(i / 16 < pow16((m - 1) as nat));
        assert(j / 16 < pow16((m - 1) as nat));
        lemma_hex_text_injective(i / 16, j / 16, (m - 1) as nat);
    } else {
        assert(i == 0 && j == 0);
    }
}

/// A UUID text that differs from the random text `t` in the 16 hex digits
/// at positions 9..13 and 24..36, which spell `i` in hex.
pub open spec fn numbered_uuid(t: Seq<char>, i: nat) -> Seq<char> {
    let h = hex_text(i, 16);
    t.subrange(0, 9) + h.subrange(0, 4) + t.subrange(13, 24) + h.subrange(4, 16)
}

proof fn lemma_numbered_uuid(t: Seq<char>, i: nat, j: nat)
    requires
        is_uuid_v4_text(t),
        i < pow16(16),
        j < pow16(16),
    ensures
        is_uuid_v4_text(numbered_uuid(t, i)),
        numbered_uuid(t, i) == numbered_uuid(t, j) ==> i == j,
{
    lemma_hex_text_shape(i, 16);
    lemma_hex_text_shape(j, 16);
    let c = numbered_uuid(t, i);
    let hi = hex_text(i, 16);
    assert forall|k: int| 0 <= k < 36 implies if k == 8 || k == 13 || k == 18 || k == 23 {
        c[k] == '-'
    } else {
        is_lower_hex(#[trigger] c[k])
    } by {
        if k < 9 {
            assert(c[k] == t[k]);
        } else if k < 13 {
            assert(c[k] == hi[k - 9]);
        } else if k < 24 {
            assert(c[k] == t[k]);
        } else {
            assert(c[k] == hi[k - 20]);
        }
    }
    assert(c[14] == t[14]);
    assert(c[19] == t[19]);
    if numbered_uuid(t, i) == numbered_uuid(t, j) {
        let hj = hex_text(j, 16);
        let d = numbered_uuid(t, j);
        assert(c.subrange(9, 13) =~= hi.subrange(0, 4));
        assert(d.subrange(9, 13) =~= hj.subrange(0, 4));
        assert(c.subrange(24, 36) =~= hi.subrange(4, 16));
        assert(d.subrange(24, 36) =~= hj.subrange(4, 16));
        assert(hi =~= hi.subrange(0, 4) + hi.subrange(4, 16));
        assert(hj =~= hj.subrange(0, 4) + hj.subrange(4, 16));
        lemma_hex_text_injective(i, j, 16);
    }
}

fn hex_digit_text(d: usize) -> (t: &'static str)
    requires
        d < 16,
    ensures
        t@ == seq![hex_char(d as nat)],
{
    proof {
        reveal_strlit("0");
        reveal_strlit("1");
        reveal_strlit("2");
        reveal_strlit("3");
        reveal_strlit("4");
        reveal_strlit("5");
        reveal_strlit("6");
        reveal_strlit("7");
        reveal_strlit("8");
        reveal_strlit("9");
        reveal_strlit("a");
        reveal_strlit("b");
        reveal_strlit("c");
        reveal_strlit("d");
        reveal_strlit("e");
        reveal_strlit("f");
    }
    match d {
        0 => "0",
        1 => "1",
        2 => "2",
        3 => "3",
        4 => "4",
        5 => "5",
        6 => "6",
        7 => "7",
        8 => "8",
        9 => "9",
        10 => "a",
        11 => "b",
        12 => "c",
        13 => "d",
        14 => "e",
        _ => "f",
    }
}

/// Appends the last `m` hex digits of `i` to `out`.
fn push_hex(out: &mut String, i: usize, m: usize)
    ensures
        final(out)@ == old(out)@ + hex_text(i as nat, m as nat),
    decreases m,
{
    if m > 0 {
        push_hex(out, i / 16, m - 1);
        out.append(hex_digit_text(i % 16));
        assert(out@ =~= old(out)@ + hex_text(i as nat, m as nat));
    } else {
        assert(out@ =~= old(out)@ + hex_text(i as nat, m as nat));
    }
}

/// `numbered_uuid(t, i)` as a `String`.
fn numbered_uuid_exec(t: &String, i: usize) -> (c: String)
    requires
        is_uuid_v4_text(t@),
    ensures
        c@ == numbered_uuid(t@, i as nat),
{
    let mut h = String::new();
    push_hex(&mut h, i, 16);
    proof {
        lemma_hex_text_shape(i as nat, 16);
    }
    let mut c = String::new();
    c.append(t.as_str().substring_char(0, 9));
    c.append(h.as_str().substring_char(0, 4));
    c.append(t.as_str().substring_char(13, 24));
    c.append(h.as_str().substring_char(4, 16));
    assert(c@ =~= numbered_uuid(t@, i as nat));
    c
}

/// A session under its id.
struct SessionEntry {
    id: String,
    session: ProxySession,
}

/// The sessions that wait for their clients, by id. Ids are unique, as the
/// keys of a map.
pub struct SessionTable {
    entries: Vec<SessionEntry>,
    map: Ghost<Map<Seq<char>, SessionView>>,
}

impl View for SessionTable {
    type V = Map<Seq<char>, SessionView>;

    closed spec fn view(&self) -> Map<Seq<char>, SessionView> {
        self.map@
    }
}

/// The response to a request for a new session: its id and the URL that
/// reaches it.
pub struct ProxySessionResponse {
    pub session_id: String,
    pub ws_url: String,
}

/// What the proxy reports of itself: where it listens, if it has started,
/// and how many sessions wait for their clients.
pub struct ProxyStatus {
    pub listen_addr: Option<String>,
    pub active_sessions: usize,
}

impl SessionTable {
    /// The entries agree with the map: their ids are distinct, each is a key
    /// of the map holding that entry's session, and the map has no other key.
    pub closed spec fn wf(&self) -> bool {
        &&& forall|i: int, j: int|
            0 <= i < j < self.entries@.len() ==> #[trigger] self.entries@[i].id@
                != #[trigger] self.entries@[j].id@
        &&& forall|i: int|
            0 <= i < self.entries@.len() ==> self.map@.contains_key(
                #[trigger] self.entries@[i].id@,
            ) && self.map@[self.entries@[i].id@] == self.entries@[i].session@
        &&& forall|k: Seq<char>|
            #[trigger] self.map@.contains_key(k) ==> exists|i: int|
                0 <= i < self.entries@.len() && self.entries@[i].id@ == k
        &&& self.map@.dom().finite()
        &&& self.map@.len() == self.entries@.len()
    }

    /// An empty table.
    pub fn new() -> (t: SessionTable)
        ensures
            t.wf(),
            t@ == Map::<Seq<char>, SessionView>::empty(),
    {
        SessionTable { entries: Vec::new(), map: Ghost(Map::empty()) }
    }

    /// Number of sessions in the table.
    pub fn len(&self) -> (n: usize)
        requires
            self.wf(),
        ensures
            n == self@.len(),
    {
        self.entries.len()
    }

    /// Position of the entry with id `id`, if there is one.
    fn position(&self, id: &String) -> (r: Option<usize>)
        requires
            self.wf(),
        ensures
            match r {
                Some(i) => i < self.entries@.len() && self.entries@[i as int].id@ == id@,
                None => !self@.contains_key(id@),
            },
    {
        let mut i: usize = 0;
        while i < self.entries.len()
            invariant
                self.wf(),
                i <= self.entries@.len(),
                forall|j: int| 0 <= j < i ==> self.entries@[j].id@ != id@,
            decreases self.entries@.len() - i,
        {
            if self.entries[i].id == *id {
                return Some(i);
            }
            i = i + 1;
        }
        None
    }

    /// Puts `session` under `id`, in place of any session that had that id.
    pub fn insert(&mut self, id: String, session: ProxySession)
        requires
            old(self).wf(),
        ensures
            final(self).wf(),
            final(self)@ == old(self)@.insert(id@, session@),
    {
        let ghost key = id@;
        let ghost val = session@;
        match self.position(&id) {
            Some(i) => {
                proof {
                    assert(self.map@.insert(key, val).dom() =~= self.map@.dom());
                }
                self.entries.set(i, SessionEntry { id, session });
                self.map = Ghost(self.map@.insert(key, val));
                assert forall|k: Seq<char>| #[trigger]
                    self.map@.contains_key(k) implies exists|j: int|
                    0 <= j < self.entries@.len() && self.entries@[j].id@ == k by {
                    let j = choose|j: int|
                        0 <= j < old(self).entries@.len() && old(self).entries@[j].id@ == k;
                    assert(self.entries@[j].id@ == k);
                }
            },
            None => {
                self.entries.push(SessionEntry { id, session });
                self.map = Ghost(self.map@.insert(key, val));
                assert forall|k: Seq<char>| #[trigger]
                    self.map@.contains_key(k) implies exists|j: int|
                    0 <= j < self.entries@.len() && self.entries@[j].id@ == k by {
                    if k != key {
                        let j = choose|j: int|
                            0 <= j < old(self).entries@.len() && old(self).entries@[j].id@ == k;
                        assert(self.entries@[j].id@ == k);
                    } else {
                        assert(self.entries@[self.entries@.len() - 1].id@ == k);
                    }
                }
            },
        }
    }

    /// Removes the entry at position `i`, keeping the table well formed.
    fn remove_at(&mut self, i: usize) -> (e: SessionEntry)
        requires
            old(self).wf(),
            i < old(self).entries@.len(),
        ensures
            final(self).wf(),
            e == old(self).entries@[i as int],
            final(self)@ == old(self)@.remove(e.id@),
            final(self).entries@ == old(self).entries@.remove(i as int),
    {
        let ghost key = self.entries@[i as int].id@;
        proof {
            self.map@.lemma_remove_key_len(key);
        }
        let e = self.entries.remove(i);
        self.map = Ghost(self.map@.remove(key));
        assert forall|a: int, b: int|
            0 <= a < b < self.entries@.len() implies #[trigger] self.entries@[a].id@
            != #[trigger] self.entries@[b].id@ by {
            let a0 = if a < i { a } else { a + 1 };
            let b0 = if b < i { b } else { b + 1 };
            assert(self.entries@[a] == old(self).entries@[a0]);
            assert(self.entries@[b] == old(self).entries@[b0]);
        }
        assert forall|a: int| 0 <= a < self.entries@.len() implies self.map@.contains_key(
            #[trigger] self.entries@[a].id@,
        ) && self.map@[self.entries@[a].id@] == self.entries@[a].session@ by {
            let a0 = if a < i { a } else { a + 1 };
            assert(self.entries@[a] == old(self).entries@[a0]);
        }
        assert forall|k: Seq<char>| #[trigger]
            self.map@.contains_key(k) implies exists|j: int|
            0 <= j < self.entries@.len() && self.entries@[j].id@ == k by {
            let j = choose|j: int|
                0 <= j < old(self).entries@.len() && old(self).entries@[j].id@ == k;
            if j < i {
                assert(self.entries@[j].id@ == k);
            } else {
                assert(self.entries@[j - 1].id@ == k);
            }
        }
        e
    }

    /// Takes the session with id `id` out of the table, if there is one.
    pub fn remove(&mut self, id: &String) -> (r: Option<ProxySession>)
        requires
            old(self).wf(),
        ensures
            final(self).wf(),
            final(self)@ == old(self)@.remove(id@),
            match r {
                Some(s) => old(self)@.contains_key(id@) && s@ == old(self)@[id@],
                None => !old(self)@.contains_key(id@),
            },
    {
        match self.position(id) {
            Some(i) => {
                let e = self.remove_at(i);
                Some(e.session)
            },
            None => {
                assert(self.map@.remove(id@) =~= self.map@);
                None
            },
        }
    }
    /// Whether the session at position `i` has expired at time `now`.
    fn expired_at(&self, i: usize, now: u64) -> (b: bool)
        requires
            i < self.entries@.len(),
        ensures
            b == is_expired(self.entries@[i as int].session@, now),
    {
        let created = self.entries[i].session.created_at;
        now >= created && now - created > SESSION_TTL_NANOS
    }

    /// Drops every session that has expired at time `now`.
    pub fn remove_expired(&mut self, now: u64)
        requires
            old(self).wf(),
        ensures
            final(self).wf(),
            final(self)@ == live_sessions(old(self)@, now),
    {
        let ghost m0 = self@;
        let mut i: usize = 0;
        while i < self.entries.len()
            invariant
                self.wf(),
                i <= self.entries@.len(),
                forall|j: int| 0 <= j < i ==> !is_expired(#[trigger] self.entries@[j].session@, now),
                forall|k: Seq<char>| #[trigger]
                    self@.contains_key(k) ==> m0.contains_key(k) && self@[k] == m0[k],
                forall|k: Seq<char>|
                    m0.contains_key(k) && !#[trigger] self@.contains_key(k) ==> is_expired(
                        m0[k],
                        now,
                    ),
            decreases self.entries@.len() - i,
        {
            if self.expired_at(i, now) {
                let ghost before = self.entries@;
                self.remove_at(i);
                assert forall|j: int| 0 <= j < i implies !is_expired(
                    #[trigger] self.entries@[j].session@,
                    now,
                ) by {
                    assert(self.entries@[j] == before[j]);
                }
            } else {
                i = i + 1;
            }
        }
        assert forall|k: Seq<char>| #[trigger]
            live_sessions(m0, now).contains_key(k) implies self@.contains_key(k) by {}
        assert forall|k: Seq<char>| #[trigger]
            self@.contains_key(k) implies live_sessions(m0, now).contains_key(k) by {
            let j = choose|j: int| 0 <= j < self.entries@.len() && self.entries@[j].id@ == k;
            assert(!is_expired(self.entries@[j].session@, now));
        }
        assert(self@ =~= live_sessions(m0, now));
    }

    /// The check made once a client's handshake is done, before its
    /// connection is admitted: the session must exist, the secret must be
    /// its own and it must not have expired. An expired session presented
    /// with its own secret is dropped.
    pub fn check_session(&mut self, id: &String, secret: &String, now: u64) -> (r: Result<
        (),
        String,
    >)
        requires
            old(self).wf(),
        ensures
            final(self).wf(),
            final(self)@ == after_check(old(self)@, id@, secret@, now),
            match r {
                Ok(()) => check_error(old(self)@, id@, secret@, now) is None,
                Err(e) => check_error(old(self)@, id@, secret@, now) == Some(e@),
            },
    {
        match self.position(id) {
            None => Err("proxy session not found or already used".to_string()),
            Some(i) => {
                if !(self.entries[i].session.secret == *secret) {
                    return Err("proxy session secret is invalid".to_string());
                }
                if self.expired_at(i, now) {
                    self.remove_at(i);
                    return Err("proxy session expired".to_string());
                }
                Ok(())
            },
        }
    }

    /// Claims session `id` for the client that presents `secret` at time
    /// `now`: the session leaves the table whatever the outcome, so that it
    /// serves one connection at most, and is handed out only if the secret
    /// is its own and it has not expired.
    pub fn claim_session(&mut self, id: &String, secret: &String, now: u64) -> (r: Result<
        ProxySession,
        String,
    >)
        requires
            old(self).wf(),
        ensures
            final(self).wf(),
            final(self)@ == old(self)@.remove(id@),
            match r {
                Ok(s) => claim_outcome(old(self)@, id@, secret@, now) == Ok::<_, Seq<char>>(s@),
                Err(e) => claim_outcome(old(self)@, id@, secret@, now) == Err::<SessionView, _>(
                    e@,
                ),
            },
    {
        let session = match self.remove(id) {
            None => {
                return Err("proxy session already used".to_string());
            },
            Some(s) => s,
        };
        if !(session.secret == *secret) {
            return Err("proxy session secret is invalid".to_string());
        }
        if now >= session.created_at && now - session.created_at > SESSION_TTL_NANOS {
            return Err("proxy session expired".to_string());
        }
        Ok(session)
    }

    /// A UUID text that is not the id of any session in the table: the
    /// random `t` itself when it is free, else the first free text among
    /// `numbered_uuid(t, 0)`, `numbered_uuid(t, 1)`, ... (one of the first
    /// `len() + 1` of them is free, since they are all distinct).
    fn fresh_id(&self, t: String) -> (id: String)
        requires
            self.wf(),
            is_uuid_v4_text(t@),
        ensures
            is_uuid_v4_text(id@),
            !self@.contains_key(id@),
    {
        if self.position(&t).is_none() {
            return t;
        }
        proof {
            assert(pow16(16) == 0x1_0000_0000_0000_0000nat) by {
                reveal_with_fuel(pow16, 17);
            }
        }
        let n = self.entries.len();
        let mut i: usize = 0;
        let ghost mut seen: Set<Seq<char>> = Set::empty();
        let mut c = numbered_uuid_exec(&t, 0);
        while self.position(&c).is_some()
            invariant
                self.wf(),
                is_uuid_v4_text(t@),
                pow16(16) == 0x1_0000_0000_0000_0000nat,
                n == self.entries@.len(),
                i <= n,
                c@ == numbered_uuid(t@, i as nat),
                seen.finite(),
                seen.len() == i,
                seen.subset_of(self@.dom()),
                forall|x: Seq<char>|
                    #[trigger] seen.contains(x) ==> exists|k: nat|
                        k < i && x == numbered_uuid(t@, k),
            decreases n - i,
        {
            proof {
                if seen.contains(c@) {
                    let k = choose|k: nat| k < i && c@ == numbered_uuid(t@, k);
                    lemma_numbered_uuid(t@, i as nat, k);
                }
                assert(!seen.contains(c@));
                assert(self@.contains_key(c@));
                let seen2 = seen.insert(c@);
                assert(seen2.len() == i + 1);
                vstd::set_lib::lemma_len_subset(seen2, self@.dom());
                assert(i + 1 <= self.entries@.len());
                seen = seen2;
            }
            i = i + 1;
            c = numbered_uuid_exec(&t, i);
        }
        proof {
            lemma_numbered_uuid(t@, i as nat, i as nat);
        }
        c
    }

    /// Opens a session to `host:port` on the proxy listening at
    /// `listen_addr`, at time `now`: the target is checked as
    /// `validate_target` checks it, expired sessions are dropped, and the new
    /// session gets a random id and a random secret. The response carries
    /// the id and the URL that reaches the session.
    pub fn create_session(&mut self, host: String, port: u16, listen_addr: &str, now: u64) -> (r:
        Result<ProxySessionResponse, String>)
        requires
            old(self).wf(),
        ensures
            final(self).wf(),
            match r {
                Err(e) => target_error(host@, port) == Some(e@) && final(self)@ == old(self)@,
                Ok(resp) => {
                    let id = resp.session_id@;
                    let secret = final(self)@[id].secret;
                    &&& target_error(host@, port) is None
                    &&& is_uuid_v4_text(id)
                    &&& is_uuid_v4_text(secret)
                    &&& !live_sessions(old(self)@, now).contains_key(id)
                    &&& final(self)@.len() == live_sessions(old(self)@, now).len() + 1
                    &&& final(self)@ == live_sessions(old(self)@, now).insert(
                        id,
                        SessionView { host: host@, port, secret, created_at: now },
                    )
                    &&& resp.ws_url@ == ws_url(listen_addr@, id, secret)
                },
            },
    {
        match validate_target(host.as_str(), port) {
            Err(e) => {
                return Err(e);
            },
            Ok(()) => {},
        }
        self.remove_expired(now);
        let session_id = self.fresh_id(random_token());
        let secret = random_token();
        let mut ws_url = String::new();
        ws_url.append("ws://");
        ws_url.append(listen_addr);
        ws_url.append("/vnc/");
        ws_url.append(session_id.as_str());
        ws_url.append("?secret=");
        ws_url.append(secret.as_str());
        let session = ProxySession { host, port, secret: secret.clone(), created_at: now };
        self.insert(session_id.clone(), session);
        Ok(ProxySessionResponse { session_id, ws_url })
    }

    /// The proxy's status, given where it listens.
    pub fn status(&self, listen_addr: Option<String>) -> (s: ProxyStatus)
        requires
            self.wf(),
        ensures
            s.listen_addr == listen_addr,
            s.active_sessions == self@.len(),
    {
        ProxyStatus { listen_addr, active_sessions: self.len() }
    }
}

} // verus!
