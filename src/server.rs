//! The connection gateway: which requests become client streams, what becomes of a finished
//! handshake, and the listing answered to every other request.

use hyper::upgrade::Upgraded;
use hyper_util::rt::TokioIo;
use tokio_tungstenite::WebSocketStream;
use vstd::prelude::*;
use vstd::string::StringExecFns;

verus! {

/// An upgraded HTTP connection of hyper, carried through untouched.
#[verifier::external_type_specification]
#[verifier::external_body]
pub struct ExUpgraded(Upgraded);

/// hyper-util's adapter between tokio's and hyper's I/O traits, carried through untouched.
#[verifier::external_type_specification]
#[verifier::external_body]
#[verifier::reject_recursive_types(T)]
pub struct ExTokioIo<T>(TokioIo<T>);

/// A WebSocket stream of tokio-tungstenite, carried through untouched.
#[verifier::external_type_specification]
#[verifier::external_body]
#[verifier::reject_recursive_types(S)]
pub struct ExWebSocketStream<S>(WebSocketStream<S>);

/// A client WebSocket read and write stream
pub type ClientStream = WebSocketStream<TokioIo<Upgraded>>;

/// How the gateway answers a request.
#[derive(PartialEq, Eq, Structural, Debug, Clone, Copy)]
pub enum Route {
    /// Perform the handshake, answer with its response and deliver the stream once the
    /// handshake completes.
    Upgrade,
    /// Answer from a snapshot of the registry; nothing is delivered.
    Listing,
}

/// The values of the two headers that decide an upgrade, one entry per header line, as
/// bytes.
pub struct UpgradeHeaders {
    /// The values of the `Connection` header
    pub connection: Vec<Vec<u8>>,
    /// The values of the `Upgrade` header
    pub upgrade: Vec<Vec<u8>>,
}

/// ASCII whitespace: space, tab, line feed, form feed, carriage return.
pub open spec fn is_ws(c: u8) -> bool {
    c == 32 || c == 9 || c == 10 || c == 12 || c == 13
}

/// A byte with ASCII upper case letters taken to lower case.
pub open spec fn ascii_lower(c: u8) -> u8 {
    if 65 <= c <= 90 {
        (c + 32) as u8
    } else {
        c
    }
}

/// Equality ignoring ASCII case.
pub open spec fn eq_ignore_case(x: Seq<u8>, y: Seq<u8>) -> bool {
    x.len() == y.len() && forall|k: int| 0 <= k < x.len() ==> ascii_lower(x[k]) == ascii_lower(y[k])
}

/// Every byte of `v` in `[lo, hi)` is whitespace.
pub open spec fn ws_only(v: Seq<u8>, lo: int, hi: int) -> bool {
    forall|k: int| lo <= k < hi ==> is_ws(#[trigger] v[k])
}

/// `[i, j)` is one comma-separated item of `v`, and `[a, b)` is that item with its
/// surrounding whitespace trimmed, equal to `token` ignoring ASCII case.
pub open spec fn token_at(v: Seq<u8>, token: Seq<u8>, i: int, a: int, b: int, j: int) -> bool {
    &&& 0 <= i <= a <= b <= j <= v.len()
    &&& (i == 0 || v[i - 1] == 44)
    &&& (j == v.len() || v[j] == 44)
    &&& forall|k: int| i <= k < j ==> #[trigger] v[k] != 44
    &&& ws_only(v, i, a)
    &&& ws_only(v, b, j)
    &&& (a < b ==> !is_ws(v[a]) && !is_ws(v[b - 1]))
    &&& eq_ignore_case(v.subrange(a, b), token)
}

/// A header value lists `token`: one of its comma-separated items, trimmed of ASCII
/// whitespace, equals `token` ignoring ASCII case.
pub open spec fn lists_token(v: Seq<u8>, token: Seq<u8>) -> bool {
    exists|i: int, a: int, b: int, j: int| #[trigger] token_at(v, token, i, a, b, j)
}

/// Some value of a header lists `token`.
pub open spec fn header_lists(values: Seq<Vec<u8>>, token: Seq<u8>) -> bool {
    exists|n: int| 0 <= n < values.len() && lists_token(#[trigger] values[n]@, token)
}

/// A request asks for a WebSocket upgrade: its `Connection` header lists `upgrade` and its
/// `Upgrade` header lists `websocket`.
pub open spec fn wants_upgrade(h: UpgradeHeaders) -> bool {
    header_lists(h.connection@, seq![117u8, 112, 103, 114, 97, 100, 101])
        && header_lists(h.upgrade@, seq![119u8, 101, 98, 115, 111, 99, 107, 101, 116])
}

fn ascii_lower_byte(c: u8) -> (r: u8)
    ensures
        r == ascii_lower(c),
{
    if 65 <= c && c <= 90 {
        c + 32
    } else {
        c
    }
}

fn is_ws_byte(c: u8) -> (r: bool)
    ensures
        r == is_ws(c),
{
    c == 32 || c == 9 || c == 10 || c == 12 || c == 13
}

/// Whether `v[a..b]` equals `token` ignoring ASCII case.
fn range_eq_ignore_case(v: &Vec<u8>, a: usize, b: usize, token: &Vec<u8>) -> (r: bool)
    requires
        a <= b <= v@.len(),
    ensures
        r == eq_ignore_case(v@.subrange(a as int, b as int), token@),
{
    if b - a != token.len() {
        return false;
    }
    let mut k: usize = 0;
    while k < token.len()
        invariant
            a <= b <= v@.len(),
            b - a == token@.len(),
            k <= token@.len(),
            forall|m: int| 0 <= m < k ==> ascii_lower(v@[a + m]) == ascii_lower(token@[m]),
        decreases token@.len() - k,
    {
        if ascii_lower_byte(v[a + k]) != ascii_lower_byte(token[k]) {
            assert(v@.subrange(a as int, b as int)[k as int] == v@[a + k]);
            return false;
        }
        k = k + 1;
    }
    assert forall|m: int| 0 <= m < token@.len() implies ascii_lower(
        v@.subrange(a as int, b as int)[m],
    ) == ascii_lower(token@[m]) by {
        assert(v@.subrange(a as int, b as int)[m] == v@[a + m]);
    }
    true
}

/// Whether a header value lists `token`, as hyper-tungstenite reads it: the value is split
/// at commas, each item trimmed of ASCII whitespace and compared ignoring ASCII case.
fn value_lists(v: &Vec<u8>, token: &Vec<u8>) -> (r: bool)
    ensures
        r == lists_token(v@, token@),
{
    let len = v.len();
    let mut i: usize = 0;
    loop
        invariant
            len == v@.len(),
            i <= len,
            i == 0 || v@[i - 1] == 44,
            forall|i2: int, a2: int, b2: int, j2: int|
                #[trigger] token_at(v@, token@, i2, a2, b2, j2) ==> i2 >= i,
        decreases len - i,
    {
        let mut j: usize = i;
        while j < len && v[j] != 44
            invariant
                len == v@.len(),
                i <= j <= len,
                forall|k: int| i <= k < j ==> v@[k] != 44,
            decreases len - j,
        {
            j = j + 1;
        }
        let mut a: usize = i;
        while a < j && is_ws_byte(v[a])
            invariant
                len == v@.len(),
                i <= a <= j <= len,
                ws_only(v@, i as int, a as int),
            decreases j - a,
        {
            a = a + 1;
        }
        let mut b: usize = j;
        while b > a && is_ws_byte(v[b - 1])
            invariant
                len == v@.len(),
                a <= b <= j <= len,
                ws_only(v@, b as int, j as int),
            decreases b - a,
        {
            b = b - 1;
        }
        proof {
            assert forall|i2: int, a2: int, b2: int, j2: int|
                #[trigger] token_at(v@, token@, i2, a2, b2, j2) && i2 <= j implies i2 == i && j2 == j
                && (a2 < b2 ==> a2 == a && b2 == b) && (a2 == b2 ==> a == b) by {
                if i2 > i {
                    assert(v@[i2 - 1] != 44);
                }
                if j2 < j {
                    assert(v@[j2] != 44);
                }
                if j2 > j {
                    assert(v@[j as int] != 44);
                }
                if a2 < b2 {
                    if a < a2 {
                        assert(is_ws(v@[a as int]));
                    }
                    if a > a2 {
                        assert(is_ws(v@[a2]));
                    }
                    if b < b2 {
                        assert(is_ws(v@[b2 - 1]));
                    }
                    if b > b2 {
                        assert(is_ws(v@[b - 1]));
                    }
                } else {
                    if a < j {
                        assert(is_ws(v@[a as int]));
                    }
                }
            }
        }
        if range_eq_ignore_case(v, a, b, token) {
            assert(token_at(v@, token@, i as int, a as int, b as int, j as int));
            return true;
        }
        proof {
            assert forall|i2: int, a2: int, b2: int, j2: int|
                #[trigger] token_at(v@, token@, i2, a2, b2, j2) implies i2 > j by {
                if i2 <= j {
                    if a2 == b2 {
                        assert(v@.subrange(a2, b2) =~= v@.subrange(a as int, b as int));
                    }
                }
            }
        }
        if j == len {
            return false;
        }
        i = j + 1;
    }
}

/// Whether some value of a header lists `token`.
fn header_lists_token(values: &Vec<Vec<u8>>, token: &Vec<u8>) -> (r: bool)
    ensures
        r == header_lists(values@, token@),
{
    let mut n: usize = 0;
    while n < values.len()
        invariant
            n <= values@.len(),
            forall|m: int| 0 <= m < n ==> !lists_token(#[trigger] values@[m]@, token@),
        decreases values@.len() - n,
    {
        if value_lists(&values[n], token) {
            return true;
        }
        n = n + 1;
    }
    false
}

/// Routes an inbound request by its headers: a WebSocket upgrade request goes to the
/// handshake, any other request is answered with a listing.
pub fn route_request(headers: &UpgradeHeaders) -> (r: Route)
    ensures
        r == (if wants_upgrade(*headers) {
            Route::Upgrade
        } else {
            Route::Listing
        }),
{
    let upgrade_token: Vec<u8> = vec![117u8, 112, 103, 114, 97, 100, 101];
    let websocket_token: Vec<u8> = vec![119u8, 101, 98, 115, 111, 99, 107, 101, 116];
    assert(upgrade_token@ == seq![117u8, 112, 103, 114, 97, 100, 101]);
    assert(websocket_token@ == seq![119u8, 101, 98, 115, 111, 99, 107, 101, 116]);
    let upgrade = header_lists_token(&headers.connection, &upgrade_token)
        && header_lists_token(&headers.upgrade, &websocket_token);
    route_of(upgrade)
}

/// Routes a request by whether it asks for a protocol upgrade.
pub fn route_of(upgrade_requested: bool) -> (r: Route)
    ensures
        r == (if upgrade_requested {
            Route::Upgrade
        } else {
            Route::Listing
        }),
{
    if upgrade_requested {
        Route::Upgrade
    } else {
        Route::Listing
    }
}

/// What becomes of a connection once its handshake has completed: a stream to deliver on
/// success, nothing on failure (the connection is dropped, never retried).
pub fn handoff<S, E>(outcome: Result<S, E>) -> (r: Option<S>)
    ensures
        match outcome {
            Ok(s) => r == Some(s),
            Err(_) => r is None,
        },
{
    match outcome {
        Ok(s) => Some(s),
        Err(_) => None,
    }
}

/// The text of a listing: each name followed by a line break.
pub open spec fn listing_text(names: Seq<Seq<char>>) -> Seq<char>
    decreases names.len(),
{
    if names.len() == 0 {
        Seq::empty()
    } else {
        listing_text(names.drop_last()) + names.last() + seq!['\n']
    }
}

/// The body of the answer to a non-upgrade request: the session names, one per line.
pub fn listing_body(names: &Vec<String>) -> (r: String)
    ensures
        r@ == listing_text(names@.map_values(|s: String| s@)),
{
    let ghost views = names@.map_values(|s: String| s@);
    let mut out = String::new();
    let mut i: usize = 0;
    while i < names.len()
        invariant
            i <= names@.len(),
            views == names@.map_values(|s: String| s@),
            out@ == listing_text(views.subrange(0, i as int)),
        decreases names@.len() - i,
    {
        proof {
            reveal_strlit("\n");
            assert(views.subrange(0, i + 1).drop_last() =~= views.subrange(0, i as int));
        }
        out.append(names[i].as_str());
        out.append("\n");
        i = i + 1;
    }
    assert(views.subrange(0, names@.len() as int) =~= views);
    out
}

} // verus!
