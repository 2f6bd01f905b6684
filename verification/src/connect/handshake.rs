//! The response that accepts a websocket.

use headers::{Header, HeaderValue, SecWebsocketAccept, SecWebsocketKey};
use vstd::prelude::*;

use crate::connect::request::{
    law_view_shows_the_response, ResponseHead, ResponseView, SWITCHING_PROTOCOLS,
};

verus! {

/// The value of the `Sec-WebSocket-Accept` header that answers a key:
/// `headers::SecWebsocketAccept::from` of it.
pub uninterp spec fn websocket_accept(key: Seq<u8>) -> Seq<char>;

/// The bytes can stand in the value of a header: printable, or a tab, or
/// outside of ASCII.
pub open spec fn is_header_value(bytes: Seq<u8>) -> bool {
    forall|i: int|
        0 <= i < bytes.len() ==> (#[trigger] bytes[i] >= 32 && bytes[i] != 127 || bytes[i] == 9)
}

/// Calls `headers::SecWebsocketAccept::from`, which signs the value of a
/// `Sec-WebSocket-Key` header. Claims that the text of the signature depends on
/// the bytes of the key alone, and that there is one exactly when the bytes can
/// stand in a header.
#[verifier::external_body]
fn sign_key(key: &Vec<u8>) -> (accept: Option<String>)
    ensures
        accept is Some <==> is_header_value(key@),
        accept matches Some(text) ==> text@ == websocket_accept(key@),
{
    let value = HeaderValue::from_bytes(key).ok()?;
    let key = SecWebsocketKey::decode(&mut std::iter::once(&value)).ok()?;
    let mut values: Vec<HeaderValue> = Vec::new();
    SecWebsocketAccept::from(key).encode(&mut values);
    values.pop()?.to_str().ok().map(String::from)
}

/// The headers of the response that accepts a websocket, given the answer to
/// the key of the request.
pub open spec fn handshake_headers(accept: Option<Seq<char>>) -> Seq<(Seq<char>, Seq<char>)> {
    let headers = seq![("connection"@, "upgrade"@), ("upgrade"@, "websocket"@)];
    match accept {
        Some(text) => headers.push(("sec-websocket-accept"@, text)),
        None => headers,
    }
}

/// The answer to the keys of a request: the first one counts.
pub open spec fn answer_to_keys(keys: Seq<Vec<u8>>) -> Option<Seq<char>> {
    if keys.len() > 0 && is_header_value(keys[0]@) {
        Some(websocket_accept(keys[0]@))
    } else {
        None
    }
}

/// Makes the response that accepts a websocket, given the answer to the key of
/// the request.
pub fn switching_protocols(accept: Option<String>) -> (response: ResponseHead)
    ensures
        response@ == (ResponseView {
            status: SWITCHING_PROTOCOLS,
            headers: handshake_headers(
                match accept {
                    Some(text) => Some(text@),
                    None => None,
                },
            ),
        }),
{
    let mut response = ResponseHead::of_status(SWITCHING_PROTOCOLS);
    response.add_header("connection", "upgrade".to_owned());
    response.add_header("upgrade", "websocket".to_owned());
    proof {
        assert(response@.headers =~= seq![("connection"@, "upgrade"@), ("upgrade"@, "websocket"@)]);
    }
    if let Some(text) = accept {
        response.add_header("sec-websocket-accept", text);
    }
    response
}

/// Makes the response that accepts a websocket, given the values of the
/// `Sec-WebSocket-Key` headers of the request.
pub fn handshake(keys: &Vec<Vec<u8>>) -> (response: ResponseHead)
    ensures
        response@ == (ResponseView {
            status: SWITCHING_PROTOCOLS,
            headers: handshake_headers(answer_to_keys(keys@)),
        }),
        response.status == 101,
        keys@.len() > 0 && (forall|i: int|
            0 <= i < keys@[0]@.len() ==> (#[trigger] keys@[0]@[i] == 9 || keys@[0]@[i] >= 32
                && keys@[0]@[i] != 127)) ==> response@.headers.contains(
            ("sec-websocket-accept"@, websocket_accept(keys@[0]@)),
        ),
{
    let accept = if keys.len() > 0 {
        sign_key(&keys[0])
    } else {
        None
    };
    proof {
        law_every_key_is_answered(keys@);
    }
    switching_protocols(accept)
}

/// Every key that can stand in a header is answered: the response holds the
/// signature of the first key, whatever its bytes are. Without such a key it
/// holds no signature at all.
pub proof fn law_every_key_is_answered(keys: Seq<Vec<u8>>)
    ensures
        ({
            let headers = handshake_headers(answer_to_keys(keys));
            let fits = keys.len() > 0 && forall|i: int|
                0 <= i < keys[0]@.len() ==> (#[trigger] keys[0]@[i] == 9 || keys[0]@[i] >= 32
                    && keys[0]@[i] != 127);
            &&& fits ==> headers.contains(
                ("sec-websocket-accept"@, websocket_accept(keys[0]@)),
            )
            &&& !fits ==> forall|i: int|
                0 <= i < headers.len() ==> (#[trigger] headers[i]).0 != "sec-websocket-accept"@
        }),
{
    reveal_strlit("connection");
    reveal_strlit("upgrade");
    reveal_strlit("sec-websocket-accept");
    let headers = handshake_headers(answer_to_keys(keys));
    assert("connection"@.len() != "sec-websocket-accept"@.len());
    assert("upgrade"@.len() != "sec-websocket-accept"@.len());
    if headers.len() == 3 {
        assert(headers[2] == ("sec-websocket-accept"@, websocket_accept(keys[0]@)));
    }
}

/// The response that accepts a websocket names the upgrade first, and after it
/// at most the signature, as it was given.
pub proof fn law_handshake_names_the_upgrade(accept: Option<Seq<char>>)
    ensures
        ({
            let headers = handshake_headers(accept);
            &&& headers.len() == if accept is Some { 3nat } else { 2nat }
            &&& headers[0] == ("connection"@, "upgrade"@)
            &&& headers[1] == ("upgrade"@, "websocket"@)
            &&& accept matches Some(text) ==> headers[2] == ("sec-websocket-accept"@, text)
        }),
{
}

/// Only the first key counts.
pub proof fn law_later_keys_do_not_count(keys: Seq<Vec<u8>>, others: Seq<Vec<u8>>)
    requires
        keys.len() > 0,
        others.len() > 0,
        keys[0]@ == others[0]@,
    ensures
        answer_to_keys(keys) == answer_to_keys(others),
{
}

/// The response to any keys has the status of a switch of protocols, names the
/// upgrade, and holds the signature of the first key and no other, if that key
/// can stand in a header.
pub proof fn law_response_accepts_the_websocket(keys: &Vec<Vec<u8>>, response: ResponseHead)
    requires
        call_ensures(handshake, (keys,), response),
    ensures
        ({
            let fits = keys@.len() > 0 && forall|i: int|
                0 <= i < keys@[0]@.len() ==> (#[trigger] keys@[0]@[i] == 9 || keys@[0]@[i] >= 32
                    && keys@[0]@[i] != 127);
            &&& response.status == 101
            &&& response.headers@.len() == if fits { 3nat } else { 2nat }
            &&& response.headers@[0].0@ == "connection"@ && response.headers@[0].1@ == "upgrade"@
            &&& response.headers@[1].0@ == "upgrade"@ && response.headers@[1].1@ == "websocket"@
            &&& fits ==> response.headers@[2].0@ == "sec-websocket-accept"@
                && response.headers@[2].1@ == websocket_accept(keys@[0]@)
        }),
{
    law_view_shows_the_response(response);
    law_handshake_names_the_upgrade(answer_to_keys(keys@));
    law_every_key_is_answered(keys@);
    assert(response@.headers[0] == (response.headers@[0].0@, response.headers@[0].1@));
    assert(response@.headers[1] == (response.headers@[1].0@, response.headers@[1].1@));
    if response@.headers.len() == 3 {
        assert(response@.headers[2] == (response.headers@[2].0@, response.headers@[2].1@));
    }
}

} // verus!
