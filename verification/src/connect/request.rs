//! Requests and responses, as far as routes deal with them.

use vstd::prelude::*;

verus! {

/// What routes read of a request.
pub struct RequestHead {
    /// The path of the address.
    pub path: String,
    /// The query of the address, if it has one.
    pub query: Option<String>,
    /// The values of the `Sec-WebSocket-Key` headers, in their order.
    pub websocket_keys: Vec<Vec<u8>>,
}

/// A request, with what routes read of it and whatever else it carries.
pub struct Request<B> {
    pub head: RequestHead,
    pub body: B,
}

/// What a [`ResponseHead`] holds.
#[verifier::ext_equal]
pub struct ResponseView {
    pub status: u16,
    pub headers: Seq<(Seq<char>, Seq<char>)>,
}

/// A response without a body: the status, and the headers by lower-case name.
pub struct ResponseHead {
    pub status: u16,
    pub headers: Vec<(String, String)>,
}

impl View for ResponseHead {
    type V = ResponseView;

    open spec fn view(&self) -> ResponseView {
        ResponseView {
            status: self.status,
            headers: self.headers@.map_values(|header: (String, String)| (header.0@, header.1@)),
        }
    }
}

/// The status of a response that switches to another protocol.
pub const SWITCHING_PROTOCOLS: u16 = 101;

/// The status of a response to a request that no route takes.
pub const NOT_FOUND: u16 = 404;

/// The status of a response to a request whose route has failed.
pub const INTERNAL_SERVER_ERROR: u16 = 500;

impl ResponseHead {
    /// Makes a response without headers.
    pub fn of_status(status: u16) -> (response: Self)
        ensures
            response@ == (ResponseView { status, headers: Seq::empty() }),
    {
        let response = ResponseHead { status, headers: Vec::new() };
        assert(response@.headers =~= Seq::empty());
        response
    }

    /// Adds a header that the response does not have yet.
    pub fn add_header(&mut self, name: &str, value: String)
        ensures
            final(self)@ == (ResponseView {
                headers: old(self)@.headers.push((name@, value@)),
                ..old(self)@
            }),
    {
        self.headers.push((name.to_owned(), value));
        assert(self@.headers =~= old(self)@.headers.push((name@, value@)));
    }
}

/// The view of a response shows its status and all of its headers in their
/// order.
pub proof fn law_view_shows_the_response(response: ResponseHead)
    ensures
        response@.status == response.status,
        response@.headers.len() == response.headers@.len(),
        forall|i: int|
            0 <= i < response.headers@.len() ==> #[trigger] response@.headers[i] == (
                response.headers@[i].0@,
                response.headers@[i].1@,
            ),
{
}

} // verus!
