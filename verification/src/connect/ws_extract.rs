//! Values that routes of websockets find in requests.

use vstd::prelude::*;

use crate::connect::extract::{extract, extracts, DirectPath, FromQuery};
use crate::connect::protocol::Protocol;
use crate::connect::request::RequestHead;

verus! {

/// A value that the route of a websocket finds in a request.
pub trait WsFromRequest: Sized + Send + Sync + 'static {
    /// The value.
    type Output: Send;

    /// The protocol of the websocket.
    type Protocol: Protocol;

    /// Finds the value, if the request is for the route.
    fn from_request(request: &RequestHead) -> Option<Self::Output>;
}

impl<T: DirectPath + FromQuery> WsFromRequest for T where T::Parameter: Protocol {
    type Output = T;

    type Protocol = T::Parameter;

    fn from_request(request: &RequestHead) -> (extracted: Option<T>)
        ensures
            extracts(*request, extracted),
    {
        extract(request)
    }
}

} // verus!
