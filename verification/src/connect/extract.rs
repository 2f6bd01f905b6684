//! Values that routes find in requests.

use vstd::prelude::*;

use crate::connect::request::RequestHead;

verus! {

/// Requests that are told by their path.
pub trait DirectPath: Sized + Send + Sync + 'static {
    /// What comes with the requests; the protocol, if they open a websocket.
    type Parameter;

    /// The paths of the requests.
    fn paths() -> &'static [&'static str];
}

/// A value that a query string can hold.
pub trait FromQuery: Sized {
    /// Decodes the value, if the text holds one.
    fn from_query(query: &str) -> Option<Self>;
}

/// A value that a route finds in a request.
pub trait FromRequest: Sized + Send + Sync + 'static {
    /// The value.
    type Output: Send;

    /// Finds the value, if the request is for the route.
    fn from_request(request: &RequestHead) -> Option<Self::Output>;
}

/// One of the paths is that of the request.
pub open spec fn is_path_of(paths: Seq<&str>, request: RequestHead) -> bool {
    exists|i: int| 0 <= i < paths.len() && (#[trigger] paths[i])@ == request.path@
}

/// The text to decode: the query, or nothing.
pub open spec fn query_text(request: RequestHead) -> Seq<char> {
    match request.query {
        Some(query) => query@,
        None => Seq::empty(),
    }
}

/// Gives the text to decode, if one of the paths is that of the request.
pub fn direct_query(paths: &[&str], request: &RequestHead) -> (query: Option<String>)
    ensures
        query is Some <==> is_path_of(paths@, *request),
        query matches Some(text) ==> text@ == query_text(*request),
        query is Some <==> exists|i: int|
            0 <= i < paths@.len() && (#[trigger] paths@[i])@ == request.path@,
        query matches Some(text) ==> match request.query {
            Some(given) => text@ == given@,
            None => text@.len() == 0,
        },
{
    for i in 0..paths.len()
        invariant
            forall|j: int| 0 <= j < i ==> (#[trigger] paths@[j])@ != request.path@,
    {
        if paths[i].to_owned() == request.path {
            return match &request.query {
                Some(query) => Some(query.clone()),
                None => Some(String::new()),
            };
        }
    }
    None
}

/// What a request holds for a type whose paths and whose query are known: the
/// value that the query decodes to, if one of the paths fits.
pub open spec fn extracts<T: DirectPath + FromQuery>(
    request: RequestHead,
    extracted: Option<T>,
) -> bool {
    exists|paths: &'static [&'static str]|
        {
            &&& #[trigger] call_ensures(T::paths, (), paths)
            &&& if is_path_of(paths@, request) {
                exists|query: &str|
                    query@ == query_text(request) && #[trigger] call_ensures(
                        T::from_query,
                        (query,),
                        extracted,
                    )
            } else {
                extracted is None
            }
        }
}

/// Finds the value of a type by its paths and its query.
pub fn extract<T: DirectPath + FromQuery>(request: &RequestHead) -> (extracted: Option<T>)
    ensures
        extracts(*request, extracted),
{
    match direct_query(T::paths(), request) {
        Some(query) => T::from_query(query.as_str()),
        None => None,
    }
}

/// Every path of a list fits, wherever it stands, and no other: the paths are
/// compared as a whole.
pub proof fn law_every_path_fits(paths: Seq<&str>, request: RequestHead)
    ensures
        is_path_of(paths, request) <==> paths.map_values(|path: &str| path@).contains(
            request.path@,
        ),
        forall|i: int|
            0 <= i < paths.len() && (#[trigger] paths[i])@ == request.path@ ==> is_path_of(
                paths,
                request,
            ),
{
    let texts = paths.map_values(|path: &str| path@);
    if texts.contains(request.path@) {
        let i = choose|i: int| 0 <= i < texts.len() && texts[i] == request.path@;
        assert(paths[i]@ == request.path@);
    }
    if is_path_of(paths, request) {
        let i = choose|i: int| 0 <= i < paths.len() && (#[trigger] paths[i])@ == request.path@;
        assert(texts[i] == request.path@);
    }
}

/// A path that fits still fits among more paths, before or after its own; and a
/// longer list fits only where one of its parts does.
pub proof fn law_more_paths_fit_more(
    before: Seq<&str>,
    paths: Seq<&str>,
    after: Seq<&str>,
    request: RequestHead,
)
    ensures
        is_path_of(before + paths + after, request) <==> is_path_of(before, request) || is_path_of(
            paths,
            request,
        ) || is_path_of(after, request),
{
    let all = before + paths + after;
    if is_path_of(before, request) {
        let i = choose|i: int| 0 <= i < before.len() && (#[trigger] before[i])@ == request.path@;
        assert(all[i]@ == request.path@);
    }
    if is_path_of(paths, request) {
        let i = choose|i: int| 0 <= i < paths.len() && (#[trigger] paths[i])@ == request.path@;
        assert(all[before.len() + i]@ == request.path@);
    }
    if is_path_of(after, request) {
        let i = choose|i: int| 0 <= i < after.len() && (#[trigger] after[i])@ == request.path@;
        assert(all[before.len() + paths.len() + i]@ == request.path@);
    }
    if is_path_of(all, request) {
        let i = choose|i: int| 0 <= i < all.len() && (#[trigger] all[i])@ == request.path@;
        if i < before.len() {
            assert(before[i]@ == request.path@);
        } else if i < before.len() + paths.len() {
            assert(paths[i - before.len()]@ == request.path@);
        } else {
            assert(after[i - before.len() - paths.len()]@ == request.path@);
        }
    }
}

/// A query is decoded as it is given, and a missing one as an empty text.
pub proof fn law_query_is_decoded_as_given(request: RequestHead)
    ensures
        match request.query {
            Some(query) => query_text(request) == query@,
            None => query_text(request).len() == 0,
        },
{
}

/// What is found in a request with a path of the type is what the type decodes
/// from the query; in any other request nothing is found.
pub proof fn law_found_values_are_decoded<T: DirectPath + FromQuery>(
    request: RequestHead,
    extracted: Option<T>,
    paths: &'static [&'static str],
)
    requires
        extracts(request, extracted),
        forall|other: &'static [&'static str]| #[trigger]
            call_ensures(T::paths, (), other) ==> other == paths,
    ensures
        (exists|i: int| 0 <= i < paths@.len() && (#[trigger] paths@[i])@ == request.path@)
            ==> exists|query: &str|
            {
                &&& #[trigger] call_ensures(T::from_query, (query,), extracted)
                &&& match request.query {
                    Some(given) => query@ == given@,
                    None => query@.len() == 0,
                }
            },
        (forall|i: int| 0 <= i < paths@.len() ==> (#[trigger] paths@[i])@ != request.path@)
            ==> extracted is None,
{
}

/// The type always has the same paths, and decodes a text to one result only.
pub open spec fn is_deterministic<T: DirectPath + FromQuery>() -> bool {
    &&& forall|one: &'static [&'static str], other: &'static [&'static str]| #[trigger]
        call_ensures(T::paths, (), one) && #[trigger] call_ensures(T::paths, (), other) ==> one
            == other
    &&& forall|one: &str, other: &str, a: Option<T>, b: Option<T>|
        one@ == other@ && #[trigger] call_ensures(T::from_query, (one,), a)
            && #[trigger] call_ensures(T::from_query, (other,), b) ==> a == b
}

/// Only the path and the text of the query count, and no query counts as an
/// empty one: what one request may hold, the other may hold too.
pub proof fn law_only_path_and_query_count<T: DirectPath + FromQuery>(
    one: RequestHead,
    other: RequestHead,
    extracted: Option<T>,
)
    requires
        one.path@ == other.path@,
        query_text(one) == query_text(other),
        extracts(one, extracted),
    ensures
        extracts(other, extracted),
{
    let paths = choose|paths: &'static [&'static str]|
        {
            &&& #[trigger] call_ensures(T::paths, (), paths)
            &&& if is_path_of(paths@, one) {
                exists|query: &str|
                    query@ == query_text(one) && #[trigger] call_ensures(
                        T::from_query,
                        (query,),
                        extracted,
                    )
            } else {
                extracted is None
            }
        };
    assert(call_ensures(T::paths, (), paths));
    assert(is_path_of(paths@, one) == is_path_of(paths@, other));
}

/// Requests with the same path and the same text to decode give the same
/// result, if the type is deterministic; so do a request without a query and one
/// with an empty query.
pub proof fn law_same_path_and_query_give_the_same<T: DirectPath + FromQuery>(
    one: RequestHead,
    other: RequestHead,
    first: Option<T>,
    second: Option<T>,
)
    requires
        is_deterministic::<T>(),
        one.path@ == other.path@,
        query_text(one) == query_text(other),
        extracts(one, first),
        extracts(other, second),
    ensures
        first == second,
{
}

/// No query and the empty query are the same text to decode.
pub proof fn law_missing_query_is_empty(one: RequestHead, other: RequestHead)
    requires
        one.query is None,
        other.query matches Some(query) && query@.len() == 0,
    ensures
        query_text(one) == query_text(other),
{
    assert(query_text(other) =~= Seq::empty());
}

impl<T: DirectPath + FromQuery> FromRequest for T {
    type Output = T;

    fn from_request(request: &RequestHead) -> (extracted: Option<T>)
        ensures
            extracts(*request, extracted),
    {
        extract(request)
    }
}

/// A request whose path is one of the paths gives the text of its query, and any
/// other gives nothing.
pub proof fn law_direct_query_finds_every_path(
    paths: &[&str],
    request: &RequestHead,
    query: Option<String>,
)
    requires
        call_ensures(direct_query, (paths, request), query),
    ensures
        forall|i: int|
            0 <= i < paths@.len() && (#[trigger] paths@[i])@ == request.path@ ==> query is Some,
        (forall|i: int| 0 <= i < paths@.len() ==> (#[trigger] paths@[i])@ != request.path@)
            ==> query is None,
        query matches Some(text) ==> match request.query {
            Some(given) => text@ == given@,
            None => text@.len() == 0,
        },
{
}

} // verus!
