use meio::connect::extract::{direct_query, extract, DirectPath, FromQuery, FromRequest};
use meio::connect::protocol::{Protocol, ProtocolData};
use meio::connect::request::RequestHead;
use meio::connect::ws_extract::WsFromRequest;
use serde::de::{Deserialize, Deserializer, IgnoredAny, MapAccess, Visitor};

struct Text;

impl ProtocolData for Text {}

struct Chat;

impl Protocol for Chat {
    type ToServer = Text;
    type ToClient = Text;
    type Codec = ();
}

#[derive(Default)]
struct Index {}

struct IndexVisitor;

impl<'de> Visitor<'de> for IndexVisitor {
    type Value = Index;

    fn expecting(&self, f: &mut std::fmt::Formatter) -> std::fmt::Result {
        f.write_str("struct Index")
    }

    fn visit_map<M: MapAccess<'de>>(self, mut map: M) -> Result<Index, M::Error> {
        while map.next_entry::<String, IgnoredAny>()?.is_some() {}
        Ok(Index {})
    }
}

impl<'de> Deserialize<'de> for Index {
    fn deserialize<D: Deserializer<'de>>(deserializer: D) -> Result<Index, D::Error> {
        deserializer.deserialize_struct("Index", &[], IndexVisitor)
    }
}

impl DirectPath for Index {
    type Parameter = Chat;

    fn paths() -> &'static [&'static str] {
        &["/", "/index.html"]
    }
}

impl FromQuery for Index {
    fn from_query(query: &str) -> Option<Index> {
        serde_qs::from_str(query).ok()
    }
}

#[derive(Debug, PartialEq)]
struct Page(u32);

impl DirectPath for Page {
    type Parameter = ();

    fn paths() -> &'static [&'static str] {
        &["/page"]
    }
}

impl FromQuery for Page {
    fn from_query(query: &str) -> Option<Page> {
        query.strip_prefix("n=")?.parse().ok().map(Page)
    }
}

fn head(path: &str, query: Option<&str>) -> RequestHead {
    RequestHead {
        path: path.to_string(),
        query: query.map(String::from),
        websocket_keys: Vec::new(),
    }
}

#[test]
fn qs_parsing() {
    let _index: Index = serde_qs::from_str("").unwrap();
    let extracted: Option<Index> = extract(&head("/", None));
    assert!(extracted.is_some());
}

#[test]
fn every_path_of_a_type_fits() {
    assert!(<Index as FromRequest>::from_request(&head("/", Some(""))).is_some());
    assert!(<Index as FromRequest>::from_request(&head("/index.html", Some("a=b"))).is_some());
    assert!(<Index as FromRequest>::from_request(&head("/index", None)).is_none());
    assert!(<Index as FromRequest>::from_request(&head("", None)).is_none());
}

#[test]
fn websocket_requests_are_found_alike() {
    assert!(<Index as WsFromRequest>::from_request(&head("/", None)).is_some());
    assert!(<Index as WsFromRequest>::from_request(&head("/other", None)).is_none());
}

#[test]
fn query_decides_on_a_path_that_fits() {
    assert_eq!(<Page as FromRequest>::from_request(&head("/page", Some("n=12"))), Some(Page(12)));
    assert_eq!(<Page as FromRequest>::from_request(&head("/page", Some("n=x"))), None);
    assert_eq!(<Page as FromRequest>::from_request(&head("/page", None)), None);
    assert_eq!(<Page as FromRequest>::from_request(&head("/pages", Some("n=12"))), None);
}

#[test]
fn missing_query_reads_as_an_empty_one() {
    assert_eq!(direct_query(&["/a", "/b"], &head("/b", None)), Some(String::new()));
    assert_eq!(
        direct_query(&["/a", "/b"], &head("/a", Some("x=1&y=2"))),
        Some("x=1&y=2".to_string())
    );
    assert_eq!(direct_query(&["/a", "/b"], &head("/c", Some("x=1"))), None);
    assert_eq!(direct_query(&[], &head("/a", None)), None);
}

#[test]
fn only_path_and_query_count() {
    let mut keyed = head("/page", Some("n=3"));
    keyed.websocket_keys.push(b"key".to_vec());
    assert_eq!(
        <Page as FromRequest>::from_request(&keyed),
        <Page as FromRequest>::from_request(&head("/page", Some("n=3")))
    );
    assert_eq!(
        <Page as FromRequest>::from_request(&head("/page", None)),
        <Page as FromRequest>::from_request(&head("/page", Some("")))
    );
    assert!(<Index as FromRequest>::from_request(&head("/", None)).is_some());
    assert!(<Index as FromRequest>::from_request(&head("/", Some(""))).is_some());
}
