use vstd::prelude::*;

verus! {

/// A client of the GIF search service, holding its API key.
pub struct GiphyConnector {
    pub api_key: String,
}

impl GiphyConnector {
    /// A connector that signs its requests with `api_key`.
    pub fn new(api_key: String) -> (r: GiphyConnector)
        ensures
            r.api_key == api_key,
    {
        GiphyConnector { api_key: api_key }
    }
}

/// Which of the search results to pick.
#[derive(Clone, Copy, Debug, PartialEq, Eq, Structural)]
pub enum GifResultType {
    First,
    Random,
    Last,
}

/// The `meta` block of a response: a message, the HTTP status and the
/// response's id.
pub struct GiphyMeta {
    pub msg: String,
    pub status: i32,
    pub response_id: Option<String>,
}

/// An error reported by the service.
pub struct GiphyError {
    pub msg: String,
    pub http_status: i32,
}

impl From<GiphyMeta> for GiphyError {
    /// The error that a response's `meta` block reports: its message and
    /// status.
    fn from(gm: GiphyMeta) -> (r: GiphyError) {
        GiphyError { msg: gm.msg, http_status: gm.status }
    }
}

impl vstd::std_specs::convert::FromSpecImpl<GiphyMeta> for GiphyError {
    open spec fn obeys_from_spec() -> bool {
        true
    }

    open spec fn from_spec(gm: GiphyMeta) -> GiphyError {
        GiphyError { msg: gm.msg, http_status: gm.status }
    }
}

/// One GIF: its id and the URL to embed it.
pub struct GiphyObject {
    pub id: String,
    pub embed_url: String,
}

/// An image of a GIF; the service's fields are not read yet.
pub struct GiphyImage {}

} // verus!
