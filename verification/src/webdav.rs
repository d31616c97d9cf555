//! The two ends of a PROPFIND exchange: what is asked of the server, and
//! what its answer says. The exchange itself is the caller's.
use vstd::prelude::*;
use vstd::string::StringExecFns;

use crate::errors::{ErrorKind, Errors};
use crate::multistatus::{listing, records, records_of};
use crate::prop::{Prop, PropView};
use crate::xml::{document, read_document};

verus! {

/// PROPFIND supports three different depths:
///     - ELEMENT_ONLY, which corresponds to "0" and returns information about
///       the requested prop only.
///     - WITH_CHILDREN, which corresponds to "1" and also returns information
///       about children of the prop, if it has any.
///     - RECURSIVE, which corresponds to "infinity" and recursively returns
///       information about the whole tree down.
#[derive(Debug, Clone, Copy, PartialEq, Eq, Structural)]
pub enum PropfindDepth {
    ElementOnly,
    WithChildren,
    Recursive,
}

/// The value of the `Depth` header that stands for a depth.
impl From<PropfindDepth> for &'static str {
    fn from(depth: PropfindDepth) -> (r: &'static str) {
        match depth {
            PropfindDepth::ElementOnly => "0",
            PropfindDepth::WithChildren => "1",
            PropfindDepth::Recursive => "infinity",
        }
    }
}

impl vstd::std_specs::convert::FromSpecImpl<PropfindDepth> for &'static str {
    open spec fn obeys_from_spec() -> bool {
        true
    }

    open spec fn from_spec(depth: PropfindDepth) -> &'static str {
        match depth {
            PropfindDepth::ElementOnly => "0",
            PropfindDepth::WithChildren => "1",
            PropfindDepth::Recursive => "infinity",
        }
    }
}

/// What to ask of the server: a PROPFIND on `url` with the header `Depth`
/// set as `depth` says.
#[derive(Debug)]
pub struct PropfindRequest {
    pub url: String,
    pub depth: PropfindDepth,
}

/// What came of a PROPFIND.
#[derive(Debug)]
pub enum PropfindReply {
    /// No answer could be had, or its body could not be read
    Failed,
    /// The server answered with this status code and body
    Answer { status: u16, body: String },
}

/// Whether an HTTP status code reports success.
pub open spec fn is_success(status: u16) -> bool {
    200 <= status < 300
}

/// The records that the body of a successful answer holds.
pub open spec fn decoded(body: Seq<char>) -> Result<Seq<PropView>, ErrorKind> {
    match document(body) {
        Err(e) => Err(e),
        Ok(nodes) => records(nodes),
    }
}

/// The records that a reply stands for.
pub open spec fn listed(reply: PropfindReply) -> Result<Seq<PropView>, ErrorKind> {
    match reply {
        PropfindReply::Failed => Err(ErrorKind::WebDavReqeustFailed),
        PropfindReply::Answer { status, body } => if is_success(status) {
            decoded(body@)
        } else {
            Err(ErrorKind::WebDavReqeustFailed)
        },
    }
}

/// Decodes a multistatus document: one record for each `response` element,
/// in document order.
pub fn parse_multistatus(body: &str) -> (r: Result<Vec<Prop>, Errors>)
    ensures
        listing(r) == decoded(body@),
{
    let nodes = read_document(body)?;
    records_of(&nodes)
}

/// Information about the drive
#[derive(Debug)]
pub struct WebdavDrive {
    /// Prefix of the URL to prepend on request
    prefix: String,
}

impl View for WebdavDrive {
    type V = Seq<char>;

    closed spec fn view(&self) -> Seq<char> {
        self.prefix@
    }
}

impl WebdavDrive {
    pub fn new(prefix: String) -> (r: Self)
        ensures
            r@ == prefix@,
    {
        Self { prefix }
    }

    /// The request that lists `path`: the drive's prefix and then the path.
    pub fn request(&self, path: &str, depth: PropfindDepth) -> (r: PropfindRequest)
        ensures
            r.url@ == self@ + path@,
            r.depth == depth,
    {
        PropfindRequest { url: self.prefix.clone().concat(path), depth }
    }

    /// The records that the reply to a "PROPFIND" request holds. A request
    /// that failed, or that the server did not answer with success, has none.
    pub fn list(&self, reply: &PropfindReply) -> (r: Result<Vec<Prop>, Errors>)
        ensures
            listing(r) == listed(*reply),
    {
        match reply {
            PropfindReply::Failed => Err(Errors::WebDavReqeustFailed),
            PropfindReply::Answer { status, body } => if 200 <= *status && *status < 300 {
                parse_multistatus(body.as_str())
            } else {
                Err(Errors::WebDavReqeustFailed)
            },
        }
    }
}

} // verus!
