//! Requests: a verb, a path, and the raw payload bytes to dispatch.
use vstd::prelude::*;

verus! {

/// The verb a route is registered under.
#[derive(Clone, Copy, Debug, PartialEq, Eq, Structural)]
pub enum RequestType {
    Get,
    Post,
}

/// A route path; two paths name the same route exactly when their
/// character sequences are equal.
#[derive(Debug)]
pub struct Path {
    pub p: String,
}

impl View for Path {
    type V = Seq<char>;

    open spec fn view(&self) -> Seq<char> {
        self.p@
    }
}

impl Path {
    /// A path holding a copy of `path`.
    pub fn new(path: &str) -> (r: Path)
        ensures
            r@ == path@,
    {
        Path { p: path.to_owned() }
    }

    /// Whether two paths name the same route.
    pub fn eq_path(&self, other: &Path) -> (r: bool)
        ensures
            r == (self@ == other@),
    {
        self.p == other.p
    }
}

/// One in-memory request: a verb, a path and the payload to decode.
pub struct Request {
    pub ty: RequestType,
    pub path: Path,
    pub payload: Vec<u8>,
}

impl Request {
    /// A request for the route registered under `Get` at `path`.
    pub fn get(path: &str, payload: Vec<u8>) -> (r: Request)
        ensures
            r.ty == RequestType::Get,
            r.path@ == path@,
            r.payload@ == payload@,
    {
        Request { ty: RequestType::Get, path: Path::new(path), payload }
    }

    /// A request for the route registered under `Post` at `path`.
    pub fn post(path: &str, payload: Vec<u8>) -> (r: Request)
        ensures
            r.ty == RequestType::Post,
            r.path@ == path@,
            r.payload@ == payload@,
    {
        Request { ty: RequestType::Post, path: Path::new(path), payload }
    }
}

} // verus!
