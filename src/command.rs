//! What a connection asks of the store, and what it is told back: the
//! decoded form of a request, and the reply to encode.

use crate::store::ShardedDb;
use bytes::Bytes;
use vstd::prelude::*;

verus! {

/// A decoded request.
pub enum Request {
    /// Store a value under a key.
    Put { key: String, value: Bytes },
    /// Fetch the value of a key.
    Fetch { key: String },
    /// A request that the store does not serve, with its description.
    Unsupported { description: String },
}

/// The reply to a request.
pub enum Reply {
    /// The write was done.
    Done,
    /// The value that was found.
    Value(Bytes),
    /// No value is stored under the key.
    NotFound,
    /// The request is not served; the description says which it was.
    Unsupported(String),
}

/// Carries out `req` on `db` and says what to reply: a `Put` is stored and
/// acknowledged, a `Fetch` answered with the value found or `NotFound`, and
/// any other request reported as unsupported without touching the store.
pub fn execute(db: &ShardedDb, req: Request) -> (r: Reply)
    ensures
        req is Put ==> r is Done,
        req is Fetch ==> (r is Value || r is NotFound),
        req is Unsupported ==> (r matches Reply::Unsupported(d) && d@ == req->description@),
{
    match req {
        Request::Put { key, value } => {
            db.insert(key, value);
            Reply::Done
        },
        Request::Fetch { key } => match db.get(key) {
            Some(value) => Reply::Value(value),
            None => Reply::NotFound,
        },
        Request::Unsupported { description } => Reply::Unsupported(description),
    }
}

} // verus!
