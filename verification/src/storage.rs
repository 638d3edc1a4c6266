//! What was found on disk, and what is said of it when it cannot be used.

use vstd::prelude::*;

use crate::engine::BrokerError;
use crate::text::join5;

verus! {

/// What came of reading a file and decoding what it held.
#[derive(Debug)]
pub enum FileRead<T> {
    Missing,
    Unreadable(String),
    Undecodable(String),
    Decoded(T),
}

/// What stands at a path.
#[derive(Clone, Copy, Debug, PartialEq, Eq, Structural)]
pub enum PathKind {
    Missing,
    Directory,
    Other,
}

/// An error of the cluster says a text.
pub open spec fn is_cluster_error(error: BrokerError, text: Seq<char>) -> bool {
    error matches BrokerError::Cluster(message) && message@ == text
}

/// A text about a path, with a reason.
pub open spec fn path_text(what: Seq<char>, path: Seq<char>, reason: Seq<char>) -> Seq<char> {
    what + " '"@ + path + "': "@ + reason
}

/// An error about a path, with a reason.
pub fn path_error(what: &str, path: &str, reason: &str) -> (r: BrokerError)
    ensures
        is_cluster_error(r, path_text(what@, path@, reason@)),
{
    BrokerError::Cluster(join5(what, " '", path, "': ", reason))
}

} // verus!
