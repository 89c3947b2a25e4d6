//! The socket of the API: a path in a directory that only its owner can enter.

use vstd::prelude::*;

use crate::api::LocalApiError;
use crate::path;
use crate::path::{components_of, is_absolute};
use crate::process::facts::FileFacts;

verus! {

/// What was observed of a path, without following links.
#[derive(Clone, Copy, Debug, PartialEq, Eq, Structural)]
pub enum Observed {
    /// There is nothing.
    Missing,
    /// It could not be looked at.
    Unreadable,
    Found(FileFacts),
}

/// Whether the path starts at the current directory by name.
pub open spec fn dotted(path: Seq<u8>) -> bool {
    path.len() > 0 && path[0] == 0x2e && (path.len() == 1 || path[1] == path::SEPARATOR)
}

/// Whether the path names a file in a directory that it also names.
pub open spec fn has_parent(path: Seq<u8>) -> bool {
    let named = path::components(path).len();
    if path::absolute(path) {
        named >= 1
    } else if dotted(path) {
        named >= 1
    } else {
        named >= 2
    }
}

/// Whether the directory of a socket has to be created, if the socket may be there at all.
pub open spec fn parent_verdict(socket_path: Seq<u8>, parent: Observed) -> Result<
    bool,
    LocalApiError,
> {
    if !has_parent(socket_path) {
        Err(LocalApiError::InvalidConfig)
    } else {
        match parent {
            Observed::Missing => Ok(true),
            Observed::Unreadable => Err(LocalApiError::Io),
            Observed::Found(facts) => if facts.symlink || !facts.directory || facts.mode & 0o077
                != 0 {
                Err(LocalApiError::UnsafeSocketDirectory)
            } else {
                Ok(false)
            },
        }
    }
}

/// Decides whether the directory of a socket has to be created, owner-only.
pub fn prepare_socket_parent(socket_path: &[u8], parent: Observed) -> (r: Result<
    bool,
    LocalApiError,
>)
    ensures
        r == parent_verdict(socket_path@, parent),
{
    let components = components_of(socket_path);
    assert(path::components(socket_path@).len() == components@.len());
    let here = socket_path.len() > 0 && socket_path[0] == 0x2e && (socket_path.len() == 1
        || socket_path[1] == path::SEPARATOR);
    let needed: usize = if is_absolute(socket_path) || here {
        1
    } else {
        2
    };
    if components.len() < needed {
        return Err(LocalApiError::InvalidConfig);
    }
    match parent {
        Observed::Missing => Ok(true),
        Observed::Unreadable => Err(LocalApiError::Io),
        Observed::Found(facts) => {
            if facts.symlink || !facts.directory || facts.mode & 0o077 != 0 {
                return Err(LocalApiError::UnsafeSocketDirectory);
            }
            Ok(false)
        },
    }
}

/// Whether a socket may be made where this was observed.
pub open spec fn socket_verdict(entry: Observed) -> Result<(), LocalApiError> {
    match entry {
        Observed::Missing => Ok(()),
        Observed::Unreadable => Err(LocalApiError::Io),
        Observed::Found(_) => Err(LocalApiError::SocketAlreadyExists),
    }
}

/// Whether what was observed is the socket that was made.
pub open spec fn is_own_socket(entry: Observed, is_socket: bool, device: u64, inode: u64) -> bool {
    match entry {
        Observed::Found(facts) => is_socket && facts.device == device && facts.inode == inode,
        _ => false,
    }
}

/// Nothing may be at the path of a new socket; what is there is left alone.
pub fn check_socket_path(entry: Observed) -> (r: Result<(), LocalApiError>)
    ensures
        r == socket_verdict(entry),
{
    match entry {
        Observed::Missing => Ok(()),
        Observed::Unreadable => Err(LocalApiError::Io),
        Observed::Found(_) => Err(LocalApiError::SocketAlreadyExists),
    }
}

/// Whether what is at the path of the socket is still the socket that was bound, and may be
/// removed with the server.
#[must_use]
pub fn owns_socket(entry: Observed, is_socket: bool, device: u64, inode: u64) -> (r: bool)
    ensures
        r == is_own_socket(entry, is_socket, device, inode),
{
    match entry {
        Observed::Found(facts) => is_socket && facts.device == device && facts.inode == inode,
        _ => false,
    }
}

} // verus!
