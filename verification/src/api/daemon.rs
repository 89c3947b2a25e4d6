//! The command line of the daemon.

use vstd::prelude::*;

use crate::text;
use crate::text::text_eq;

verus! {

/// The most events of a task that the daemon stores.
pub const DEFAULT_MAX_EVENTS_PER_TASK: usize = 10_000;

/// The most tasks that the daemon holds.
pub const DEFAULT_MAX_TASKS: usize = 10_000;

/// Where the daemon listens and where it stores events.
pub struct Options {
    pub socket: String,
    pub database: String,
}

/// A command line that is not understood.
#[derive(Clone, Copy, Debug, PartialEq, Eq, Structural)]
pub struct OptionsError;

impl OptionsError {
    /// What the daemon says then.
    #[must_use]
    pub fn display(&self) -> (r: &'static str)
        ensures
            r@ == "usage: aiosd --socket PATH --database PATH"@,
    {
        "usage: aiosd --socket PATH --database PATH"
    }
}

/// The name of an option with the socket.
pub open spec fn socket_option() -> Seq<char> {
    "--socket"@
}

/// The name of the option with the database.
pub open spec fn database_option() -> Seq<char> {
    "--database"@
}

/// The two paths, if the command line gives both options once, in any order, and nothing else.
pub open spec fn read(arguments: Seq<Seq<char>>) -> Option<(Seq<char>, Seq<char>)> {
    if arguments.len() != 4 {
        None
    } else if arguments[0] == socket_option() && arguments[2] == database_option() {
        Some((arguments[1], arguments[3]))
    } else if arguments[0] == database_option() && arguments[2] == socket_option() {
        Some((arguments[3], arguments[1]))
    } else {
        None
    }
}

impl Options {
    /// Reads the arguments behind the name of the program.
    pub fn parse(arguments: &Vec<String>) -> (r: Result<Options, OptionsError>)
        ensures
            read(text::texts(arguments@)) == (match r {
                Ok(options) => Some((options.socket@, options.database@)),
                Err(_) => None,
            }),
    {
        let mut socket: Option<String> = None;
        let mut database: Option<String> = None;
        let ghost all = text::texts(arguments@);
        proof {
            reveal_strlit("--socket");
            reveal_strlit("--database");
            assert(socket_option().len() != database_option().len());
        }
        let mut i: usize = 0;
        while i < arguments.len()
            invariant
                i <= arguments@.len(),
                i % 2 == 0,
                i <= 4,
                all == text::texts(arguments@),
                socket_option() != database_option(),
                socket is Some ==> 2 <= i,
                i == 0 ==> socket is None && database is None,
                i == 2 ==> (socket is Some <==> all[0] == socket_option()) && (database is Some
                    <==> all[0] == database_option()) && (socket is Some || database is Some)
                    && (socket is Some ==> socket->0@ == all[1]) && (database is Some
                    ==> database->0@ == all[1]),
                i == 4 ==> socket is Some && database is Some && ((all[0] == socket_option()
                    && all[2] == database_option() && socket->0@ == all[1] && database->0@
                    == all[3]) || (all[0] == database_option() && all[2] == socket_option()
                    && socket->0@ == all[3] && database->0@ == all[1])),
            decreases arguments@.len() - i,
        {
            assert(all[i as int] == arguments@[i as int]@);
            if arguments.len() - i < 2 {
                return Err(OptionsError);
            }
            assert(all[i + 1] == arguments@[i + 1]@);
            let name = arguments[i].as_str();
            let value = arguments[i + 1].clone();
            if text_eq(name, "--socket") && socket.is_none() {
                socket = Some(value);
            } else if text_eq(name, "--database") && database.is_none() {
                database = Some(value);
            } else {
                return Err(OptionsError);
            }
            i = i + 2;
        }
        match (socket, database) {
            (Some(socket), Some(database)) => Ok(Options { socket, database }),
            _ => Err(OptionsError),
        }
    }
}

} // verus!
