//! The command line of the client.

use vstd::prelude::*;

use crate::api::service::ApiMethod;
use crate::api::{DEFAULT_EVENT_PAGE_SIZE, DEFAULT_MAX_FRAME_BYTES};
use crate::ids;
use crate::ids::TaskId;
use crate::scan;
use crate::scan::parse_u64;
use crate::task::TaskSpec;
use crate::text;
use crate::text::text_eq;

verus! {

/// Failures of the client.
#[derive(Clone, Copy, Debug, PartialEq, Eq, Structural)]
pub enum CliError {
    Usage,
    InvalidTaskId,
    InvalidNumber,
    TaskFileTooLarge,
    InvalidTaskFile,
    TaskFileIo,
    Transport,
}

/// The exit code of the client after a failure.
pub open spec fn exit_status(error: CliError) -> u8 {
    if error is Transport {
        1
    } else {
        2
    }
}

impl CliError {
    /// What the client says then.
    pub open spec fn text(self) -> Seq<char> {
        match self {
            CliError::Usage => "usage: aiosctl --socket PATH <health|submit|get|events|start|succeed|fail|cancel> [ARGUMENTS]"@,
            CliError::InvalidTaskId => "task ID is invalid"@,
            CliError::InvalidNumber => "numeric argument is invalid"@,
            CliError::TaskFileTooLarge => "task file exceeds the 65,536-byte limit"@,
            CliError::InvalidTaskFile => "task file is not valid Task JSON"@,
            CliError::TaskFileIo => "task file could not be read"@,
            CliError::Transport => "local API request failed"@,
        }
    }

    /// What the client says then.
    #[must_use]
    pub fn display(&self) -> (r: &'static str)
        ensures
            r@ == self.text(),
    {
        match self {
            CliError::Usage => {
                "usage: aiosctl --socket PATH <health|submit|get|events|start|succeed|fail|cancel> [ARGUMENTS]"
            },
            CliError::InvalidTaskId => "task ID is invalid",
            CliError::InvalidNumber => "numeric argument is invalid",
            CliError::TaskFileTooLarge => "task file exceeds the 65,536-byte limit",
            CliError::InvalidTaskFile => "task file is not valid Task JSON",
            CliError::TaskFileIo => "task file could not be read",
            CliError::Transport => "local API request failed",
        }
    }

    /// The code with which the client ends then.
    #[must_use]
    pub fn exit_code(&self) -> (r: u8)
        ensures
            r == exit_status(*self),
    {
        match self {
            CliError::Transport => 1,
            _ => 2,
        }
    }
}

/// One command.
pub enum Command {
    Health,
    Submit(String),
    Get(TaskId),
    Events { task_id: TaskId, after_sequence: u64, limit: u16 },
    Start(TaskId),
    Succeed(TaskId),
    Fail(TaskId),
    Cancel(TaskId),
}

/// One command.
pub enum CommandModel {
    Health,
    Submit(Seq<char>),
    Get(u128),
    Events { task: u128, after_sequence: u64, limit: u16 },
    Start(u128),
    Succeed(u128),
    Fail(u128),
    Cancel(u128),
}

impl View for Command {
    type V = CommandModel;

    open spec fn view(&self) -> CommandModel {
        match self {
            Command::Health => CommandModel::Health,
            Command::Submit(path) => CommandModel::Submit(path@),
            Command::Get(task) => CommandModel::Get(task.value),
            Command::Events { task_id, after_sequence, limit } => CommandModel::Events {
                task: task_id.value,
                after_sequence: *after_sequence,
                limit: *limit,
            },
            Command::Start(task) => CommandModel::Start(task.value),
            Command::Succeed(task) => CommandModel::Succeed(task.value),
            Command::Fail(task) => CommandModel::Fail(task.value),
            Command::Cancel(task) => CommandModel::Cancel(task.value),
        }
    }
}

/// The number that an argument writes, up to a limit.
pub open spec fn number(argument: Seq<char>, limit: nat) -> Option<nat> {
    scan::bounded_value(text::utf8(argument), limit)
}

/// The command on one task with this name, apart from the one on its events.
pub open spec fn task_command(name: Seq<char>, task: u128) -> Option<CommandModel> {
    if name == "get"@ {
        Some(CommandModel::Get(task))
    } else if name == "start"@ {
        Some(CommandModel::Start(task))
    } else if name == "succeed"@ {
        Some(CommandModel::Succeed(task))
    } else if name == "fail"@ {
        Some(CommandModel::Fail(task))
    } else if name == "cancel"@ {
        Some(CommandModel::Cancel(task))
    } else {
        None
    }
}

/// The command on the events of a task.
pub open spec fn events_command(task: u128, numbers: Seq<Seq<char>>) -> Result<
    CommandModel,
    CliError,
> {
    if numbers.len() >= 1 && number(numbers[0], u64::MAX as nat) is None {
        Err(CliError::InvalidNumber)
    } else if numbers.len() >= 2 && number(numbers[1], u16::MAX as nat) is None {
        Err(CliError::InvalidNumber)
    } else {
        Ok(
            CommandModel::Events {
                task,
                after_sequence: if numbers.len() >= 1 {
                    number(numbers[0], u64::MAX as nat)->0 as u64
                } else {
                    0
                },
                limit: if numbers.len() >= 2 {
                    number(numbers[1], u16::MAX as nat)->0 as u16
                } else {
                    DEFAULT_EVENT_PAGE_SIZE
                },
            },
        )
    }
}

/// The command that a name and its values give, where `task` is the identifier that the first
/// value writes.
pub open spec fn read_command(name: Seq<char>, task: Option<u128>, values: Seq<Seq<char>>) -> Result<
    CommandModel,
    CliError,
> {
    if name == "health"@ && values.len() == 0 {
        Ok(CommandModel::Health)
    } else if name == "submit"@ && values.len() == 1 {
        Ok(CommandModel::Submit(values[0]))
    } else if name == "events"@ && 1 <= values.len() <= 3 {
        match task {
            None => Err(CliError::InvalidTaskId),
            Some(task) => events_command(task, values.skip(1)),
        }
    } else if task_command(name, 0) is Some && values.len() == 1 {
        match task {
            None => Err(CliError::InvalidTaskId),
            Some(task) => Ok(task_command(name, task)->0),
        }
    } else {
        Err(CliError::Usage)
    }
}

/// The identifier that the first value writes.
pub open spec fn first_task(values: Seq<Seq<char>>) -> Option<u128> {
    if values.len() == 0 {
        None
    } else {
        ids::uuid_value(values[0])
    }
}

fn parse_u16(argument: &str) -> (r: Option<u16>)
    ensures
        number(argument@, u16::MAX as nat) == (match r {
            Some(value) => Some(value as nat),
            None => None,
        }),
{
    match parse_u64(argument.as_bytes()) {
        Some(value) => {
            if value <= 0xffff {
                Some(value as u16)
            } else {
                None
            }
        },
        None => None,
    }
}

/// The request that a command makes, where `task` is what the task file holds.
pub open spec fn asked_method(command: Command, task: Option<TaskSpec>) -> Result<
    ApiMethod,
    CliError,
> {
    match command {
        Command::Health => Ok::<ApiMethod, CliError>(ApiMethod::Health {  }),
        Command::Submit(_) => match task {
            Some(task) => Ok(ApiMethod::Submit { task: Box::new(task) }),
            None => Err(CliError::InvalidTaskFile),
        },
        Command::Get(task_id) => Ok(ApiMethod::GetTask { task_id }),
        Command::Events { task_id, after_sequence, limit } => Ok(
            ApiMethod::Events { task_id, after_sequence, limit },
        ),
        Command::Start(task_id) => Ok(ApiMethod::Start { task_id }),
        Command::Succeed(task_id) => Ok(ApiMethod::Succeed { task_id }),
        Command::Fail(task_id) => Ok(ApiMethod::Fail { task_id }),
        Command::Cancel(task_id) => Ok(ApiMethod::Cancel { task_id }),
    }
}

impl Command {
    /// Reads a command.
    pub fn parse(name: &str, values: &Vec<String>) -> (r: Result<Command, CliError>)
        ensures
            read_command(name@, first_task(text::texts(values@)), text::texts(values@)) == (match r {
                Ok(command) => Ok::<CommandModel, CliError>(command@),
                Err(error) => Err(error),
            }),
    {
        let task = if values.len() == 0 {
            None
        } else {
            assert(text::texts(values@)[0] == values@[0]@);
            TaskId::parse(values[0].as_str())
        };
        Command::on_task(name, task, values)
    }

    /// Reads a command whose first value was read as the identifier of a task.
    pub fn on_task(name: &str, task: Option<TaskId>, values: &Vec<String>) -> (r: Result<
        Command,
        CliError,
    >)
        ensures
            read_command(
                name@,
                match task {
                    Some(task) => Some(task.value),
                    None => None,
                },
                text::texts(values@),
            ) == (match r {
                Ok(command) => Ok::<CommandModel, CliError>(command@),
                Err(error) => Err(error),
            }),
    {
        let ghost all = text::texts(values@);
        proof {
            reveal_strlit("health");
            reveal_strlit("submit");
            reveal_strlit("events");
            reveal_strlit("get");
            reveal_strlit("start");
            reveal_strlit("succeed");
            reveal_strlit("fail");
            reveal_strlit("cancel");
        }
        if text_eq(name, "health") && values.len() == 0 {
            return Ok(Command::Health);
        }
        if text_eq(name, "submit") && values.len() == 1 {
            assert(all[0] == values@[0]@);
            return Ok(Command::Submit(values[0].clone()));
        }
        if text_eq(name, "events") && values.len() >= 1 && values.len() <= 3 {
            return match task {
                Some(task_id) => Command::on_events(task_id, values),
                None => Err(CliError::InvalidTaskId),
            };
        }
        if values.len() != 1 {
            return Err(CliError::Usage);
        }
        let get = text_eq(name, "get");
        let start = text_eq(name, "start");
        let succeed = text_eq(name, "succeed");
        let fail = text_eq(name, "fail");
        let cancel = text_eq(name, "cancel");
        if !get && !start && !succeed && !fail && !cancel {
            return Err(CliError::Usage);
        }
        let task_id = match task {
            Some(task_id) => task_id,
            None => {
                return Err(CliError::InvalidTaskId);
            },
        };
        if get {
            Ok(Command::Get(task_id))
        } else if start {
            Ok(Command::Start(task_id))
        } else if succeed {
            Ok(Command::Succeed(task_id))
        } else if fail {
            Ok(Command::Fail(task_id))
        } else {
            Ok(Command::Cancel(task_id))
        }
    }

    fn on_events(task_id: TaskId, values: &Vec<String>) -> (r: Result<Command, CliError>)
        requires
            1 <= values@.len() <= 3,
        ensures
            events_command(task_id.value, text::texts(values@).skip(1)) == (match r {
                Ok(command) => Ok::<CommandModel, CliError>(command@),
                Err(error) => Err(error),
            }),
    {
        let ghost numbers = text::texts(values@).skip(1);
        let mut after_sequence: u64 = 0;
        let mut limit: u16 = DEFAULT_EVENT_PAGE_SIZE;
        if values.len() >= 2 {
            assert(numbers[0] == values@[1]@);
            match parse_u64(values[1].as_str().as_bytes()) {
                Some(value) => {
                    after_sequence = value;
                },
                None => {
                    return Err(CliError::InvalidNumber);
                },
            }
        }
        if values.len() >= 3 {
            assert(numbers[1] == values@[2]@);
            match parse_u16(values[2].as_str()) {
                Some(value) => {
                    limit = value;
                },
                None => {
                    return Err(CliError::InvalidNumber);
                },
            }
        }
        Ok(Command::Events { task_id, after_sequence, limit })
    }

    /// The file that has to be read for the command.
    #[must_use]
    pub fn task_file(&self) -> (r: Option<&str>)
        ensures
            match r {
                Some(path) => self@ == CommandModel::Submit(path@),
                None => !(self is Submit),
            },
    {
        match self {
            Command::Submit(path) => Some(path.as_str()),
            _ => None,
        }
    }

    /// The request of the command, with the task that its file holds.
    pub fn into_method(self, task: Option<TaskSpec>) -> (r: Result<ApiMethod, CliError>)
        ensures
            r == asked_method(self, task),
    {
        match self {
            Command::Health => Ok(ApiMethod::Health {  }),
            Command::Submit(_) => match task {
                Some(task) => Ok(ApiMethod::Submit { task: Box::new(task) }),
                None => Err(CliError::InvalidTaskFile),
            },
            Command::Get(task_id) => Ok(ApiMethod::GetTask { task_id }),
            Command::Events { task_id, after_sequence, limit } => Ok(
                ApiMethod::Events { task_id, after_sequence, limit },
            ),
            Command::Start(task_id) => Ok(ApiMethod::Start { task_id }),
            Command::Succeed(task_id) => Ok(ApiMethod::Succeed { task_id }),
            Command::Fail(task_id) => Ok(ApiMethod::Fail { task_id }),
            Command::Cancel(task_id) => Ok(ApiMethod::Cancel { task_id }),
        }
    }
}

/// Whether a task file of this many bytes is read.
pub open spec fn fits_task_file(length: nat) -> bool {
    length <= DEFAULT_MAX_FRAME_BYTES
}

/// A task file may be as long as a frame.
pub fn check_task_file(bytes: &[u8]) -> (r: Result<(), CliError>)
    ensures
        r == (if fits_task_file(bytes@.len()) {
            Ok::<(), CliError>(())
        } else {
            Err(CliError::TaskFileTooLarge)
        }),
{
    if bytes.len() > DEFAULT_MAX_FRAME_BYTES {
        Err(CliError::TaskFileTooLarge)
    } else {
        Ok(())
    }
}

/// What the client is told to do.
pub struct Options {
    pub socket: String,
    pub command: Command,
}

/// What a command line says: the socket and the command.
pub open spec fn read_options(arguments: Seq<Seq<char>>, task: Option<u128>) -> Result<
    (Seq<char>, CommandModel),
    CliError,
> {
    if arguments.len() < 3 || arguments[0] != "--socket"@ || arguments[1].len() == 0 {
        Err(CliError::Usage)
    } else {
        match read_command(arguments[2], task, arguments.skip(3)) {
            Ok(command) => Ok((arguments[1], command)),
            Err(error) => Err(error),
        }
    }
}

impl Options {
    /// Reads the arguments behind the name of the program.
    pub fn parse(arguments: &Vec<String>) -> (r: Result<Options, CliError>)
        ensures
            read_options(
                text::texts(arguments@),
                first_task(text::texts(arguments@).skip(3)),
            ) == (match r {
                Ok(options) => Ok::<(Seq<char>, CommandModel), CliError>(
                    (options.socket@, options.command@),
                ),
                Err(error) => Err(error),
            }),
    {
        let ghost all = text::texts(arguments@);
        if arguments.len() < 3 {
            return Err(CliError::Usage);
        }
        assert(all[0] == arguments@[0]@ && all[1] == arguments@[1]@ && all[2] == arguments@[2]@);
        if !text_eq(arguments[0].as_str(), "--socket") || arguments[1].as_str().as_bytes().len()
            == 0 {
            proof {
                text::lemma_utf8_empty(all[1]);
            }
            return Err(CliError::Usage);
        }
        proof {
            text::lemma_utf8_empty(all[1]);
        }
        let mut values: Vec<String> = Vec::new();
        let mut i: usize = 3;
        while i < arguments.len()
            invariant
                3 <= i <= arguments@.len(),
                values@.len() == i - 3,
                forall|k: int| 0 <= k < i - 3 ==> (#[trigger] values@[k])@ == arguments@[k + 3]@,
            decreases arguments@.len() - i,
        {
            values.push(arguments[i].clone());
            i = i + 1;
        }
        assert(text::texts(values@) =~= all.skip(3));
        match Command::parse(arguments[2].as_str(), &values) {
            Ok(command) => Ok(Options { socket: arguments[1].clone(), command }),
            Err(error) => Err(error),
        }
    }
}

} // verus!
