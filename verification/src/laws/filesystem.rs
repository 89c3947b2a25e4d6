//! Laws on file creation.

use vstd::prelude::*;

use crate::filesystem;
use crate::filesystem::{
    CreationModel, CreationProgress, FileAction, FileEvent, FilesystemAdapterError, TrustedRoot,
    WriteRequest,
};
use crate::task;

verus! {

/// A creation begins wherever the path is normal, the contents are of at most a mebibyte, and the
/// budget of the task is not used up; it asks for the path without its leading slash, and for
/// the whole contents.
pub proof fn law_creations_go_below_the_root(operation: WriteRequest, now: u128)
    ensures
        filesystem::creation_start(operation, now) is Ok <==> task::is_normal_path(operation.path)
            && operation.contents.len() <= 1_048_576 && operation.deadline is Some && now
            < operation.deadline->0,
        filesystem::creation_start(operation, now) is Ok ==> {
            let start = filesystem::creation_start(operation, now)->Ok_0;
            &&& seq!['/'] + start.relative_path =~= operation.path
            &&& start.contents == operation.contents
            &&& start.action == FileAction::Create
            &&& Some(start.deadline) == operation.deadline
        },
{
    if filesystem::creation_start(operation, now) is Ok {
        let path = operation.path;
        let bytes = crate::text::utf8(path);
        crate::text::lemma_utf8_empty(path);
        assert(path.len() > 0);
        let first = path[0];
        crate::laws::text::law_encodings_join(seq![first], path.skip(1));
        assert(seq![first] + path.skip(1) =~= path);
        lemma_first_byte(first);
    }
}

/// A character whose encoding begins with the byte of a slash is a slash.
proof fn lemma_first_byte(c: char)
    ensures
        crate::text::utf8(seq![c]).len() > 0,
        crate::text::utf8(seq![c])[0] == 0x2f ==> c == '/',
{
    if '\u{80}' <= c {
        crate::laws::text::lemma_wide_characters_have_wide_bytes(c);
    } else {
        crate::laws::text::law_plain_characters_are_bytes(c);
    }
}

/// Why a creation does not begin: a bad operation first, then an operation without a task, then
/// a budget that is used up.
pub proof fn law_creations_are_refused_in_order(operation: WriteRequest, now: u128)
    ensures
        !task::is_normal_path(operation.path) || operation.contents.len() > 1_048_576
            ==> filesystem::creation_start(operation, now) == Err::<
            CreationModel,
            FilesystemAdapterError,
        >(FilesystemAdapterError::InvalidOperation),
        task::is_normal_path(operation.path) && operation.contents.len() <= 1_048_576
            && operation.deadline is None ==> filesystem::creation_start(operation, now) == Err::<
            CreationModel,
            FilesystemAdapterError,
        >(FilesystemAdapterError::ScopeMismatch),
        task::is_normal_path(operation.path) && operation.contents.len() <= 1_048_576
            && operation.deadline is Some && now >= operation.deadline->0
            ==> filesystem::creation_start(operation, now) == Err::<
            CreationModel,
            FilesystemAdapterError,
        >(FilesystemAdapterError::BudgetExceeded),
{
}

/// A file is created and then written: before the deadline of its task the first step leads on
/// to the second, with nothing changed but the step, and the second to a receipt for all of the
/// contents. A step that failed is named; one that ended late used up the budget.
pub proof fn law_files_are_created_and_then_written(m: CreationModel, now: u128)
    ensures
        m.action is Create && now < m.deadline ==> m.step(FileEvent::Done, now)
            == CreationProgress::Going(CreationModel { action: FileAction::Write, ..m }),
        m.action is Write && now < m.deadline ==> m.step(FileEvent::Done, now)
            == CreationProgress::Ended(Ok(m.contents.len())),
        now >= m.deadline ==> m.step(FileEvent::Done, now) == CreationProgress::Ended(
            Err(FilesystemAdapterError::BudgetExceeded),
        ),
        m.action is Create ==> m.step(FileEvent::Failed, now) == CreationProgress::Ended(
            Err(FilesystemAdapterError::CreateFailed),
        ),
        m.action is Write ==> m.step(FileEvent::Failed, now) == CreationProgress::Ended(
            Err(FilesystemAdapterError::WriteFailed),
        ),
{
}

/// The root is asked to create the file below it, and to write the whole contents to it only where
/// that was done in time; an operation that cannot begin never reaches the root.
pub proof fn law_roots_are_asked_to_create_and_then_to_write<R: TrustedRoot>(
    before: R,
    mid: R,
    after: R,
    operation: WriteRequest,
    now: u128,
    created: FileEvent,
    then: u128,
    written: FileEvent,
)
    requires
        filesystem::root_told(before, mid, after, operation, now, created, then, written),
    ensures
        filesystem::creation_start(operation, now) is Err ==> after == before,
        filesystem::creation_start(operation, now) is Ok ==> R::tells(
            before,
            FileAction::Create,
            operation.path.skip(1),
            operation.contents,
            mid,
            created,
        ),
        filesystem::creation_start(operation, now) is Ok && created is Done && then
            < operation.deadline->0 ==> R::tells(
            mid,
            FileAction::Write,
            operation.path.skip(1),
            operation.contents,
            after,
            written,
        ),
        filesystem::creation_start(operation, now) is Ok && (created is Failed || then
            >= operation.deadline->0) ==> after == mid,
{
}

} // verus!
