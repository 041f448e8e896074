//! The storing of a ping in a file, step by step.
//!
//! A ping is written to a staging file outside the pings directory and, once the staging
//! file is whole and closed, renamed into the pings directory. This module decides what
//! comes next; the caller works on the file system and tells how each operation went.

use vstd::prelude::*;
use vstd::utf8::encode_utf8;

verus! {

/// What the file of a ping holds, byte for byte: the path that the ping is sent to, a line
/// feed, and the ping as text.
pub open spec fn file_contents(url_path: Seq<char>, ping_content: Seq<char>) -> Seq<u8> {
    encode_utf8(url_path) + seq![0x0au8] + encode_utf8(ping_content)
}

/// What the file of a ping holds.
pub fn ping_file_contents(url_path: &str, ping_content: &str) -> (contents: Vec<u8>)
    ensures
        contents@ == file_contents(url_path@, ping_content@),
{
    let mut contents = url_path.as_bytes_vec();
    contents.push(0x0au8);
    let mut body = ping_content.as_bytes_vec();
    contents.append(&mut body);
    contents
}

/// An operation on the file system, or the end of the storing.
#[derive(Debug, Clone, Copy, PartialEq, Eq, Structural)]
pub enum Operation {
    /// Create the directory `pings` in the data directory, with the directories above it.
    CreateDirectory,
    /// Create the staging file, write to it what the file of the ping holds, and close it.
    WriteStagingFile,
    /// Rename the staging file to the file of the ping in the pings directory.
    Rename,
    /// Stop: the ping is stored.
    Succeed,
    /// Stop, and give the caller the failure of the last operation.
    Fail,
}

/// How far the storing of a ping has come.
#[derive(Debug, Clone, Copy, PartialEq, Eq, Structural)]
pub enum Progress {
    /// The pings directory is being created.
    CreatingDirectory,
    /// The staging file is being written.
    Writing,
    /// The staging file is being renamed.
    Renaming,
    /// The ping is stored.
    Stored,
    /// An operation failed. The ping is not stored.
    Failed,
}

/// The operation that is under way at a point of the storing.
pub open spec fn pending(progress: Progress) -> Operation {
    match progress {
        Progress::CreatingDirectory => Operation::CreateDirectory,
        Progress::Writing => Operation::WriteStagingFile,
        Progress::Renaming => Operation::Rename,
        Progress::Stored => Operation::Succeed,
        Progress::Failed => Operation::Fail,
    }
}

/// Where the storing stands when the operation under way has ended. Each operation follows
/// the success of the one before; the first failure ends the storing.
pub open spec fn advanced(progress: Progress, succeeded: bool) -> Progress {
    match progress {
        Progress::CreatingDirectory => if succeeded {
            Progress::Writing
        } else {
            Progress::Failed
        },
        Progress::Writing => if succeeded {
            Progress::Renaming
        } else {
            Progress::Failed
        },
        Progress::Renaming => if succeeded {
            Progress::Stored
        } else {
            Progress::Failed
        },
        Progress::Stored => Progress::Stored,
        Progress::Failed => Progress::Failed,
    }
}

/// The start of the storing of a ping, and the first operation.
pub fn store_ping_start() -> (next: (Progress, Operation))
    ensures
        next.0 == Progress::CreatingDirectory,
        next.1 == pending(next.0),
{
    (Progress::CreatingDirectory, Operation::CreateDirectory)
}

/// Where the storing stands when the operation under way has ended with or without success,
/// and the operation that comes next.
pub fn store_ping_step(progress: Progress, succeeded: bool) -> (next: (Progress, Operation))
    ensures
        next.0 == advanced(progress, succeeded),
        next.1 == pending(next.0),
{
    match progress {
        Progress::CreatingDirectory if succeeded => (
            Progress::Writing,
            Operation::WriteStagingFile,
        ),
        Progress::Writing if succeeded => (Progress::Renaming, Operation::Rename),
        Progress::Renaming if succeeded => (Progress::Stored, Operation::Succeed),
        Progress::Stored => (Progress::Stored, Operation::Succeed),
        _ => (Progress::Failed, Operation::Fail),
    }
}

/// The two files that the storing of a ping touches: what each holds, if it is there.
pub struct Files {
    /// The staging file.
    pub staging: Option<Seq<u8>>,
    /// The file of the ping in the pings directory.
    pub stored: Option<Seq<u8>>,
}

/// What an operation can make of the files. A write that succeeds leaves `contents` in the
/// staging file; one that fails or is cut short may leave anything there. A rename moves the
/// staging file wholly or not at all. Nothing else touches the two files.
pub open spec fn effect(
    before: Files,
    operation: Operation,
    succeeded: bool,
    contents: Seq<u8>,
    after: Files,
) -> bool {
    match operation {
        Operation::WriteStagingFile => {
            &&& after.stored == before.stored
            &&& succeeded ==> after.staging == Some(contents)
        },
        Operation::Rename => if succeeded {
            &&& before.staging is Some
            &&& after.stored == before.staging
            &&& after.staging is None
        } else {
            after == before
        },
        _ => after == before,
    }
}

/// A point of a storing: how far it has come, and the files as they are then.
pub struct Moment {
    pub progress: Progress,
    pub files: Files,
}

/// Whether `moments` can be the points of one storing of a file with `contents`, from its
/// start on: each point follows from the one before by the operation under way there.
pub open spec fn is_run(moments: Seq<Moment>, contents: Seq<u8>) -> bool {
    &&& moments.len() > 0
    &&& moments[0].progress == Progress::CreatingDirectory
    &&& forall|i: int|
        0 <= i < moments.len() - 1 ==> exists|succeeded: bool|
            {
                &&& (#[trigger] moments[i + 1]).progress == advanced(
                    moments[i].progress,
                    succeeded,
                )
                &&& effect(
                    moments[i].files,
                    pending(moments[i].progress),
                    succeeded,
                    contents,
                    moments[i + 1].files,
                )
            }
}

/// At every point of a storing, the file of the ping in the pings directory is as it was
/// at the start, or the ping is stored and the file holds the whole contents. A storing that
/// ends early, at whatever point, leaves no part of a ping there.
pub proof fn lemma_store_ping_atomic(moments: Seq<Moment>, contents: Seq<u8>, i: int)
    requires
        is_run(moments, contents),
        0 <= i < moments.len(),
    ensures
        moments[i].progress != Progress::Stored ==> moments[i].files.stored
            == moments[0].files.stored,
        moments[i].progress == Progress::Stored ==> moments[i].files.stored == Some(contents),
        moments[i].progress == Progress::Renaming ==> moments[i].files.staging == Some(contents),
    decreases i,
{
    if i > 0 {
        lemma_store_ping_atomic(moments, contents, i - 1);
        assert(moments[i - 1 + 1] == moments[i]);
    }
}

} // verus!
