use vstd::prelude::*;

verus! {

/// The ways an operation on a supervised task can fail.  A value is paired
/// with an optional descriptor (a task id, an errno, a file name) in
/// [`MultErrorTuple`].
#[derive(Debug, Clone, Copy, PartialEq, Eq, Structural)]
pub enum MultError {
    MainDirNotExist,
    ProcessNotRunning,
    ProcessNotExists,
    ProcessAlreadyRunning,
    ProcessDirNotExist,
    UnknownProcessInDir,
    FailedReadingProcessDir,
    TaskDirNotExist,
    TaskFileNotExist,
    TaskFileCorrupted,
    TaskBinFileUnreadable,
    UsageBinFileUnreadable,
    TaskNotFound,
    InvalidTaskId,
    FailedFormattingProcessEntry,
    FailedConvertingProcessEntry,
    MissingCommand,
    ExeDirNotFound,
    InvalidArgument,
    CannotReadOutputFile,
    OSNotSupported,
    CustomError,
    FailedToReadProcessStats,
    // Windows only
    WindowsError,
    WindowsNotSupported,
    // Linux only
    LinuxError,
    ForkFailed,
    SetSidFailed,
    CgroupsMissing,
    // Unix only
    UnixError,
}

/// An error together with its descriptor, as surfaced to the user.
pub type MultErrorTuple = (MultError, Option<String>);

pub const RUN_FIX_TEXT: &'static str = "Try running `mlt health --fix-all` to fix this.";

/// The sentence shown for an error, with the descriptor (or nothing, when
/// none was carried) filled into the messages that name one.
pub open spec fn error_message_spec(error: MultError, descriptor: Option<Seq<char>>) -> Seq<char> {
    let d = match descriptor {
        Some(s) => s,
        None => Seq::<char>::empty(),
    };
    match error {
        MultError::MainDirNotExist => "Main directory doesn't exist.\n"@ + RUN_FIX_TEXT@,
        MultError::ProcessDirNotExist => "Process directory doesn't exist.\n"@ + RUN_FIX_TEXT@,
        MultError::ProcessNotExists => "Process doesn't exist."@,
        MultError::FailedReadingProcessDir => "Failed reading processes directory."@,
        MultError::TaskDirNotExist => "Could not get task directory "@ + d + "."@,
        MultError::TaskFileNotExist => "Could not get task file "@ + d + "."@,
        MultError::TaskFileCorrupted => "Task file "@ + d
            + " is corrupted, delete the process with 'mlt delete "@ + d + "'."@,
        MultError::TaskBinFileUnreadable => "Failed to read from tasks file."@,
        MultError::TaskNotFound =>
            "No task exists with that id, use mlt ls to see the available tasks."@,
        MultError::InvalidTaskId => "Invalid id, see 'mlt help' for more."@,
        MultError::UsageBinFileUnreadable => "Failed to read from usage file."@,
        MultError::UnknownProcessInDir => "Unknown process in dir: "@ + d,
        MultError::FailedFormattingProcessEntry => "Failed formatting entry."@,
        MultError::FailedConvertingProcessEntry =>
            "Failed converting file name from processes directory."@,
        MultError::MissingCommand => "Missing command, see 'mlt help' for more."@,
        MultError::ExeDirNotFound => "Could not get directory of executable."@,
        MultError::ProcessNotRunning => "Process is not running."@,
        MultError::ProcessAlreadyRunning => "Process is already running."@,
        MultError::WindowsNotSupported => "Windows does not support "@ + d + "."@,
        MultError::InvalidArgument => "Invalid argument "@ + d + "."@,
        MultError::CannotReadOutputFile => "Could not read output file."@,
        MultError::ForkFailed => "Fork failed."@,
        MultError::SetSidFailed => "Setting sid failed."@,
        MultError::OSNotSupported =>
            "Windows & linux is only officially supported at the moment"@,
        MultError::CustomError => d,
        MultError::CgroupsMissing => "Cgroups is missing."@,
        MultError::FailedToReadProcessStats => "Failed to read the process' stats"@,
        MultError::WindowsError => "Windows error code: "@ + d,
        MultError::LinuxError => "Linux error code: "@ + d,
        MultError::UnixError => "Unix error code: "@ + d,
    }
}

/// Writes the sentence shown for an error.
pub fn error_message(error: &MultError, descriptor: Option<&String>) -> (r: String)
    ensures
        r@ == error_message_spec(*error, match descriptor {
            Some(s) => Some(s@),
            None => None,
        }),
{
    let d: &str = match descriptor {
        Some(s) => s.as_str(),
        None => "",
    };
    proof {
        reveal_strlit("");
        assert(d@ == match descriptor {
            Some(s) => s@,
            None => Seq::<char>::empty(),
        });
    }
    match error {
        MultError::MainDirNotExist => {
            let mut m = String::from_str("Main directory doesn't exist.\n");
            m.append(RUN_FIX_TEXT);
            m
        },
        MultError::ProcessDirNotExist => {
            let mut m = String::from_str("Process directory doesn't exist.\n");
            m.append(RUN_FIX_TEXT);
            m
        },
        MultError::ProcessNotExists => String::from_str("Process doesn't exist."),
        MultError::FailedReadingProcessDir => String::from_str(
            "Failed reading processes directory.",
        ),
        MultError::TaskDirNotExist => {
            let mut m = String::from_str("Could not get task directory ");
            m.append(d);
            m.append(".");
            m
        },
        MultError::TaskFileNotExist => {
            let mut m = String::from_str("Could not get task file ");
            m.append(d);
            m.append(".");
            m
        },
        MultError::TaskFileCorrupted => {
            let mut m = String::from_str("Task file ");
            m.append(d);
            m.append(" is corrupted, delete the process with 'mlt delete ");
            m.append(d);
            m.append("'.");
            m
        },
        MultError::TaskBinFileUnreadable => String::from_str("Failed to read from tasks file."),
        MultError::TaskNotFound => String::from_str(
            "No task exists with that id, use mlt ls to see the available tasks.",
        ),
        MultError::InvalidTaskId => String::from_str("Invalid id, see 'mlt help' for more."),
        MultError::UsageBinFileUnreadable => String::from_str("Failed to read from usage file."),
        MultError::UnknownProcessInDir => {
            let mut m = String::from_str("Unknown process in dir: ");
            m.append(d);
            m
        },
        MultError::FailedFormattingProcessEntry => String::from_str("Failed formatting entry."),
        MultError::FailedConvertingProcessEntry => String::from_str(
            "Failed converting file name from processes directory.",
        ),
        MultError::MissingCommand => String::from_str("Missing command, see 'mlt help' for more."),
        MultError::ExeDirNotFound => String::from_str("Could not get directory of executable."),
        MultError::ProcessNotRunning => String::from_str("Process is not running."),
        MultError::ProcessAlreadyRunning => String::from_str("Process is already running."),
        MultError::WindowsNotSupported => {
            let mut m = String::from_str("Windows does not support ");
            m.append(d);
            m.append(".");
            m
        },
        MultError::InvalidArgument => {
            let mut m = String::from_str("Invalid argument ");
            m.append(d);
            m.append(".");
            m
        },
        MultError::CannotReadOutputFile => String::from_str("Could not read output file."),
        MultError::ForkFailed => String::from_str("Fork failed."),
        MultError::SetSidFailed => String::from_str("Setting sid failed."),
        MultError::OSNotSupported => String::from_str(
            "Windows & linux is only officially supported at the moment",
        ),
        MultError::CustomError => {
            let mut m = String::new();
            m.append(d);
            m
        },
        MultError::CgroupsMissing => String::from_str("Cgroups is missing."),
        MultError::FailedToReadProcessStats => String::from_str(
            "Failed to read the process' stats",
        ),
        MultError::WindowsError => {
            let mut m = String::from_str("Windows error code: ");
            m.append(d);
            m
        },
        MultError::LinuxError => {
            let mut m = String::from_str("Linux error code: ");
            m.append(d);
            m
        },
        MultError::UnixError => {
            let mut m = String::from_str("Unix error code: ");
            m.append(d);
            m
        },
    }
}

} // verus!
