use vstd::prelude::*;

verus! {

/// Process exit codes of the command line tool.
#[derive(Debug, Clone, Copy, PartialEq, Eq, Structural)]
pub enum ErrorCode {
    /// CLI usage error (missing args, invalid flags).
    Usage,
    /// Input error (missing file, invalid YAML/JSON, etc.).
    Input,
    /// Processing error (internal failure while generating outputs).
    Processing,
}

/// The numeric exit status of each error code.
pub open spec fn exit_status_of(code: ErrorCode) -> u8 {
    match code {
        ErrorCode::Usage => 1,
        ErrorCode::Input => 2,
        ErrorCode::Processing => 3,
    }
}

impl ErrorCode {
    /// The process exit status for this code.
    pub fn exit_status(self) -> (s: u8)
        ensures
            s == exit_status_of(self),
    {
        match self {
            ErrorCode::Usage => 1,
            ErrorCode::Input => 2,
            ErrorCode::Processing => 3,
        }
    }
}

/// An error of the command line tool: a code and a message.
#[derive(Debug)]
pub struct CliError {
    pub code: ErrorCode,
    pub message: String,
}

impl CliError {
    pub fn usage(message: String) -> (e: Self)
        ensures
            e.code == ErrorCode::Usage,
            e.message@ == message@,
    {
        CliError { code: ErrorCode::Usage, message }
    }

    pub fn input(message: String) -> (e: Self)
        ensures
            e.code == ErrorCode::Input,
            e.message@ == message@,
    {
        CliError { code: ErrorCode::Input, message }
    }

    pub fn processing(message: String) -> (e: Self)
        ensures
            e.code == ErrorCode::Processing,
            e.message@ == message@,
    {
        CliError { code: ErrorCode::Processing, message }
    }

    /// The text shown to the user: the message itself.
    pub fn to_string(&self) -> (s: String)
        ensures
            s@ == self.message@,
    {
        self.message.clone()
    }
}

} // verus!
