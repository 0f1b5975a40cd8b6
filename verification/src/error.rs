//! The errors that end an invocation.

use crate::numeral::{decimal, push_decimal, NumeralFault};
use vstd::prelude::*;

verus! {

/// The filesystem operation during which an I/O failure occurred.
#[derive(Debug, Clone, Copy, PartialEq, Eq, Structural)]
pub enum IoStage {
    /// Listing the base directory.
    List,
    /// Opening a control file for writing.
    Open,
    /// Writing to an open control file, or flushing it.
    Write,
    /// Reading a control file.
    Read,
}

/// The five kinds of error.
#[derive(Debug, Clone, Copy, PartialEq, Eq, Structural)]
pub enum ErrorKind {
    NotFound,
    PermissionError,
    IOError,
    InvalidData,
    InvalidArgument,
}

/// An error, with what identifies its cause.
#[derive(Debug, Clone, PartialEq, Eq)]
pub enum EppError {
    /// No control file was discovered: the host does not offer the setting.
    NotFound,
    /// A control file could not be opened for writing for want of permission.
    PermissionError { path: String, cause: String },
    /// Any other filesystem failure, at `path`.
    IOError { stage: IoStage, path: String, cause: String },
    /// The directory of a control file is named `cpu` followed by something
    /// that is no core index.
    InvalidData { path: String, fault: NumeralFault },
    /// A profile level outside 0 to 3.
    InvalidArgument { level: u8 },
}

/// An error as a mathematical value.
pub enum EppErrorView {
    NotFound,
    PermissionError { path: Seq<char>, cause: Seq<char> },
    IOError { stage: IoStage, path: Seq<char>, cause: Seq<char> },
    InvalidData { path: Seq<char>, fault: NumeralFault },
    InvalidArgument { level: u8 },
}

/// What is said of a text that is no numeral.
pub open spec fn fault_text(fault: NumeralFault) -> Seq<char> {
    match fault {
        NumeralFault::Empty => "cannot parse integer from empty string"@,
        NumeralFault::InvalidDigit => "invalid digit found in string"@,
        NumeralFault::TooLarge => "number too large to fit in target type"@,
    }
}

impl EppErrorView {
    /// The kind of the error.
    pub open spec fn kind(self) -> ErrorKind {
        match self {
            EppErrorView::NotFound => ErrorKind::NotFound,
            EppErrorView::PermissionError { .. } => ErrorKind::PermissionError,
            EppErrorView::IOError { .. } => ErrorKind::IOError,
            EppErrorView::InvalidData { .. } => ErrorKind::InvalidData,
            EppErrorView::InvalidArgument { .. } => ErrorKind::InvalidArgument,
        }
    }

    /// The message shown to the user. That of a filesystem failure names the
    /// path and gives the cause.
    pub open spec fn message(self) -> Seq<char> {
        match self {
            EppErrorView::NotFound => "Error: No CPU energy preference files found."@,
            EppErrorView::PermissionError { path, cause } => {
                "\nPermission error for writing to "@ + path
                    + ".\nEnsure you have root privileges to modify EPP settings.\nError details: "@
                    + cause
            },
            EppErrorView::IOError { stage, path, cause } => {
                let said = match stage {
                    IoStage::List => "\nFailed to list "@ + path + "."@,
                    IoStage::Open => "\nFailed to open "@ + path + " for writing."@,
                    IoStage::Write => "\nFailed to write to "@ + path + "."@,
                    IoStage::Read => "\nFailed to read "@ + path + "."@,
                };
                said + "\nError details: "@ + cause
            },
            EppErrorView::InvalidData { fault, .. } => "Invalid CPU number in path: "@ + fault_text(
                fault,
            ),
            EppErrorView::InvalidArgument { level } => {
                "Invalid profile level: "@ + decimal(level as nat) + ". Must be between 0 and 3."@
            },
        }
    }
}

impl View for EppError {
    type V = EppErrorView;

    open spec fn view(&self) -> EppErrorView {
        match self {
            EppError::NotFound => EppErrorView::NotFound,
            EppError::PermissionError { path, cause } => EppErrorView::PermissionError {
                path: path@,
                cause: cause@,
            },
            EppError::IOError { stage, path, cause } => EppErrorView::IOError {
                stage: *stage,
                path: path@,
                cause: cause@,
            },
            EppError::InvalidData { path, fault } => EppErrorView::InvalidData {
                path: path@,
                fault: *fault,
            },
            EppError::InvalidArgument { level } => EppErrorView::InvalidArgument { level: *level },
        }
    }
}

impl EppError {
    /// The kind of the error.
    pub fn kind(&self) -> (k: ErrorKind)
        ensures
            k == self@.kind(),
    {
        match self {
            EppError::NotFound => ErrorKind::NotFound,
            EppError::PermissionError { .. } => ErrorKind::PermissionError,
            EppError::IOError { .. } => ErrorKind::IOError,
            EppError::InvalidData { .. } => ErrorKind::InvalidData,
            EppError::InvalidArgument { .. } => ErrorKind::InvalidArgument,
        }
    }

    /// The message shown to the user.
    pub fn message(&self) -> (text: String)
        ensures
            text@ == self@.message(),
    {
        match self {
            EppError::NotFound => String::from_str("Error: No CPU energy preference files found."),
            EppError::PermissionError { path, cause } => {
                let mut text: String = String::from_str("\nPermission error for writing to ");
                text.append(path.as_str());
                text.append(
                    ".\nEnsure you have root privileges to modify EPP settings.\nError details: ",
                );
                text.append(cause.as_str());
                text
            },
            EppError::IOError { stage, path, cause } => {
                let mut text: String = String::from_str(
                    match stage {
                        IoStage::List => "\nFailed to list ",
                        IoStage::Open => "\nFailed to open ",
                        IoStage::Write => "\nFailed to write to ",
                        IoStage::Read => "\nFailed to read ",
                    },
                );
                text.append(path.as_str());
                text.append(
                    match stage {
                        IoStage::Open => " for writing.",
                        _ => ".",
                    },
                );
                text.append("\nError details: ");
                text.append(cause.as_str());
                text
            },
            EppError::InvalidData { fault, .. } => {
                let mut text: String = String::from_str("Invalid CPU number in path: ");
                text.append(
                    match fault {
                        NumeralFault::Empty => "cannot parse integer from empty string",
                        NumeralFault::InvalidDigit => "invalid digit found in string",
                        NumeralFault::TooLarge => "number too large to fit in target type",
                    },
                );
                text
            },
            EppError::InvalidArgument { level } => {
                let mut text: String = String::from_str("Invalid profile level: ");
                push_decimal(&mut text, *level as u32);
                text.append(". Must be between 0 and 3.");
                text
            },
        }
    }
}

} // verus!
