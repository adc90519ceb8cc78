//! Errors of the runtime procedures.

use vstd::prelude::*;

use crate::number::{signed_decimal, signed_decimal_text};
use crate::text::{concat2, concat4, concat5};

verus! {

/// Why a factory reset did not go through.
#[derive(Debug)]
pub enum FactoryResetError {
    InvalidConfig(String),
    MissingField(String),
    BackupFailed { path: String, reason: String },
    RestoreFailed { path: String, reason: String },
    ReformatFailed { device: String, reason: String },
    MountError(String),
    Io(String),
}

/// A factory-reset error as mathematical text.
#[verifier::ext_equal]
pub enum FactoryResetErrorView {
    InvalidConfig(Seq<char>),
    MissingField(Seq<char>),
    BackupFailed { path: Seq<char>, reason: Seq<char> },
    RestoreFailed { path: Seq<char>, reason: Seq<char> },
    ReformatFailed { device: Seq<char>, reason: Seq<char> },
    MountError(Seq<char>),
    Io(Seq<char>),
}

impl DeepView for FactoryResetError {
    type V = FactoryResetErrorView;

    open spec fn deep_view(&self) -> FactoryResetErrorView {
        match self {
            FactoryResetError::InvalidConfig(t) => FactoryResetErrorView::InvalidConfig(t@),
            FactoryResetError::MissingField(t) => FactoryResetErrorView::MissingField(t@),
            FactoryResetError::BackupFailed { path, reason } => {
                FactoryResetErrorView::BackupFailed { path: path@, reason: reason@ }
            },
            FactoryResetError::RestoreFailed { path, reason } => {
                FactoryResetErrorView::RestoreFailed { path: path@, reason: reason@ }
            },
            FactoryResetError::ReformatFailed { device, reason } => {
                FactoryResetErrorView::ReformatFailed { device: device@, reason: reason@ }
            },
            FactoryResetError::MountError(t) => FactoryResetErrorView::MountError(t@),
            FactoryResetError::Io(t) => FactoryResetErrorView::Io(t@),
        }
    }
}

/// Why the data partition was not resized.
#[derive(Debug)]
pub enum ResizeDataError {
    InvalidDevicePath(String),
    ExtendedPartitionNotFound(String),
    CommandFailed { command: String, code: i32, output: String },
    Io(String),
}

/// A resize error as mathematical text.
#[verifier::ext_equal]
pub enum ResizeDataErrorView {
    InvalidDevicePath(Seq<char>),
    ExtendedPartitionNotFound(Seq<char>),
    CommandFailed { command: Seq<char>, code: i32, output: Seq<char> },
    Io(Seq<char>),
}

impl DeepView for ResizeDataError {
    type V = ResizeDataErrorView;

    open spec fn deep_view(&self) -> ResizeDataErrorView {
        match self {
            ResizeDataError::InvalidDevicePath(t) => ResizeDataErrorView::InvalidDevicePath(t@),
            ResizeDataError::ExtendedPartitionNotFound(t) => {
                ResizeDataErrorView::ExtendedPartitionNotFound(t@)
            },
            ResizeDataError::CommandFailed { command, code, output } => {
                ResizeDataErrorView::CommandFailed {
                    command: command@,
                    code: *code,
                    output: output@,
                }
            },
            ResizeDataError::Io(t) => ResizeDataErrorView::Io(t@),
        }
    }
}

/// Any error of the runtime procedures.
#[derive(Debug)]
pub enum InitramfsError {
    Io(String),
    Bootloader(String),
    FactoryReset(FactoryResetError),
    ResizeData(ResizeDataError),
}

/// A runtime error as mathematical text.
#[verifier::ext_equal]
pub enum InitramfsErrorView {
    Io(Seq<char>),
    Bootloader(Seq<char>),
    FactoryReset(FactoryResetErrorView),
    ResizeData(ResizeDataErrorView),
}

impl DeepView for InitramfsError {
    type V = InitramfsErrorView;

    open spec fn deep_view(&self) -> InitramfsErrorView {
        match self {
            InitramfsError::Io(t) => InitramfsErrorView::Io(t@),
            InitramfsError::Bootloader(t) => InitramfsErrorView::Bootloader(t@),
            InitramfsError::FactoryReset(e) => InitramfsErrorView::FactoryReset(e.deep_view()),
            InitramfsError::ResizeData(e) => InitramfsErrorView::ResizeData(e.deep_view()),
        }
    }
}

// ---------------------------------------------------------------------------
// Errors in words
// ---------------------------------------------------------------------------

impl FactoryResetErrorView {
    pub open spec fn text(self) -> Seq<char> {
        match self {
            FactoryResetErrorView::InvalidConfig(t) => "invalid factory-reset config: "@ + t,
            FactoryResetErrorView::MissingField(t) => "missing field: "@ + t,
            FactoryResetErrorView::BackupFailed { path, reason } => "backup of "@ + path
                + " failed: "@ + reason,
            FactoryResetErrorView::RestoreFailed { path, reason } => "restore of "@ + path
                + " failed: "@ + reason,
            FactoryResetErrorView::ReformatFailed { device, reason } => "reformat of "@ + device
                + " failed: "@ + reason,
            FactoryResetErrorView::MountError(t) => "mount error: "@ + t,
            FactoryResetErrorView::Io(t) => "I/O error: "@ + t,
        }
    }
}

impl FactoryResetError {
    /// The error in words.
    pub fn message(&self) -> (r: String)
        ensures
            r@ == self.deep_view().text(),
    {
        match self {
            FactoryResetError::InvalidConfig(t) => {
                concat2("invalid factory-reset config: ", t.as_str())
            },
            FactoryResetError::MissingField(t) => concat2("missing field: ", t.as_str()),
            FactoryResetError::BackupFailed { path, reason } => {
                concat4("backup of ", path.as_str(), " failed: ", reason.as_str())
            },
            FactoryResetError::RestoreFailed { path, reason } => {
                concat4("restore of ", path.as_str(), " failed: ", reason.as_str())
            },
            FactoryResetError::ReformatFailed { device, reason } => {
                concat4("reformat of ", device.as_str(), " failed: ", reason.as_str())
            },
            FactoryResetError::MountError(t) => concat2("mount error: ", t.as_str()),
            FactoryResetError::Io(t) => concat2("I/O error: ", t.as_str()),
        }
    }
}

impl ResizeDataErrorView {
    pub open spec fn text(self) -> Seq<char> {
        match self {
            ResizeDataErrorView::InvalidDevicePath(t) => "invalid device path: "@ + t,
            ResizeDataErrorView::ExtendedPartitionNotFound(t) => "no extended partition on "@ + t,
            ResizeDataErrorView::CommandFailed { command, code, output } => command
                + " failed with code "@ + signed_decimal(code as int) + ": "@ + output,
            ResizeDataErrorView::Io(t) => "I/O error: "@ + t,
        }
    }
}

impl ResizeDataError {
    /// The error in words.
    pub fn message(&self) -> (r: String)
        ensures
            r@ == self.deep_view().text(),
    {
        match self {
            ResizeDataError::InvalidDevicePath(t) => concat2("invalid device path: ", t.as_str()),
            ResizeDataError::ExtendedPartitionNotFound(t) => {
                concat2("no extended partition on ", t.as_str())
            },
            ResizeDataError::CommandFailed { command, code, output } => {
                concat5(
                    command.as_str(),
                    " failed with code ",
                    signed_decimal_text(*code).as_str(),
                    ": ",
                    output.as_str(),
                )
            },
            ResizeDataError::Io(t) => concat2("I/O error: ", t.as_str()),
        }
    }
}

impl InitramfsErrorView {
    pub open spec fn text(self) -> Seq<char> {
        match self {
            InitramfsErrorView::Io(t) => "I/O error: "@ + t,
            InitramfsErrorView::Bootloader(t) => "bootloader error: "@ + t,
            InitramfsErrorView::FactoryReset(e) => "factory reset: "@ + e.text(),
            InitramfsErrorView::ResizeData(e) => "data resize: "@ + e.text(),
        }
    }
}

impl InitramfsError {
    /// The error in words.
    pub fn message(&self) -> (r: String)
        ensures
            r@ == self.deep_view().text(),
    {
        match self {
            InitramfsError::Io(t) => concat2("I/O error: ", t.as_str()),
            InitramfsError::Bootloader(t) => concat2("bootloader error: ", t.as_str()),
            InitramfsError::FactoryReset(e) => concat2("factory reset: ", e.message().as_str()),
            InitramfsError::ResizeData(e) => concat2("data resize: ", e.message().as_str()),
        }
    }
}

}
