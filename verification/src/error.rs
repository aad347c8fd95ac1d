//! Failure classification. Every failure carries the stage it happened in and,
//! where the OS produced one, the raw error code - a single run's output has to
//! be enough to locate a failure without reproducing it.

use vstd::prelude::*;
use vstd::string::*;

use crate::text;

verus! {

/// Device access steps reported by `--trace` and named in every `DeviceError`.
#[derive(Debug, Clone, Copy, PartialEq, Eq, Structural)]
pub enum Stage {
    Enumerate,
    Open,
    QueryGeometry,
    LockVolume,
    Seek,
    Read,
    Write,
    Flush,
    ParsePit,
    ParseParts,
}

impl Stage {
    /// The name a stage goes by in every report.
    pub open spec fn name(self) -> Seq<char> {
        match self {
            Stage::Enumerate => "enumerate-devices"@,
            Stage::Open => "open-device"@,
            Stage::QueryGeometry => "query-geometry"@,
            Stage::LockVolume => "lock-volume"@,
            Stage::Seek => "seek"@,
            Stage::Read => "read"@,
            Stage::Write => "write"@,
            Stage::Flush => "flush"@,
            Stage::ParsePit => "parse-pit"@,
            Stage::ParseParts => "parse-partitions"@,
        }
    }

    pub fn as_str(self) -> (name: &'static str)
        ensures
            name@ == self.name(),
    {
        match self {
            Stage::Enumerate => "enumerate-devices",
            Stage::Open => "open-device",
            Stage::QueryGeometry => "query-geometry",
            Stage::LockVolume => "lock-volume",
            Stage::Seek => "seek",
            Stage::Read => "read",
            Stage::Write => "write",
            Stage::Flush => "flush",
            Stage::ParsePit => "parse-pit",
            Stage::ParseParts => "parse-partitions",
        }
    }
}

/// The operating system's own I/O error.
#[verifier::external_type_specification]
#[verifier::external_body]
pub struct ExIoError(std::io::Error);

/// `std::io::Error::raw_os_error` gives the code of an error the OS raised.
/// Which code that is depends on where the error came from, so nothing is
/// claimed of it.
pub assume_specification[ std::io::Error::raw_os_error ](err: &std::io::Error) -> Option<i32>;

/// What `f` answers for an error.
fn asked<F: Fn(&std::io::Error) -> Option<i32>>(f: F, err: &std::io::Error) -> (code: Option<i32>)
    requires
        call_requires(f, (err,)),
    ensures
        call_ensures(f, (err,), code),
{
    f(err)
}

/// What a failed file operation had to say: its rendered text, and the OS code
/// behind it where there is one.
#[derive(Debug, Clone, PartialEq, Eq)]
pub struct IoError {
    pub text: String,
    pub os_error: Option<i32>,
}

#[verifier::ext_equal]
pub struct IoErrorView {
    pub text: Seq<char>,
    pub os_error: Option<i32>,
}

impl View for IoError {
    type V = IoErrorView;

    open spec fn view(&self) -> IoErrorView {
        IoErrorView { text: self.text@, os_error: self.os_error }
    }
}

impl IoError {
    pub fn new(text: &str, os_error: Option<i32>) -> (err: IoError)
        ensures
            err@ == (IoErrorView { text: text@, os_error }),
    {
        IoError { text: text.to_owned(), os_error }
    }

    /// Holds what `err` itself answers: the text it renders to, and the code
    /// that `raw_os_error` gives for it.
    pub open spec fn says(self, err: std::io::Error) -> bool {
        &&& to_string_from_display_ensures(&err, self.text)
        &&& call_ensures(std::io::Error::raw_os_error, (&err,), self.os_error)
    }

    /// Takes an error of the standard library apart. Which words and which code
    /// it answers with is the platform's business; both are kept as they are.
    pub fn from_std(err: &std::io::Error) -> (taken: IoError)
        ensures
            taken.says(*err),
    {
        IoError { text: err.to_string(), os_error: asked(std::io::Error::raw_os_error, err) }
    }
}

/// A failed device access. `os_error` is the platform's own code (Win32 error
/// or errno), kept unmapped so the value in the output matches OS documentation.
#[derive(Debug, Clone, PartialEq, Eq)]
pub struct DeviceError {
    pub stage: Stage,
    pub message: String,
    pub os_error: Option<i32>,
}

#[verifier::ext_equal]
pub struct DeviceErrorView {
    pub stage: Stage,
    pub message: Seq<char>,
    pub os_error: Option<i32>,
}

impl View for DeviceError {
    type V = DeviceErrorView;

    open spec fn view(&self) -> DeviceErrorView {
        DeviceErrorView { stage: self.stage, message: self.message@, os_error: self.os_error }
    }
}

/// The way an OS code is appended to a message: ` (os error N)`.
pub open spec fn os_suffix(code: i32) -> Seq<char> {
    " (os error "@ + text::signed_dec(code as int) + ")"@
}

/// `text` with every copy of `suffix` at its end taken off.
pub open spec fn without_suffix(text: Seq<char>, suffix: Seq<char>) -> Seq<char>
    decreases text.len(),
{
    if suffix.len() > 0 && suffix.is_suffix_of(text) {
        without_suffix(text.subrange(0, text.len() - suffix.len()), suffix)
    } else {
        text
    }
}

impl DeviceErrorView {
    /// A failure the program itself noticed.
    pub open spec fn plain(stage: Stage, message: Seq<char>) -> DeviceErrorView {
        DeviceErrorView { stage, message, os_error: None }
    }

    /// A failed file operation, with the code told once: `io::Error` renders
    /// it into its own text and `text` adds it back.
    pub open spec fn of_io(stage: Stage, err: IoErrorView) -> DeviceErrorView {
        DeviceErrorView {
            stage,
            message: match err.os_error {
                Some(code) => without_suffix(err.text, os_suffix(code)),
                None => err.text,
            },
            os_error: err.os_error,
        }
    }

    /// `[stage] message`, and the OS code where there is one.
    pub open spec fn text(self) -> Seq<char> {
        let head = "["@ + self.stage.name() + "] "@ + self.message;
        match self.os_error {
            Some(code) => head + " (os error "@ + text::signed_dec(code as int) + ")"@,
            None => head,
        }
    }
}

impl DeviceError {
    pub fn new(stage: Stage, message: &str) -> (err: DeviceError)
        ensures
            err@ == DeviceErrorView::plain(stage, message@),
    {
        DeviceError { stage, message: message.to_owned(), os_error: None }
    }

    pub fn with_os_error(stage: Stage, message: &str, os_error: i32) -> (err: DeviceError)
        ensures
            err@ == (DeviceErrorView { stage, message: message@, os_error: Some(os_error) }),
    {
        DeviceError { stage, message: message.to_owned(), os_error: Some(os_error) }
    }

    pub fn from_io(stage: Stage, err: &std::io::Error) -> (failed: DeviceError)
        ensures
            exists|taken: IoError| #[trigger]
                taken.says(*err) && failed@ == DeviceErrorView::of_io(stage, taken@),
    {
        let taken = IoError::from_std(err);
        assert(taken.says(*err));
        DeviceError::from_io_error(stage, &taken)
    }

    /// Names the stage a file operation failed in.
    pub fn from_io_error(stage: Stage, err: &IoError) -> (failed: DeviceError)
        ensures
            failed@ == DeviceErrorView::of_io(stage, err@),
    {
        let message = match err.os_error {
            Some(code) => {
                let mut suffix = " (os error ".to_owned();
                text::push_signed(&mut suffix, code);
                suffix.append(")");
                text::trim_end_matches(err.text.as_str(), suffix.as_str())
            },
            None => err.text.clone(),
        };
        DeviceError { stage, message, os_error: err.os_error }
    }

    /// The whole report: stage, message and OS code.
    pub fn to_string(&self) -> (text: String)
        ensures
            text@ == self@.text(),
    {
        let mut text = "[".to_owned();
        text.append(self.stage.as_str());
        text.append("] ");
        text.append(self.message.as_str());
        match self.os_error {
            Some(code) => {
                text.append(" (os error ");
                text::push_signed(&mut text, code);
                text.append(")");
            },
            None => {},
        }
        text
    }
}

#[derive(Debug)]
pub enum Error {
    Device(DeviceError),
    /// Fixed disks are rejected before any write is attempted.
    NotRemovable { device: String, classification: &'static str },
    InvalidArgument(String),
    Pit(String),
    Parts(String),
    /// The device is left partially written; `written` bytes landed at `start`.
    WriteAborted { start: u64, written: u64, source: DeviceError },
    /// The medium did not keep what was written to it.
    VerifyFailed { offset: u64, expected: u8, found: u8 },
    Unsupported(&'static str),
    Io { context: String, source: IoError },
}

/// An [`Error`] by what it says.
#[verifier::ext_equal]
pub enum ErrorView {
    Device(DeviceErrorView),
    NotRemovable { device: Seq<char>, classification: Seq<char> },
    InvalidArgument(Seq<char>),
    Pit(Seq<char>),
    Parts(Seq<char>),
    WriteAborted { start: u64, written: u64, source: DeviceErrorView },
    VerifyFailed { offset: u64, expected: u8, found: u8 },
    Unsupported(Seq<char>),
    Io { context: Seq<char>, source: IoErrorView },
}

impl View for Error {
    type V = ErrorView;

    open spec fn view(&self) -> ErrorView {
        match *self {
            Error::Device(err) => ErrorView::Device(err@),
            Error::NotRemovable { device, classification } => ErrorView::NotRemovable {
                device: device@,
                classification: classification@,
            },
            Error::InvalidArgument(what) => ErrorView::InvalidArgument(what@),
            Error::Pit(what) => ErrorView::Pit(what@),
            Error::Parts(what) => ErrorView::Parts(what@),
            Error::WriteAborted { start, written, source } => ErrorView::WriteAborted {
                start,
                written,
                source: source@,
            },
            Error::VerifyFailed { offset, expected, found } => ErrorView::VerifyFailed {
                offset,
                expected,
                found,
            },
            Error::Unsupported(what) => ErrorView::Unsupported(what@),
            Error::Io { context, source } => ErrorView::Io { context: context@, source: source@ },
        }
    }
}

impl ErrorView {
    /// One line that says what went wrong.
    pub open spec fn text(self) -> Seq<char> {
        match self {
            ErrorView::Device(err) => err.text(),
            ErrorView::NotRemovable { device, classification } => "refusing to write: "@ + device
                + " is not a removable device ("@ + classification + ")"@,
            ErrorView::InvalidArgument(what) => "invalid argument: "@ + what,
            ErrorView::Pit(what) => "PIT: "@ + what,
            ErrorView::Parts(what) => "partition table: "@ + what,
            ErrorView::WriteAborted { start, written, source } => "write aborted after "@
                + text::dec(written as nat) + " bytes written at offset "@ + text::dec(start as nat)
                + ": "@ + source.text(),
            ErrorView::VerifyFailed { offset, expected, found } => "verify failed at offset "@
                + text::dec(offset as nat) + ": expected 0x"@ + text::hex_padded(
                expected as nat,
                2,
            ) + ", found 0x"@ + text::hex_padded(found as nat, 2),
            ErrorView::Unsupported(what) => "not supported on this platform: "@ + what,
            ErrorView::Io { context, source } => context + ": "@ + source.text,
        }
    }

    /// The exit code a run that fails this way ends with.
    pub open spec fn code(self) -> u8 {
        match self {
            ErrorView::InvalidArgument(_) => 2,
            ErrorView::Device(_) => 3,
            ErrorView::Io { .. } => 3,
            ErrorView::Pit(_) => 3,
            ErrorView::Parts(_) => 3,
            ErrorView::NotRemovable { .. } => 4,
            ErrorView::WriteAborted { .. } => 5,
            ErrorView::Unsupported(_) => 6,
            ErrorView::VerifyFailed { .. } => 7,
        }
    }
}

impl Error {
    pub fn io(context: &str, source: IoError) -> (err: Error)
        ensures
            err@ == (ErrorView::Io { context: context@, source: source@ }),
    {
        Error::Io { context: context.to_owned(), source }
    }

    /// The exit code alone must separate the failure classes a script cares about.
    pub fn exit_code(&self) -> (code: u8)
        ensures
            code == self@.code(),
    {
        match self {
            Error::InvalidArgument(_) => 2,
            Error::Device(_) | Error::Io { .. } | Error::Pit(_) | Error::Parts(_) => 3,
            Error::NotRemovable { .. } => 4,
            Error::WriteAborted { .. } => 5,
            Error::Unsupported(_) => 6,
            Error::VerifyFailed { .. } => 7,
        }
    }

    /// One line that says what went wrong.
    pub fn to_string(&self) -> (text: String)
        ensures
            text@ == self@.text(),
    {
        match self {
            Error::Device(err) => err.to_string(),
            Error::NotRemovable { device, classification } => {
                let mut text = "refusing to write: ".to_owned();
                text.append(device.as_str());
                text.append(" is not a removable device (");
                text.append(classification);
                text.append(")");
                text
            },
            Error::InvalidArgument(what) => {
                let mut text = "invalid argument: ".to_owned();
                text.append(what.as_str());
                text
            },
            Error::Pit(what) => {
                let mut text = "PIT: ".to_owned();
                text.append(what.as_str());
                text
            },
            Error::Parts(what) => {
                let mut text = "partition table: ".to_owned();
                text.append(what.as_str());
                text
            },
            Error::WriteAborted { start, written, source } => {
                let mut text = "write aborted after ".to_owned();
                text::push_dec(&mut text, *written);
                text.append(" bytes written at offset ");
                text::push_dec(&mut text, *start);
                text.append(": ");
                text.append(source.to_string().as_str());
                text
            },
            Error::VerifyFailed { offset, expected, found } => {
                let mut text = "verify failed at offset ".to_owned();
                text::push_dec(&mut text, *offset);
                text.append(": expected 0x");
                text::push_hex(&mut text, *expected as u64, 2);
                text.append(", found 0x");
                text::push_hex(&mut text, *found as u64, 2);
                text
            },
            Error::Unsupported(what) => {
                let mut text = "not supported on this platform: ".to_owned();
                text.append(what);
                text
            },
            Error::Io { context, source } => {
                let mut text = context.clone();
                text.append(": ");
                text.append(source.text.as_str());
                text
            },
        }
    }
}

pub type Result<T> = core::result::Result<T, Error>;

/// A result by what it says.
pub open spec fn outcome<T>(result: Result<T>) -> core::result::Result<T, ErrorView> {
    match result {
        Ok(value) => Ok(value),
        Err(err) => Err(err@),
    }
}

/// The bytes a read gave, or what its failure says.
pub open spec fn bytes_outcome(result: Result<Vec<u8>>) -> core::result::Result<
    Seq<u8>,
    ErrorView,
> {
    match result {
        Ok(bytes) => Ok(bytes@),
        Err(err) => Err(err@),
    }
}

/// A device's answer by what it says.
pub open spec fn answer<T>(result: core::result::Result<T, DeviceError>) -> core::result::Result<
    T,
    DeviceErrorView,
> {
    match result {
        Ok(value) => Ok(value),
        Err(err) => Err(err@),
    }
}

/// A file's answer by what it says.
pub open spec fn reply<T>(result: core::result::Result<T, IoError>) -> core::result::Result<
    T,
    IoErrorView,
> {
    match result {
        Ok(value) => Ok(value),
        Err(err) => Err(err@),
    }
}

/// A script can tell the failure classes apart by the exit code alone: two
/// errors end a run with the same code exactly when both are bad arguments,
/// both are refusals to write, both are aborted writes, both are unsupported
/// requests, both are failed comparisons, or both are failures to read what
/// the device, a file or a table holds.
pub proof fn exit_codes_separate_the_failure_classes(a: ErrorView, b: ErrorView)
    ensures
        a.code() == b.code() <==> {
            ||| a is InvalidArgument && b is InvalidArgument
            ||| a is NotRemovable && b is NotRemovable
            ||| a is WriteAborted && b is WriteAborted
            ||| a is Unsupported && b is Unsupported
            ||| a is VerifyFailed && b is VerifyFailed
            ||| {
                &&& a is Device || a is Io || a is Pit || a is Parts
                &&& b is Device || b is Io || b is Pit || b is Parts
            }
        },
        2 <= a.code() <= 7,
{
}

/// However often the OS text repeats its code, the report names it once: the
/// message that is kept does not end in the code the report appends.
pub proof fn an_os_code_is_told_once(stage: Stage, err: IoErrorView)
    requires
        err.os_error is Some,
    ensures
        !os_suffix(err.os_error->0).is_suffix_of(DeviceErrorView::of_io(stage, err).message),
{
    without_suffix_does_not_end_in_it(err.text, os_suffix(err.os_error->0));
}

proof fn without_suffix_does_not_end_in_it(text: Seq<char>, suffix: Seq<char>)
    ensures
        suffix.len() > 0 ==> !suffix.is_suffix_of(without_suffix(text, suffix)),
    decreases text.len(),
{
    if suffix.len() > 0 && suffix.is_suffix_of(text) {
        without_suffix_does_not_end_in_it(
            text.subrange(0, text.len() - suffix.len()),
            suffix,
        );
    }
}

/// Each failure class has the exit code its documentation gives it.
pub proof fn exit_codes_are_those_documented(err: ErrorView)
    ensures
        err.code() == 2 <==> err is InvalidArgument,
        err.code() == 3 <==> err is Device || err is Io || err is Pit || err is Parts,
        err.code() == 4 <==> err is NotRemovable,
        err.code() == 5 <==> err is WriteAborted,
        err.code() == 6 <==> err is Unsupported,
        err.code() == 7 <==> err is VerifyFailed,
{
}

/// `n` copies of `s`.
pub open spec fn copies(s: Seq<char>, n: nat) -> Seq<char>
    decreases n,
{
    if n == 0 {
        Seq::empty()
    } else {
        copies(s, (n - 1) as nat) + s
    }
}

proof fn only_copies_are_taken_off(text: Seq<char>, suffix: Seq<char>) -> (n: nat)
    ensures
        text == without_suffix(text, suffix) + copies(suffix, n),
    decreases text.len(),
{
    if suffix.len() > 0 && suffix.is_suffix_of(text) {
        let less = text.subrange(0, text.len() - suffix.len());
        let n = only_copies_are_taken_off(less, suffix);
        assert(text =~= less + suffix);
        assert(text =~= without_suffix(text, suffix) + copies(suffix, n + 1));
        n + 1
    } else {
        assert(text + copies(suffix, 0) =~= text);
        0
    }
}

/// A failed file operation keeps its stage, its code and its whole message: all
/// that is taken off is the code, where the message ends in it.
pub proof fn only_the_code_is_taken_off(stage: Stage, err: IoErrorView)
    ensures
        ({
            let failed = DeviceErrorView::of_io(stage, err);
            &&& failed.stage == stage
            &&& failed.os_error == err.os_error
            &&& err.os_error is None ==> failed.message == err.text
            &&& err.os_error matches Some(code) ==> exists|n: nat|
                err.text == failed.message + #[trigger] copies(os_suffix(code), n)
        }),
{
    if let Some(code) = err.os_error {
        let n = only_copies_are_taken_off(err.text, os_suffix(code));
        assert(err.text == DeviceErrorView::of_io(stage, err).message + copies(os_suffix(code), n));
    }
}

/// No two stages go by the same name.
pub proof fn every_stage_has_its_own_name(a: Stage, b: Stage)
    ensures
        a.name() == b.name() ==> a == b,
{
    reveal_strlit("enumerate-devices");
    reveal_strlit("open-device");
    reveal_strlit("query-geometry");
    reveal_strlit("lock-volume");
    reveal_strlit("seek");
    reveal_strlit("read");
    reveal_strlit("write");
    reveal_strlit("flush");
    reveal_strlit("parse-pit");
    reveal_strlit("parse-partitions");
    assert("enumerate-devices"@.len() == 17 && "query-geometry"@.len() == 14);
    assert("open-device"@.len() == 11 && "lock-volume"@.len() == 11);
    assert("seek"@.len() == 4 && "read"@.len() == 4 && "write"@.len() == 5 && "flush"@.len() == 5);
    assert("parse-pit"@.len() == 9 && "parse-partitions"@.len() == 16);
    assert("open-device"@[0] == 'o');
    assert("lock-volume"@[0] == 'l');
    assert("seek"@[0] == 's');
    assert("read"@[0] == 'r');
    assert("write"@[0] == 'w');
    assert("flush"@[0] == 'f');
}

/// A report of a failed step names the stage in brackets, then what went wrong,
/// and last the code of the OS where it gave one.
pub proof fn a_report_names_stage_message_and_code(err: DeviceErrorView)
    ensures
        ({
            let said = err.text();
            let n = err.stage.name().len() as int;
            let m = err.message.len() as int;
            &&& said.len() >= n + 3 + m
            &&& said[0] == '['
            &&& said.subrange(1, 1 + n) == err.stage.name()
            &&& said[1 + n] == ']' && said[2 + n] == ' '
            &&& said.subrange(3 + n, 3 + n + m) == err.message
            &&& err.os_error is None ==> said.len() == n + 3 + m
            &&& err.os_error matches Some(code) ==> said.subrange(3 + n + m, said.len() as int)
                == os_suffix(code)
        }),
{
    reveal_strlit("[");
    reveal_strlit("] ");
    let said = err.text();
    let n = err.stage.name().len() as int;
    let m = err.message.len() as int;
    assert(said.subrange(1, 1 + n) =~= err.stage.name());
    assert(said.subrange(3 + n, 3 + n + m) =~= err.message);
    if let Some(code) = err.os_error {
        assert(said.subrange(3 + n + m, said.len() as int) =~= os_suffix(code));
    }
}

} // verus!
