//! Error types, with their messages stated exactly.

use vstd::prelude::*;
use vstd::string::*;
use std::time::Duration;
use crate::duration::{duration_debug, duration_debug_text};
use crate::ports::{ContainerPort, port_text};
use crate::text::{signed_decimal, push_signed_decimal, decimal, push_decimal};

verus! {

broadcast use vstd::string::group_string_axioms;

#[verifier::external_type_specification]
#[verifier::external_body]
pub struct ExIoError(std::io::Error);

/// The message an I/O error carries where it was made from one (by
/// `io::Error::other` or `io::Error::new`): the `Display` text of its
/// payload (`get_ref`); none for an error of the operating system or of a
/// bare kind.
pub uninterp spec fn io_error_message(e: std::io::Error) -> Option<Seq<char>>;

/// The kind of an I/O error (`io::Error::kind`), by its variant's name.
pub uninterp spec fn io_error_kind(e: std::io::Error) -> Seq<char>;

/// The `Display` text of an I/O error (`format!("{e}")`): for an error
/// made from a message, that message. The text of an error of the
/// operating system depends on the system and its locale, and is left
/// unsaid.
#[verifier::external_body]
pub(crate) fn io_error_display(e: &std::io::Error) -> (r: String)
    ensures
        io_error_message(*e) matches Some(m) ==> r@ == m,
{
    format!("{e}")
}

/// `std::io::Error::other`: an I/O error of kind `Other` carrying
/// `message`, which is what it displays.
#[verifier::external_body]
pub(crate) fn io_error_other(message: String) -> (r: std::io::Error)
    ensures
        io_error_kind(r) == "Other"@,
        io_error_message(r) == Some(message@),
{
    std::io::Error::other(message)
}

/// `std::io::Error::new` with kind `InvalidData` and `message`, which is
/// what it displays.
#[verifier::external_body]
pub(crate) fn io_error_invalid_data(message: &str) -> (r: std::io::Error)
    ensures
        io_error_kind(r) == "InvalidData"@,
        io_error_message(r) == Some(message@),
{
    std::io::Error::new(std::io::ErrorKind::InvalidData, message.to_string())
}

/// The text of bytes read as UTF-8, each invalid sequence replaced by
/// U+FFFD (`String::from_utf8_lossy`).
pub uninterp spec fn utf8_lossy_text(bytes: Seq<u8>) -> Seq<char>;

/// `String::from_utf8_lossy`, taken as an owned string.
#[verifier::external_body]
pub(crate) fn utf8_lossy(bytes: &[u8]) -> (r: String)
    ensures
        r@ == utf8_lossy_text(bytes@),
{
    String::from_utf8_lossy(bytes).into_owned()
}

/// Errors of the container runtime client.
#[derive(Debug)]
pub enum ClientError {
    XpcConnect,
    Xpc(String),
    XpcNullReply,
    XpcTimeout,
    ImageNotFound(String),
    ContainerNotFound(String),
    ContainerPathNotFound(String),
    Configuration(String),
    Json(String),
    Other(String),
}

impl ClientError {
    /// The message of this error.
    pub open spec fn text(&self) -> Seq<char> {
        match self {
            ClientError::XpcConnect => "XPC connect failed"@,
            ClientError::Xpc(s) => "XPC error: "@ + s@,
            ClientError::XpcNullReply => "XPC returned null reply"@,
            ClientError::XpcTimeout => "XPC request timed out"@,
            ClientError::ImageNotFound(s) => "image not found: "@ + s@,
            ClientError::ContainerNotFound(s) => "container not found: "@ + s@,
            ClientError::ContainerPathNotFound(s) => "container path not found: "@ + s@,
            ClientError::Configuration(s) => "configuration error: "@ + s@,
            ClientError::Json(s) => "JSON parse error: "@ + s@,
            ClientError::Other(s) => s@,
        }
    }

    /// Appends the message of this error to `out`.
    pub fn push_text(&self, out: &mut String)
        ensures
            final(out)@ == old(out)@ + self.text(),
    {
        match self {
            ClientError::XpcConnect => out.append("XPC connect failed"),
            ClientError::Xpc(s) => {
                out.append("XPC error: ");
                out.append(s.as_str());
            },
            ClientError::XpcNullReply => out.append("XPC returned null reply"),
            ClientError::XpcTimeout => out.append("XPC request timed out"),
            ClientError::ImageNotFound(s) => {
                out.append("image not found: ");
                out.append(s.as_str());
            },
            ClientError::ContainerNotFound(s) => {
                out.append("container not found: ");
                out.append(s.as_str());
            },
            ClientError::ContainerPathNotFound(s) => {
                out.append("container path not found: ");
                out.append(s.as_str());
            },
            ClientError::Configuration(s) => {
                out.append("configuration error: ");
                out.append(s.as_str());
            },
            ClientError::Json(s) => {
                out.append("JSON parse error: ");
                out.append(s.as_str());
            },
            ClientError::Other(s) => out.append(s.as_str()),
        }
        proof {
            assert(final(out)@ =~= old(out)@ + self.text());
        }
    }

    /// The message of this error.
    pub fn to_string(&self) -> (r: String)
        ensures
            r@ == self.text(),
    {
        let mut out = String::new();
        self.push_text(&mut out);
        assert(out@ =~= self.text());
        out
    }
}

/// A container lacks a piece of information that was asked for.
#[derive(Debug)]
pub struct ContainerMissingInfo {
    pub id: String,
    pub path: String,
}

impl ContainerMissingInfo {
    /// The message of this error.
    pub open spec fn text(&self) -> Seq<char> {
        "container '"@ + self.id@ + "' does not have: "@ + self.path@
    }

    /// Appends the message of this error to `out`.
    pub fn push_text(&self, out: &mut String)
        ensures
            final(out)@ == old(out)@ + self.text(),
    {
        out.append("container '");
        out.append(self.id.as_str());
        out.append("' does not have: ");
        out.append(self.path.as_str());
        proof {
            assert(final(out)@ =~= old(out)@ + self.text());
        }
    }

    /// The message of this error.
    pub fn to_string(&self) -> (r: String)
        ensures
            r@ == self.text(),
    {
        let mut out = String::new();
        self.push_text(&mut out);
        assert(out@ =~= self.text());
        out
    }
}

/// How many trailing bytes of the collected log an end-of-stream message
/// shows.
pub const MAX_END_OF_STREAM_PREVIEW_BYTES: usize = 1024;

/// All chunks joined into one byte sequence.
pub open spec fn flatten_chunks(chunks: Seq<Vec<u8>>) -> Seq<u8>
    decreases chunks.len(),
{
    if chunks.len() == 0 {
        Seq::empty()
    } else {
        flatten_chunks(chunks.drop_last()) + chunks.last()@
    }
}

/// The last `MAX_END_OF_STREAM_PREVIEW_BYTES` bytes (or all, if fewer).
pub open spec fn preview_tail(bytes: Seq<u8>) -> Seq<u8> {
    if bytes.len() > MAX_END_OF_STREAM_PREVIEW_BYTES {
        bytes.subrange(bytes.len() - MAX_END_OF_STREAM_PREVIEW_BYTES, bytes.len() as int)
    } else {
        bytes
    }
}

/// `a` is a prefix of `b`.
pub open spec fn is_prefix(a: Seq<char>, b: Seq<char>) -> bool {
    a.len() <= b.len() && b.subrange(0, a.len() as int) == a
}

/// Failure while waiting for a message in a container's logs.
#[derive(Debug)]
pub enum WaitLogError {
    /// The stream ended first; holds the recent log that was kept.
    EndOfStream(Vec<Vec<u8>>),
    /// Reading the logs failed.
    Io(std::io::Error),
}

/// A borrowed view of the error that caused another one.
pub enum ErrorSource<'a> {
    Client(&'a ClientError),
    WaitContainer(&'a WaitContainerError),
    WaitLog(&'a WaitLogError),
    MissingInfo(&'a ContainerMissingInfo),
    Exec(&'a ExecError),
    HttpWait(&'a HttpWaitError),
    Io(&'a std::io::Error),
    Other(&'a String),
}

impl WaitLogError {
    /// The message of an end-of-stream error over `chunks`: how many bytes
    /// in how many chunks, then the readable tail of the log.
    pub open spec fn end_of_stream_text(chunks: Seq<Vec<u8>>) -> Seq<char> {
        "end of stream reached before finding message (collected "@ + decimal(
            flatten_chunks(chunks).len(),
        ) + " bytes across "@ + decimal(chunks.len()) + " chunks); log preview: "@
            + utf8_lossy_text(preview_tail(flatten_chunks(chunks)))
    }

    /// The cause of this error, where there is one.
    pub fn source(&self) -> (r: Option<ErrorSource<'_>>)
        ensures
            match self {
                WaitLogError::Io(e) => r matches Some(ErrorSource::Io(x)) && *x == *e,
                WaitLogError::EndOfStream(_) => r is None,
            },
    {
        match self {
            WaitLogError::Io(e) => Some(ErrorSource::Io(e)),
            WaitLogError::EndOfStream(_) => None,
        }
    }

    /// Appends the message of this error to `out`. The text of an I/O error
    /// comes from the error itself.
    pub fn push_text(&self, out: &mut String)
        ensures
            self matches WaitLogError::EndOfStream(chunks) ==> final(out)@ == old(out)@
                + Self::end_of_stream_text(chunks@),
            self is Io ==> is_prefix(old(out)@ + "I/O error: "@, final(out)@),
            self matches WaitLogError::Io(e) ==> (io_error_message(*e) matches Some(m)
                ==> final(out)@ == old(out)@ + "I/O error: "@ + m),
    {
        match self {
            WaitLogError::EndOfStream(chunks) => {
                let mut all: Vec<u8> = Vec::new();
                let mut i: usize = 0;
                while i < chunks.len()
                    invariant
                        i <= chunks@.len(),
                        all@ == flatten_chunks(chunks@.take(i as int)),
                    decreases chunks@.len() - i,
                {
                    let chunk = &chunks[i];
                    let ghost before = all@;
                    let mut j: usize = 0;
                    while j < chunk.len()
                        invariant
                            j <= chunk@.len(),
                            all@ == before + chunk@.take(j as int),
                        decreases chunk@.len() - j,
                    {
                        all.push(chunk[j]);
                        j += 1;
                        proof {
                            assert(all@ =~= before + chunk@.take(j as int));
                        }
                    }
                    proof {
                        assert(chunks@.take(i + 1).drop_last() =~= chunks@.take(i as int));
                        assert(chunk@.take(j as int) =~= chunk@);
                    }
                    i += 1;
                }
                proof {
                    assert(chunks@.take(i as int) =~= chunks@);
                }
                let total: usize = all.len();
                let start: usize = if total > MAX_END_OF_STREAM_PREVIEW_BYTES {
                    total - MAX_END_OF_STREAM_PREVIEW_BYTES
                } else {
                    0
                };
                let preview = utf8_lossy(&all.as_slice()[start..total]);
                out.append("end of stream reached before finding message (collected ");
                push_decimal(out, total as u128);
                out.append(" bytes across ");
                push_decimal(out, chunks.len() as u128);
                out.append(" chunks); log preview: ");
                out.append(preview.as_str());
                proof {
                    assert(all@.subrange(start as int, total as int) =~= preview_tail(all@));
                    assert(final(out)@ =~= old(out)@ + Self::end_of_stream_text(chunks@));
                }
            },
            WaitLogError::Io(e) => {
                out.append("I/O error: ");
                let ghost mid = out@;
                let t = io_error_display(e);
                out.append(t.as_str());
                proof {
                    assert(final(out)@.subrange(0, mid.len() as int) =~= mid);
                    if let Some(m) = io_error_message(*e) {
                        assert(final(out)@ =~= old(out)@ + "I/O error: "@ + m);
                    }
                }
            },
        }
    }

    /// The message of this error.
    pub fn to_string(&self) -> (r: String)
        ensures
            self matches WaitLogError::EndOfStream(chunks) ==> r@ == Self::end_of_stream_text(
                chunks@,
            ),
            self matches WaitLogError::Io(e) ==> (io_error_message(*e) matches Some(m) ==> r@
                == "I/O error: "@ + m),
    {
        let mut out = String::new();
        self.push_text(&mut out);
        proof {
            if let WaitLogError::EndOfStream(chunks) = self {
                assert(out@ =~= Self::end_of_stream_text(chunks@));
            }
        }
        out
    }
}

impl From<std::io::Error> for WaitLogError {
    fn from(e: std::io::Error) -> (r: WaitLogError) {
        WaitLogError::Io(e)
    }
}

impl vstd::std_specs::convert::FromSpecImpl<std::io::Error> for WaitLogError {
    open spec fn obeys_from_spec() -> bool {
        true
    }

    open spec fn from_spec(v: std::io::Error) -> WaitLogError {
        WaitLogError::Io(v)
    }
}

/// Failure of the HTTP readiness check.
#[derive(Debug)]
pub enum HttpWaitError {
    /// The HTTP wait strategy was given no condition on the response.
    NoResponseMatcher,
}

impl HttpWaitError {
    /// The message of this error.
    pub open spec fn text(&self) -> Seq<char> {
        "HTTP wait strategy has no response matcher"@
    }

    /// Appends the message of this error to `out`.
    pub fn push_text(&self, out: &mut String)
        ensures
            final(out)@ == old(out)@ + self.text(),
    {
        out.append("HTTP wait strategy has no response matcher");
    }
}

/// Failure while waiting for a container to become ready.
#[derive(Debug)]
pub enum WaitContainerError {
    WaitLog(WaitLogError),
    StateUnavailable,
    HttpWait(HttpWaitError),
    HealthCheckNotConfigured(String),
    Unhealthy(String),
    StartupTimeout { id: String, timeout: Duration },
    UnexpectedExitCode { expected: i64, actual: Option<i64> },
}

/// `Debug` text of an optional exit code: `Some(<n>)` or `None`.
pub open spec fn optional_code_text(code: Option<i64>) -> Seq<char> {
    match code {
        Some(n) => "Some("@ + signed_decimal(n as int) + ")"@,
        None => "None"@,
    }
}

impl WaitContainerError {
    /// The message of this error, for the variants whose text this library
    /// writes itself (all but the log wait, whose message may carry an I/O
    /// error's text).
    pub open spec fn text(&self) -> Seq<char> {
        match self {
            WaitContainerError::WaitLog(e) => match e {
                WaitLogError::EndOfStream(chunks) => "failed to wait for container log: "@
                    + WaitLogError::end_of_stream_text(chunks@),
                WaitLogError::Io(_) => "failed to wait for container log: "@ + "I/O error: "@,
            },
            WaitContainerError::StateUnavailable => "container state is unavailable"@,
            WaitContainerError::HttpWait(e) => e.text(),
            WaitContainerError::HealthCheckNotConfigured(s) =>
                "healthcheck is not configured for container: "@ + s@,
            WaitContainerError::Unhealthy(s) => "container is unhealthy: "@ + s@,
            WaitContainerError::StartupTimeout { id, timeout } =>
                "container startup timeout: container "@ + id@ + " did not become ready within "@
                + duration_debug_text(*timeout),
            WaitContainerError::UnexpectedExitCode { expected, actual } =>
                "container exited with unexpected code: expected "@ + signed_decimal(
                *expected as int,
            ) + ", actual "@ + optional_code_text(*actual),
        }
    }

    /// The cause of this error, where there is one.
    pub fn source(&self) -> (r: Option<ErrorSource<'_>>)
        ensures
            match self {
                WaitContainerError::WaitLog(e) => r matches Some(ErrorSource::WaitLog(x)) && *x
                    == *e,
                WaitContainerError::HttpWait(e) => r matches Some(ErrorSource::HttpWait(x)) && *x
                    == *e,
                _ => r is None,
            },
    {
        match self {
            WaitContainerError::WaitLog(e) => Some(ErrorSource::WaitLog(e)),
            WaitContainerError::HttpWait(e) => Some(ErrorSource::HttpWait(e)),
            _ => None,
        }
    }

    /// Appends the message of this error to `out`. For an I/O failure of
    /// the log wait, the error's own text follows what `text` states.
    pub fn push_text(&self, out: &mut String)
        ensures
            self matches WaitContainerError::WaitLog(WaitLogError::Io(_)) ==> is_prefix(
                old(out)@ + self.text(),
                final(out)@,
            ),
            !(self matches WaitContainerError::WaitLog(WaitLogError::Io(_))) ==> final(out)@
                == old(out)@ + self.text(),
    {
        match self {
            WaitContainerError::WaitLog(e) => {
                out.append("failed to wait for container log: ");
                let ghost mid = out@;
                e.push_text(out);
                proof {
                    if let WaitLogError::Io(_) = e {
                        assert(mid + "I/O error: "@ =~= old(out)@ + self.text());
                    }
                }
            },
            WaitContainerError::StateUnavailable => out.append("container state is unavailable"),
            WaitContainerError::HttpWait(e) => e.push_text(out),
            WaitContainerError::HealthCheckNotConfigured(s) => {
                out.append("healthcheck is not configured for container: ");
                out.append(s.as_str());
            },
            WaitContainerError::Unhealthy(s) => {
                out.append("container is unhealthy: ");
                out.append(s.as_str());
            },
            WaitContainerError::StartupTimeout { id, timeout } => {
                out.append("container startup timeout: container ");
                out.append(id.as_str());
                out.append(" did not become ready within ");
                let t = duration_debug(timeout);
                out.append(t.as_str());
            },
            WaitContainerError::UnexpectedExitCode { expected, actual } => {
                out.append("container exited with unexpected code: expected ");
                push_signed_decimal(out, *expected);
                out.append(", actual ");
                match actual {
                    Some(n) => {
                        out.append("Some(");
                        push_signed_decimal(out, *n);
                        out.append(")");
                    },
                    None => out.append("None"),
                }
            },
        }
        proof {
            if !(self matches WaitContainerError::WaitLog(WaitLogError::Io(_))) {
                assert(final(out)@ =~= old(out)@ + self.text());
            }
        }
    }

    /// The message of this error (see `push_text`).
    pub fn to_string(&self) -> (r: String)
        ensures
            self matches WaitContainerError::WaitLog(WaitLogError::Io(_)) ==> is_prefix(
                self.text(),
                r@,
            ),
            !(self matches WaitContainerError::WaitLog(WaitLogError::Io(_))) ==> r@ == self.text(),
    {
        let mut out = String::new();
        self.push_text(&mut out);
        proof {
            assert(Seq::<char>::empty() + self.text() =~= self.text());
        }
        out
    }
}

impl From<WaitLogError> for WaitContainerError {
    fn from(e: WaitLogError) -> (r: WaitContainerError) {
        WaitContainerError::WaitLog(e)
    }
}

impl vstd::std_specs::convert::FromSpecImpl<WaitLogError> for WaitContainerError {
    open spec fn obeys_from_spec() -> bool {
        true
    }

    open spec fn from_spec(v: WaitLogError) -> WaitContainerError {
        WaitContainerError::WaitLog(v)
    }
}

/// Failure of an exec operation.
#[derive(Debug)]
pub enum ExecError {
    /// The process exited with another code than the one expected.
    ExitCodeMismatch { expected: i64, actual: i64 },
    /// Waiting for the exec's log failed.
    WaitLog(WaitLogError),
}

impl ExecError {
    /// The cause of this error, where there is one.
    pub fn source(&self) -> (r: Option<ErrorSource<'_>>)
        ensures
            match self {
                ExecError::WaitLog(e) => r matches Some(ErrorSource::WaitLog(x)) && *x == *e,
                ExecError::ExitCodeMismatch { .. } => r is None,
            },
    {
        match self {
            ExecError::WaitLog(e) => Some(ErrorSource::WaitLog(e)),
            ExecError::ExitCodeMismatch { .. } => None,
        }
    }

    /// Appends the message of this error to `out`.
    pub fn push_text(&self, out: &mut String)
        ensures
            self matches ExecError::ExitCodeMismatch { expected, actual } ==> final(out)@
                == old(out)@ + "exec process exited with code "@ + signed_decimal(actual as int)
                + ", expected "@ + signed_decimal(expected as int),
            self matches ExecError::WaitLog(e) ==> is_prefix(
                old(out)@ + "failed to wait for exec log: "@,
                final(out)@,
            ),
    {
        match self {
            ExecError::ExitCodeMismatch { expected, actual } => {
                out.append("exec process exited with code ");
                push_signed_decimal(out, *actual);
                out.append(", expected ");
                push_signed_decimal(out, *expected);
            },
            ExecError::WaitLog(e) => {
                out.append("failed to wait for exec log: ");
                let ghost mid = out@;
                e.push_text(out);
                proof {
                    assert(final(out)@.subrange(0, mid.len() as int) =~= mid);
                }
            },
        }
    }
}

impl ExecError {
    /// The message of this error (see `push_text`).
    pub fn to_string(&self) -> (r: String)
        ensures
            self matches ExecError::ExitCodeMismatch { expected, actual } ==> r@
                == "exec process exited with code "@ + signed_decimal(actual as int)
                + ", expected "@ + signed_decimal(expected as int),
            self is WaitLog ==> is_prefix("failed to wait for exec log: "@, r@),
    {
        let mut out = String::new();
        self.push_text(&mut out);
        proof {
            assert(Seq::<char>::empty() + "failed to wait for exec log: "@ =~= "failed to wait for exec log: "@);
            if let ExecError::ExitCodeMismatch { expected, actual } = self {
                assert(out@ =~= "exec process exited with code "@ + signed_decimal(*actual as int)
                    + ", expected "@ + signed_decimal(*expected as int));
            }
        }
        out
    }
}

impl From<WaitLogError> for ExecError {
    fn from(e: WaitLogError) -> (r: ExecError) {
        ExecError::WaitLog(e)
    }
}

impl vstd::std_specs::convert::FromSpecImpl<WaitLogError> for ExecError {
    open spec fn obeys_from_spec() -> bool {
        true
    }

    open spec fn from_spec(v: WaitLogError) -> ExecError {
        ExecError::WaitLog(v)
    }
}

/// Every error of this library.
#[derive(Debug)]
pub enum Error {
    Client(ClientError),
    WaitContainer(WaitContainerError),
    PortNotExposed { id: String, port: ContainerPort },
    MissingInfo(ContainerMissingInfo),
    Exec(ExecError),
    Io(std::io::Error),
    Other(String),
}

impl Error {
    /// Wraps any other failure, given by its message.
    pub fn other(message: String) -> (r: Error)
        ensures
            r == Error::Other(message),
    {
        Error::Other(message)
    }

    /// The fixed opening of this error's message.
    pub open spec fn prefix_text(&self) -> Seq<char> {
        match self {
            Error::Client(_) => "client error: "@,
            Error::WaitContainer(_) => "container is not ready: "@,
            Error::PortNotExposed { id, port } => "container '"@ + id@
                + "' does not expose port "@ + port_text(*port),
            Error::MissingInfo(e) => e.text(),
            Error::Exec(_) => "exec operation failed: "@,
            Error::Io(_) => "I/O error: "@,
            Error::Other(m) => "other error: "@ + m@,
        }
    }

    /// The cause of this error, where there is one.
    pub fn source(&self) -> (r: Option<ErrorSource<'_>>)
        ensures
            match self {
                Error::Client(e) => r matches Some(ErrorSource::Client(x)) && *x == *e,
                Error::WaitContainer(e) => r matches Some(ErrorSource::WaitContainer(x)) && *x
                    == *e,
                Error::MissingInfo(e) => r matches Some(ErrorSource::MissingInfo(x)) && *x == *e,
                Error::Exec(e) => r matches Some(ErrorSource::Exec(x)) && *x == *e,
                Error::Io(e) => r matches Some(ErrorSource::Io(x)) && *x == *e,
                Error::Other(m) => r matches Some(ErrorSource::Other(x)) && *x == *m,
                Error::PortNotExposed { .. } => r is None,
            },
    {
        match self {
            Error::Client(e) => Some(ErrorSource::Client(e)),
            Error::WaitContainer(e) => Some(ErrorSource::WaitContainer(e)),
            Error::MissingInfo(e) => Some(ErrorSource::MissingInfo(e)),
            Error::Exec(e) => Some(ErrorSource::Exec(e)),
            Error::Io(e) => Some(ErrorSource::Io(e)),
            Error::Other(m) => Some(ErrorSource::Other(m)),
            Error::PortNotExposed { .. } => None,
        }
    }

    /// What is known of a message `t` of this error: it opens with
    /// `prefix_text`; for a client error, a readiness failure whose text
    /// this library writes, or a missing piece of information, it is
    /// exactly that opening followed by the inner error's message.
    pub open spec fn message_fits(&self, t: Seq<char>) -> bool {
        &&& is_prefix(self.prefix_text(), t)
        &&& self matches Error::Client(e) ==> t == self.prefix_text() + e.text()
        &&& self matches Error::MissingInfo(e) ==> t == e.text()
        &&& self matches Error::PortNotExposed { .. } ==> t == self.prefix_text()
        &&& self matches Error::Other(_) ==> t == self.prefix_text()
        &&& self matches Error::Io(e) ==> (io_error_message(*e) matches Some(m) ==> t
            == self.prefix_text() + m)
        &&& self matches Error::WaitContainer(e) ==> (!(e matches WaitContainerError::WaitLog(
            WaitLogError::Io(_),
        )) ==> t == self.prefix_text() + e.text())
    }

    /// The message of this error, as `message_fits` describes it.
    pub fn to_string(&self) -> (r: String)
        ensures
            self.message_fits(r@),
    {
        let mut out = String::new();
        match self {
            Error::Client(e) => {
                out.append("client error: ");
                e.push_text(&mut out);
            },
            Error::WaitContainer(e) => {
                out.append("container is not ready: ");
                let ghost mid = out@;
                e.push_text(&mut out);
                proof {
                    assert(out@.subrange(0, mid.len() as int) =~= mid);
                }
            },
            Error::PortNotExposed { id, port } => {
                out.append("container '");
                out.append(id.as_str());
                out.append("' does not expose port ");
                port.push_text(&mut out);
            },
            Error::MissingInfo(e) => {
                e.push_text(&mut out);
            },
            Error::Exec(e) => {
                out.append("exec operation failed: ");
                let ghost mid = out@;
                e.push_text(&mut out);
                proof {
                    assert(out@.subrange(0, mid.len() as int) =~= mid);
                }
            },
            Error::Io(e) => {
                out.append("I/O error: ");
                let ghost mid = out@;
                let t = io_error_display(e);
                out.append(t.as_str());
                proof {
                    assert(out@.subrange(0, mid.len() as int) =~= mid);
                }
            },
            Error::Other(m) => {
                out.append("other error: ");
                out.append(m.as_str());
            },
        }
        proof {
            assert(out@.subrange(0, self.prefix_text().len() as int) =~= self.prefix_text());
            if let Error::Client(e) = self {
                assert(out@ =~= self.prefix_text() + e.text());
            }
            if let Error::WaitContainer(e) = self {
                if !(e matches WaitContainerError::WaitLog(WaitLogError::Io(_))) {
                    assert(out@ =~= self.prefix_text() + e.text());
                }
            }
            if let Error::PortNotExposed { .. } = self {
                assert(out@ =~= self.prefix_text());
            }
            if let Error::Other(_) = self {
                assert(out@ =~= self.prefix_text());
            }
        }
        out
    }
}

impl From<ClientError> for Error {
    fn from(e: ClientError) -> (r: Error) {
        Error::Client(e)
    }
}

impl vstd::std_specs::convert::FromSpecImpl<ClientError> for Error {
    open spec fn obeys_from_spec() -> bool {
        true
    }

    open spec fn from_spec(v: ClientError) -> Error {
        Error::Client(v)
    }
}

impl From<WaitContainerError> for Error {
    fn from(e: WaitContainerError) -> (r: Error) {
        Error::WaitContainer(e)
    }
}

impl vstd::std_specs::convert::FromSpecImpl<WaitContainerError> for Error {
    open spec fn obeys_from_spec() -> bool {
        true
    }

    open spec fn from_spec(v: WaitContainerError) -> Error {
        Error::WaitContainer(v)
    }
}

impl From<WaitLogError> for Error {
    fn from(e: WaitLogError) -> (r: Error) {
        Error::WaitContainer(WaitContainerError::WaitLog(e))
    }
}

impl vstd::std_specs::convert::FromSpecImpl<WaitLogError> for Error {
    open spec fn obeys_from_spec() -> bool {
        true
    }

    open spec fn from_spec(v: WaitLogError) -> Error {
        Error::WaitContainer(WaitContainerError::WaitLog(v))
    }
}

impl From<ContainerMissingInfo> for Error {
    fn from(e: ContainerMissingInfo) -> (r: Error) {
        Error::MissingInfo(e)
    }
}

impl vstd::std_specs::convert::FromSpecImpl<ContainerMissingInfo> for Error {
    open spec fn obeys_from_spec() -> bool {
        true
    }

    open spec fn from_spec(v: ContainerMissingInfo) -> Error {
        Error::MissingInfo(v)
    }
}

impl From<ExecError> for Error {
    fn from(e: ExecError) -> (r: Error) {
        Error::Exec(e)
    }
}

impl vstd::std_specs::convert::FromSpecImpl<ExecError> for Error {
    open spec fn obeys_from_spec() -> bool {
        true
    }

    open spec fn from_spec(v: ExecError) -> Error {
        Error::Exec(v)
    }
}

impl From<std::io::Error> for Error {
    fn from(e: std::io::Error) -> (r: Error) {
        Error::Io(e)
    }
}

impl vstd::std_specs::convert::FromSpecImpl<std::io::Error> for Error {
    open spec fn obeys_from_spec() -> bool {
        true
    }

    open spec fn from_spec(v: std::io::Error) -> Error {
        Error::Io(v)
    }
}

} // verus!
