//! Results of commands run in a container, and the decisions taken while
//! collecting their output.

use vstd::prelude::*;
use vstd::string::*;
use crate::error::{ClientError, Error};
use crate::xpc::describe_missing;
use crate::text::{decimal, push_decimal, utf8_str_or_error, utf8_error_text};
use crate::error::{ExecError, utf8_lossy, utf8_lossy_text};
use crate::wait::{WaitFor, contains_bytes, occurs_in, ready_conditions_require_log, is_log_condition};
use crate::json::{json_check, json_syntax, json_string_lookup, json_string_path, path_views};
use crate::docker_api::{EXEC_EXIT_CODE_BACKOFF_MILLIS, percent_encode_path_segment, percent_encoded};
use vstd::utf8::{valid_utf8, decode_utf8};
use std::time::Duration;

verus! {

broadcast use vstd::string::group_string_axioms;

/// The outcome of an exec: its exit code and its whole output. Reading an
/// output consumes it: a second read gives what the first left.
#[derive(Debug)]
pub struct ExecResult {
    pub exit_code: Option<i64>,
    pub stdout: Vec<u8>,
    /// How much of `stdout` has been read.
    pub stdout_pos: usize,
    pub stderr: Vec<u8>,
    /// How much of `stderr` has been read.
    pub stderr_pos: usize,
}

/// Takes what is left of `data` from `pos` on and marks it read.
fn take_rest(data: &Vec<u8>, pos: &mut usize) -> (r: Vec<u8>)
    requires
        *old(pos) <= data@.len(),
    ensures
        r@ == data@.subrange(*old(pos) as int, data@.len() as int),
        *final(pos) == data@.len(),
{
    let mut out: Vec<u8> = Vec::new();
    let start: usize = *pos;
    let mut i: usize = start;
    while i < data.len()
        invariant
            start <= i <= data@.len(),
            out@ == data@.subrange(start as int, i as int),
        decreases data@.len() - i,
    {
        out.push(data[i]);
        i += 1;
        proof {
            assert(out@ =~= data@.subrange(start as int, i as int));
        }
    }
    *pos = data.len();
    out
}

impl ExecResult {
    /// A result with nothing read yet.
    pub fn new(exit_code: Option<i64>, stdout: Vec<u8>, stderr: Vec<u8>) -> (r: ExecResult)
        ensures
            r.wf(),
            r.exit_code == exit_code,
            r.stdout == stdout,
            r.stderr == stderr,
            r.stdout_pos == 0,
            r.stderr_pos == 0,
    {
        ExecResult { exit_code, stdout, stdout_pos: 0, stderr, stderr_pos: 0 }
    }

    /// The read positions lie within the outputs.
    pub open spec fn wf(&self) -> bool {
        self.stdout_pos <= self.stdout@.len() && self.stderr_pos <= self.stderr@.len()
    }

    /// The exit code; `None` while the command has not finished.
    pub fn exit_code(&self) -> (r: Result<Option<i64>, Error>)
        ensures
            r matches Ok(c) && c == self.exit_code,
    {
        Ok(self.exit_code)
    }

    /// Standard output not read yet.
    pub fn stdout(&self) -> (r: &[u8])
        requires
            self.wf(),
        ensures
            r@ == self.stdout@.subrange(self.stdout_pos as int, self.stdout@.len() as int),
    {
        let bytes = self.stdout.as_slice();
        &bytes[self.stdout_pos..bytes.len()]
    }

    /// Standard error not read yet.
    pub fn stderr(&self) -> (r: &[u8])
        requires
            self.wf(),
        ensures
            r@ == self.stderr@.subrange(self.stderr_pos as int, self.stderr@.len() as int),
    {
        let bytes = self.stderr.as_slice();
        &bytes[self.stderr_pos..bytes.len()]
    }

    /// Reads the rest of standard output.
    pub fn stdout_to_vec(&mut self) -> (r: Result<Vec<u8>, Error>)
        requires
            old(self).wf(),
        ensures
            final(self).wf(),
            r matches Ok(v) && v@ == old(self).stdout@.subrange(
                old(self).stdout_pos as int,
                old(self).stdout@.len() as int,
            ),
            final(self).stdout_pos == final(self).stdout@.len(),
            final(self).stdout == old(self).stdout,
            final(self).stderr == old(self).stderr,
            final(self).stderr_pos == old(self).stderr_pos,
            final(self).exit_code == old(self).exit_code,
    {
        Ok(take_rest(&self.stdout, &mut self.stdout_pos))
    }

    /// Reads the rest of standard error.
    pub fn stderr_to_vec(&mut self) -> (r: Result<Vec<u8>, Error>)
        requires
            old(self).wf(),
        ensures
            final(self).wf(),
            r matches Ok(v) && v@ == old(self).stderr@.subrange(
                old(self).stderr_pos as int,
                old(self).stderr@.len() as int,
            ),
            final(self).stderr_pos == final(self).stderr@.len(),
            final(self).stdout == old(self).stdout,
            final(self).stderr == old(self).stderr,
            final(self).stdout_pos == old(self).stdout_pos,
            final(self).exit_code == old(self).exit_code,
    {
        Ok(take_rest(&self.stderr, &mut self.stderr_pos))
    }
}

/// The outcome of an exec for blocking callers.
#[derive(Debug)]
pub struct SyncExecResult {
    pub inner: ExecResult,
}

impl SyncExecResult {
    /// The exit code; `None` while the command has not finished.
    pub fn exit_code(&self) -> (r: Result<Option<i64>, Error>)
        ensures
            r matches Ok(c) && c == self.inner.exit_code,
    {
        Ok(self.inner.exit_code)
    }

    /// Standard output not read yet.
    pub fn stdout(&self) -> (r: &[u8])
        requires
            self.inner.wf(),
        ensures
            r@ == self.inner.stdout@.subrange(
                self.inner.stdout_pos as int,
                self.inner.stdout@.len() as int,
            ),
    {
        self.inner.stdout()
    }

    /// Standard error not read yet.
    pub fn stderr(&self) -> (r: &[u8])
        requires
            self.inner.wf(),
        ensures
            r@ == self.inner.stderr@.subrange(
                self.inner.stderr_pos as int,
                self.inner.stderr@.len() as int,
            ),
    {
        self.inner.stderr()
    }

    /// Reads the rest of standard output.
    pub fn stdout_to_vec(&mut self) -> (r: Result<Vec<u8>, Error>)
        requires
            old(self).inner.wf(),
        ensures
            final(self).inner.wf(),
            r matches Ok(v) && v@ == old(self).inner.stdout@.subrange(
                old(self).inner.stdout_pos as int,
                old(self).inner.stdout@.len() as int,
            ),
            final(self).inner.stdout_pos == final(self).inner.stdout@.len(),
            final(self).inner.stdout == old(self).inner.stdout,
            final(self).inner.stderr == old(self).inner.stderr,
            final(self).inner.stderr_pos == old(self).inner.stderr_pos,
            final(self).inner.exit_code == old(self).inner.exit_code,
    {
        self.inner.stdout_to_vec()
    }

    /// Reads the rest of standard error.
    pub fn stderr_to_vec(&mut self) -> (r: Result<Vec<u8>, Error>)
        requires
            old(self).inner.wf(),
        ensures
            final(self).inner.wf(),
            r matches Ok(v) && v@ == old(self).inner.stderr@.subrange(
                old(self).inner.stderr_pos as int,
                old(self).inner.stderr@.len() as int,
            ),
            final(self).inner.stderr_pos == final(self).inner.stderr@.len(),
            final(self).inner.stdout == old(self).inner.stdout,
            final(self).inner.stderr == old(self).inner.stderr,
            final(self).inner.stdout_pos == old(self).inner.stdout_pos,
            final(self).inner.exit_code == old(self).inner.exit_code,
    {
        self.inner.stderr_to_vec()
    }
}

/// What one output reader of an exec delivered.
#[derive(Debug)]
pub enum ReaderOutcome {
    /// All of the stream.
    Bytes(Vec<u8>),
    /// The reader was told to stop first.
    Cancelled,
    /// Reading failed, with the error's text.
    Failed(String),
}

/// What waiting for the readers brought.
#[derive(Debug)]
pub enum JoinEvent {
    Stdout(ReaderOutcome),
    Stderr(ReaderOutcome),
    /// The deadline passed.
    Timeout,
    /// Every reader has gone without sending.
    Disconnected,
}

/// What the waiting loop does next.
#[derive(Debug)]
pub enum JoinAction {
    /// Wait for the next reader, until the deadline.
    WaitUntilDeadline,
    /// Tell the readers to stop, then wait for each without a deadline.
    CancelAndDrain,
    /// Wait (without a deadline) for the readers still out.
    Drain,
    /// Finished: the outputs, or why there are none.
    Done(Result<(Vec<u8>, Vec<u8>), Error>),
}

/// The collection of an exec's two outputs, bounded in time.
#[derive(Debug)]
pub struct ExecJoin {
    pub stdout: Option<ReaderOutcome>,
    pub stderr: Option<ReaderOutcome>,
    /// After the deadline: the streams that had not arrived by then.
    pub timed_out: Option<&'static str>,
    /// The wait bound, in milliseconds, for messages.
    pub timeout_millis: u128,
}

/// `read <missing> timed out after <ms>ms`.
pub open spec fn timeout_text(missing: Seq<char>, millis: nat) -> Seq<char> {
    "read "@ + missing + " timed out after "@ + decimal(millis) + "ms"@
}

/// The result once both outputs are in.
pub open spec fn joined_result_ok(out: ReaderOutcome, err: ReaderOutcome, r: Result<(Vec<u8>, Vec<u8>), Error>) -> bool {
    match out {
        ReaderOutcome::Bytes(o) => match err {
            ReaderOutcome::Bytes(e) => r matches Ok((x, y)) && x == o && y == e,
            ReaderOutcome::Cancelled => r matches Err(Error::Client(ClientError::Other(m))) && m@
                == "exec stderr reader was cancelled unexpectedly"@,
            ReaderOutcome::Failed(t) => r matches Err(Error::Client(ClientError::Other(m))) && m@
                == "read stderr failed: "@ + t@,
        },
        ReaderOutcome::Cancelled => r matches Err(Error::Client(ClientError::Other(m))) && m@
            == "exec stdout reader was cancelled unexpectedly"@,
        ReaderOutcome::Failed(t) => r matches Err(Error::Client(ClientError::Other(m))) && m@
            == "read stdout failed: "@ + t@,
    }
}

fn joined_result(out: ReaderOutcome, err: ReaderOutcome) -> (r: Result<(Vec<u8>, Vec<u8>), Error>)
    ensures
        joined_result_ok(out, err, r),
{
    let stdout_bytes = match out {
        ReaderOutcome::Bytes(b) => b,
        ReaderOutcome::Cancelled => {
            return Err(Error::Client(ClientError::Other(
                String::from_str("exec stdout reader was cancelled unexpectedly"),
            )));
        },
        ReaderOutcome::Failed(t) => {
            let mut m = String::from_str("read stdout failed: ");
            m.append(t.as_str());
            return Err(Error::Client(ClientError::Other(m)));
        },
    };
    let stderr_bytes = match err {
        ReaderOutcome::Bytes(b) => b,
        ReaderOutcome::Cancelled => {
            return Err(Error::Client(ClientError::Other(
                String::from_str("exec stderr reader was cancelled unexpectedly"),
            )));
        },
        ReaderOutcome::Failed(t) => {
            let mut m = String::from_str("read stderr failed: ");
            m.append(t.as_str());
            return Err(Error::Client(ClientError::Other(m)));
        },
    };
    Ok((stdout_bytes, stderr_bytes))
}

impl ExecJoin {
    /// Nothing received yet, before the deadline.
    pub fn new(timeout_millis: u128) -> (r: ExecJoin)
        ensures
            r.stdout is None,
            r.stderr is None,
            r.timed_out is None,
            r.timeout_millis == timeout_millis,
    {
        ExecJoin { stdout: None, stderr: None, timed_out: None, timeout_millis }
    }

    /// Takes in what the wait brought and says what to do next. Before the
    /// deadline both outputs give the result; a disconnect names the
    /// streams that never came; a timeout cancels the readers and, once
    /// they are gone, fails naming the streams that were late.
    pub fn step(&mut self, event: JoinEvent) -> (r: JoinAction)
        requires
            old(self).stdout is None || old(self).stderr is None,
        ensures
            final(self).timeout_millis == old(self).timeout_millis,
            r is Done || final(self).stdout is None || final(self).stderr is None,
            !(r is Done) ==> final(self).stdout == match event {
                JoinEvent::Stdout(o) => Some(o),
                _ => old(self).stdout,
            },
            !(r is Done) ==> final(self).stderr == match event {
                JoinEvent::Stderr(o) => Some(o),
                _ => old(self).stderr,
            },
            old(self).timed_out is Some ==> final(self).timed_out == old(self).timed_out,
            old(self).timed_out is None && !(event is Timeout) ==> final(self).timed_out is None,
            ({
                let had_out = old(self).stdout is Some || event is Stdout;
                let had_err = old(self).stderr is Some || event is Stderr;
                match old(self).timed_out {
                    None => match event {
                        JoinEvent::Timeout => r is CancelAndDrain && (final(self).timed_out
                            matches Some(m) && m@ == missing_text(
                            old(self).stdout is Some,
                            old(self).stderr is Some,
                        )),
                        JoinEvent::Disconnected => r matches JoinAction::Done(
                            Err(Error::Client(ClientError::Other(m))),
                        ) && m@ == "exec reader thread for "@ + missing_text(
                            old(self).stdout is Some,
                            old(self).stderr is Some,
                        ) + " terminated without sending result"@,
                        _ => if had_out && had_err {
                            r matches JoinAction::Done(res) && joined_result_ok(
                                if event is Stdout {
                                    event->Stdout_0
                                } else {
                                    old(self).stdout->0
                                },
                                if event is Stderr {
                                    event->Stderr_0
                                } else {
                                    old(self).stderr->0
                                },
                                res,
                            )
                        } else {
                            r is WaitUntilDeadline
                        },
                    },
                    Some(missing) => if (had_out && had_err) || event is Disconnected {
                        r matches JoinAction::Done(Err(Error::Client(ClientError::Other(m)))) && m@
                            == timeout_text(missing@, old(self).timeout_millis as nat)
                    } else {
                        r is Drain
                    },
                }
            }),
    {
        let timed_out = self.timed_out;
        match timed_out {
            None => match event {
                JoinEvent::Timeout => {
                    let missing = describe_missing(self.stdout.is_some(), self.stderr.is_some());
                    self.timed_out = Some(missing);
                    JoinAction::CancelAndDrain
                },
                JoinEvent::Disconnected => {
                    let missing = describe_missing(self.stdout.is_some(), self.stderr.is_some());
                    let mut m = String::from_str("exec reader thread for ");
                    m.append(missing);
                    m.append(" terminated without sending result");
                    JoinAction::Done(Err(Error::Client(ClientError::Other(m))))
                },
                JoinEvent::Stdout(o) => {
                    self.stdout = Some(o);
                    self.finish_if_complete()
                },
                JoinEvent::Stderr(o) => {
                    self.stderr = Some(o);
                    self.finish_if_complete()
                },
            },
            Some(missing) => {
                let disconnected = match &event {
                    JoinEvent::Disconnected => true,
                    _ => false,
                };
                match event {
                    JoinEvent::Stdout(o) => {
                        self.stdout = Some(o);
                    },
                    JoinEvent::Stderr(o) => {
                        self.stderr = Some(o);
                    },
                    _ => {},
                }
                if (self.stdout.is_some() && self.stderr.is_some()) || disconnected {
                    let mut m = String::from_str("read ");
                    m.append(missing);
                    m.append(" timed out after ");
                    push_decimal(&mut m, self.timeout_millis);
                    m.append("ms");
                    JoinAction::Done(Err(Error::Client(ClientError::Other(m))))
                } else {
                    JoinAction::Drain
                }
            },
        }
    }

    fn finish_if_complete(&mut self) -> (r: JoinAction)
        ensures
            final(self).timeout_millis == old(self).timeout_millis,
            final(self).timed_out == old(self).timed_out,
            old(self).stdout is Some && old(self).stderr is Some ==> (r matches JoinAction::Done(
                res,
            ) && joined_result_ok(old(self).stdout->0, old(self).stderr->0, res)),
            !(old(self).stdout is Some && old(self).stderr is Some) ==> (r is WaitUntilDeadline
                && *final(self) == *old(self)),
    {
        if self.stdout.is_some() && self.stderr.is_some() {
            let out = self.stdout.take().unwrap();
            let err = self.stderr.take().unwrap();
            JoinAction::Done(joined_result(out, err))
        } else {
            JoinAction::WaitUntilDeadline
        }
    }
}

/// The streams named when some did not arrive.
pub open spec fn missing_text(has_stdout: bool, has_stderr: bool) -> Seq<char> {
    if !has_stdout && !has_stderr {
        "stdout/stderr"@
    } else if !has_stdout {
        "stdout"@
    } else {
        "stderr"@
    }
}

/// What an exec's own output must show before the exec counts as done.
#[derive(Debug, Clone)]
pub enum CmdWaitFor {
    /// Nothing.
    Nothing,
    /// `message` occurs in standard output.
    StdOutMessage { message: Vec<u8> },
    /// `message` occurs in standard error.
    StdErrMessage { message: Vec<u8> },
    /// The command exits, with `code` if one is given.
    Exit { code: Option<i64> },
    /// A fixed time passes (the caller waits it out).
    Duration { length: Duration },
}

/// Refuses an exec that waits on the logs of a container without a log
/// source: such a wait could never end.
pub fn check_exec_log_source(has_log_source: bool, ready_conditions: &[WaitFor]) -> (r: Result<(), Error>)
    ensures
        (!has_log_source && exists|i: int|
            0 <= i < ready_conditions@.len() && is_log_condition(#[trigger] ready_conditions@[i]))
            ==> (r matches Err(Error::Other(m)) && m@
            == "log wait requires a log source, but none is available"@),
        !(!has_log_source && exists|i: int|
            0 <= i < ready_conditions@.len() && is_log_condition(#[trigger] ready_conditions@[i]))
            ==> r is Ok,
{
    if !has_log_source && ready_conditions_require_log(ready_conditions) {
        return Err(Error::other(String::from_str("log wait requires a log source, but none is available")));
    }
    Ok(())
}

/// Checks the condition an exec waits for against what the exec gave.
pub fn check_cmd_ready_condition(
    condition: &CmdWaitFor,
    exit_code: Option<i64>,
    stdout: &[u8],
    stderr: &[u8],
) -> (r: Result<(), Error>)
    ensures
        match condition {
            CmdWaitFor::StdOutMessage { message } => if occurs_in(stdout@, message@) {
                r is Ok
            } else {
                r matches Err(Error::Other(m)) && m@ == "expected message not found in stdout: "@
                    + utf8_lossy_text(message@)
            },
            CmdWaitFor::StdErrMessage { message } => if occurs_in(stderr@, message@) {
                r is Ok
            } else {
                r matches Err(Error::Other(m)) && m@ == "expected message not found in stderr: "@
                    + utf8_lossy_text(message@)
            },
            CmdWaitFor::Exit { code: Some(code) } => match exit_code {
                Some(actual) => if actual != *code {
                    r matches Err(Error::Exec(ExecError::ExitCodeMismatch { expected, actual: a }))
                        && expected == *code && a == actual
                } else {
                    r is Ok
                },
                None => r matches Err(Error::Other(m)) && m@
                    == "exec exit code is unavailable, cannot verify expected exit code"@,
            },
            _ => r is Ok,
        },
{
    match condition {
        CmdWaitFor::StdOutMessage { message } => {
            if !contains_bytes(stdout, message.as_slice()) {
                let mut m = String::from_str("expected message not found in stdout: ");
                let shown = utf8_lossy(message.as_slice());
                m.append(shown.as_str());
                return Err(Error::other(m));
            }
            Ok(())
        },
        CmdWaitFor::StdErrMessage { message } => {
            if !contains_bytes(stderr, message.as_slice()) {
                let mut m = String::from_str("expected message not found in stderr: ");
                let shown = utf8_lossy(message.as_slice());
                m.append(shown.as_str());
                return Err(Error::other(m));
            }
            Ok(())
        },
        CmdWaitFor::Exit { code: Some(code) } => match exit_code {
            Some(actual) => if actual != *code {
                Err(Error::Exec(ExecError::ExitCodeMismatch { expected: *code, actual }))
            } else {
                Ok(())
            },
            None => Err(
                Error::other(
                    String::from_str("exec exit code is unavailable, cannot verify expected exit code"),
                ),
            ),
        },
        _ => Ok(()),
    }
}

/// The request path of `kind` for the exec or container `id`:
/// `/containers/{id}/exec`, `/exec/{id}/start` or `/exec/{id}/json`.
pub fn exec_path(prefix: &str, id: &str, suffix: &str) -> (r: String)
    ensures
        r@ == prefix@ + percent_encoded(id.spec_bytes()) + suffix@,
{
    let mut path = String::from_str(prefix);
    let encoded = percent_encode_path_segment(id);
    path.append(encoded.as_str());
    path.append(suffix);
    path
}

/// Fails a step of an exec whose response status is an error (400 or
/// above): `"<what>: <status>"`.
pub fn check_exec_status(what: &str, status: u16) -> (r: Result<(), Error>)
    ensures
        status >= 400 ==> (r matches Err(Error::Client(ClientError::Other(m))) && m@ == what@
            + ": "@ + decimal(status as nat)),
        status < 400 ==> r is Ok,
{
    if status >= 400 {
        let mut m = String::from_str(what);
        m.append(": ");
        push_decimal(&mut m, status as u128);
        return Err(Error::Client(ClientError::Other(m)));
    }
    Ok(())
}

/// What a creation response with body `body` gives: its `Id`, or the
/// error; an absent body fails with `empty_message`.
pub open spec fn created_id_outcome(body: Option<Seq<u8>>, empty_message: Seq<char>, r: Result<String, Error>) -> bool {
    match body {
        None => r matches Err(Error::Client(ClientError::Other(m))) && m@ == empty_message,
        Some(b) => if !valid_utf8(b) {
            r matches Err(Error::Client(ClientError::Json(m))) && m@ == utf8_error_text(b)
        } else {
            match json_syntax(decode_utf8(b)) {
                Err(e) => r matches Err(Error::Client(ClientError::Json(m))) && m@ == e,
                Ok(()) => match json_string_lookup(decode_utf8(b), seq!["Id"@]) {
                    Err(e) => r matches Err(Error::Client(ClientError::Json(m))) && m@ == e,
                    Ok(id) => r matches Ok(s) && s@ == id,
                },
            }
        },
    }
}

/// Reads the `Id` of a creation response (an exec or a container).
pub(crate) fn parse_created_id(body: Option<&[u8]>, empty_message: &str) -> (r: Result<String, Error>)
    ensures
        created_id_outcome(
            match body {
                Some(b) => Some(b@),
                None => None,
            },
            empty_message@,
            r,
        ),
{
    let b = match body {
        Some(b) => b,
        None => {
            return Err(Error::Client(ClientError::Other(String::from_str(empty_message))));
        },
    };
    let text = match utf8_str_or_error(b) {
        Ok(t) => t,
        Err(e) => {
            return Err(Error::Client(ClientError::Json(e)));
        },
    };
    proof {
        vstd::utf8::encode_utf8_decode_utf8(text@);
    }
    match json_check(text) {
        Ok(()) => {},
        Err(e) => {
            return Err(Error::Client(ClientError::Json(e)));
        },
    }
    let path: [&str; 1] = ["Id"];
    proof {
        assert(path_views(path@) =~= seq!["Id"@]);
    }
    match json_string_path(text, path.as_slice()) {
        Ok(id) => Ok(id),
        Err(e) => Err(Error::Client(ClientError::Json(e))),
    }
}

/// The `Id` of an exec creation response.
pub fn parse_exec_id(body: Option<&[u8]>) -> (r: Result<String, Error>)
    ensures
        created_id_outcome(
            match body {
                Some(b) => Some(b@),
                None => None,
            },
            "empty exec response body"@,
            r,
        ),
{
    parse_created_id(body, "empty exec response body")
}

/// The polling for an exec's exit code after its output ended: inspect at
/// once, then after each still-running answer sleep the next backoff
/// interval and inspect again, until the list is used up.
#[derive(Debug)]
pub struct ExitCodePoll {
    /// The states seen so far, in order.
    pub states: Vec<(bool, Option<i64>)>,
}

/// What the polling does next.
#[derive(Debug, PartialEq, Eq)]
pub enum PollAction {
    /// Sleep this many milliseconds, then inspect again.
    SleepThenInspect(u64),
    /// Stop: the exit code, if a finished state gave one.
    Done(Option<i64>),
}

impl ExitCodePoll {
    /// No inspection yet.
    pub fn new() -> (r: ExitCodePoll)
        ensures
            r.states@.len() == 0,
    {
        ExitCodePoll { states: Vec::new() }
    }

    /// Takes in one inspected state and says what to do next.
    pub fn observe(&mut self, state: (bool, Option<i64>)) -> (r: PollAction)
        requires
            old(self).states@.len() <= EXEC_EXIT_CODE_BACKOFF_MILLIS@.len(),
            forall|i: int| 0 <= i < old(self).states@.len() ==> (#[trigger] old(self).states@[i]).0,
        ensures
            final(self).states@ == old(self).states@.push(state),
            !state.0 ==> r == PollAction::Done(state.1),
            state.0 && old(self).states@.len() < EXEC_EXIT_CODE_BACKOFF_MILLIS@.len() ==> r
                == PollAction::SleepThenInspect(
                EXEC_EXIT_CODE_BACKOFF_MILLIS@[old(self).states@.len() as int],
            ),
            state.0 && old(self).states@.len() == EXEC_EXIT_CODE_BACKOFF_MILLIS@.len() ==> r
                == PollAction::Done(None),
    {
        let attempt: usize = self.states.len();
        self.states.push(state);
        let (running, code) = state;
        if !running {
            return PollAction::Done(code);
        }
        if attempt < EXEC_EXIT_CODE_BACKOFF_MILLIS.len() {
            PollAction::SleepThenInspect(EXEC_EXIT_CODE_BACKOFF_MILLIS[attempt])
        } else {
            PollAction::Done(None)
        }
    }
}

} // verus!
