//! Readiness conditions, and the exit-code slot shared with the thread that
//! waits for a container's init process.

use vstd::prelude::*;
use vstd::string::*;
use std::time::Duration;
use crate::duration::duration_from_secs;
use crate::client::HostOs;

verus! {

/// Which output stream a log condition watches.
#[derive(Debug, Clone, Copy, PartialEq, Eq, Structural)]
pub enum LogSource {
    StdOut,
    StdErr,
    BothStd,
}

/// Wait until `message` has appeared `times` times on `source`.
#[derive(Debug, Clone)]
pub struct LogWaitStrategy {
    pub source: LogSource,
    pub message: Vec<u8>,
    pub times: usize,
}

/// A condition that a started container must meet before it is ready.
#[derive(Debug, Clone)]
pub enum WaitFor {
    /// Ready at once.
    Nothing,
    /// Ready once a message shows up in the logs.
    Log(LogWaitStrategy),
    /// Ready after a fixed time.
    Duration { length: Duration },
    /// Ready once the container's healthcheck reports healthy.
    Healthcheck,
}

/// Is `w` a log condition?
pub open spec fn is_log_condition(w: WaitFor) -> bool {
    w is Log
}

fn log_wait(source: LogSource, message: &str) -> (r: WaitFor)
    ensures
        r matches WaitFor::Log(l) && l.source == source && l.message@ == message.spec_bytes()
            && l.times == 1,
{
    let bytes = message.as_bytes();
    let mut buf: Vec<u8> = Vec::new();
    let mut i: usize = 0;
    while i < bytes.len()
        invariant
            i <= bytes@.len(),
            bytes@ == message.spec_bytes(),
            buf@ == bytes@.take(i as int),
        decreases bytes@.len() - i,
    {
        buf.push(bytes[i]);
        i += 1;
        proof {
            assert(buf@ =~= bytes@.take(i as int));
        }
    }
    assert(buf@ =~= bytes@);
    WaitFor::Log(LogWaitStrategy { source, message: buf, times: 1 })
}

impl WaitFor {
    /// Wait for `message` on standard output.
    pub fn message_on_stdout(message: &str) -> (r: WaitFor)
        ensures
            r matches WaitFor::Log(l) && l.source == LogSource::StdOut && l.message@
                == message.spec_bytes() && l.times == 1,
    {
        log_wait(LogSource::StdOut, message)
    }

    /// Wait for `message` on standard error.
    pub fn message_on_stderr(message: &str) -> (r: WaitFor)
        ensures
            r matches WaitFor::Log(l) && l.source == LogSource::StdErr && l.message@
                == message.spec_bytes() && l.times == 1,
    {
        log_wait(LogSource::StdErr, message)
    }

    /// Wait for `message` on either output stream.
    pub fn message_on_either_std(message: &str) -> (r: WaitFor)
        ensures
            r matches WaitFor::Log(l) && l.source == LogSource::BothStd && l.message@
                == message.spec_bytes() && l.times == 1,
    {
        log_wait(LogSource::BothStd, message)
    }

    /// Wait for a fixed number of seconds.
    pub fn seconds(secs: u64) -> (r: WaitFor)
        ensures
            r matches WaitFor::Duration { length } && crate::duration::duration_secs(length)
                == secs && crate::duration::duration_subsec_nanos(length) == 0,
    {
        WaitFor::Duration { length: duration_from_secs(secs) }
    }

    /// Wait for the container's healthcheck to pass.
    pub fn healthcheck() -> (r: WaitFor)
        ensures
            r is Healthcheck,
    {
        WaitFor::Healthcheck
    }
}

/// Does any of the conditions wait on the logs? A log condition can never be
/// met by a container without a log source, so callers refuse such waits
/// up front.
pub fn ready_conditions_require_log(ready_conditions: &[WaitFor]) -> (r: bool)
    ensures
        r == exists|i: int| 0 <= i < ready_conditions@.len() && is_log_condition(
            #[trigger] ready_conditions@[i],
        ),
{
    let mut i: usize = 0;
    while i < ready_conditions.len()
        invariant
            i <= ready_conditions@.len(),
            forall|j: int| 0 <= j < i ==> !is_log_condition(#[trigger] ready_conditions@[j]),
        decreases ready_conditions@.len() - i,
    {
        if let WaitFor::Log(_) = &ready_conditions[i] {
            return true;
        }
        i += 1;
    }
    false
}

/// Does `needle` occur in `haystack` starting at `start`?
pub open spec fn occurs_at(haystack: Seq<u8>, needle: Seq<u8>, start: int) -> bool {
    0 <= start && start + needle.len() <= haystack.len() && haystack.subrange(
        start,
        start + needle.len(),
    ) == needle
}

/// Does `needle` occur anywhere in `haystack`? The empty needle always does.
pub open spec fn occurs_in(haystack: Seq<u8>, needle: Seq<u8>) -> bool {
    exists|start: int| occurs_at(haystack, needle, start)
}

/// Whether `needle` occurs as a contiguous run of bytes in `haystack`.
pub fn contains_bytes(haystack: &[u8], needle: &[u8]) -> (r: bool)
    ensures
        r == occurs_in(haystack@, needle@),
{
    if needle.len() == 0 {
        assert(occurs_at(haystack@, needle@, 0)) by {
            assert(haystack@.subrange(0, 0) =~= needle@);
        }
        return true;
    }
    if needle.len() > haystack.len() {
        return false;
    }
    let last: usize = haystack.len() - needle.len();
    let mut start: usize = 0;
    while start <= last
        invariant
            last == haystack@.len() - needle@.len(),
            needle@.len() <= haystack@.len(),
            needle@.len() > 0,
            forall|s: int| 0 <= s < start ==> !occurs_at(haystack@, needle@, s),
        decreases last + 1 - start,
    {
        let mut j: usize = 0;
        let mut same = true;
        while j < needle.len()
            invariant
                start <= last,
                needle@.len() <= haystack@.len(),
                last == haystack@.len() - needle@.len(),
                j <= needle@.len(),
                same == (forall|k: int| 0 <= k < j ==> haystack@[start + k] == needle@[k]),
            decreases needle@.len() - j,
        {
            assert(start + j < haystack.len());
            if haystack[start + j] != needle[j] {
                same = false;
            }
            j += 1;
        }
        if same {
            assert(occurs_at(haystack@, needle@, start as int)) by {
                assert(haystack@.subrange(start as int, start + needle@.len()) =~= needle@);
            }
            return true;
        }
        proof {
            assert(!occurs_at(haystack@, needle@, start as int)) by {
                if occurs_at(haystack@, needle@, start as int) {
                    let k = choose|k: int| 0 <= k < needle@.len() && haystack@[start + k] != needle@[k];
                    assert(haystack@.subrange(start as int, start + needle@.len())[k] == haystack@[start + k]);
                }
            }
        }
        if start == last {
            return false;
        }
        start += 1;
    }
    false
}

/// What finding a container's exit code does next.
#[derive(Debug, Clone, Copy, PartialEq, Eq, Structural)]
pub enum ExitCodeAction {
    /// The answer.
    Done(Option<i64>),
    /// Ask whether the container still runs.
    InspectRunning,
    /// Wait briefly for the exit code, on behalf of this generation.
    WaitBriefly(u64),
}

/// The exit-code slot shared with the thread that waits for the init
/// process. Each restart opens a new generation; a result from an older
/// generation is discarded.
#[derive(Debug)]
pub struct WaitState {
    pub generation: u64,
    pub exit_code: Option<i64>,
}

impl WaitState {
    /// Generation 0, with no exit code.
    pub fn new() -> (r: WaitState)
        ensures
            r.generation == 0,
            r.exit_code is None,
    {
        WaitState { generation: 0, exit_code: None }
    }

    /// Records `code` if `generation` is the current one, and says whether
    /// it did.
    pub fn store_if_current(&mut self, generation: u64, code: i64) -> (r: bool)
        ensures
            r == (old(self).generation == generation),
            final(self).generation == old(self).generation,
            final(self).exit_code == if r {
                Some(code)
            } else {
                old(self).exit_code
            },
    {
        if self.generation == generation {
            self.exit_code = Some(code);
            true
        } else {
            false
        }
    }

    /// Opens the next generation (wrapping at `u64::MAX`), clears the exit
    /// code and returns the new generation.
    pub fn bump(&mut self) -> (r: u64)
        ensures
            r == final(self).generation,
            final(self).generation == if old(self).generation == u64::MAX {
                0
            } else {
                (old(self).generation + 1) as u64
            },
            final(self).exit_code is None,
    {
        self.generation = self.generation.wrapping_add(1);
        self.exit_code = None;
        self.generation
    }

    /// The recorded exit code, if any.
    pub fn exit_code(&self) -> (r: Option<i64>)
        ensures
            r == self.exit_code,
    {
        self.exit_code
    }

    /// The first step of finding the container's exit code: one that the
    /// background wait recorded answers at once; else ask whether the
    /// container still runs.
    pub fn exit_code_start(&self) -> (r: ExitCodeAction)
        ensures
            match self.exit_code {
                Some(c) => r == ExitCodeAction::Done(Some(c)),
                None => r == ExitCodeAction::InspectRunning,
            },
    {
        match self.exit_code {
            Some(c) => ExitCodeAction::Done(Some(c)),
            None => ExitCodeAction::InspectRunning,
        }
    }

    /// The step after the running check: a running container has no exit
    /// code yet, nor (on Linux) has a stopped one that the background wait
    /// has not seen; on macOS a stopped one is waited for briefly, for the
    /// current generation.
    pub fn exit_code_after_inspect(&self, os: HostOs, running: bool) -> (r: ExitCodeAction)
        ensures
            (running || os == HostOs::Linux) ==> r == ExitCodeAction::Done(None),
            (!running && os == HostOs::MacOs) ==> r == ExitCodeAction::WaitBriefly(
                self.generation,
            ),
    {
        if running {
            ExitCodeAction::Done(None)
        } else {
            match os {
                HostOs::Linux => ExitCodeAction::Done(None),
                HostOs::MacOs => ExitCodeAction::WaitBriefly(self.generation),
            }
        }
    }

    /// The answer after the brief wait for generation `generation`, which
    /// gave `waited` (nothing where it failed or timed out): a code of the
    /// current generation is recorded and answered; a failed wait, or a
    /// code from before a restart, answers nothing and changes nothing.
    pub fn exit_code_after_wait(&mut self, generation: u64, waited: Option<i64>) -> (r: Option<i64>)
        ensures
            match waited {
                Some(c) => if old(self).generation == generation {
                    r == Some(c) && final(self).exit_code == Some(c) && final(self).generation
                        == old(self).generation
                } else {
                    r is None && *final(self) == *old(self)
                },
                None => r is None && *final(self) == *old(self),
            },
    {
        match waited {
            Some(c) => if self.store_if_current(generation, c) {
                Some(c)
            } else {
                None
            },
            None => None,
        }
    }

    /// The current generation.
    pub fn generation(&self) -> (r: u64)
        ensures
            r == self.generation,
    {
        self.generation
    }
}

impl Default for WaitState {
    fn default() -> (r: WaitState)
        ensures
            r.generation == 0,
            r.exit_code is None,
    {
        WaitState::new()
    }
}

/// A fresh exit-code slot: generation 0 and no exit code.
pub fn new_wait_state() -> (r: WaitState)
    ensures
        r.generation == 0,
        r.exit_code is None,
{
    WaitState::new()
}

} // verus!
