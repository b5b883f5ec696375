//! The container runtime client and what the logs endpoint hands back.

use vstd::prelude::*;
use vstd::string::*;
use crate::docker_api::{DockerClient, DEFAULT_DOCKER_SOCKET};
use crate::error::Error;
use crate::multiplex::{is_multiplex_content_type, multiplex_content_type};
use crate::text::{decimal, push_decimal, starts_with};

verus! {

broadcast use vstd::string::group_string_axioms;

/// The Apple container service, reached over XPC.
#[derive(Debug, Clone, Copy)]
pub struct XpcClient;

/// The runtime this library talks to.
#[derive(Debug)]
pub enum Client {
    MacOs(XpcClient),
    Linux(DockerClient),
}

/// The operating system this runs on, as far as the choice of runtime
/// goes.
#[derive(Debug, Clone, Copy, PartialEq, Eq, Structural)]
pub enum HostOs {
    MacOs,
    Linux,
}

impl Client {
    /// The client for the runtime of `os`: the Apple container service on
    /// macOS, the Docker Engine on its default socket on Linux. Nothing is
    /// contacted yet, so this always succeeds.
    pub fn detect(os: HostOs) -> (r: Result<Client, Error>)
        ensures
            os == HostOs::MacOs ==> r matches Ok(Client::MacOs(_)),
            os == HostOs::Linux ==> (r matches Ok(Client::Linux(c)) && c.socket_path@
                == DEFAULT_DOCKER_SOCKET@),
    {
        match os {
            HostOs::MacOs => Ok(Client::MacOs(XpcClient)),
            HostOs::Linux => match DockerClient::detect() {
                Ok(c) => Ok(Client::Linux(c)),
                Err(e) => Err(e),
            },
        }
    }
}

/// What to do with a container once its handle is dropped.
#[derive(Debug, Clone, Copy, PartialEq, Eq, Structural)]
pub enum Command {
    Remove,
    Keep,
}

impl Default for Command {
    fn default() -> (r: Command)
        ensures
            r == Command::Remove,
    {
        Command::Remove
    }
}

/// The command the value of `TESTCONTAINERS_COMMAND` asks for: `keep`
/// keeps containers, anything else (or no value) removes them.
pub fn command_from(value: Option<&str>) -> (r: Command)
    ensures
        r == if value matches Some(v) && v@ == "keep"@ {
            Command::Keep
        } else {
            Command::Remove
        },
{
    match value {
        Some(v) => if crate::text::str_eq(v, "keep") {
            Command::Keep
        } else {
            Command::Remove
        },
        None => Command::Remove,
    }
}

/// Why a one-shot logs response cannot be read, from its status line and
/// content type: `None` when it is a 200 with a multiplexed stream.
pub open spec fn log_head_problem(status: u16, content_type: Option<Seq<char>>) -> Option<Seq<char>> {
    if status != 200 {
        Some("logs request failed with status "@ + decimal(status as nat))
    } else if !multiplex_content_type(content_type) {
        Some("unsupported log stream content type: "@ + match content_type {
            Some(c) => c,
            None => "<absent>"@,
        })
    } else {
        None
    }
}

/// Checks the head of a one-shot logs response.
pub fn check_log_head(status: u16, content_type: Option<&str>) -> (r: Result<(), String>)
    ensures
        match log_head_problem(
            status,
            match content_type {
                Some(c) => Some(c@),
                None => None,
            },
        ) {
            Some(m) => r matches Err(s) && s@ == m,
            None => r is Ok,
        },
{
    if status != 200 {
        let mut m = String::from_str("logs request failed with status ");
        push_decimal(&mut m, status as u128);
        return Err(m);
    }
    if !is_multiplex_content_type(content_type) {
        let mut m = String::from_str("unsupported log stream content type: ");
        match content_type {
            Some(c) => m.append(c),
            None => m.append("<absent>"),
        }
        return Err(m);
    }
    Ok(())
}

/// A reader of one stream of a container's logs fetched once, on first
/// use: the fetch itself is done by the caller, which hands the result to
/// `deliver`.
#[derive(Debug)]
pub struct SyncOneshotReader {
    pub socket_path: String,
    pub id: String,
    /// Standard output (else standard error).
    pub stdout: bool,
    pub data: Option<Vec<u8>>,
    pub pos: usize,
    pub failed: bool,
}

impl SyncOneshotReader {
    /// Nothing fetched yet.
    pub fn new(socket_path: String, id: String, stdout: bool) -> (r: SyncOneshotReader)
        ensures
            r.socket_path == socket_path,
            r.id == id,
            r.stdout == stdout,
            r.data is None,
            r.pos == 0,
            !r.failed,
    {
        SyncOneshotReader { socket_path, id, stdout, data: None, pos: 0, failed: false }
    }

    /// Does the next read need the logs fetched first?
    pub fn needs_fetch(&self) -> (r: bool)
        ensures
            r == (self.data is None && !self.failed),
    {
        self.data.is_none() && !self.failed
    }

    /// Takes the fetched `(stdout, stderr)` (keeping this reader's
    /// stream), or records that the fetch failed.
    pub fn deliver(&mut self, fetched: Option<(Vec<u8>, Vec<u8>)>)
        requires
            old(self).data is None,
            old(self).pos == 0,
        ensures
            final(self).socket_path == old(self).socket_path,
            final(self).id == old(self).id,
            final(self).stdout == old(self).stdout,
            final(self).pos == 0,
            match fetched {
                Some((o, e)) => final(self).data == Some(
                    if old(self).stdout {
                        o
                    } else {
                        e
                    },
                ) && final(self).failed == old(self).failed,
                None => final(self).data is None && final(self).failed,
            },
    {
        match fetched {
            Some((o, e)) => {
                self.data = Some(if self.stdout {
                    o
                } else {
                    e
                });
            },
            None => {
                self.failed = true;
            },
        }
    }

    /// Copies the next bytes into `buf`; `None` once the fetch has failed
    /// (or before it happened).
    pub fn read_buffered(&mut self, buf: &mut [u8]) -> (r: Option<usize>)
        requires
            old(self).data matches Some(d) ==> old(self).pos <= d@.len(),
        ensures
            final(self).data == old(self).data,
            final(self).failed == old(self).failed,
            (old(self).failed || old(self).data is None) ==> (r is None && *final(self) == *old(
                self,
            ) && final(buf)@ == old(buf)@),
            !(old(self).failed || old(self).data is None) ==> ({
                let d = old(self).data->0@;
                let n = vstd::math::min(d.len() - old(self).pos, old(buf)@.len() as int);
                &&& r == Some(n as usize)
                &&& final(self).pos == old(self).pos + n
                &&& final(buf)@ == d.subrange(old(self).pos as int, old(self).pos + n) + old(
                    buf,
                )@.subrange(n, old(buf)@.len() as int)
            }),
    {
        if self.failed {
            return None;
        }
        let data = match &self.data {
            Some(d) => d,
            None => {
                return None;
            },
        };
        let start: usize = self.pos;
        let avail: usize = data.len() - start;
        let n: usize = if avail < buf.len() {
            avail
        } else {
            buf.len()
        };
        let ghost orig = buf@;
        let mut i: usize = 0;
        while i < n
            invariant
                i <= n,
                n <= orig.len(),
                start + n <= data@.len(),
                start + n <= data.len(),
                buf@.len() == orig.len(),
                forall|k: int| 0 <= k < i ==> buf@[k] == data@[start + k],
                forall|k: int| i <= k < orig.len() ==> buf@[k] == orig[k],
            decreases n - i,
        {
            buf[i] = data[start + i];
            i += 1;
        }
        proof {
            assert(buf@ =~= data@.subrange(start as int, start + n) + orig.subrange(
                n as int,
                orig.len() as int,
            ));
        }
        self.pos = start + n;
        Some(n)
    }
}

/// Whether dropping a container's handle removes the container: not where
/// it was removed already, nor where the environment asks to keep it.
pub fn removes_on_drop(already_removed: bool, command: Command) -> (r: bool)
    ensures
        r == (!already_removed && command == Command::Remove),
{
    !already_removed && matches!(command, Command::Remove)
}

/// Refuses a source path for a copy out of a Docker container that is not
/// absolute (empty, or not starting with `/`).
pub fn check_copy_source_path(source: &str) -> (r: Result<(), Error>)
    ensures
        (source@.len() > 0 && source@[0] == '/') ==> r is Ok,
        !(source@.len() > 0 && source@[0] == '/') ==> (r matches Err(Error::Other(m)) && m@
            == "copy_file_from path must be absolute"@),
{
    proof {
        reveal_strlit("/");
        assert("/"@ =~= seq!['/']);
        if source@.len() > 0 {
            assert(source@.take(1) =~= seq![source@[0]]);
        }
    }
    if starts_with(source, "/") {
        proof {
            assert(source@.take(1)[0] == source@[0]);
        }
        Ok(())
    } else {
        Err(Error::other(String::from_str("copy_file_from path must be absolute")))
    }
}

/// What happened last while a stopped Docker container is restarted with
/// its log stream.
#[derive(Debug, Clone, Copy, PartialEq, Eq, Structural)]
pub enum RestartEvent {
    /// The restart begins.
    Begin,
    /// The old log stream was told to stop.
    OldStreamStopped,
    /// The container runs again.
    ContainerStarted,
    /// A new log session is up.
    LogSessionStarted,
    /// The new log session could not be started.
    LogSessionFailed,
    /// The container was stopped again after that failure.
    ContainerStopped,
}

/// What the restart does next.
#[derive(Debug, Clone, Copy, PartialEq, Eq, Structural)]
pub enum RestartAction {
    /// Stop the old log stream, before the container restarts.
    StopOldStream,
    /// Start the container.
    StartContainer,
    /// Start a new following log session.
    StartLogSession,
    /// Put the new session in place of the old one; the restart is done.
    InstallLogSession,
    /// Stop the container at once (grace 0), so that no container runs
    /// with a dead log stream.
    StopContainer,
    /// Done: successfully, or failing with the log session's error.
    Finish { ok: bool },
}

/// The next step of restarting a stopped container: the old log stream
/// stops before the container starts, so no reader sees the old and the
/// new run mixed; a container that had no log stream gets none; where the
/// new session cannot be started the container is stopped again and the
/// restart fails.
pub fn restart_step(had_stream: bool, event: RestartEvent) -> (r: RestartAction)
    ensures
        r == match event {
            RestartEvent::Begin => if had_stream {
                RestartAction::StopOldStream
            } else {
                RestartAction::StartContainer
            },
            RestartEvent::OldStreamStopped => RestartAction::StartContainer,
            RestartEvent::ContainerStarted => if had_stream {
                RestartAction::StartLogSession
            } else {
                RestartAction::Finish { ok: true }
            },
            RestartEvent::LogSessionStarted => RestartAction::InstallLogSession,
            RestartEvent::LogSessionFailed => RestartAction::StopContainer,
            RestartEvent::ContainerStopped => RestartAction::Finish { ok: false },
        },
{
    match event {
        RestartEvent::Begin => if had_stream {
            RestartAction::StopOldStream
        } else {
            RestartAction::StartContainer
        },
        RestartEvent::OldStreamStopped => RestartAction::StartContainer,
        RestartEvent::ContainerStarted => if had_stream {
            RestartAction::StartLogSession
        } else {
            RestartAction::Finish { ok: true }
        },
        RestartEvent::LogSessionStarted => RestartAction::InstallLogSession,
        RestartEvent::LogSessionFailed => RestartAction::StopContainer,
        RestartEvent::ContainerStopped => RestartAction::Finish { ok: false },
    }
}

} // verus!
