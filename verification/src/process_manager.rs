//! Background sessions of `portal_exec`: the output ring buffer, session
//! ids, and the decisions of the process manager.
use vstd::prelude::*;
use crate::clock::{elapsed_secs, instant_now};
use crate::exec_policy::{exec_decision, validate_exec_allowlist, ExecPolicyError, ExecPolicyErrorKind};
use crate::numbers::{decimal, u64_to_string};
use crate::text::{chars_of, first_word, utf8_len};
use vstd::utf8::{is_ascii_chars, is_ascii_chars_encode_utf8};

verus! {

/// Ring-buffer size of a session's captured output.
pub const DEFAULT_MAX_OUTPUT_BYTES: usize = 1048576;
/// Concurrently running background sessions.
pub const DEFAULT_MAX_SESSIONS: usize = 10;
/// Long-poll cap: prevents MCP clients from holding connections indefinitely.
pub const MAX_POLL_TIMEOUT_MS: u64 = 300000;
/// Single stdin write cap (interactive prompts).
pub const MAX_STDIN_WRITE_BYTES: usize = 262144;
/// Session ids are `sess_` + UUID; reject oversized / odd keys.
pub const MAX_SESSION_ID_BYTES: usize = 128;
/// Seconds an exited session stays listed.
pub const EXIT_RETENTION_SECS: u64 = 300;

/// Captured stdout/stderr of one session: the last `max_bytes` bytes of all
/// output, addressed by logical offsets into everything ever written.
pub struct OutputBuffer {
    pub data: Vec<u8>,
    pub max_bytes: usize,
    total_written: u64,
    /// Last time stdout/stderr delivered bytes (spawn time until first byte).
    last_output_at: tokio::time::Instant,
    /// Every byte ever appended, in order.
    written: Ghost<Seq<u8>>,
}

impl OutputBuffer {
    /// Every byte ever appended, in order.
    pub closed spec fn history(&self) -> Seq<u8> {
        self.written@
    }

    /// The bytes `data` holds.
    pub closed spec fn kept(&self) -> Seq<u8> {
        self.data@
    }

    /// The ring size, `max_bytes`.
    pub closed spec fn capacity(&self) -> nat {
        self.max_bytes as nat
    }

    /// Logical offset of `data[0]`: the bytes before it were dropped.
    pub closed spec fn start_offset(&self) -> int {
        self.history().len() - self.data@.len()
    }

    /// The buffer keeps the last `max_bytes` bytes (or fewer) of its history.
    pub closed spec fn wf(&self) -> bool {
        &&& self.data@.len() <= self.max_bytes
        &&& self.total_written == self.written@.len()
        &&& self.data@.len() <= self.written@.len()
        &&& self.data@ == self.written@.subrange(
            self.written@.len() - self.data@.len(),
            self.written@.len() as int,
        )
    }

    /// What `data` holds: the tail of the history.
    pub proof fn lemma_data_is_tail(&self)
        requires
            self.wf(),
        ensures
            self.kept().len() <= self.capacity(),
            0 <= self.start_offset(),
            self.start_offset() == self.history().len() - self.kept().len(),
            self.kept() == self.history().subrange(self.start_offset(), self.history().len() as int),
    {
    }

    /// An empty buffer that keeps at most `max_bytes` bytes.
    pub fn new(max_bytes: usize) -> (r: Self)
        ensures
            r.wf(),
            r.capacity() == max_bytes,
            r.history() == Seq::<u8>::empty(),
            r.kept() == Seq::<u8>::empty(),
    {
        let r = Self {
            data: Vec::new(),
            max_bytes,
            total_written: 0,
            last_output_at: instant_now(),
            written: Ghost(Seq::empty()),
        };
        assert(r.written@.subrange(0, 0) =~= r.data@);
        r
    }

    /// Bytes captured so far (may exceed the ring size; monotonic).
    pub fn total_written(&self) -> (r: u64)
        requires
            self.wf(),
        ensures
            r == self.history().len(),
    {
        self.total_written
    }

    /// Seconds since last captured output (or since buffer creation if none yet).
    /// Depends on the time of the call; nothing more is stated.
    pub fn idle_s(&self) -> u64 {
        elapsed_secs(&self.last_output_at)
    }

    /// Records `chunk` as written; only the last `max_bytes` bytes stay in `data`.
    pub fn append(&mut self, chunk: &[u8])
        requires
            old(self).wf(),
            old(self).history().len() + chunk@.len() <= u64::MAX,
        ensures
            final(self).wf(),
            final(self).capacity() == old(self).capacity(),
            final(self).history() == old(self).history() + chunk@,
            final(self).kept().len() == if old(self).kept().len() + chunk@.len() > old(
                self,
            ).capacity() {
                old(self).capacity() as int
            } else {
                (old(self).kept().len() + chunk@.len()) as int
            },
    {
        if chunk.len() == 0 {
            assert(self.written@ + chunk@ =~= self.written@);
            return;
        }
        self.last_output_at = instant_now();
        self.total_written = self.total_written + chunk.len() as u64;
        let ghost old_written = self.written@;
        let ghost old_data = self.data@;
        self.written = Ghost(old_written + chunk@);
        self.data.extend_from_slice(chunk);
        assert(self.data@ =~= old_data + chunk@);
        assert(old_data + chunk@ =~= self.written@.subrange(
            self.written@.len() - self.data@.len(),
            self.written@.len() as int,
        ));
        if self.data.len() > self.max_bytes {
            let drop = self.data.len() - self.max_bytes;
            let ghost before = self.data@;
            let kept = self.data.split_off(drop);
            self.data = kept;
            assert(self.data@ =~= self.written@.subrange(
                self.written@.len() - self.data@.len(),
                self.written@.len() as int,
            ));
        }
    }

    /// Returns bytes from logical `offset` to the current end, whether data was
    /// dropped before `offset`, and `total_written`.
    pub fn bytes_since(&self, offset: u64) -> (r: (Vec<u8>, bool, u64))
        requires
            self.wf(),
        ensures
            r.1 == (offset < self.start_offset()),
            r.2 == self.history().len(),
            r.0@ == if offset < self.start_offset() {
                self.kept()
            } else if offset < self.history().len() {
                self.history().subrange(offset as int, self.history().len() as int)
            } else {
                Seq::<u8>::empty()
            },
    {
        let start_offset = self.total_written - self.data.len() as u64;
        let truncated = offset < start_offset;
        let from = if offset > start_offset {
            offset
        } else {
            start_offset
        };
        if from >= self.total_written || self.data.len() == 0 {
            return (Vec::new(), truncated, self.total_written);
        }
        let start_idx = (from - start_offset) as usize;
        let out = copy_range(&self.data, start_idx, self.data.len());
        proof {
            assert(self.data@.subrange(start_idx as int, self.data@.len() as int) =~= if offset
                < start_offset {
                self.data@
            } else {
                self.history().subrange(offset as int, self.history().len() as int)
            });
        }
        (out, truncated, self.total_written)
    }

    /// Up to `limit` bytes from logical `offset` (or from the oldest byte kept,
    /// when `offset` was dropped), and `total_written`.
    pub fn bytes_range(&self, offset: u64, limit: usize) -> (r: (Vec<u8>, u64))
        requires
            self.wf(),
        ensures
            r.1 == self.history().len(),
            ({
                let from = if offset < self.start_offset() {
                    self.start_offset()
                } else {
                    offset as int
                };
                let end = if from + limit < self.history().len() {
                    from + limit
                } else {
                    self.history().len() as int
                };
                r.0@ == if from < self.history().len() {
                    self.history().subrange(from, end)
                } else {
                    Seq::<u8>::empty()
                }
            }),
    {
        let start_offset = self.total_written - self.data.len() as u64;
        let from = if offset > start_offset {
            offset
        } else {
            start_offset
        };
        if from >= self.total_written || self.data.len() == 0 {
            return (Vec::new(), self.total_written);
        }
        let start_idx = (from - start_offset) as usize;
        let end = if limit < self.data.len() - start_idx {
            start_idx + limit
        } else {
            self.data.len()
        };
        let out = copy_range(&self.data, start_idx, end);
        (out, self.total_written)
    }
}

/// A copy of `v[from..to]`.
pub fn copy_range(v: &Vec<u8>, from: usize, to: usize) -> (r: Vec<u8>)
    requires
        from <= to <= v@.len(),
    ensures
        r@ == v@.subrange(from as int, to as int),
{
    let mut out: Vec<u8> = Vec::new();
    let mut i = from;
    while i < to
        invariant
            from <= i <= to <= v@.len(),
            out@ == v@.subrange(from as int, i as int),
        decreases to - i,
    {
        out.push(v[i]);
        assert(v@.subrange(from as int, i + 1) =~= v@.subrange(from as int, i as int).push(
            v@[i as int],
        ));
        i += 1;
    }
    out
}

/// A session's lifecycle state.
#[derive(Clone, Copy, Debug, PartialEq, Eq, Structural)]
pub enum ProcessStatus {
    Running,
    Exited(i32),
}

/// A session as `portal_process list` reports it.
#[derive(Clone, Debug)]
pub struct SessionInfo {
    pub session_id: String,
    pub pid: u32,
    pub command: String,
    pub status: ProcessStatus,
    pub uptime_s: u64,
    /// Seconds since last stdout/stderr chunk (sensory: silence vs progress).
    pub idle_s: u64,
    /// Total bytes captured (may exceed ring size; monotonic).
    pub total_output_bytes: u64,
}

/// Result of `portal_process poll`.
#[derive(Clone, Debug)]
pub struct PollResult {
    pub output: Vec<u8>,
    pub next_offset: u64,
    pub truncated: bool,
    pub status: ProcessStatus,
    pub idle_s: u64,
    pub total_output_bytes: u64,
}

/// Result of `portal_process log`.
#[derive(Clone, Debug)]
pub struct LogResult {
    pub output: Vec<u8>,
    pub next_offset: u64,
    pub truncated: bool,
    pub status: ProcessStatus,
    pub idle_s: u64,
    pub total_output_bytes: u64,
}

/// Why a session id was refused.
#[derive(Clone, Copy, Debug, PartialEq, Eq, Structural)]
pub enum InvalidSessionId {
    Invalid,
}

impl InvalidSessionId {
    /// The message shown to the caller.
    pub fn message(&self) -> (r: String)
        ensures
            r@ == "Invalid session_id"@,
    {
        String::from_str("Invalid session_id")
    }
}

/// The prefix of every session id.
pub open spec fn session_prefix() -> Seq<char> {
    "sess_"@
}

/// A session id is non-empty, at most `MAX_SESSION_ID_BYTES` bytes of UTF-8,
/// and starts with `sess_`.
pub open spec fn valid_session_id(s: Seq<char>) -> bool {
    &&& utf8_len(s) > 0
    &&& utf8_len(s) <= MAX_SESSION_ID_BYTES
    &&& s.len() >= 5
    &&& s.take(5) == session_prefix()
}

/// Accepts exactly the ids that [`valid_session_id`] describes.
pub fn validate_session_id(session_id: &str) -> (r: Result<(), InvalidSessionId>)
    ensures
        r is Ok <==> valid_session_id(session_id@),
{
    let n = session_id.as_bytes().len();
    if n == 0 || n > MAX_SESSION_ID_BYTES {
        return Err(InvalidSessionId::Invalid);
    }
    let cs = chars_of(session_id);
    proof {
        reveal_strlit("sess_");
    }
    if cs.len() >= 5 && cs[0] == 's' && cs[1] == 'e' && cs[2] == 's' && cs[3] == 's' && cs[4]
        == '_' {
        assert(cs@.take(5) =~= session_prefix());
        Ok(())
    } else {
        proof {
            if cs@.len() >= 5 && cs@.take(5) == session_prefix() {
                assert(cs@.take(5)[0] == 's');
                assert(cs@.take(5)[1] == 'e');
                assert(cs@.take(5)[2] == 's');
                assert(cs@.take(5)[3] == 's');
                assert(cs@.take(5)[4] == '_');
            }
        }
        Err(InvalidSessionId::Invalid)
    }
}

/// `c` is a lowercase hexadecimal digit.
pub open spec fn is_lower_hex(c: char) -> bool {
    ('0' <= c <= '9') || ('a' <= c <= 'f')
}

/// `s` is a UUID in hyphenated lowercase form: 36 characters, hyphens at
/// positions 8, 13, 18 and 23, lowercase hex digits elsewhere.
pub open spec fn is_uuid_text(s: Seq<char>) -> bool {
    &&& s.len() == 36
    &&& forall|i: int|
        0 <= i < 36 ==> if i == 8 || i == 13 || i == 18 || i == 23 {
            s[i] == '-'
        } else {
            is_lower_hex(#[trigger] s[i])
        }
}

/// A fresh random (version 4) UUID from `uuid::Uuid::new_v4`, written by its
/// `Display` impl: the hyphenated lowercase form. Which UUID comes back is
/// left open; only its form is stated.
#[verifier::external_body]
fn random_uuid_text() -> (r: String)
    ensures
        is_uuid_text(r@),
{
    uuid::Uuid::new_v4().to_string()
}

/// A new session id: `sess_` followed by a random UUID.
pub fn new_session_id() -> (r: String)
    ensures
        r@.len() == 41,
        r@.take(5) == session_prefix(),
        is_uuid_text(r@.skip(5)),
        valid_session_id(r@),
{
    let uuid = random_uuid_text();
    let mut id = String::from_str("sess_");
    id.append(uuid.as_str());
    proof {
        reveal_strlit("sess_");
        assert(id@.take(5) =~= session_prefix());
        assert(id@.skip(5) =~= uuid@);
        assert(is_ascii_chars(id@)) by {
            assert forall|i: int| 0 <= i < id@.len() implies '\0' <= #[trigger] id@[i] <= '\u{7f}' by {
                if i >= 5 {
                    assert(id@[i] == uuid@[i - 5]);
                }
            }
        }
        is_ascii_chars_encode_utf8(id@);
    }
    id
}

/// The number of `Running` entries of `statuses`.
pub open spec fn running_count(statuses: Seq<ProcessStatus>) -> nat
    decreases statuses.len(),
{
    if statuses.len() == 0 {
        0
    } else {
        running_count(statuses.drop_last()) + if statuses.last() is Running {
            1nat
        } else {
            0nat
        }
    }
}

/// How many of the sessions are still running.
pub fn count_running(statuses: &Vec<ProcessStatus>) -> (r: usize)
    ensures
        r == running_count(statuses@),
{
    let mut n: usize = 0;
    let mut i: usize = 0;
    while i < statuses.len()
        invariant
            i <= statuses.len(),
            n == running_count(statuses@.take(i as int)),
            n <= i,
        decreases statuses.len() - i,
    {
        assert(statuses@.take(i + 1).drop_last() =~= statuses@.take(i as int));
        if let ProcessStatus::Running = statuses[i] {
            n = n + 1;
        }
        i = i + 1;
    }
    assert(statuses@.take(statuses.len() as int) =~= statuses@);
    n
}

/// Why `portal_process` refused a request.
#[derive(Clone, Debug)]
pub enum ProcessError {
    /// The session id is malformed.
    InvalidSessionId,
    /// No session has this id.
    UnknownSession { session_id: String },
    /// The exec allowlist refused the command.
    Policy(ExecPolicyError),
    /// `max` sessions are already running.
    TooManySessions { max: usize },
    /// The stdin write is larger than `MAX_STDIN_WRITE_BYTES`.
    StdinTooLarge,
    /// The session has already exited.
    SessionExited,
    /// The session's stdin is closed.
    StdinUnavailable,
}

impl ProcessError {
    /// The message shown to the caller.
    pub fn message(&self) -> (r: String)
        ensures
            self matches ProcessError::UnknownSession { session_id } ==> r@ == "Unknown session: "@
                + session_id@,
            self matches ProcessError::TooManySessions { max } ==> r@
                == "Maximum concurrent background sessions ("@ + decimal(max as nat)
                + ") reached"@,
            self is InvalidSessionId ==> r@ == "Invalid session_id"@,
            self is StdinTooLarge ==> r@ == "stdin write exceeds max 262144 bytes"@,
            self is SessionExited ==> r@ == "Session has exited"@,
            self is StdinUnavailable ==> r@ == "stdin not available for this session"@,
    {
        match self {
            ProcessError::InvalidSessionId => String::from_str("Invalid session_id"),
            ProcessError::UnknownSession { session_id } => {
                let mut m = String::from_str("Unknown session: ");
                m.append(session_id.as_str());
                m
            },
            ProcessError::Policy(e) => e.message(),
            ProcessError::TooManySessions { max } => {
                let mut m = String::from_str("Maximum concurrent background sessions (");
                m.append(u64_to_string(*max as u64).as_str());
                m.append(") reached");
                m
            },
            ProcessError::StdinTooLarge => String::from_str("stdin write exceeds max 262144 bytes"),
            ProcessError::SessionExited => String::from_str("Session has exited"),
            ProcessError::StdinUnavailable => String::from_str(
                "stdin not available for this session",
            ),
        }
    }
}

/// Whether a new background session may start: the exec allowlist is
/// consulted first, then the number of sessions already running.
pub fn check_spawn(command: &str, allowlist: &Vec<String>, running: usize, max_sessions: usize) -> (r:
    Result<(), ProcessError>)
    ensures
        match exec_decision(command@, allowlist@) {
            Some(ExecPolicyErrorKind::NotInAllowlist) => r matches Err(
                ProcessError::Policy(ExecPolicyError::NotInAllowlist { program }),
            ) && program@ == first_word(command@),
            Some(ExecPolicyErrorKind::ShellMetacharacters) => r matches Err(
                ProcessError::Policy(ExecPolicyError::ShellMetacharacters),
            ),
            None => if running >= max_sessions {
                r matches Err(ProcessError::TooManySessions { max }) && max == max_sessions
            } else {
                r is Ok
            },
        },
{
    match validate_exec_allowlist(command, allowlist) {
        Err(e) => Err(ProcessError::Policy(e)),
        Ok(()) => {
            if running >= max_sessions {
                Err(ProcessError::TooManySessions { max: max_sessions })
            } else {
                Ok(())
            }
        },
    }
}

/// The effective long-poll timeout: the request's, capped at `MAX_POLL_TIMEOUT_MS`.
pub fn poll_timeout_ms(requested: u64) -> (r: u64)
    ensures
        r == if requested < MAX_POLL_TIMEOUT_MS {
            requested
        } else {
            MAX_POLL_TIMEOUT_MS
        },
{
    if requested < MAX_POLL_TIMEOUT_MS {
        requested
    } else {
        MAX_POLL_TIMEOUT_MS
    }
}

/// What a long poll does after reading the session.
#[derive(Clone, Copy, Debug, PartialEq, Eq, Structural)]
pub enum PollStep {
    /// Answer with what was read.
    Answer,
    /// Wait for new output, the exit, or the deadline; then read again.
    Wait,
}

/// A poll answers at once when there is new output or the session exited, or
/// when it has no deadline (timeout 0) or its deadline passed; otherwise it waits.
pub fn poll_step(new_bytes: usize, status: ProcessStatus, has_deadline: bool, deadline_passed: bool) -> (r:
    PollStep)
    ensures
        r == if new_bytes > 0 || status is Exited || !has_deadline || deadline_passed {
            PollStep::Answer
        } else {
            PollStep::Wait
        },
{
    if new_bytes > 0 {
        return PollStep::Answer;
    }
    if let ProcessStatus::Exited(_) = status {
        return PollStep::Answer;
    }
    if !has_deadline || deadline_passed {
        PollStep::Answer
    } else {
        PollStep::Wait
    }
}

/// What one read of a session gives a poll: the output from `offset`, whether
/// bytes before `offset` were dropped, and the buffer's counters.
pub fn poll_snapshot(buf: &OutputBuffer, offset: u64, status: ProcessStatus) -> (r: PollResult)
    requires
        buf.wf(),
    ensures
        r.truncated == (offset < buf.start_offset()),
        r.next_offset == buf.history().len(),
        r.total_output_bytes == buf.history().len(),
        r.status == status,
        r.output@ == if offset < buf.start_offset() {
            buf.kept()
        } else if offset < buf.history().len() {
            buf.history().subrange(offset as int, buf.history().len() as int)
        } else {
            Seq::<u8>::empty()
        },
{
    let (output, truncated, next) = buf.bytes_since(offset);
    PollResult {
        output,
        next_offset: next,
        truncated,
        status,
        idle_s: buf.idle_s(),
        total_output_bytes: buf.total_written(),
    }
}

/// What `portal_process log` gives: up to `limit` bytes (capped at the ring
/// size `max_output_bytes`) from `offset`, or from the oldest byte kept.
pub fn log_snapshot(buf: &OutputBuffer, offset: u64, limit: u64, max_output_bytes: usize, status:
    ProcessStatus) -> (r: LogResult)
    requires
        buf.wf(),
    ensures
        r.truncated == (offset < buf.start_offset()),
        r.next_offset == buf.history().len(),
        r.total_output_bytes == buf.history().len(),
        r.status == status,
        ({
            let lim = if limit < max_output_bytes {
                limit as int
            } else {
                max_output_bytes as int
            };
            let from = if offset < buf.start_offset() {
                buf.start_offset()
            } else {
                offset as int
            };
            let end = if from + lim < buf.history().len() {
                from + lim
            } else {
                buf.history().len() as int
            };
            r.output@ == if from < buf.history().len() {
                buf.history().subrange(from, end)
            } else {
                Seq::<u8>::empty()
            }
        }),
{
    let lim: usize = if limit < max_output_bytes as u64 {
        limit as usize
    } else {
        max_output_bytes
    };
    let total = buf.total_written();
    let (output, next_offset) = buf.bytes_range(offset, lim);
    proof {
        buf.lemma_data_is_tail();
    }
    let start_offset = total - buf.data.len() as u64;
    LogResult {
        output,
        next_offset,
        truncated: offset < start_offset,
        status,
        idle_s: buf.idle_s(),
        total_output_bytes: total,
    }
}

/// The checks of a stdin write, in order: the id, the size, that the session
/// exists (`found`, with whether its stdin is open), and that it still runs.
pub fn check_stdin_write(session_id: &str, len: usize, found: Option<(ProcessStatus, bool)>) -> (r:
    Result<(), ProcessError>)
    ensures
        !valid_session_id(session_id@) ==> r matches Err(ProcessError::InvalidSessionId),
        valid_session_id(session_id@) && len > MAX_STDIN_WRITE_BYTES ==> r matches Err(
            ProcessError::StdinTooLarge,
        ),
        valid_session_id(session_id@) && len <= MAX_STDIN_WRITE_BYTES ==> match found {
            None => r matches Err(ProcessError::UnknownSession { session_id: id }) && id@
                == session_id@,
            Some((ProcessStatus::Exited(_), _)) => r matches Err(ProcessError::SessionExited),
            Some((ProcessStatus::Running, false)) => r matches Err(ProcessError::StdinUnavailable),
            Some((ProcessStatus::Running, true)) => r is Ok,
        },
{
    if validate_session_id(session_id).is_err() {
        return Err(ProcessError::InvalidSessionId);
    }
    if len > MAX_STDIN_WRITE_BYTES {
        return Err(ProcessError::StdinTooLarge);
    }
    match found {
        None => Err(ProcessError::UnknownSession { session_id: session_id.to_owned() }),
        Some((ProcessStatus::Exited(_), _)) => Err(ProcessError::SessionExited),
        Some((ProcessStatus::Running, false)) => Err(ProcessError::StdinUnavailable),
        Some((ProcessStatus::Running, true)) => Ok(()),
    }
}

/// Seconds a session has run: since its start while running; from start to
/// exit once exited (0 when the exit time is unknown).
pub fn session_uptime(status: ProcessStatus, secs_since_start: u64, exit_after_start: Option<u64>) -> (r:
    u64)
    ensures
        r == match status {
            ProcessStatus::Running => secs_since_start,
            ProcessStatus::Exited(_) => match exit_after_start {
                Some(s) => s,
                None => 0,
            },
        },
{
    match status {
        ProcessStatus::Running => secs_since_start,
        ProcessStatus::Exited(_) => match exit_after_start {
            Some(s) => s,
            None => 0,
        },
    }
}

/// Whether cleanup drops a session: it exited at least `EXIT_RETENTION_SECS`
/// seconds ago (`secs_since_exit`, when its exit time is known).
pub fn should_remove(status: ProcessStatus, secs_since_exit: Option<u64>) -> (r: bool)
    ensures
        r == (status is Exited && secs_since_exit is Some && secs_since_exit->0
            >= EXIT_RETENTION_SECS),
{
    match status {
        ProcessStatus::Running => false,
        ProcessStatus::Exited(_) => match secs_since_exit {
            Some(s) => s >= EXIT_RETENTION_SECS,
            None => false,
        },
    }
}

} // verus!
