//! What is written down about the requests, and when.
use vstd::prelude::*;
use vstd::utf8::*;

use crate::wallet::address::Address;

verus! {

/// What happened.
pub enum Event {
    Registration { success: bool },
    Login { success: bool },
    Withdrawal { amt: u64, addr: Address },
    GetBalance,
    BalanceChange { from: u64, to: u64 },
    ServerError,
    UserError,
    DepositReq,
    AttachAddr,
    AuthFailureNonLogin,
}

/// What part of the server it happened in.
#[derive(Clone, Copy, Debug, PartialEq, Eq, Structural)]
pub enum LogType {
    Auth,
    Money,
}

/// How much it matters.
#[derive(Clone, Copy, Debug, PartialEq, Eq, Structural)]
pub enum Priority {
    Low,
    Medium,
    High,
}

/// One entry of the log.
pub struct Log {
    pub log_type: LogType,
    pub username: Option<String>,
    /// Seconds since the Unix epoch.
    pub time: u64,
    pub ip: String,
    pub event: Event,
    pub reason: String,
    pub priority: Priority,
}

impl Log {
    /// An entry for an event at the time `now`.
    pub fn new(
        username: Option<String>,
        ip: String,
        event: Event,
        log_type: LogType,
        reason: String,
        priority: Priority,
        now: u64,
    ) -> (res: Self)
        ensures
            res == (Log { log_type, username, time: now, ip, event, reason, priority }),
    {
        Log { log_type, username, time: now, ip, event, reason, priority }
    }

    /// Whether this is an entry about the user with the given parts.
    pub open spec fn tells(
        self,
        username: Seq<char>,
        ip: Seq<char>,
        event: Event,
        log_type: LogType,
        reason: Seq<char>,
        priority: Priority,
        now: u64,
    ) -> bool {
        &&& self.log_type == log_type
        &&& self.username matches Some(name)
        &&& name@ == username
        &&& self.time == now
        &&& self.ip@ == ip
        &&& self.event == event
        &&& self.reason@ == reason
        &&& self.priority == priority
    }
}

/// Writes an entry about a user.
pub fn log_user(
    username: &String,
    ip: &String,
    event: Event,
    log_type: LogType,
    reason: &str,
    priority: Priority,
    now: u64,
) -> (res: Log)
    ensures
        res.tells(username@, ip@, event, log_type, reason@, priority, now),
{
    Log::new(
        Some(username.clone()),
        ip.clone(),
        event,
        log_type,
        reason.to_owned(),
        priority,
        now,
    )
}

/// Bytes that may wait before they are written at once.
pub const LOG_BUFFER_LEN: usize = 65_000;

/// Lines that wait to be written to the log file.
pub struct LogBuffer {
    pub waiting: String,
}

impl LogBuffer {
    /// A buffer in which nothing waits.
    pub fn new() -> (res: Self)
        ensures
            res.waiting@ == Seq::<char>::empty(),
    {
        let res = LogBuffer { waiting: String::new() };
        assert(res.waiting@ =~= Seq::<char>::empty());
        res
    }

    /// Whether so much waits that it must be written now.
    pub fn is_full(&self) -> (res: bool)
        ensures
            res == (encode_utf8(self.waiting@).len() > LOG_BUFFER_LEN),
    {
        self.waiting.as_str().as_bytes().len() > LOG_BUFFER_LEN
    }

    /// Adds one line, and says whether the buffer is so full that it must be
    /// written now.
    pub fn add_line(&mut self, line: &str) -> (write_now: bool)
        ensures
            final(self).waiting@ == old(self).waiting@ + line@ + "\n"@,
            write_now == (encode_utf8(final(self).waiting@).len() > LOG_BUFFER_LEN),
    {
        self.waiting.append(line);
        self.waiting.append("\n");
        self.is_full()
    }

    /// Takes all that waits out of the buffer.
    pub fn take(&mut self) -> (res: String)
        ensures
            res@ == old(self).waiting@,
            final(self).waiting@ == Seq::<char>::empty(),
    {
        let res = self.waiting.clone();
        self.waiting = String::new();
        assert(self.waiting@ =~= Seq::<char>::empty());
        res
    }
}

/// Seconds after which what waits is written though it is little.
pub const LOG_WAIT_SECS: u64 = 90;

/// What the logging service knows: the lines that wait, and when it last wrote.
pub struct LogService {
    pub buffer: LogBuffer,
    pub last_write: u64,
}

/// What the logging service wakes up for: a line, or only the time.
pub struct LogTick {
    pub line: Option<Seq<char>>,
    pub now: u64,
}

/// The lines that wait, and when the last write was.
pub struct LogState {
    pub waiting: Seq<char>,
    pub last_write: u64,
}

impl View for LogService {
    type V = LogState;

    open spec fn view(&self) -> LogState {
        LogState { waiting: self.buffer.waiting@, last_write: self.last_write }
    }
}

/// The text of a line, where there is one.
pub open spec fn text_of(line: Option<&str>) -> Option<Seq<char>> {
    match line {
        Some(line) => Some(line@),
        None => None,
    }
}

impl LogState {
    /// What waits once the line, where there is one, is added.
    pub open spec fn with_line(self, tick: LogTick) -> Seq<char> {
        match tick.line {
            Some(line) => self.waiting + line + "\n"@,
            None => self.waiting,
        }
    }

    /// Whether everything is to be written now: because it is too much, or
    /// because the last write is too long ago.
    pub open spec fn writes(self, tick: LogTick) -> bool {
        ||| encode_utf8(self.with_line(tick)).len() > LOG_BUFFER_LEN
        ||| tick.now - self.last_write >= LOG_WAIT_SECS
    }

    /// What is written.
    pub open spec fn written(self, tick: LogTick) -> Option<Seq<char>> {
        if self.writes(tick) {
            Some(self.with_line(tick))
        } else {
            None
        }
    }

    /// The state afterwards.
    pub open spec fn next(self, tick: LogTick) -> LogState {
        if self.writes(tick) {
            LogState { waiting: Seq::empty(), last_write: tick.now }
        } else {
            LogState { waiting: self.with_line(tick), last_write: self.last_write }
        }
    }

    /// Seconds until there must be a write, if there is none before.
    pub open spec fn wait(self, now: u64) -> int {
        if now - self.last_write >= LOG_WAIT_SECS {
            0
        } else if now >= self.last_write {
            self.last_write + LOG_WAIT_SECS - now
        } else {
            LOG_WAIT_SECS as int
        }
    }

    /// The state after several ticks.
    pub open spec fn after(self, ticks: Seq<LogTick>) -> LogState
        decreases ticks.len(),
    {
        if ticks.len() == 0 {
            self
        } else {
            self.after(ticks.drop_last()).next(ticks.last())
        }
    }

    /// All that is written during several ticks.
    pub open spec fn file_after(self, ticks: Seq<LogTick>) -> Seq<char>
        decreases ticks.len(),
    {
        if ticks.len() == 0 {
            Seq::empty()
        } else {
            let before = self.file_after(ticks.drop_last());
            match self.after(ticks.drop_last()).written(ticks.last()) {
                Some(text) => before + text,
                None => before,
            }
        }
    }
}

impl LogService {
    /// A service in whose buffer nothing waits.
    pub fn new(now: u64) -> (res: Self)
        ensures
            res@ == (LogState { waiting: Seq::empty(), last_write: now }),
    {
        LogService { buffer: LogBuffer::new(), last_write: now }
    }

    /// Takes up a line, where there is one, and gives what is to be written to
    /// the file now, if anything is.
    pub fn step(&mut self, line: Option<&str>, now: u64) -> (res: Option<String>)
        ensures
            ({
                let tick = LogTick { line: text_of(line), now };
                &&& final(self)@ == old(self)@.next(tick)
                &&& match res {
                    Some(text) => old(self)@.written(tick) == Some(text@),
                    None => old(self)@.written(tick) is None,
                }
            }),
    {
        let mut full = self.buffer.is_full();
        if let Some(line) = line {
            full = self.buffer.add_line(line);
        }
        if full || (now >= self.last_write && now - self.last_write >= LOG_WAIT_SECS) {
            self.last_write = now;
            Some(self.buffer.take())
        } else {
            None
        }
    }

    /// Seconds until there must be a write, if there is none before.
    pub fn wait(&self, now: u64) -> (res: u64)
        ensures
            res == self@.wait(now),
    {
        if now >= self.last_write {
            if now - self.last_write >= LOG_WAIT_SECS {
                0
            } else {
                LOG_WAIT_SECS - (now - self.last_write)
            }
        } else {
            LOG_WAIT_SECS
        }
    }
}

/// The text of some lines, each with its end.
pub open spec fn lines_text(lines: Seq<Seq<char>>) -> Seq<char>
    decreases lines.len(),
{
    if lines.len() == 0 {
        Seq::empty()
    } else {
        lines_text(lines.drop_last()) + lines.last() + "\n"@
    }
}

/// The lines among several ticks.
pub open spec fn lines_of(ticks: Seq<LogTick>) -> Seq<Seq<char>>
    decreases ticks.len(),
{
    if ticks.len() == 0 {
        seq![]
    } else {
        match ticks.last().line {
            Some(line) => lines_of(ticks.drop_last()).push(line),
            None => lines_of(ticks.drop_last()),
        }
    }
}

/// At any time the file and what waits are together all lines so far, in their
/// order: no line is lost, and none is written twice.
pub proof fn nothing_is_lost(start: LogState, ticks: Seq<LogTick>)
    ensures
        start.file_after(ticks) + start.after(ticks).waiting == start.waiting + lines_text(
            lines_of(ticks),
        ),
    decreases ticks.len(),
{
    if ticks.len() == 0 {
        assert(start.file_after(ticks) + start.waiting =~= start.waiting + Seq::<char>::empty());
    } else {
        let shorter = ticks.drop_last();
        nothing_is_lost(start, shorter);
        let before = start.after(shorter);
        let lines = lines_of(shorter);
        if let Some(line) = ticks.last().line {
            assert(lines.push(line).drop_last() =~= lines);
            assert(start.waiting + lines_text(lines.push(line)) =~= (start.waiting + lines_text(
                lines,
            )) + line + "\n"@);
        }
        assert(start.file_after(shorter) + before.with_line(ticks.last()) =~= start.waiting
            + lines_text(lines_of(ticks)));
        assert(start.file_after(ticks) + start.after(ticks).waiting =~= start.file_after(shorter)
            + before.with_line(ticks.last()));
    }
}

/// A tick after the wait writes all that waits, and the wait ends as soon as
/// the last write is long enough ago.
pub proof fn waiting_ends(state: LogState, now: u64, tick: LogTick)
    requires
        state.last_write <= now,
        now + state.wait(now) <= tick.now,
    ensures
        state.written(tick) == Some(state.with_line(tick)),
        now - state.last_write < LOG_WAIT_SECS ==> now + state.wait(now) == state.last_write
            + LOG_WAIT_SECS,
{
}

/// The service never holds more than it may, and never for longer than it may:
/// after each tick it holds at most the buffer's length in bytes, and its last
/// write is less than the wait ago.
pub proof fn writes_are_timely(start: LogState, ticks: Seq<LogTick>)
    requires
        ticks.len() > 0,
    ensures
        encode_utf8(start.after(ticks).waiting).len() <= LOG_BUFFER_LEN,
        ticks.last().now - start.after(ticks).last_write < LOG_WAIT_SECS,
{
    assert(encode_utf8(Seq::<char>::empty()).len() == 0);
}

/// What waits is written as soon as it is more than 65,000 bytes or the last
/// write is ninety seconds ago, and not before. A write takes all that waits.
pub proof fn small_logs_wait(state: LogState, tick: LogTick)
    ensures
        ({
            let all = match tick.line {
                Some(line) => (state.waiting + line).push('\n'),
                None => state.waiting,
            };
            if encode_utf8(all).len() > 65_000 || tick.now - state.last_write >= 90 {
                &&& state.written(tick) == Some(all)
                &&& state.next(tick).waiting.len() == 0
                &&& state.next(tick).last_write == tick.now
            } else {
                &&& state.written(tick) is None
                &&& state.next(tick).waiting == all
                &&& state.next(tick).last_write == state.last_write
            }
        }),
{
    reveal_strlit("\n");
    if let Some(line) = tick.line {
        assert(state.waiting + line + "\n"@ =~= (state.waiting + line).push('\n'));
    }
}

/// Each line is written with the end of a line behind it, and nothing is
/// written that is no line.
pub proof fn lines_end(a: Seq<Seq<char>>, b: Seq<Seq<char>>, line: Seq<char>)
    ensures
        lines_text(a + b) == lines_text(a) + lines_text(b),
        lines_text(seq![line]) == line.push('\n'),
    decreases b.len(),
{
    reveal_strlit("\n");
    reveal_with_fuel(lines_text, 2);
    assert(lines_text(seq![line]) =~= line.push('\n'));
    if b.len() == 0 {
        assert(a + b =~= a);
        assert(lines_text(a) + lines_text(b) =~= lines_text(a));
    } else {
        lines_end(a, b.drop_last(), line);
        assert((a + b).drop_last() =~= a + b.drop_last());
        assert(lines_text(a + b) =~= lines_text(a) + lines_text(b));
    }
}

/// The lines of two runs of ticks are the lines of the first and then those of
/// the second; a tick has a line or it has none.
pub proof fn lines_come_in_order(a: Seq<LogTick>, b: Seq<LogTick>, tick: LogTick)
    ensures
        lines_of(a + b) == lines_of(a) + lines_of(b),
        lines_of(seq![tick]) == match tick.line {
            Some(line) => seq![line],
            None => seq![],
        },
    decreases b.len(),
{
    reveal_with_fuel(lines_of, 2);
    if let Some(line) = tick.line {
        assert(lines_of(seq![tick]) =~= seq![line]);
    }
    if b.len() == 0 {
        assert(a + b =~= a);
        assert(lines_of(a) + lines_of(b) =~= lines_of(a));
    } else {
        lines_come_in_order(a, b.drop_last(), tick);
        assert((a + b).drop_last() =~= a + b.drop_last());
        assert(lines_of(a + b) =~= lines_of(a) + lines_of(b));
    }
}

/// An entry tells of exactly one user, address, event, part of the server,
/// reason, weight and time.
pub proof fn entries_tell_one_thing(
    log: Log,
    username: Seq<char>,
    ip: Seq<char>,
    event: Event,
    log_type: LogType,
    reason: Seq<char>,
    priority: Priority,
    now: u64,
)
    ensures
        log.tells(username, ip, event, log_type, reason, priority, now) <==> {
            &&& log.username is Some && log.username->0@ == username
            &&& log.ip@ == ip && log.reason@ == reason
            &&& log.event == event && log.log_type == log_type
            &&& log.priority == priority && log.time == now
        },
{
}

/// The service waits for no longer than ninety seconds, and not at all where a
/// write is overdue. What it wakes up for, and what it knows, is told as it is.
pub proof fn waits_are_bounded(state: LogState, service: LogService, line: &str, now: u64)
    ensures
        0 <= state.wait(now) <= 90,
        now - state.last_write >= 90 ==> state.wait(now) == 0,
        0 <= now - state.last_write < 90 ==> state.wait(now) == 90 - (now - state.last_write),
        text_of(Some(line)) == Some(line@),
        text_of(None) is None,
        service@.waiting == service.buffer.waiting@,
        service@.last_write == service.last_write,
{
}

} // verus!
