use crate::file::FileCommand;
use crate::status::{is_terminal, CommandStatus};
use vstd::prelude::*;

verus! {

/// How one run of a command ended, as observed by whoever ran it.
#[derive(Debug, Clone)]
pub enum CommandOutcome {
    /// The process ran to its end; `detail` describes its exit status.
    Exited { success: bool, detail: String },
    /// The process could not be started; the text is the system's error.
    SpawnFailed(String),
    /// The time limit elapsed first and the process was stopped.
    TimedOut,
}

/// A time limit, split as a `Duration` is: whole seconds and the nanoseconds
/// of the last, partial second.
#[derive(Debug, Clone, Copy, PartialEq, Eq, Structural)]
pub struct TimeLimit {
    pub secs: u64,
    pub nanos: u32,
}

/// The record of one command bound to one file. Times are milliseconds on a
/// clock chosen by the caller.
#[derive(Debug, Clone)]
pub struct TaskState {
    pub filename: String,
    pub command: String,
    pub timeout: Option<String>,
    pub status: CommandStatus,
    /// When the running command began; cleared once it has ended.
    pub started_at: Option<u64>,
    /// When the command began; kept after it has ended.
    pub launched_at: Option<u64>,
    pub duration_ms: Option<u64>,
    pub done: bool,
}

/// The task that a file command starts as: waiting, with no times.
pub open spec fn fresh_task(c: FileCommand) -> TaskState {
    TaskState {
        filename: c.filename,
        command: c.command,
        timeout: c.timeout,
        status: CommandStatus::Waiting,
        started_at: None,
        launched_at: None,
        duration_ms: None,
        done: false,
    }
}

pub open spec fn outcome_status(o: CommandOutcome) -> CommandStatus {
    match o {
        CommandOutcome::Exited { success, detail } => if success {
            CommandStatus::Done
        } else {
            CommandStatus::Failed(detail)
        },
        CommandOutcome::SpawnFailed(e) => CommandStatus::Failed(e),
        CommandOutcome::TimedOut => CommandStatus::Timeout,
    }
}

/// Time from `start` to `now`; a clock read that went backwards counts as none.
pub open spec fn elapsed(start: u64, now: u64) -> u64 {
    if now >= start {
        (now - start) as u64
    } else {
        0
    }
}

/// What `parse_duration::parse` makes of a text, as seconds and nanoseconds.
pub uninterp spec fn parsed_duration(s: Seq<char>) -> Option<(u64, u32)>;

pub open spec fn is_ascii_digit(c: char) -> bool {
    '0' <= c && c <= '9'
}

/// Position of the first exponent digit for an exponent marker at `i`.
pub open spec fn exponent_digits_from(s: Seq<char>, i: int) -> int {
    if i + 1 < s.len() && (s[i + 1] == '+' || s[i + 1] == '-') {
        i + 2
    } else {
        i + 1
    }
}

/// An exponent marker at `i` followed by five or more digits.
pub open spec fn long_exponent_at(s: Seq<char>, i: int) -> bool {
    &&& (s[i] == 'e' || s[i] == 'E')
    &&& exponent_digits_from(s, i) + 5 <= s.len()
    &&& forall|j: int|
        exponent_digits_from(s, i) <= j < exponent_digits_from(s, i) + 5 ==> is_ascii_digit(
            #[trigger] s[j],
        )
}

/// Texts whose exponents, if any, have at most four digits. On a longer
/// exponent the parser computes a power of ten that large, and may not return.
pub open spec fn exponents_bounded(s: Seq<char>) -> bool {
    forall|i: int| 0 <= i < s.len() ==> !#[trigger] long_exponent_at(s, i)
}

/// Relies on parse_duration::parse: the result depends on the text alone, and
/// the sub-second part of a `Duration` is under one second.
#[verifier::external_body]
fn parse_time_limit(s: &str) -> (r: Option<TimeLimit>)
    requires
        exponents_bounded(s@),
    ensures
        match r {
            None => parsed_duration(s@).is_none(),
            Some(l) => parsed_duration(s@) == Some((l.secs, l.nanos)) && l.nanos < 1_000_000_000,
        },
{
    match parse_duration::parse(s) {
        Ok(d) => Some(TimeLimit { secs: d.as_secs(), nanos: d.subsec_nanos() }),
        Err(_) => None,
    }
}

/// Tells whether every exponent in `s` has at most four digits.
pub fn has_bounded_exponents(s: &str) -> (r: bool)
    ensures
        r == exponents_bounded(s@),
{
    let n = s.unicode_len();
    let mut i: usize = 0;
    while i < n
        invariant
            n == s@.len(),
            i <= n,
            forall|k: int| 0 <= k < i ==> !#[trigger] long_exponent_at(s@, k),
        decreases n - i,
    {
        let c = s.get_char(i);
        if c == 'e' || c == 'E' {
            let mut k = i + 1;
            if k < n {
                let sign = s.get_char(k);
                if sign == '+' || sign == '-' {
                    k = k + 1;
                }
            }
            assert(k == exponent_digits_from(s@, i as int));
            if n - k >= 5 {
                let mut j: usize = k;
                let mut all_digits = true;
                while j < k + 5
                    invariant
                        k <= j <= k + 5,
                        k + 5 <= n,
                        n == s@.len(),
                        all_digits == forall|m: int| k <= m < j ==> is_ascii_digit(#[trigger] s@[m]),
                    decreases k + 5 - j,
                {
                    let d = s.get_char(j);
                    if !('0' <= d && d <= '9') {
                        all_digits = false;
                    }
                    j = j + 1;
                }
                if all_digits {
                    assert(long_exponent_at(s@, i as int));
                    return false;
                }
            }
        }
        i = i + 1;
    }
    true
}

/// The effective time limit of a task's timeout text: the parsed duration
/// where the text parses, `None` where it is absent or does not parse.
pub open spec fn time_limit_of(timeout: Option<Seq<char>>) -> Option<(u64, u32)> {
    match timeout {
        None => None,
        Some(s) => if exponents_bounded(s) {
            parsed_duration(s)
        } else {
            None
        },
    }
}

pub open spec fn view_timeout(t: Option<String>) -> Option<Seq<char>> {
    match t {
        None => None,
        Some(s) => Some(s@),
    }
}

impl TaskState {
    pub open spec fn wf(&self) -> bool {
        &&& self.done == is_terminal(self.status)
        &&& (self.status == CommandStatus::Waiting) ==> {
            &&& self.started_at.is_none()
            &&& self.launched_at.is_none()
            &&& self.duration_ms.is_none()
        }
        &&& (self.status == CommandStatus::Running) ==> {
            &&& self.started_at.is_some()
            &&& self.launched_at == self.started_at
            &&& self.duration_ms.is_none()
        }
        &&& self.done ==> {
            &&& self.started_at.is_none()
            &&& self.duration_ms.is_some()
        }
    }

    /// A fresh task for one file and command: waiting, with no times.
    pub fn from_file_command(file_cmd: FileCommand) -> (r: Self)
        ensures
            r.wf(),
            r == fresh_task(file_cmd),
    {
        TaskState {
            filename: file_cmd.filename,
            command: file_cmd.command,
            timeout: file_cmd.timeout,
            status: CommandStatus::Waiting,
            started_at: None,
            launched_at: None,
            duration_ms: None,
            done: false,
        }
    }

    pub fn status(&self) -> (r: &CommandStatus)
        ensures
            *r == self.status,
    {
        &self.status
    }

    pub fn duration(&self) -> (r: Option<u64>)
        ensures
            r == self.duration_ms,
    {
        self.duration_ms
    }

    pub fn done(&self) -> (r: bool)
        ensures
            r == self.done,
    {
        self.done
    }

    /// The time limit under which the command runs, read from its timeout
    /// text; a text that does not parse sets no limit.
    pub fn time_limit(&self) -> (r: Option<TimeLimit>)
        ensures
            match r {
                None => time_limit_of(view_timeout(self.timeout)).is_none(),
                Some(l) => time_limit_of(view_timeout(self.timeout)) == Some((l.secs, l.nanos)),
            },
    {
        match &self.timeout {
            None => None,
            Some(t) => {
                if has_bounded_exponents(t.as_str()) {
                    parse_time_limit(t.as_str())
                } else {
                    None
                }
            },
        }
    }

    /// Marks a waiting task as running from `now`. Any other task is left as
    /// it is, and `false` returned.
    pub fn start(&mut self, now: u64) -> (r: bool)
        requires
            old(self).wf(),
        ensures
            final(self).wf(),
            r == (old(self).status == CommandStatus::Waiting),
            r ==> *final(self) == (TaskState {
                status: CommandStatus::Running,
                started_at: Some(now),
                launched_at: Some(now),
                ..*old(self)
            }),
            !r ==> *final(self) == *old(self),
    {
        match self.status {
            CommandStatus::Waiting => {
                self.status = CommandStatus::Running;
                self.started_at = Some(now);
                self.launched_at = Some(now);
                true
            },
            _ => false,
        }
    }

    /// Records how a running task's command ended at `now`: its terminal
    /// status, then its duration, then that it is done. Any other task is
    /// left as it is, and `false` returned.
    pub fn complete(&mut self, outcome: CommandOutcome, now: u64) -> (r: bool)
        requires
            old(self).wf(),
        ensures
            final(self).wf(),
            r == (old(self).status == CommandStatus::Running),
            r ==> *final(self) == (TaskState {
                status: outcome_status(outcome),
                started_at: None,
                duration_ms: Some(elapsed(old(self).started_at.unwrap(), now)),
                done: true,
                ..*old(self)
            }),
            !r ==> *final(self) == *old(self),
    {
        match self.status {
            CommandStatus::Running => {
                let start = match self.started_at {
                    Some(s) => s,
                    None => now,
                };
                self.status = match outcome {
                    CommandOutcome::Exited { success, detail } => if success {
                        CommandStatus::Done
                    } else {
                        CommandStatus::Failed(detail)
                    },
                    CommandOutcome::SpawnFailed(e) => CommandStatus::Failed(e),
                    CommandOutcome::TimedOut => CommandStatus::Timeout,
                };
                self.duration_ms = Some(if now >= start { now - start } else { 0 });
                self.started_at = None;
                self.done = true;
                true
            },
            _ => false,
        }
    }

    /// Ends a task that has not ended, because the unit running it is gone:
    /// it fails with `reason`. A running task is charged the time since it
    /// began, a waiting one nothing. A task that has ended is left as it is.
    pub fn abandon(&mut self, reason: String, now: u64) -> (r: bool)
        requires
            old(self).wf(),
        ensures
            final(self).wf(),
            final(self).done,
            r == !old(self).done,
            r ==> *final(self) == (TaskState {
                status: CommandStatus::Failed(reason),
                started_at: None,
                duration_ms: Some(
                    match old(self).started_at {
                        Some(s) => elapsed(s, now),
                        None => 0,
                    },
                ),
                done: true,
                ..*old(self)
            }),
            !r ==> *final(self) == *old(self),
    {
        if self.done {
            return false;
        }
        let d: u64 = match self.started_at {
            Some(s) => if now >= s { now - s } else { 0 },
            None => 0,
        };
        self.status = CommandStatus::Failed(reason);
        self.duration_ms = Some(d);
        self.started_at = None;
        self.done = true;
        true
    }
}

} // verus!
