use crate::pool::TaskPool;
use crate::report::{command_count, command_time, display_line, distinct_commands, recorded_ms, work_time, CommandStat};
use crate::status::{status_color, StatusColor};
use crate::task::TaskState;
use crate::text::{decimal, decimal_text};
use vstd::prelude::*;

verus! {

/// What the progress view shows at one moment.
#[derive(Debug)]
pub struct StateModel {
    pub running: bool,
    pub total_execution_time: u128,
    pub elapsed_time: u128,
    pub command_stats: Vec<CommandStat>,
    /// Per task: its line, the colour of its status, and its duration.
    pub command_lines: Vec<(String, StatusColor, u128)>,
    pub total_files: usize,
    pub statuses_count: usize,
    pub is_empty: bool,
}

/// A key as the progress view sees it.
#[derive(Debug, Clone, Copy, PartialEq, Eq, Structural)]
pub enum KeyCode {
    Esc,
    Char(char),
    Other,
}

/// A key press, and whether Control was held.
#[derive(Debug, Clone, Copy, PartialEq, Eq, Structural)]
pub struct KeyPress {
    pub code: KeyCode,
    pub control: bool,
}

/// Escape, `q`, and Control with `c` end the view.
pub open spec fn is_quit_key(k: KeyPress) -> bool {
    match k.code {
        KeyCode::Esc => true,
        KeyCode::Char(c) => c == 'q' || ((c == 'c' || c == 'C') && k.control),
        KeyCode::Other => false,
    }
}

/// The state of the progress view: whether it runs, what it shows, the
/// pool it watches, when it started, and the files being checked.
#[derive(Debug)]
pub struct App {
    pub running: bool,
    pub model: StateModel,
    pub task_pool: TaskPool,
    pub start_time: Option<u64>,
    pub changed_files: Vec<String>,
}

/// The stats entries match the per-command statistics of the tasks.
pub open spec fn stats_match(r: Seq<CommandStat>, tasks: Seq<TaskState>) -> bool {
    &&& r.len() == distinct_commands(tasks).len()
    &&& forall|j: int|
        0 <= j < r.len() ==> {
            &&& (#[trigger] r[j]).command@ == distinct_commands(tasks)[j]
            &&& r[j].count == command_count(tasks, distinct_commands(tasks)[j])
            &&& r[j].total_ms == command_time(tasks, distinct_commands(tasks)[j])
        }
}

/// The lines match the tasks: the shown line, the status colour, and the
/// recorded duration of each.
pub open spec fn lines_match(r: Seq<(String, StatusColor, u128)>, tasks: Seq<TaskState>) -> bool {
    &&& r.len() == tasks.len()
    &&& forall|i: int|
        0 <= i < r.len() ==> {
            &&& (#[trigger] r[i]).0@ == display_line(tasks[i])
            &&& r[i].1 == status_color(tasks[i].status)
            &&& r[i].2 as nat == recorded_ms(tasks[i])
        }
}

fn command_lines(pool: &TaskPool) -> (r: Vec<(String, StatusColor, u128)>)
    ensures
        lines_match(r@, pool@.tasks),
{
    let lines = pool.display_lines();
    let tasks = pool.tasks();
    let mut r: Vec<(String, StatusColor, u128)> = Vec::new();
    let mut lines = lines;
    let ghost all = lines@;
    let mut i: usize = 0;
    while i < tasks.len()
        invariant
            tasks@ == pool@.tasks,
            all.len() == tasks@.len(),
            forall|q: int| 0 <= q < all.len() ==> (#[trigger] all[q])@ == display_line(tasks@[q]),
            i <= tasks@.len(),
            lines@ == all.subrange(i as int, all.len() as int),
            r@.len() == i,
            forall|q: int|
                0 <= q < i ==> {
                    &&& (#[trigger] r@[q]).0@ == display_line(tasks@[q])
                    &&& r@[q].1 == status_color(tasks@[q].status)
                    &&& r@[q].2 as nat == recorded_ms(tasks@[q])
                },
        decreases tasks.len() - i,
    {
        let line = lines.remove(0);
        let t = &tasks[i];
        let (_, color) = t.status.colored();
        let d: u64 = match t.duration_ms {
            Some(d) => d,
            None => 0,
        };
        r.push((line, color, d as u128));
        proof {
            assert(lines@ =~= all.subrange(i as int + 1, all.len() as int));
        }
        i = i + 1;
    }
    r
}

/// The heading: how many tasks run, for how many files.
pub open spec fn title_of(m: StateModel) -> Seq<char> {
    "Running "@ + decimal(m.statuses_count as nat) + " tasks for "@ + decimal(m.total_files as nat)
        + " file(s)..."@
}

/// The line with the summed and the elapsed time.
pub open spec fn times_of(m: StateModel) -> Seq<char> {
    "Total execution time: "@ + decimal(m.total_execution_time as nat) + "ms | Elapsed: "@
        + decimal(m.elapsed_time as nat) + "ms"@
}

impl StateModel {
    pub fn title_text(&self) -> (r: String)
        ensures
            r@ == title_of(*self),
    {
        let mut s = String::from_str("Running ");
        s.append(decimal_text(self.statuses_count as u128).as_str());
        s.append(" tasks for ");
        s.append(decimal_text(self.total_files as u128).as_str());
        s.append(" file(s)...");
        s
    }

    pub fn times_text(&self) -> (r: String)
        ensures
            r@ == times_of(*self),
    {
        let mut s = String::from_str("Total execution time: ");
        s.append(decimal_text(self.total_execution_time).as_str());
        s.append("ms | Elapsed: ");
        s.append(decimal_text(self.elapsed_time).as_str());
        s.append("ms");
        s
    }

    /// An empty view: nothing running, nothing to show.
    pub fn new() -> (r: StateModel)
        ensures
            !r.running,
            r.total_execution_time == 0,
            r.elapsed_time == 0,
            r.command_stats@.len() == 0,
            r.command_lines@.len() == 0,
            r.total_files == 0,
            r.statuses_count == 0,
            !r.is_empty,
    {
        StateModel {
            running: false,
            total_execution_time: 0,
            elapsed_time: 0,
            command_stats: Vec::new(),
            command_lines: Vec::new(),
            total_files: 0,
            statuses_count: 0,
            is_empty: false,
        }
    }
}

impl App {
    /// A view that has not started, watching an empty pool.
    pub fn new() -> (r: App)
        ensures
            !r.running,
            !r.model.running,
            r.task_pool.wf(),
            r.task_pool@.tasks.len() == 0,
            r.task_pool@.outstanding == 0,
            r.start_time.is_none(),
            r.changed_files@.len() == 0,
    {
        App {
            running: false,
            start_time: None,
            changed_files: Vec::new(),
            model: StateModel::new(),
            task_pool: TaskPool::new(),
        }
    }

    /// Starts the view at `now` for the given files.
    pub fn start(&mut self, changed_files: Vec<String>, now: u64)
        ensures
            final(self).running,
            final(self).model.running,
            final(self).start_time == Some(now),
            final(self).changed_files@ == changed_files@,
            final(self).task_pool == old(self).task_pool,
    {
        self.running = true;
        self.model.running = true;
        self.start_time = Some(now);
        self.changed_files = changed_files;
    }

    /// Brings the shown state up to date with the pool at `now`. The elapsed
    /// time stops moving once every unit has been joined.
    pub fn refresh(&mut self, now: u64)
        ensures
            final(self).task_pool == old(self).task_pool,
            final(self).running == old(self).running,
            final(self).start_time == old(self).start_time,
            final(self).changed_files == old(self).changed_files,
            final(self).model.running == old(self).model.running,
            stats_match(final(self).model.command_stats@, old(self).task_pool@.tasks),
            lines_match(final(self).model.command_lines@, old(self).task_pool@.tasks),
            final(self).model.is_empty == (old(self).task_pool@.tasks.len() == 0),
            final(self).model.total_files == old(self).changed_files@.len(),
            final(self).model.total_execution_time as nat == work_time(old(self).task_pool@.tasks),
            final(self).model.statuses_count == old(self).task_pool@.tasks.len(),
            final(self).model.elapsed_time == if old(self).task_pool@.outstanding == 0 {
                old(self).model.elapsed_time
            } else {
                match old(self).start_time {
                    Some(s) => if now >= s { (now - s) as u128 } else { 0 },
                    None => 0,
                }
            },
    {
        let done = self.task_pool.is_complete();
        self.model.command_stats = self.task_pool.aggregate_stats();
        self.model.command_lines = command_lines(&self.task_pool);
        self.model.is_empty = self.task_pool.is_empty();
        self.model.total_files = self.changed_files.len();
        self.model.total_execution_time = self.task_pool.total_execution_time();
        self.model.statuses_count = self.task_pool.tasks().len();
        if !done {
            let start = match self.start_time {
                Some(s) => s,
                None => now,
            };
            self.model.elapsed_time = if now >= start { (now - start) as u128 } else { 0 };
        }
    }

    /// Ends the view on Escape, `q`, or Control-C; other keys change nothing.
    pub fn handle_key_events(&mut self, key: KeyPress) -> (r: bool)
        ensures
            r == is_quit_key(key),
            r ==> !final(self).running && !final(self).model.running,
            !r ==> final(self).running == old(self).running && final(self).model.running
                == old(self).model.running,
            final(self).task_pool == old(self).task_pool,
    {
        let quit = match key.code {
            KeyCode::Esc => true,
            KeyCode::Char(c) => c == 'q' || ((c == 'c' || c == 'C') && key.control),
            KeyCode::Other => false,
        };
        if quit {
            self.quit();
        }
        quit
    }

    /// Stops the view.
    pub fn quit(&mut self)
        ensures
            !final(self).running,
            !final(self).model.running,
            final(self).task_pool == old(self).task_pool,
            final(self).start_time == old(self).start_time,
    {
        self.running = false;
        self.model.running = false;
    }
}

} // verus!
