use crate::pool::{PoolView, TaskPool};
use crate::status::{counts_as_work, is_terminal, status_symbol};
use crate::task::TaskState;
use crate::text::{decimal, decimal_text};
use vstd::prelude::*;

verus! {

/// How often one command ran, and the time its ended runs took.
#[derive(Debug, Clone)]
pub struct CommandStat {
    pub command: String,
    pub count: usize,
    pub total_ms: u128,
}

pub open spec fn average_of(s: CommandStat) -> u128 {
    if s.count > 0 {
        (s.total_ms / (s.count as u128)) as u128
    } else {
        0
    }
}

/// The line that sums up one command.
pub open spec fn summary_of(s: CommandStat) -> Seq<char> {
    s.command@ + ": "@ + decimal(s.count as nat) + " execution(s), total "@ + decimal(
        s.total_ms as nat,
    ) + "ms, avg "@ + decimal(average_of(s) as nat) + "ms"@
}

impl CommandStat {
    /// Mean time per run, rounded down; none for a command that never ran.
    pub fn average_ms(&self) -> (r: u128)
        ensures
            r == average_of(*self),
    {
        if self.count > 0 {
            self.total_ms / (self.count as u128)
        } else {
            0
        }
    }

    /// The line that sums up the command: runs, total and mean time.
    pub fn summary_line(&self) -> (r: String)
        ensures
            r@ == summary_of(*self),
    {
        let mut s = self.command.clone();
        s.append(": ");
        s.append(decimal_text(self.count as u128).as_str());
        s.append(" execution(s), total ");
        s.append(decimal_text(self.total_ms).as_str());
        s.append("ms, avg ");
        s.append(decimal_text(self.average_ms()).as_str());
        s.append("ms");
        s
    }
}

pub open spec fn recorded_ms(t: TaskState) -> nat {
    match t.duration_ms {
        Some(d) => d as nat,
        None => 0,
    }
}

/// Time of a task that counts as work done: that of a task that succeeded
/// or failed. Waiting, running and timed-out tasks count nothing.
pub open spec fn work_ms(t: TaskState) -> nat {
    if counts_as_work(t.status) {
        recorded_ms(t)
    } else {
        0
    }
}

/// Time of a task that has ended; nothing for one still waiting or running.
pub open spec fn ended_ms(t: TaskState) -> nat {
    if is_terminal(t.status) {
        recorded_ms(t)
    } else {
        0
    }
}

pub open spec fn work_time(s: Seq<TaskState>) -> nat
    decreases s.len(),
{
    if s.len() == 0 {
        0
    } else {
        work_time(s.drop_last()) + work_ms(s.last())
    }
}

/// Commands of the tasks, each once, in the order they first appear.
pub open spec fn distinct_commands(s: Seq<TaskState>) -> Seq<Seq<char>>
    decreases s.len(),
{
    if s.len() == 0 {
        Seq::empty()
    } else if distinct_commands(s.drop_last()).contains(s.last().command@) {
        distinct_commands(s.drop_last())
    } else {
        distinct_commands(s.drop_last()).push(s.last().command@)
    }
}

pub open spec fn command_count(s: Seq<TaskState>, c: Seq<char>) -> nat
    decreases s.len(),
{
    if s.len() == 0 {
        0
    } else {
        command_count(s.drop_last(), c) + if s.last().command@ == c {
            1nat
        } else {
            0nat
        }
    }
}

pub open spec fn command_time(s: Seq<TaskState>, c: Seq<char>) -> nat
    decreases s.len(),
{
    if s.len() == 0 {
        0
    } else {
        command_time(s.drop_last(), c) + if s.last().command@ == c {
            ended_ms(s.last())
        } else {
            0nat
        }
    }
}

/// The line that shows a task: its status symbol, file and command, and
/// for a task that succeeded or failed, its duration.
pub open spec fn display_line(t: TaskState) -> Seq<char> {
    status_symbol(t.status) + " "@ + t.filename@ + ": "@ + t.command@ + if counts_as_work(
        t.status,
    ) {
        " - "@ + decimal(recorded_ms(t)) + "ms"@
    } else {
        Seq::empty()
    }
}

proof fn lemma_distinct_commands_unique(s: Seq<TaskState>)
    ensures
        distinct_commands(s).no_duplicates(),
    decreases s.len(),
{
    if s.len() > 0 {
        lemma_distinct_commands_unique(s.drop_last());
    }
}

/// A command absent from the list of distinct commands occurs in no task,
/// and its time is nothing.
proof fn lemma_count_absent(s: Seq<TaskState>, c: Seq<char>)
    requires
        !distinct_commands(s).contains(c),
    ensures
        command_count(s, c) == 0,
        command_time(s, c) == 0,
    decreases s.len(),
{
    if s.len() > 0 {
        let d = distinct_commands(s.drop_last());
        if d.contains(c) {
            let q = choose|q: int| 0 <= q < d.len() && d[q] == c;
            if !d.contains(s.last().command@) {
                assert(distinct_commands(s)[q] == c);
            }
        }
        if s.last().command@ == c {
            if d.contains(c) {
            } else {
                assert(distinct_commands(s)[d.len() as int] == c);
            }
        }
        lemma_count_absent(s.drop_last(), c);
    }
}

proof fn lemma_work_time_bound(s: Seq<TaskState>)
    ensures
        work_time(s) <= s.len() * 0xFFFF_FFFF_FFFF_FFFF,
    decreases s.len(),
{
    if s.len() > 0 {
        lemma_work_time_bound(s.drop_last());
        assert((s.len() - 1) * 0xFFFF_FFFF_FFFF_FFFF + 0xFFFF_FFFF_FFFF_FFFF == s.len() * 0xFFFF_FFFF_FFFF_FFFF) by (nonlinear_arith);
    }
}

proof fn lemma_command_time_bound(s: Seq<TaskState>, c: Seq<char>)
    ensures
        command_time(s, c) <= command_count(s, c) * 0xFFFF_FFFF_FFFF_FFFF,
        command_count(s, c) <= s.len(),
    decreases s.len(),
{
    if s.len() > 0 {
        lemma_command_time_bound(s.drop_last(), c);
        let n = command_count(s.drop_last(), c);
        assert(n * 0xFFFF_FFFF_FFFF_FFFF + 0xFFFF_FFFF_FFFF_FFFF == (n + 1) * 0xFFFF_FFFF_FFFF_FFFF) by (nonlinear_arith);
    }
}

proof fn lemma_product_fits(a: nat, b: nat)
    requires
        a <= 0x1_0000_0000_0000_0000,
        b <= 0xFFFF_FFFF_FFFF_FFFF,
    ensures
        a * b <= 0xFFFF_FFFF_FFFF_FFFF_0000_0000_0000_0000,
{
    assert(a * b <= 0x1_0000_0000_0000_0000 * 0xFFFF_FFFF_FFFF_FFFF) by (nonlinear_arith)
        requires a <= 0x1_0000_0000_0000_0000, b <= 0xFFFF_FFFF_FFFF_FFFF;
}

fn work_ms_of(t: &TaskState) -> (r: u64)
    ensures
        r as nat == work_ms(*t),
{
    if t.status.counts_as_work() {
        match t.duration_ms {
            Some(d) => d,
            None => 0,
        }
    } else {
        0
    }
}

fn ended_ms_of(t: &TaskState) -> (r: u64)
    ensures
        r as nat == ended_ms(*t),
{
    if t.status.is_terminal() {
        match t.duration_ms {
            Some(d) => d,
            None => 0,
        }
    } else {
        0
    }
}

impl TaskPool {
    /// Sum of the durations of tasks that succeeded or failed. Timed-out
    /// runs were abandoned, not completed, and are left out.
    pub fn total_execution_time(&self) -> (r: u128)
        ensures
            r as nat == work_time(self@.tasks),
    {
        let tasks = self.tasks();
        let mut sum: u128 = 0;
        let mut i: usize = 0;
        while i < tasks.len()
            invariant
                i <= tasks.len(),
                tasks@ == self@.tasks,
                sum as nat == work_time(tasks@.take(i as int)),
            decreases tasks.len() - i,
        {
            proof {
                assert(tasks@.take(i as int + 1).drop_last() =~= tasks@.take(i as int));
                lemma_work_time_bound(tasks@.take(i as int + 1));
                lemma_product_fits((i + 1) as nat, 0xFFFF_FFFF_FFFF_FFFF);
            }
            sum = sum + work_ms_of(&tasks[i]) as u128;
            i = i + 1;
        }
        proof {
            assert(tasks@.take(i as int) =~= tasks@);
        }
        sum
    }

    /// Per command, in the order commands first appear: how many tasks run
    /// it, and the summed durations of those that have ended.
    pub fn aggregate_stats(&self) -> (r: Vec<CommandStat>)
        ensures
            r@.len() == distinct_commands(self@.tasks).len(),
            forall|j: int|
                0 <= j < r@.len() ==> {
                    &&& (#[trigger] r@[j]).command@ == distinct_commands(self@.tasks)[j]
                    &&& r@[j].count == command_count(self@.tasks, distinct_commands(self@.tasks)[j])
                    &&& r@[j].total_ms == command_time(self@.tasks, distinct_commands(self@.tasks)[j])
                },
    {
        let tasks = self.tasks();
        let mut r: Vec<CommandStat> = Vec::new();
        let mut i: usize = 0;
        while i < tasks.len()
            invariant
                i <= tasks.len(),
                tasks@ == self@.tasks,
                r@.len() == distinct_commands(tasks@.take(i as int)).len(),
                forall|j: int|
                    0 <= j < r@.len() ==> {
                        &&& (#[trigger] r@[j]).command@ == distinct_commands(tasks@.take(i as int))[j]
                        &&& r@[j].count == command_count(tasks@.take(i as int), r@[j].command@)
                        &&& r@[j].total_ms == command_time(tasks@.take(i as int), r@[j].command@)
                    },
            decreases tasks.len() - i,
        {
            let ghost s = tasks@.take(i as int);
            let ghost s2 = tasks@.take(i as int + 1);
            proof {
                assert(s2.drop_last() =~= s);
                assert(s2.last() == tasks@[i as int]);
            }
            let t = &tasks[i];
            let d = ended_ms_of(t);
            let mut j: usize = 0;
            while j < r.len()
                invariant
                    j <= r@.len(),
                    forall|q: int| 0 <= q < j ==> (#[trigger] r@[q]).command@ != t.command@,
                ensures
                    j <= r@.len(),
                    forall|q: int| 0 <= q < j ==> (#[trigger] r@[q]).command@ != t.command@,
                    j < r@.len() ==> r@[j as int].command@ == t.command@,
                decreases r.len() - j,
            {
                if r[j].command == t.command {
                    break;
                }
                j = j + 1;
            }
            let ghost old_r = r@;
            if j < r.len() {
                proof {
                    lemma_command_time_bound(s2, t.command@);
                    lemma_product_fits(command_count(s2, t.command@), 0xFFFF_FFFF_FFFF_FFFF);
                    assert(distinct_commands(s).contains(t.command@)) by {
                        assert(distinct_commands(s)[j as int] == t.command@);
                    }
                }
                let count = r[j].count + 1;
                let total = r[j].total_ms + d as u128;
                r[j].count = count;
                r[j].total_ms = total;
                proof {
                    assert(s2.last().command@ == t.command@);
                    assert(distinct_commands(s2) == distinct_commands(s));
                    lemma_distinct_commands_unique(s);
                    assert forall|q: int| 0 <= q < r@.len() implies {
                        &&& (#[trigger] r@[q]).command@ == distinct_commands(s2)[q]
                        &&& r@[q].count == command_count(s2, r@[q].command@)
                        &&& r@[q].total_ms == command_time(s2, r@[q].command@)
                    } by {
                        let c = r@[q].command@;
                        assert(command_count(s2, c) == command_count(s, c) + if t.command@ == c { 1nat } else { 0nat });
                        assert(command_time(s2, c) == command_time(s, c) + if t.command@ == c { ended_ms(*t) } else { 0nat });
                        if q != j as int {
                            assert(r@[q] == old_r[q]);
                        } else {
                            assert(r@[q].command@ == old_r[q].command@);
                        }
                    }
                }
            } else {
                proof {
                    assert(!distinct_commands(s).contains(t.command@)) by {
                        if distinct_commands(s).contains(t.command@) {
                            let q = choose|q: int| 0 <= q < distinct_commands(s).len() && distinct_commands(s)[q] == t.command@;
                            assert(old_r[q].command@ == t.command@);
                        }
                    }
                    lemma_command_time_bound(s2, t.command@);
                }
                r.push(CommandStat { command: t.command.clone(), count: 1, total_ms: d as u128 });
                proof {
                    assert(s2.last().command@ == t.command@);
                    assert(distinct_commands(s2) == distinct_commands(s).push(t.command@));
                    lemma_count_absent(s, t.command@);
                    assert forall|q: int| 0 <= q < r@.len() implies {
                        &&& (#[trigger] r@[q]).command@ == distinct_commands(s2)[q]
                        &&& r@[q].count == command_count(s2, r@[q].command@)
                        &&& r@[q].total_ms == command_time(s2, r@[q].command@)
                    } by {
                        let c = r@[q].command@;
                        assert(command_count(s2, c) == command_count(s, c) + if t.command@ == c { 1nat } else { 0nat });
                        assert(command_time(s2, c) == command_time(s, c) + if t.command@ == c { ended_ms(*t) } else { 0nat });
                        if q < old_r.len() {
                            assert(r@[q] == old_r[q]);
                            assert(old_r[q].command@ != t.command@);
                        }
                    }
                }
            }
            i = i + 1;
        }
        proof {
            assert(tasks@.take(i as int) =~= tasks@);
        }
        r
    }

    /// One line per task, in task order, showing its current state.
    pub fn display_lines(&self) -> (r: Vec<String>)
        ensures
            r@.len() == self@.tasks.len(),
            forall|i: int| 0 <= i < r@.len() ==> (#[trigger] r@[i])@ == display_line(self@.tasks[i]),
    {
        let tasks = self.tasks();
        let mut r: Vec<String> = Vec::new();
        let mut i: usize = 0;
        while i < tasks.len()
            invariant
                i <= tasks.len(),
                tasks@ == self@.tasks,
                r@.len() == i,
                forall|q: int| 0 <= q < i ==> (#[trigger] r@[q])@ == display_line(tasks@[q]),
            decreases tasks.len() - i,
        {
            r.push(task_line(&tasks[i]));
            i = i + 1;
        }
        r
    }
}

/// The line that shows one task.
pub fn task_line(t: &TaskState) -> (r: String)
    ensures
        r@ == display_line(*t),
{
    let (symbol, _) = t.status.colored();
    let mut s = String::from_str(symbol);
    s.append(" ");
    s.append(t.filename.as_str());
    s.append(": ");
    s.append(t.command.as_str());
    if t.status.counts_as_work() {
        let d: u64 = match t.duration_ms {
            Some(d) => d,
            None => 0,
        };
        s.append(" - ");
        let digits = decimal_text(d as u128);
        s.append(digits.as_str());
        s.append("ms");
        proof {
            assert(s@ == display_line(*t));
        }
    } else {
        proof {
            assert(s@ =~= display_line(*t));
        }
    }
    s
}

/// The total execution time never depends on the duration recorded for a
/// task that timed out (or has not ended): whatever it holds, the total is
/// the same.
pub proof fn lemma_timeout_never_in_total(s: Seq<TaskState>, i: int, d: Option<u64>)
    requires
        0 <= i < s.len(),
        !counts_as_work(s[i].status),
    ensures
        work_time(s.update(i, TaskState { duration_ms: d, ..s[i] })) == work_time(s),
    decreases s.len(),
{
    let t = s.update(i, TaskState { duration_ms: d, ..s[i] });
    if i < s.len() - 1 {
        assert(t.drop_last() =~= s.drop_last().update(i, TaskState { duration_ms: d, ..s[i] }));
        lemma_timeout_never_in_total(s.drop_last(), i, d);
    } else {
        assert(t.drop_last() =~= s.drop_last());
    }
}

/// A command's summed time never depends on the duration recorded for a
/// task that has not ended.
pub proof fn lemma_unended_never_in_stats(s: Seq<TaskState>, i: int, d: Option<u64>, c: Seq<char>)
    requires
        0 <= i < s.len(),
        !is_terminal(s[i].status),
    ensures
        command_time(s.update(i, TaskState { duration_ms: d, ..s[i] }), c) == command_time(s, c),
        command_count(s.update(i, TaskState { duration_ms: d, ..s[i] }), c) == command_count(s, c),
    decreases s.len(),
{
    let t = s.update(i, TaskState { duration_ms: d, ..s[i] });
    if i < s.len() - 1 {
        assert(t.drop_last() =~= s.drop_last().update(i, TaskState { duration_ms: d, ..s[i] }));
        lemma_unended_never_in_stats(s.drop_last(), i, d, c);
    } else {
        assert(t.drop_last() =~= s.drop_last());
    }
}

/// What `str::to_lowercase` makes of a text.
pub uninterp spec fn lower_of(s: Seq<char>) -> Seq<char>;

/// Relies on str::to_lowercase: the result depends on the characters alone.
#[verifier::external_body]
fn lowercase(s: &str) -> (r: String)
    ensures
        r@ == lower_of(s@),
{
    s.to_lowercase()
}

/// First index at or after `i` where the texts differ or one of them ends.
pub open spec fn first_difference(a: Seq<char>, b: Seq<char>, i: int) -> int
    decreases a.len() - i,
{
    if i < 0 || i >= a.len() || i >= b.len() || a[i] != b[i] {
        i
    } else {
        first_difference(a, b, i + 1)
    }
}

/// `a` comes strictly before `b` in the order of their characters' code
/// points, a proper prefix first: the order of `String`'s `Ord`.
pub open spec fn text_less(a: Seq<char>, b: Seq<char>) -> bool {
    let k = first_difference(a, b, 0);
    if k >= a.len() {
        k < b.len()
    } else if k >= b.len() {
        false
    } else {
        (a[k] as u32) < (b[k] as u32)
    }
}

/// Position at which an entry with key `k` goes among sorted entries: after
/// every entry whose key is not greater, so that equal keys keep their order.
pub open spec fn insert_at(sorted: Seq<(Seq<char>, Seq<char>)>, k: Seq<char>, j: int) -> int
    decreases sorted.len() - j,
{
    if j < 0 || j >= sorted.len() {
        sorted.len() as int
    } else if text_less(k, sorted[j].0) {
        j
    } else {
        insert_at(sorted, k, j + 1)
    }
}

/// The first `n` entries, (key, line), in stable order of their keys.
pub open spec fn sort_entries(entries: Seq<(Seq<char>, Seq<char>)>, n: int) -> Seq<(Seq<char>, Seq<char>)>
    decreases n,
{
    if n <= 0 {
        Seq::empty()
    } else {
        let sorted = sort_entries(entries, n - 1);
        sorted.insert(insert_at(sorted, entries[n - 1].0, 0), entries[n - 1])
    }
}

/// Each command's summary with its lowercase form as the sort key.
pub open spec fn summary_entries(stats: Seq<CommandStat>) -> Seq<(Seq<char>, Seq<char>)> {
    stats.map_values(|s: CommandStat| (lower_of(summary_of(s)), summary_of(s)))
}

pub proof fn lemma_insert_at(sorted: Seq<(Seq<char>, Seq<char>)>, k: Seq<char>, j: int)
    requires
        0 <= j <= sorted.len(),
    ensures
        j <= insert_at(sorted, k, j) <= sorted.len(),
    decreases sorted.len() - j,
{
    if j < sorted.len() && !text_less(k, sorted[j].0) {
        lemma_insert_at(sorted, k, j + 1);
    }
}

proof fn lemma_first_difference(a: Seq<char>, b: Seq<char>, i: int)
    requires
        0 <= i <= a.len(),
        i <= b.len(),
    ensures
        i <= first_difference(a, b, i),
        first_difference(a, b, i) <= a.len(),
        first_difference(a, b, i) <= b.len(),
        forall|m: int| i <= m < first_difference(a, b, i) ==> a[m] == b[m],
        first_difference(a, b, i) < a.len() && first_difference(a, b, i) < b.len() ==> a[first_difference(a, b, i)]
            != b[first_difference(a, b, i)],
    decreases a.len() - i,
{
    if i < a.len() && i < b.len() && a[i] == b[i] {
        lemma_first_difference(a, b, i + 1);
    }
}

proof fn lemma_text_less_irreflexive(a: Seq<char>)
    ensures
        !text_less(a, a),
{
    lemma_first_difference(a, a, 0);
}

proof fn lemma_text_less_transitive(a: Seq<char>, b: Seq<char>, c: Seq<char>)
    requires
        text_less(a, b),
        text_less(b, c),
    ensures
        text_less(a, c),
{
    lemma_first_difference(a, b, 0);
    lemma_first_difference(b, c, 0);
    lemma_first_difference(a, c, 0);
    let p = first_difference(a, b, 0);
    let q = first_difference(b, c, 0);
    let r = first_difference(a, c, 0);
    let m = if p < q { p } else { q };
    assert forall|k: int| 0 <= k < m implies a[k] == c[k] by {
        assert(a[k] == b[k]);
        assert(b[k] == c[k]);
    }
    if r < m {
        assert(a[r] == c[r]);
    }
    if p < q {
        if p < a.len() {
            assert(b[p] == c[p]);
        }
    } else if q < p {
        assert(a[q] == b[q]);
    }
}

/// Entries in stable key order have keys that never decrease.
pub open spec fn keys_ordered(s: Seq<(Seq<char>, Seq<char>)>) -> bool {
    forall|i: int, j: int| 0 <= i < j < s.len() ==> !text_less(#[trigger] s[j].0, #[trigger] s[i].0)
}

proof fn lemma_insert_at_bounds(sorted: Seq<(Seq<char>, Seq<char>)>, k: Seq<char>, j: int)
    requires
        0 <= j <= sorted.len(),
    ensures
        forall|i: int| j <= i < insert_at(sorted, k, j) ==> !text_less(k, #[trigger] sorted[i].0),
        insert_at(sorted, k, j) < sorted.len() ==> text_less(k, sorted[insert_at(sorted, k, j)].0),
    decreases sorted.len() - j,
{
    if j < sorted.len() && !text_less(k, sorted[j].0) {
        lemma_insert_at_bounds(sorted, k, j + 1);
    }
}

/// Sorting leaves the keys in order.
pub proof fn lemma_sort_entries_ordered(entries: Seq<(Seq<char>, Seq<char>)>, n: int)
    requires
        0 <= n <= entries.len(),
    ensures
        sort_entries(entries, n).len() == n,
        keys_ordered(sort_entries(entries, n)),
    decreases n,
{
    if n > 0 {
        lemma_sort_entries_ordered(entries, n - 1);
        let s = sort_entries(entries, n - 1);
        let x = entries[n - 1];
        let k = x.0;
        lemma_insert_at(s, k, 0);
        lemma_insert_at_bounds(s, k, 0);
        let p = insert_at(s, k, 0);
        let t = s.insert(p, x);
        assert forall|i: int, j: int| 0 <= i < j < t.len() implies !text_less(#[trigger] t[j].0, #[trigger] t[i].0) by {
            if j < p {
                assert(t[i] == s[i] && t[j] == s[j]);
            } else if j == p {
                assert(t[i] == s[i]);
            } else if i > p {
                assert(t[i] == s[i - 1] && t[j] == s[j - 1]);
            } else {
                assert(t[j] == s[j - 1]);
                let e = s[j - 1].0;
                if i < p {
                    assert(t[i] == s[i]);
                } else {
                    assert(t[i] == x);
                    if text_less(e, k) {
                        lemma_text_less_transitive(e, k, s[p].0);
                        if j - 1 == p {
                            lemma_text_less_irreflexive(e);
                        }
                    }
                }
            }
        }
    }
}

fn text_less_exec(a: &str, b: &str) -> (r: bool)
    ensures
        r == text_less(a@, b@),
{
    let la = a.unicode_len();
    let lb = b.unicode_len();
    let mut i: usize = 0;
    while i < la && i < lb && a.get_char(i) == b.get_char(i)
        invariant
            la == a@.len(),
            lb == b@.len(),
            i <= la,
            i <= lb,
            first_difference(a@, b@, i as int) == first_difference(a@, b@, 0),
        decreases la - i,
    {
        i = i + 1;
    }
    if i >= la {
        i < lb
    } else if i >= lb {
        false
    } else {
        (a.get_char(i) as u32) < (b.get_char(i) as u32)
    }
}

pub open spec fn entry_views(s: Seq<(String, String)>) -> Seq<(Seq<char>, Seq<char>)> {
    s.map_values(|e: (String, String)| (e.0@, e.1@))
}

/// The lines of (key, line) entries, ordered by key; lines with equal keys
/// keep their order.
pub fn sort_by_keys(entries: &Vec<(String, String)>) -> (r: Vec<String>)
    ensures
        r@.len() == entries@.len(),
        forall|i: int| 0 <= i < r@.len() ==> (#[trigger] r@[i])@ == sort_entries(entry_views(entries@), entries@.len() as int)[i].1,
        keys_ordered(sort_entries(entry_views(entries@), entries@.len() as int)),
{
    proof {
        lemma_sort_entries_ordered(entry_views(entries@), entries@.len() as int);
    }
    let ghost all = entry_views(entries@);
    let mut keys: Vec<String> = Vec::new();
    let mut lines: Vec<String> = Vec::new();
    let mut n: usize = 0;
    while n < entries.len()
        invariant
            n <= entries@.len(),
            all == entry_views(entries@),
            keys@.len() == n,
            lines@.len() == n,
            forall|i: int| 0 <= i < n ==> (#[trigger] keys@[i])@ == sort_entries(all, n as int)[i].0,
            forall|i: int| 0 <= i < n ==> (#[trigger] lines@[i])@ == sort_entries(all, n as int)[i].1,
            sort_entries(all, n as int).len() == n,
        decreases entries.len() - n,
    {
        let key = entries[n].0.clone();
        let line = entries[n].1.clone();
        let ghost sorted = sort_entries(all, n as int);
        proof {
            assert(all[n as int] == (key@, line@));
            lemma_insert_at(sorted, key@, 0);
        }
        let mut j: usize = 0;
        while j < keys.len() && !text_less_exec(key.as_str(), keys[j].as_str())
            invariant
                j <= keys@.len(),
                keys@.len() == n,
                sorted.len() == n,
                forall|i: int| 0 <= i < n ==> (#[trigger] keys@[i])@ == sorted[i].0,
                insert_at(sorted, key@, j as int) == insert_at(sorted, key@, 0),
            decreases keys.len() - j,
        {
            j = j + 1;
        }
        proof {
            if j < n {
                assert(text_less(key@, sorted[j as int].0));
            }
            assert(insert_at(sorted, key@, j as int) == j);
        }
        let ghost old_keys = keys@;
        let ghost old_lines = lines@;
        keys.insert(j, key);
        lines.insert(j, line);
        proof {
            let next = sort_entries(all, n as int + 1);
            assert(next == sorted.insert(j as int, all[n as int]));
            assert forall|i: int| 0 <= i < n + 1 implies (#[trigger] keys@[i])@ == next[i].0
                && lines@[i]@ == next[i].1 by {
                if i < j {
                    assert(keys@[i] == old_keys[i]);
                    assert(lines@[i] == old_lines[i]);
                } else if i > j {
                    assert(keys@[i] == old_keys[i - 1]);
                    assert(lines@[i] == old_lines[i - 1]);
                }
            }
        }
        n = n + 1;
    }
    lines
}

/// The summaries of the commands, ordered by their lowercase form; lines
/// with the same lowercase form keep their order.
pub fn sorted_summaries(stats: &Vec<CommandStat>) -> (r: Vec<String>)
    ensures
        r@.len() == stats@.len(),
        forall|i: int| 0 <= i < r@.len() ==> (#[trigger] r@[i])@ == sort_entries(summary_entries(stats@), stats@.len() as int)[i].1,
        keys_ordered(sort_entries(summary_entries(stats@), stats@.len() as int)),
{
    proof {
        lemma_sort_entries_ordered(summary_entries(stats@), stats@.len() as int);
    }
    let mut entries: Vec<(String, String)> = Vec::new();
    let mut i: usize = 0;
    while i < stats.len()
        invariant
            i <= stats@.len(),
            entries@.len() == i,
            entry_views(entries@) == summary_entries(stats@).take(i as int),
        decreases stats.len() - i,
    {
        let line = stats[i].summary_line();
        let key = lowercase(line.as_str());
        proof {
            assert(summary_entries(stats@)[i as int] == (key@, line@));
        }
        let ghost before = entries@;
        let ghost added = (key@, line@);
        entries.push((key, line));
        proof {
            assert forall|k: int| 0 <= k < i + 1 implies #[trigger] entry_views(entries@)[k]
                == summary_entries(stats@).take(i as int + 1)[k] by {
                if k < i {
                    assert(entries@[k] == before[k]);
                    assert(entry_views(before)[k] == summary_entries(stats@).take(i as int)[k]);
                } else {
                    assert(entry_views(entries@)[k] == added);
                }
            }
            assert(entry_views(entries@) =~= summary_entries(stats@).take(i as int + 1));
        }
        i = i + 1;
    }
    proof {
        assert(summary_entries(stats@).take(i as int) =~= summary_entries(stats@));
    }
    sort_by_keys(&entries)
}

/// Reads are idempotent: what `total_execution_time`, `aggregate_stats`
/// and `display_lines` return is fixed by the tasks alone, so two reads with
/// no change of the tasks in between agree.
pub proof fn lemma_reads_idempotent(first: PoolView, second: PoolView)
    requires
        first.tasks == second.tasks,
    ensures
        work_time(first.tasks) == work_time(second.tasks),
        distinct_commands(first.tasks) == distinct_commands(second.tasks),
        forall|c: Seq<char>|
            command_count(first.tasks, c) == command_count(second.tasks, c) && #[trigger] command_time(
                first.tasks,
                c,
            ) == command_time(second.tasks, c),
        forall|i: int|
            0 <= i < first.tasks.len() ==> #[trigger] display_line(first.tasks[i]) == display_line(
                second.tasks[i],
            ),
{
}

} // verus!
