use crate::config::ExecutionOrder;
use crate::file::FileCommand;
use crate::plan::{
    group_lead, group_policy, lemma_group_lead, lemma_members,
    lemma_members_position, lemma_planned_origin, lemma_planned_prefix, members, planned_units,
    predecessor, unit_index, unit_opened_by,
};
use crate::status::{is_terminal, CommandStatus};
use crate::task::{elapsed, fresh_task, outcome_status, CommandOutcome, TaskState};
use vstd::prelude::*;

verus! {

/// What runs as one spawned unit: a single task of a parallel group, or the
/// tasks of a sequential group, one after another.
#[derive(Debug)]
pub struct ExecutionUnit {
    pub order: ExecutionOrder,
    pub tasks: Vec<usize>,
}

/// The tasks of one run, the units they run in, and how many units have not
/// yet been joined.
#[derive(Debug)]
pub struct TaskPool {
    tasks: Vec<TaskState>,
    units: Vec<ExecutionUnit>,
    joined: Vec<bool>,
    after: Vec<Option<usize>>,
    outstanding: usize,
}

/// The pool as a value: its tasks; each unit's policy and task indices;
/// which units have been joined; for each task, the task that must end
/// before it starts; and the number of units not yet joined.
pub struct PoolView {
    pub tasks: Seq<TaskState>,
    pub units: Seq<(ExecutionOrder, Seq<usize>)>,
    pub joined: Seq<bool>,
    pub after: Seq<Option<usize>>,
    pub outstanding: nat,
}

pub open spec fn unit_views(s: Seq<ExecutionUnit>) -> Seq<(ExecutionOrder, Seq<usize>)> {
    s.map_values(|u: ExecutionUnit| (u.order, u.tasks@))
}

/// Number of units not yet joined.
pub open spec fn count_unjoined(s: Seq<bool>) -> nat
    decreases s.len(),
{
    if s.len() == 0 {
        0
    } else {
        count_unjoined(s.drop_last()) + if s.last() {
            0nat
        } else {
            1nat
        }
    }
}

/// `b` began only after `a` had ended: `a` began strictly earlier, and its
/// duration ran out no later than `b` began.
pub open spec fn launched_after(a: TaskState, b: TaskState) -> bool {
    b.launched_at.is_some() ==> {
        &&& a.done
        &&& a.launched_at.is_some()
        &&& a.duration_ms.is_some()
        &&& a.launched_at.unwrap() < b.launched_at.unwrap()
        &&& a.launched_at.unwrap() + a.duration_ms.unwrap() <= b.launched_at.unwrap()
    }
}

impl View for TaskPool {
    type V = PoolView;

    closed spec fn view(&self) -> PoolView {
        PoolView {
            tasks: self.tasks@,
            units: unit_views(self.units@),
            joined: self.joined@,
            after: self.after@,
            outstanding: self.outstanding as nat,
        }
    }
}

impl PoolView {
    pub open spec fn in_some_unit(&self, i: int) -> bool {
        exists|u: int| 0 <= u < self.units.len() && (#[trigger] self.units[u].1).contains(i as usize)
    }

    /// The invariant of a pool: tasks are well formed; units name tasks of
    /// the pool and every task lies in a unit; the tasks of a sequential
    /// unit each wait for the one before; a task begins only after the one
    /// it waits for ended; joined units hold only ended tasks; and the count
    /// of outstanding units is the number not joined.
    pub open spec fn wf(&self) -> bool {
        &&& self.tasks.len() <= usize::MAX
        &&& self.after.len() == self.tasks.len()
        &&& self.joined.len() == self.units.len()
        &&& self.outstanding == count_unjoined(self.joined)
        &&& forall|i: int| 0 <= i < self.tasks.len() ==> (#[trigger] self.tasks[i]).wf()
        &&& forall|u: int, k: int|
            0 <= u < self.units.len() && 0 <= k < self.units[u].1.len() ==> (
            #[trigger] self.units[u].1[k]) < self.tasks.len()
        &&& forall|i: int| 0 <= i < self.tasks.len() ==> #[trigger] self.in_some_unit(i)
        &&& forall|u: int, k: int|
            0 <= u < self.units.len() && self.units[u].0 == ExecutionOrder::Sequential && 0 <= k
                && k + 1 < self.units[u].1.len() ==> self.after[#[trigger] self.units[u].1[k + 1] as int]
                == Some(self.units[u].1[k])
        &&& forall|i: int|
            0 <= i < self.tasks.len() && (#[trigger] self.after[i]).is_some() ==> {
                &&& self.after[i].unwrap() < self.tasks.len()
                &&& launched_after(self.tasks[self.after[i].unwrap() as int], self.tasks[i])
            }
        &&& forall|u: int, k: int|
            0 <= u < self.units.len() && self.joined[u] && 0 <= k < self.units[u].1.len()
                ==> self.tasks[#[trigger] self.units[u].1[k] as int].done
    }
}

/// The pool that a list of file commands starts as: one waiting task per
/// command, in the same order, and the units their groups call for, none
/// joined yet.
pub open spec fn planned_pool(items: Seq<FileCommand>) -> PoolView {
    PoolView {
        tasks: items.map_values(|c: FileCommand| fresh_task(c)),
        units: planned_units(items, items.len() as int),
        joined: Seq::new(planned_units(items, items.len() as int).len(), |u: int| false),
        after: Seq::new(items.len(), |i: int| predecessor(items, i)),
        outstanding: planned_units(items, items.len() as int).len(),
    }
}

pub proof fn lemma_count_unjoined_none(s: Seq<bool>)
    requires
        forall|u: int| 0 <= u < s.len() ==> !s[u],
    ensures
        count_unjoined(s) == s.len(),
    decreases s.len(),
{
    if s.len() > 0 {
        lemma_count_unjoined_none(s.drop_last());
    }
}

pub proof fn lemma_count_unjoined_join(s: Seq<bool>, u: int)
    requires
        0 <= u < s.len(),
        !s[u],
    ensures
        count_unjoined(s.update(u, true)) + 1 == count_unjoined(s),
    decreases s.len(),
{
    let t = s.update(u, true);
    if u < s.len() - 1 {
        assert(t.drop_last() =~= s.drop_last().update(u, true));
        lemma_count_unjoined_join(s.drop_last(), u);
    } else {
        assert(t.drop_last() =~= s.drop_last());
    }
}

pub proof fn lemma_count_unjoined_zero(s: Seq<bool>, u: int)
    requires
        count_unjoined(s) == 0,
        0 <= u < s.len(),
    ensures
        s[u],
    decreases s.len(),
{
    if u < s.len() - 1 {
        lemma_count_unjoined_zero(s.drop_last(), u);
    }
}

pub proof fn lemma_planned_pool_wf(items: Seq<FileCommand>)
    requires
        items.len() <= usize::MAX,
    ensures
        planned_pool(items).wf(),
{
    let n = items.len() as int;
    let v = planned_pool(items);
    let units = planned_units(items, n);
    lemma_count_unjoined_none(v.joined);
    assert forall|i: int| 0 <= i < v.tasks.len() implies (#[trigger] v.tasks[i]).wf() by {}
    assert forall|u: int, k: int| 0 <= u < v.units.len() && 0 <= k < v.units[u].1.len() implies (
    #[trigger] v.units[u].1[k]) < v.tasks.len() by {
        lemma_planned_origin(items, n, u);
        let l = choose|l: int|
            0 <= l < n && planned_units(items, l).len() == u && unit_opened_by(items, l) == Some(
                units[u],
            );
        lemma_members(items, items[l].group_name@, n);
    }
    assert forall|i: int| 0 <= i < v.tasks.len() implies #[trigger] v.in_some_unit(i) by {
        lemma_group_lead(items, i);
        let l = group_lead(items, i);
        let w = unit_index(items, i);
        if group_policy(items, i) == ExecutionOrder::Parallel {
            lemma_planned_prefix(items, i + 1, n);
            assert(units[w].1 == seq![i as usize]);
            assert(units[w].1[0] == i as usize);
        } else {
            assert(group_lead(items, l) == l);
            lemma_planned_prefix(items, l + 1, n);
            lemma_members(items, items[i].group_name@, n);
            assert(units[w].1 == members(items, items[i].group_name@, n));
        }
    }
    assert forall|u: int, k: int|
        0 <= u < v.units.len() && v.units[u].0 == ExecutionOrder::Sequential && 0 <= k && k + 1
            < v.units[u].1.len() implies v.after[#[trigger] v.units[u].1[k + 1] as int] == Some(
        v.units[u].1[k],
    ) by {
        lemma_planned_origin(items, n, u);
        let l = choose|l: int|
            0 <= l < n && planned_units(items, l).len() == u && unit_opened_by(items, l) == Some(
                units[u],
            );
        let g = items[l].group_name@;
        let mm = members(items, g, n);
        lemma_members(items, g, n);
        let b = mm[k + 1] as int;
        lemma_group_lead(items, l);
        lemma_group_lead(items, b);
        assert(group_lead(items, b) == l);
        assert(mm[k] < mm[k + 1]);
        lemma_members_position(items, g, n, k + 1);
        assert(members(items, g, b).last() == mm[k]);
    }
    assert forall|i: int| 0 <= i < v.tasks.len() && (#[trigger] v.after[i]).is_some() implies {
        &&& v.after[i].unwrap() < v.tasks.len()
        &&& launched_after(v.tasks[v.after[i].unwrap() as int], v.tasks[i])
    } by {
        lemma_group_lead(items, i);
        lemma_members(items, items[i].group_name@, i);
        let ms = members(items, items[i].group_name@, i);
        assert(ms.contains(group_lead(items, i) as usize));
        assert(ms[ms.len() - 1] < i);
    }
}

/// Task `i` may start at `now`: it is waiting, and the task it waits for,
/// if any, has ended, began before `now`, and ran out by `now`.
pub open spec fn may_start(v: PoolView, i: int, now: u64) -> bool {
    &&& 0 <= i < v.tasks.len()
    &&& v.tasks[i].status == CommandStatus::Waiting
    &&& match v.after[i] {
        None => true,
        Some(a) => {
            &&& 0 <= a < v.tasks.len()
            &&& v.tasks[a as int].done
            &&& v.tasks[a as int].launched_at.is_some()
            &&& v.tasks[a as int].duration_ms.is_some()
            &&& v.tasks[a as int].launched_at.unwrap() < now
            &&& v.tasks[a as int].launched_at.unwrap() + v.tasks[a as int].duration_ms.unwrap() <= now
        },
    }
}

pub open spec fn started(t: TaskState, now: u64) -> TaskState {
    TaskState { status: CommandStatus::Running, started_at: Some(now), launched_at: Some(now), ..t }
}

pub open spec fn completed(t: TaskState, outcome: CommandOutcome, now: u64) -> TaskState {
    TaskState {
        status: outcome_status(outcome),
        started_at: None,
        duration_ms: Some(elapsed(t.started_at.unwrap(), now)),
        done: true,
        ..t
    }
}

/// How a task stands after its unit was joined: an ended task as it was;
/// any other failed with the reason that its unit is gone, charged the time
/// since it began, if it had begun.
pub open spec fn settled_on_join(a: TaskState, b: TaskState, now: u64) -> bool {
    if a.done {
        b == a
    } else {
        &&& match b.status {
            CommandStatus::Failed(s) => s@ == unit_gone_reason(),
            _ => false,
        }
        &&& b == (TaskState {
            status: b.status,
            started_at: None,
            duration_ms: Some(
                match a.started_at {
                    Some(s) => elapsed(s, now),
                    None => 0,
                },
            ),
            done: true,
            ..a
        })
    }
}

/// The text with which the tasks of a unit that ended early are failed.
pub open spec fn unit_gone_reason() -> Seq<char> {
    "execution unit ended before the command finished"@
}

/// A change of tasks that touches only tasks that had not ended, keeps when
/// each began, and leaves every task well formed, keeps the invariant.
pub proof fn lemma_settling_keeps_wf(old: PoolView, new: PoolView)
    requires
        old.wf(),
        new.units == old.units,
        new.after == old.after,
        new.tasks.len() == old.tasks.len(),
        new.joined.len() == old.joined.len(),
        new.outstanding == count_unjoined(new.joined),
        forall|i: int| 0 <= i < new.tasks.len() ==> (#[trigger] new.tasks[i]).wf(),
        forall|i: int| 0 <= i < new.tasks.len() && old.tasks[i].done ==> #[trigger] new.tasks[i] == old.tasks[i],
        forall|i: int| 0 <= i < new.tasks.len() ==> (#[trigger] new.tasks[i]).launched_at == old.tasks[i].launched_at,
        forall|u: int, k: int|
            0 <= u < new.units.len() && new.joined[u] && 0 <= k < new.units[u].1.len()
                ==> new.tasks[#[trigger] new.units[u].1[k] as int].done,
    ensures
        new.wf(),
{
    assert forall|i: int| 0 <= i < new.tasks.len() implies #[trigger] new.in_some_unit(i) by {
        assert(old.in_some_unit(i));
    }
    assert forall|i: int| 0 <= i < new.tasks.len() && (#[trigger] new.after[i]).is_some() implies {
        &&& new.after[i].unwrap() < new.tasks.len()
        &&& launched_after(new.tasks[new.after[i].unwrap() as int], new.tasks[i])
    } by {
        assert(old.after[i].is_some());
        let a = new.after[i].unwrap() as int;
        assert(new.tasks[i].launched_at == old.tasks[i].launched_at);
        if old.tasks[i].launched_at.is_some() {
            assert(old.tasks[a].done);
            assert(new.tasks[a] == old.tasks[a]);
        }
    }
}

fn same_group(a: &FileCommand, b: &FileCommand) -> (r: bool)
    ensures
        r == (a.group_name@ == b.group_name@),
{
    a.group_name == b.group_name
}

/// Indices of all items in the group of item `i`.
fn group_members(items: &Vec<FileCommand>, i: usize) -> (r: Vec<usize>)
    requires
        i < items.len(),
    ensures
        r@ == members(items@, items@[i as int].group_name@, items.len() as int),
{
    let mut r: Vec<usize> = Vec::new();
    let mut m: usize = 0;
    while m < items.len()
        invariant
            m <= items.len(),
            i < items.len(),
            r@ == members(items@, items@[i as int].group_name@, m as int),
        decreases items.len() - m,
    {
        if same_group(&items[m], &items[i]) {
            r.push(m);
        }
        m = m + 1;
    }
    r
}

/// The last item before `i` in the group of item `i`.
fn previous_member(items: &Vec<FileCommand>, i: usize) -> (r: usize)
    requires
        i < items.len(),
        members(items@, items@[i as int].group_name@, i as int).len() > 0,
    ensures
        r == members(items@, items@[i as int].group_name@, i as int).last(),
{
    let mut last: usize = 0;
    let mut m: usize = 0;
    while m < i
        invariant
            m <= i < items.len(),
            members(items@, items@[i as int].group_name@, m as int).len() > 0 ==> last == members(
                items@,
                items@[i as int].group_name@,
                m as int,
            ).last(),
        decreases i - m,
    {
        if same_group(&items[m], &items[i]) {
            last = m;
        }
        m = m + 1;
    }
    last
}

/// The first item of the group of item `i`.
fn lead_of(items: &Vec<FileCommand>, i: usize) -> (r: usize)
    requires
        i < items.len(),
    ensures
        r == group_lead(items@, i as int),
{
    proof {
        lemma_group_lead(items@, i as int);
    }
    let mut j: usize = 0;
    while j < i
        invariant
            j <= i < items.len(),
            forall|k: int| 0 <= k < j ==> items@[k].group_name@ != items@[i as int].group_name@,
        ensures
            j <= i,
            forall|k: int| 0 <= k < j ==> items@[k].group_name@ != items@[i as int].group_name@,
            items@[j as int].group_name@ == items@[i as int].group_name@,
        decreases i - j,
    {
        if same_group(&items[j], &items[i]) {
            break;
        }
        j = j + 1;
    }
    j
}

impl ExecutionUnit {
    pub open spec fn view_unit(&self) -> (ExecutionOrder, Seq<usize>) {
        (self.order, self.tasks@)
    }
}

impl TaskPool {
    pub closed spec fn wf(&self) -> bool {
        self@.wf()
    }

    /// A pool with no tasks and no units: complete from the start.
    pub fn new() -> (r: TaskPool)
        ensures
            r.wf(),
            r@.tasks.len() == 0,
            r@.units.len() == 0,
            r@.outstanding == 0,
    {
        let r = TaskPool {
            tasks: Vec::new(),
            units: Vec::new(),
            joined: Vec::new(),
            after: Vec::new(),
            outstanding: 0,
        };
        proof {
            assert(r@.joined.len() == 0);
        }
        r
    }

    /// Partitions file commands into tasks and execution units. A group
    /// takes the policy of its first command; each command of a parallel
    /// group gets a unit of its own, and a sequential group gets one unit
    /// that runs its commands in the order given.
    pub fn plan(items: Vec<FileCommand>) -> (r: TaskPool)
        ensures
            r.wf(),
            r@ == planned_pool(items@),
    {
        let n = items.len();
        let mut units: Vec<ExecutionUnit> = Vec::new();
        let mut after: Vec<Option<usize>> = Vec::new();
        let mut joined: Vec<bool> = Vec::new();
        let mut i: usize = 0;
        while i < n
            invariant
                n == items.len(),
                i <= n,
                unit_views(units@) == planned_units(items@, i as int),
                joined@ == Seq::new(units@.len(), |u: int| false),
                after@ == Seq::new(i as nat, |m: int| predecessor(items@, m)),
            decreases n - i,
        {
            let j = lead_of(&items, i);
            proof {
                lemma_group_lead(items@, i as int);
                lemma_group_lead(items@, j as int);
            }
            match items[j].execution_order {
                ExecutionOrder::Parallel => {
                    let mut ts: Vec<usize> = Vec::new();
                    ts.push(i);
                    let unit = ExecutionUnit { order: ExecutionOrder::Parallel, tasks: ts };
                    proof {
                        assert(unit.tasks@ =~= seq![i]);
                    }
                    units.push(unit);
                    joined.push(false);
                    after.push(None);
                },
                ExecutionOrder::Sequential => {
                    if j == i {
                        let ms = group_members(&items, i);
                        units.push(ExecutionUnit { order: ExecutionOrder::Sequential, tasks: ms });
                        joined.push(false);
                        after.push(None);
                    } else {
                        proof {
                            lemma_members(items@, items@[i as int].group_name@, i as int);
                            assert(members(items@, items@[i as int].group_name@, i as int).contains(
                                j,
                            ));
                        }
                        let p = previous_member(&items, i);
                        after.push(Some(p));
                    }
                },
            }
            proof {
                assert(unit_views(units@) =~= planned_units(items@, i + 1));
                assert(joined@ =~= Seq::new(units@.len(), |u: int| false));
                assert(after@ =~= Seq::new((i + 1) as nat, |m: int| predecessor(items@, m)));
            }
            i = i + 1;
        }
        let mut tasks: Vec<TaskState> = Vec::new();
        let mut items = items;
        let ghost all = items@;
        let mut k: usize = 0;
        while items.len() > 0
            invariant
                all.len() == n,
                k + items.len() == all.len(),
                items@ == all.subrange(k as int, all.len() as int),
                tasks@ == all.subrange(0, k as int).map_values(|c: FileCommand| fresh_task(c)),
            decreases items.len(),
        {
            let c = items.remove(0);
            tasks.push(TaskState::from_file_command(c));
            proof {
                assert(tasks@ =~= all.subrange(0, k + 1).map_values(|c: FileCommand| fresh_task(c)));
                assert(items@ =~= all.subrange(k + 1, all.len() as int));
            }
            k = k + 1;
        }
        let outstanding = units.len();
        let r = TaskPool { tasks, units, joined, after, outstanding };
        proof {
            assert(all.subrange(0, k as int) =~= all);
            lemma_planned_pool_wf(all);
            assert(r@.joined =~= planned_pool(all).joined);
            assert(r@.after =~= planned_pool(all).after);
            assert(r@ == planned_pool(all));
        }
        r
    }

    /// Starts task `i` at `now`, if it may start then; otherwise nothing
    /// changes and `false` is returned.
    pub fn start_task(&mut self, i: usize, now: u64) -> (r: bool)
        requires
            old(self).wf(),
        ensures
            final(self).wf(),
            r == may_start(old(self)@, i as int, now),
            r ==> final(self)@ == (PoolView {
                tasks: old(self)@.tasks.update(i as int, started(old(self)@.tasks[i as int], now)),
                ..old(self)@
            }),
            !r ==> final(self)@ == old(self)@,
    {
        if i >= self.tasks.len() {
            return false;
        }
        match self.tasks[i].status {
            CommandStatus::Waiting => {},
            _ => return false,
        }
        match self.after[i] {
            None => {},
            Some(a) => {
                proof {
                    assert(self@.after[i as int].is_some());
                }
                let prev = &self.tasks[a];
                let ok = match (prev.launched_at, prev.duration_ms) {
                    (Some(t0), Some(d0)) => prev.done && t0 < now && now - t0 >= d0,
                    _ => false,
                };
                if !ok {
                    return false;
                }
            },
        }
        let ghost old_v = self@;
        self.tasks[i].start(now);
        proof {
            let new_v = self@;
            assert(new_v.tasks =~= old_v.tasks.update(i as int, started(old_v.tasks[i as int], now)));
            assert forall|j: int| 0 <= j < new_v.tasks.len() implies #[trigger] new_v.in_some_unit(j) by {
                assert(old_v.in_some_unit(j));
            }
            assert forall|j: int| 0 <= j < new_v.tasks.len() && (#[trigger] new_v.after[j]).is_some() implies {
                &&& new_v.after[j].unwrap() < new_v.tasks.len()
                &&& launched_after(new_v.tasks[new_v.after[j].unwrap() as int], new_v.tasks[j])
            } by {
                assert(old_v.after[j].is_some());
                let a = old_v.after[j].unwrap() as int;
                if j != i && a == i {
                    assert(!old_v.tasks[a].done);
                }
            }
            assert forall|u: int, k: int|
                0 <= u < new_v.units.len() && new_v.joined[u] && 0 <= k < new_v.units[u].1.len()
                    implies new_v.tasks[#[trigger] new_v.units[u].1[k] as int].done by {
                assert(old_v.tasks[old_v.units[u].1[k] as int].done);
            }
        }
        true
    }

    /// Records how running task `i` ended at `now`. Any other task is left
    /// as it is, and `false` returned.
    pub fn complete_task(&mut self, i: usize, outcome: CommandOutcome, now: u64) -> (r: bool)
        requires
            old(self).wf(),
        ensures
            final(self).wf(),
            r == (i < old(self)@.tasks.len() && old(self)@.tasks[i as int].status == CommandStatus::Running),
            r ==> final(self)@ == (PoolView {
                tasks: old(self)@.tasks.update(i as int, completed(old(self)@.tasks[i as int], outcome, now)),
                ..old(self)@
            }),
            !r ==> final(self)@ == old(self)@,
    {
        if i >= self.tasks.len() {
            return false;
        }
        let ghost old_v = self@;
        let r = self.tasks[i].complete(outcome, now);
        proof {
            let new_v = self@;
            if r {
                assert(new_v.tasks =~= old_v.tasks.update(i as int, completed(old_v.tasks[i as int], outcome, now)));
            } else {
                assert(new_v.tasks =~= old_v.tasks);
            }
            assert forall|u: int, k: int|
                0 <= u < new_v.units.len() && new_v.joined[u] && 0 <= k < new_v.units[u].1.len()
                    implies new_v.tasks[#[trigger] new_v.units[u].1[k] as int].done by {
                assert(old_v.tasks[old_v.units[u].1[k] as int].done);
            }
            lemma_settling_keeps_wf(old_v, new_v);
        }
        r
    }

    /// Joins unit `u`, which has finished or stopped: the count of
    /// outstanding units drops by one, and any of its tasks that had not
    /// ended fails. Units may be joined in any order; a unit that does not
    /// exist or was joined already leaves everything as it is.
    pub fn pull_completed(&mut self, u: usize, now: u64) -> (r: bool)
        requires
            old(self).wf(),
        ensures
            final(self).wf(),
            r == (u < old(self)@.units.len() && !old(self)@.joined[u as int]),
            r ==> {
                &&& final(self)@.joined == old(self)@.joined.update(u as int, true)
                &&& final(self)@.outstanding + 1 == old(self)@.outstanding
                &&& final(self)@.units == old(self)@.units
                &&& final(self)@.after == old(self)@.after
                &&& final(self)@.tasks.len() == old(self)@.tasks.len()
                &&& forall|i: int| 0 <= i < old(self)@.tasks.len() ==> if old(self)@.units[u as int].1.contains(i as usize) {
                    settled_on_join(old(self)@.tasks[i], #[trigger] final(self)@.tasks[i], now)
                } else {
                    final(self)@.tasks[i] == old(self)@.tasks[i]
                }
            },
            !r ==> final(self)@ == old(self)@,
    {
        if u >= self.units.len() || self.joined[u] {
            return false;
        }
        let ghost old_v = self@;
        let n = self.units[u].tasks.len();
        let mut k: usize = 0;
        while k < n
            invariant
                old_v.wf(),
                u < old_v.units.len(),
                !old_v.joined[u as int],
                n == old_v.units[u as int].1.len(),
                k <= n,
                self@.units == old_v.units,
                self@.after == old_v.after,
                self@.joined == old_v.joined,
                self@.outstanding == old_v.outstanding,
                self@.tasks.len() == old_v.tasks.len(),
                forall|i: int| 0 <= i < old_v.tasks.len() ==> if old_v.units[u as int].1.subrange(0, k as int).contains(i as usize) {
                    settled_on_join(old_v.tasks[i], #[trigger] self@.tasks[i], now)
                } else {
                    self@.tasks[i] == old_v.tasks[i]
                },
                forall|i: int| 0 <= i < self@.tasks.len() ==> (#[trigger] self@.tasks[i]).wf(),
            decreases n - k,
        {
            let t = self.units[u].tasks[k];
            proof {
                assert(self@.units[u as int].1[k as int] == t);
                assert(t < old_v.tasks.len());
            }
            let ghost before = self@;
            let reason = String::from_str("execution unit ended before the command finished");
            self.tasks[t].abandon(reason, now);
            proof {
                let after_v = self@;
                let sub = old_v.units[u as int].1.subrange(0, k as int);
                let sub2 = old_v.units[u as int].1.subrange(0, k as int + 1);
                assert(sub2 =~= sub.push(t));
                assert forall|i: int| 0 <= i < old_v.tasks.len() implies if sub2.contains(i as usize) {
                    settled_on_join(old_v.tasks[i], #[trigger] after_v.tasks[i], now)
                } else {
                    after_v.tasks[i] == old_v.tasks[i]
                } by {
                    if i != t as int {
                        assert(after_v.tasks[i] == before.tasks[i]);
                        if sub2.contains(i as usize) {
                            let q = choose|q: int| 0 <= q < sub2.len() && sub2[q] == i as usize;
                            assert(sub[q] == i as usize);
                        }
                    } else {
                        assert(sub2[k as int] == t);
                        if sub.contains(t) {
                            assert(before.tasks[i].done);
                        }
                    }
                }
                assert forall|i: int| 0 <= i < after_v.tasks.len() implies (#[trigger] after_v.tasks[i]).wf() by {
                    if i != t as int {
                        assert(after_v.tasks[i] == before.tasks[i]);
                    }
                }
            }
            k = k + 1;
        }
        proof {
            lemma_count_unjoined_join(old_v.joined, u as int);
        }
        self.joined.set(u, true);
        self.outstanding = self.outstanding - 1;
        proof {
            let new_v = self@;
            assert(old_v.units[u as int].1.subrange(0, n as int) =~= old_v.units[u as int].1);
            assert forall|i: int| 0 <= i < new_v.tasks.len() && old_v.tasks[i].done implies #[trigger] new_v.tasks[i] == old_v.tasks[i] by {}
            assert forall|i: int| 0 <= i < new_v.tasks.len() implies (#[trigger] new_v.tasks[i]).launched_at == old_v.tasks[i].launched_at by {}
            assert forall|w: int, j: int|
                0 <= w < new_v.units.len() && new_v.joined[w] && 0 <= j < new_v.units[w].1.len()
                    implies new_v.tasks[#[trigger] new_v.units[w].1[j] as int].done by {
                let x = new_v.units[w].1[j] as int;
                if w == u as int {
                    assert(old_v.units[u as int].1.contains(x as usize));
                } else {
                    assert(old_v.tasks[x].done);
                }
            }
            lemma_settling_keeps_wf(old_v, new_v);
        }
        true
    }

    /// True when every unit has been joined.
    pub fn is_complete(&self) -> (r: bool)
        ensures
            r == (self@.outstanding == 0),
    {
        self.outstanding == 0
    }

    /// Units not yet joined.
    pub fn outstanding(&self) -> (r: usize)
        ensures
            r == self@.outstanding,
    {
        self.outstanding
    }

    pub fn is_empty(&self) -> (r: bool)
        ensures
            r == (self@.tasks.len() == 0),
    {
        self.tasks.len() == 0
    }

    pub fn tasks(&self) -> (r: &Vec<TaskState>)
        ensures
            r@ == self@.tasks,
    {
        &self.tasks
    }

    pub fn units(&self) -> (r: &Vec<ExecutionUnit>)
        ensures
            unit_views(r@) == self@.units,
    {
        &self.units
    }
}

/// Within a sequential unit, a task begins only after the one before it
/// has ended: the earlier one began strictly earlier, and its recorded run
/// was over by the time the later one began, so no two runs overlap.
pub proof fn lemma_sequential_runs_ordered(p: PoolView, u: int, k: int)
    requires
        p.wf(),
        0 <= u < p.units.len(),
        p.units[u].0 == ExecutionOrder::Sequential,
        0 <= k,
        k + 1 < p.units[u].1.len(),
        p.tasks[p.units[u].1[k + 1] as int].launched_at.is_some(),
    ensures
        ({
            let a = p.tasks[p.units[u].1[k] as int];
            let b = p.tasks[p.units[u].1[k + 1] as int];
            &&& a.done
            &&& is_terminal(a.status)
            &&& a.launched_at.unwrap() < b.launched_at.unwrap()
            &&& a.launched_at.unwrap() + a.duration_ms.unwrap() <= b.launched_at.unwrap()
        }),
{
    let b = p.units[u].1[k + 1] as int;
    assert(p.after[b] == Some(p.units[u].1[k]));
    assert(p.units[u].1[k + 1] < p.tasks.len());
    assert(p.tasks[p.units[u].1[k] as int].wf());
}

/// Across a whole sequential unit: of any two tasks that have begun, the
/// one declared earlier began strictly earlier and its run was over before
/// the later one began, so the recorded starts rise in declaration order
/// and no two runs overlap.
pub proof fn lemma_sequential_starts_increase(p: PoolView, u: int, i: int, j: int)
    requires
        p.wf(),
        0 <= u < p.units.len(),
        p.units[u].0 == ExecutionOrder::Sequential,
        0 <= i < j < p.units[u].1.len(),
        p.tasks[p.units[u].1[j] as int].launched_at.is_some(),
    ensures
        ({
            let a = p.tasks[p.units[u].1[i] as int];
            let b = p.tasks[p.units[u].1[j] as int];
            &&& a.done
            &&& a.launched_at.is_some()
            &&& a.launched_at.unwrap() < b.launched_at.unwrap()
            &&& a.launched_at.unwrap() + a.duration_ms.unwrap() <= b.launched_at.unwrap()
        }),
    decreases j - i,
{
    lemma_sequential_runs_ordered(p, u, j - 1);
    if i < j - 1 {
        lemma_sequential_starts_increase(p, u, i, j - 1);
    }
}

/// Once no unit is outstanding, every task has reached a terminal status.
pub proof fn lemma_complete_means_all_ended(p: PoolView)
    requires
        p.wf(),
        p.outstanding == 0,
    ensures
        forall|i: int| 0 <= i < p.tasks.len() ==> is_terminal(#[trigger] p.tasks[i].status),
{
    assert forall|i: int| 0 <= i < p.tasks.len() implies is_terminal(#[trigger] p.tasks[i].status) by {
        assert(p.in_some_unit(i));
        let u = choose|u: int| 0 <= u < p.units.len() && (#[trigger] p.units[u].1).contains(i as usize);
        lemma_count_unjoined_zero(p.joined, u);
        let k = choose|k: int| 0 <= k < p.units[u].1.len() && p.units[u].1[k] == i as usize;
        assert(p.tasks[p.units[u].1[k] as int].done);
        assert(p.tasks[i].wf());
    }
}

} // verus!
