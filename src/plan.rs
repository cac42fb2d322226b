use crate::config::ExecutionOrder;
use crate::file::FileCommand;
use vstd::prelude::*;

verus! {

/// The first index at or after `j` whose item belongs to group `g`, or the
/// length when there is none.
pub open spec fn find_group(items: Seq<FileCommand>, g: Seq<char>, j: int) -> int
    decreases items.len() - j,
{
    if j < 0 || j >= items.len() {
        items.len() as int
    } else if items[j].group_name@ == g {
        j
    } else {
        find_group(items, g, j + 1)
    }
}

/// The first item of the group of item `i`.
pub open spec fn group_lead(items: Seq<FileCommand>, i: int) -> int {
    find_group(items, items[i].group_name@, 0)
}

/// A group's policy is the one its first item declares.
pub open spec fn group_policy(items: Seq<FileCommand>, i: int) -> ExecutionOrder {
    items[group_lead(items, i)].execution_order
}

/// Indices below `n` of the items of group `g`, in order.
pub open spec fn members(items: Seq<FileCommand>, g: Seq<char>, n: int) -> Seq<usize>
    decreases n,
{
    if n <= 0 {
        Seq::empty()
    } else if items[n - 1].group_name@ == g {
        members(items, g, n - 1).push((n - 1) as usize)
    } else {
        members(items, g, n - 1)
    }
}

/// The execution unit that item `i` opens, if any: its own unit in a
/// parallel group, the whole group's unit when it is the first item of a
/// sequential group.
pub open spec fn unit_opened_by(items: Seq<FileCommand>, i: int) -> Option<(ExecutionOrder, Seq<usize>)> {
    if group_policy(items, i) == ExecutionOrder::Parallel {
        Some((ExecutionOrder::Parallel, seq![i as usize]))
    } else if group_lead(items, i) == i {
        Some((ExecutionOrder::Sequential, members(items, items[i].group_name@, items.len() as int)))
    } else {
        None
    }
}

/// The units opened by the first `n` items, in the order they are opened.
pub open spec fn planned_units(items: Seq<FileCommand>, n: int) -> Seq<(ExecutionOrder, Seq<usize>)>
    decreases n,
{
    if n <= 0 {
        Seq::empty()
    } else {
        match unit_opened_by(items, n - 1) {
            Some(u) => planned_units(items, n - 1).push(u),
            None => planned_units(items, n - 1),
        }
    }
}

/// Index, among all units, of the unit that runs item `i`.
pub open spec fn unit_index(items: Seq<FileCommand>, i: int) -> int {
    if group_policy(items, i) == ExecutionOrder::Parallel {
        planned_units(items, i).len() as int
    } else {
        planned_units(items, group_lead(items, i)).len() as int
    }
}

/// The item that must end before item `i` may start: the previous item of
/// its sequential group.
pub open spec fn predecessor(items: Seq<FileCommand>, i: int) -> Option<usize> {
    if group_policy(items, i) == ExecutionOrder::Sequential && group_lead(items, i) < i {
        Some(members(items, items[i].group_name@, i).last())
    } else {
        None
    }
}

pub proof fn lemma_find_group(items: Seq<FileCommand>, g: Seq<char>, j: int)
    requires
        0 <= j <= items.len(),
    ensures
        j <= find_group(items, g, j) <= items.len(),
        find_group(items, g, j) < items.len() ==> items[find_group(items, g, j)].group_name@ == g,
        forall|k: int| j <= k < find_group(items, g, j) ==> items[k].group_name@ != g,
    decreases items.len() - j,
{
    if j < items.len() && items[j].group_name@ != g {
        lemma_find_group(items, g, j + 1);
    }
}

/// The first item of a group comes no later than any of its items, and
/// items of one group share their first item.
pub proof fn lemma_group_lead(items: Seq<FileCommand>, i: int)
    requires
        0 <= i < items.len(),
    ensures
        0 <= group_lead(items, i) <= i,
        items[group_lead(items, i)].group_name@ == items[i].group_name@,
        forall|k: int| 0 <= k < group_lead(items, i) ==> items[k].group_name@ != items[i].group_name@,
{
    lemma_find_group(items, items[i].group_name@, 0);
}

pub proof fn lemma_members(items: Seq<FileCommand>, g: Seq<char>, n: int)
    requires
        0 <= n <= items.len() <= usize::MAX,
    ensures
        members(items, g, n).len() <= n,
        forall|p: int| 0 <= p < members(items, g, n).len() ==> {
            &&& members(items, g, n)[p] < n
            &&& items[members(items, g, n)[p] as int].group_name@ == g
        },
        forall|p: int, q: int| 0 <= p < q < members(items, g, n).len() ==>
            members(items, g, n)[p] < members(items, g, n)[q],
        forall|k: int| 0 <= k < n && items[k].group_name@ == g ==>
            members(items, g, n).contains(k as usize),
    decreases n,
{
    if n > 0 {
        lemma_members(items, g, n - 1);
        let prev = members(items, g, n - 1);
        let cur = members(items, g, n);
        if items[n - 1].group_name@ == g {
            assert forall|k: int| 0 <= k < n && items[k].group_name@ == g implies
                cur.contains(k as usize) by {
                if k < n - 1 {
                    let p = choose|p: int| 0 <= p < prev.len() && prev[p] == k as usize;
                    assert(cur[p] == k as usize);
                } else {
                    assert(cur[prev.len() as int] == k as usize);
                }
            }
        }
    }
}

/// A shorter prefix of the items gives a prefix of a group's members, and
/// the members beyond it lie beyond that prefix.
pub proof fn lemma_members_prefix(items: Seq<FileCommand>, g: Seq<char>, m: int, n: int)
    requires
        0 <= m <= n <= items.len() <= usize::MAX,
    ensures
        members(items, g, m).len() <= members(items, g, n).len(),
        members(items, g, n).subrange(0, members(items, g, m).len() as int) == members(items, g, m),
        forall|p: int| members(items, g, m).len() <= p < members(items, g, n).len() ==>
            members(items, g, n)[p] >= m,
    decreases n - m,
{
    if m < n {
        lemma_members_prefix(items, g, m, n - 1);
        lemma_members(items, g, n - 1);
        let a = members(items, g, m);
        let b = members(items, g, n - 1);
        let c = members(items, g, n);
        if items[n - 1].group_name@ == g {
            assert(c.subrange(0, a.len() as int) =~= b.subrange(0, a.len() as int));
            assert(c[b.len() as int] == (n - 1) as usize);
        }
    } else {
        assert(members(items, g, n).subrange(0, members(items, g, m).len() as int)
            =~= members(items, g, m));
    }
}

/// The members before a member are the members below its index.
pub proof fn lemma_members_position(items: Seq<FileCommand>, g: Seq<char>, n: int, p: int)
    requires
        0 <= n <= items.len() <= usize::MAX,
        0 <= p < members(items, g, n).len(),
    ensures
        members(items, g, members(items, g, n)[p] as int) == members(items, g, n).subrange(0, p),
{
    let mm = members(items, g, n);
    let b = mm[p] as int;
    lemma_members(items, g, n);
    lemma_members(items, g, b);
    lemma_members_prefix(items, g, b, n);
    let l = members(items, g, b).len() as int;
    if p < l {
        assert(mm[p] == members(items, g, b)[p]);
    } else if p > l {
        assert(mm[l] < mm[p]);
    }
}

/// Units opened by a prefix of the items are a prefix of all units.
pub proof fn lemma_planned_prefix(items: Seq<FileCommand>, m: int, n: int)
    requires
        0 <= m <= n,
    ensures
        planned_units(items, m).len() <= planned_units(items, n).len(),
        forall|u: int| 0 <= u < planned_units(items, m).len() ==>
            planned_units(items, n)[u] == planned_units(items, m)[u],
    decreases n - m,
{
    if m < n {
        lemma_planned_prefix(items, m, n - 1);
    }
}

/// Each unit was opened by some item, and as many units come before it as
/// the items before that one opened.
pub proof fn lemma_planned_origin(items: Seq<FileCommand>, n: int, u: int)
    requires
        0 <= n,
        0 <= u < planned_units(items, n).len(),
    ensures
        exists|l: int|
            0 <= l < n && planned_units(items, l).len() == u && unit_opened_by(items, l)
                == Some(planned_units(items, n)[u]),
    decreases n,
{
    if u < planned_units(items, n - 1).len() {
        lemma_planned_origin(items, n - 1, u);
    } else {
        assert(planned_units(items, n - 1).len() == u);
    }
}

} // verus!
