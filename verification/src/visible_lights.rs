//! The lights that any view can see in any of its cells.

use vstd::prelude::*;
use crate::cluster::ClusterGrid;

verus! {

/// Whether some cell of a grid lists `index`.
pub open spec fn listed_in_grid(cells: Seq<Seq<u32>>, index: u32) -> bool {
    exists|c: int| 0 <= c < cells.len() && (#[trigger] cells[c]).contains(index)
}

/// Whether some cell of some grid lists `index`.
pub open spec fn listed_in_any(grids: Seq<Seq<Seq<u32>>>, index: u32) -> bool {
    exists|g: int| 0 <= g < grids.len() && listed_in_grid(#[trigger] grids[g], index)
}

/// Whether each entry is less than the next.
pub open spec fn strictly_increasing(list: Seq<u32>) -> bool {
    forall|i: int, j: int| 0 <= i < j < list.len() ==> list[i] < list[j]
}

/// The lists of each grid.
pub open spec fn cells_of_each(grids: Seq<&ClusterGrid>) -> Seq<Seq<Seq<u32>>> {
    Seq::new(grids.len(), |g: int| grids[g].cells())
}

/// Marks the lights that a list names.
fn mark_list(marks: &mut Vec<bool>, list: &Vec<u32>)
    requires
        old(marks)@.len() <= 0xffff_ffff,
    ensures
        final(marks)@.len() == old(marks)@.len(),
        forall|i: int|
            0 <= i < old(marks)@.len() ==> #[trigger] final(marks)@[i] == (old(marks)@[i]
                || list@.contains(i as u32)),
{
    let mut e: usize = 0;
    while e < list.len()
        invariant
            0 <= e <= list@.len(),
            marks@.len() == old(marks)@.len(),
            marks@.len() <= 0xffff_ffff,
            forall|i: int|
                0 <= i < marks@.len() ==> #[trigger] marks@[i] == (old(marks)@[i] || list@.take(
                    e as int,
                ).contains(i as u32)),
        decreases list@.len() - e,
    {
        let entry: usize = list[e] as usize;
        let ghost before = marks@;
        if entry < marks.len() {
            marks.set(entry, true);
        }
        proof {
            let shorter = list@.take(e as int);
            let longer = list@.take(e + 1);
            assert(longer =~= shorter.push(list@[e as int]));
            assert forall|i: int| 0 <= i < marks@.len() implies #[trigger] marks@[i] == (old(
                marks,
            )@[i] || longer.contains(i as u32)) by {
                if longer.contains(i as u32) {
                    let at = choose|k: int| 0 <= k < longer.len() && longer[k] == i as u32;
                    if at < e {
                        assert(shorter[at] == i as u32);
                    }
                }
                if shorter.contains(i as u32) {
                    let at = choose|k: int| 0 <= k < shorter.len() && shorter[k] == i as u32;
                    assert(longer[at] == i as u32);
                }
                if i == entry {
                    assert(longer[e as int] == i as u32);
                }
            }
        }
        e += 1;
    }
    assert(list@.take(e as int) =~= list@);
}

/// Marks the lights that a grid lists in any cell.
fn mark_grid(marks: &mut Vec<bool>, grid: &ClusterGrid)
    requires
        old(marks)@.len() <= 0xffff_ffff,
    ensures
        final(marks)@.len() == old(marks)@.len(),
        forall|i: int|
            0 <= i < old(marks)@.len() ==> #[trigger] final(marks)@[i] == (old(marks)@[i]
                || listed_in_grid(grid.cells(), i as u32)),
{
    let count: usize = grid.cell_count();
    let mut c: usize = 0;
    while c < count
        invariant
            0 <= c <= count,
            count == grid.cells().len(),
            marks@.len() == old(marks)@.len(),
            marks@.len() <= 0xffff_ffff,
            forall|i: int|
                0 <= i < marks@.len() ==> #[trigger] marks@[i] == (old(marks)@[i]
                    || listed_in_grid(grid.cells().take(c as int), i as u32)),
        decreases count - c,
    {
        let ghost before = marks@;
        mark_list(marks, grid.cell(c));
        proof {
            let shorter = grid.cells().take(c as int);
            let longer = grid.cells().take(c + 1);
            assert forall|i: int| 0 <= i < marks@.len() implies #[trigger] marks@[i] == (old(
                marks,
            )@[i] || listed_in_grid(longer, i as u32)) by {
                if listed_in_grid(longer, i as u32) {
                    let at = choose|k: int|
                        0 <= k < longer.len() && (#[trigger] longer[k]).contains(i as u32);
                    if at < c {
                        assert(shorter[at].contains(i as u32));
                    }
                }
                if listed_in_grid(shorter, i as u32) {
                    let at = choose|k: int|
                        0 <= k < shorter.len() && (#[trigger] shorter[k]).contains(i as u32);
                    assert(longer[at].contains(i as u32));
                }
                if grid.cells()[c as int].contains(i as u32) {
                    assert(longer[c as int].contains(i as u32));
                }
            }
        }
        c += 1;
    }
    assert(grid.cells().take(c as int) =~= grid.cells());
}

/// Lists, once each and in rising order, the lights below `light_count`
/// that some cell of some grid lists.
pub fn global_visible_lights(grids: &Vec<&ClusterGrid>, light_count: u32) -> (visible: Vec<u32>)
    ensures
        strictly_increasing(visible@),
        forall|index: u32|
            visible@.contains(index) <==> index < light_count && listed_in_any(
                cells_of_each(grids@),
                index,
            ),
{
    let ghost all = cells_of_each(grids@);
    let mut marks: Vec<bool> = Vec::new();
    let mut n: u32 = 0;
    while n < light_count
        invariant
            0 <= n <= light_count,
            marks@.len() == n,
            forall|i: int| 0 <= i < n ==> !(#[trigger] marks@[i]),
        decreases light_count - n,
    {
        marks.push(false);
        n += 1;
    }
    let mut g: usize = 0;
    while g < grids.len()
        invariant
            0 <= g <= grids@.len(),
            all == cells_of_each(grids@),
            marks@.len() == light_count,
            forall|i: int|
                0 <= i < marks@.len() ==> #[trigger] marks@[i] == listed_in_any(
                    all.take(g as int),
                    i as u32,
                ),
        decreases grids@.len() - g,
    {
        let ghost before = marks@;
        mark_grid(&mut marks, grids[g]);
        proof {
            let shorter = all.take(g as int);
            let longer = all.take(g + 1);
            assert(all[g as int] == grids@[g as int].cells());
            assert forall|i: int| 0 <= i < marks@.len() implies #[trigger] marks@[i]
                == listed_in_any(longer, i as u32) by {
                if listed_in_any(longer, i as u32) {
                    let at = choose|k: int|
                        0 <= k < longer.len() && listed_in_grid(#[trigger] longer[k], i as u32);
                    if at < g {
                        assert(listed_in_grid(shorter[at], i as u32));
                    }
                }
                if listed_in_any(shorter, i as u32) {
                    let at = choose|k: int|
                        0 <= k < shorter.len() && listed_in_grid(#[trigger] shorter[k], i as u32);
                    assert(listed_in_grid(longer[at], i as u32));
                }
                if listed_in_grid(all[g as int], i as u32) {
                    assert(listed_in_grid(longer[g as int], i as u32));
                }
            }
        }
        g += 1;
    }
    assert(all.take(g as int) =~= all);
    let mut visible: Vec<u32> = Vec::new();
    let mut i: u32 = 0;
    while i < light_count
        invariant
            0 <= i <= light_count,
            marks@.len() == light_count,
            strictly_increasing(visible@),
            forall|k: int| 0 <= k < visible@.len() ==> visible@[k] < i,
            forall|index: u32| visible@.contains(index) <==> index < i && marks@[index as int],
        decreases light_count - i,
    {
        if marks[i as usize] {
            let ghost before = visible@;
            visible.push(i);
            proof {
                assert forall|index: u32| visible@.contains(index) <==> index < i + 1
                    && marks@[index as int] by {
                    if visible@.contains(index) {
                        let at = choose|k: int| 0 <= k < visible@.len() && visible@[k] == index;
                        if at < before.len() {
                            assert(before[at] == index);
                            assert(before.contains(index));
                        }
                    }
                    if index < i + 1 && marks@[index as int] {
                        if index == i {
                            assert(visible@[before.len() as int] == index);
                        } else {
                            assert(before.contains(index));
                            let at = choose|k: int| 0 <= k < before.len() && before[k] == index;
                            assert(visible@[at] == index);
                        }
                    }
                }
            }
        }
        i += 1;
    }
    visible
}

} // verus!
