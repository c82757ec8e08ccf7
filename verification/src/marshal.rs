//! Packing the lights and the cluster lists into the flat buffers that
//! shading reads.
//!
//! The buffers have fixed capacities.  When there are more lights than fit,
//! the lights given first are dropped and the rest renumbered from zero;
//! list entries that name a dropped light, or no light at all, are left out.
//! When the entries of all lists together exceed the index buffer, the
//! buffer holds the entries that come first in cell order and the rest are
//! cut.  Either loss is reported in one diagnostic.

use vstd::prelude::*;
use crate::numeric::min_int;
use crate::cluster::ClusterGrid;
use crate::geometry::Vector3;

verus! {

/// The parameters of a light as the scene gives them.
#[derive(Clone, Copy, Debug, PartialEq, Eq, Structural)]
pub struct LightParams {
    pub position: Vector3,
    pub direction: Vector3,
    pub red: u8,
    pub green: u8,
    pub blue: u8,
    pub alpha: u8,
    pub range: u32,
    /// The shadow map of the light, if it casts shadows.
    pub shadow_map: Option<u16>,
}

/// The parameters of a light as the buffer holds them.
#[derive(Clone, Copy, Debug, PartialEq, Eq, Structural)]
pub struct GpuLight {
    pub position: Vector3,
    pub direction: Vector3,
    /// Red in the lowest byte, then green, blue and alpha.
    pub color: u32,
    pub range: u32,
    /// The shadow map of the light, or `-1` when it casts no shadow.
    pub shadow_map_index: i32,
}

/// Where the list of one cell lies in the index buffer.
#[derive(Clone, Copy, Debug, PartialEq, Eq, Structural)]
pub struct ClusterSpan {
    pub offset: u32,
    pub count: u32,
}

/// The capacities of the buffers.
#[derive(Clone, Copy, Debug, PartialEq, Eq, Structural)]
pub struct BufferLimits {
    pub max_lights: u32,
    pub max_indices: u32,
}

/// What did not fit.
#[derive(Clone, Copy, Debug, PartialEq, Eq, Structural)]
pub struct CapacityExceeded {
    /// How many lights were dropped.
    pub lights_dropped: usize,
    /// How many list entries were cut from the end of the index buffer,
    /// counted up to `u64::MAX`.
    pub indices_dropped: u64,
}

/// The buffers of one view.
#[derive(Debug)]
pub struct GpuBuffers {
    pub lights: Vec<GpuLight>,
    pub spans: Vec<ClusterSpan>,
    pub indices: Vec<u32>,
    pub diagnostic: Option<CapacityExceeded>,
}

/// Four colour channels in one word.
pub open spec fn packed_color(red: u8, green: u8, blue: u8, alpha: u8) -> u32 {
    (red + 0x100 * green + 0x1_0000 * blue + 0x100_0000 * alpha) as u32
}

/// The buffer form of a light.
pub open spec fn packed(light: LightParams) -> GpuLight {
    GpuLight {
        position: light.position,
        direction: light.direction,
        color: packed_color(light.red, light.green, light.blue, light.alpha),
        range: light.range,
        shadow_map_index: match light.shadow_map {
            Some(layer) => layer as i32,
            None => (-1) as i32,
        },
    }
}

/// How many of `total` lights are dropped to fit `max_lights`.
pub open spec fn dropped_lights(total: int, max_lights: int) -> int {
    if total > max_lights {
        total - max_lights
    } else {
        0
    }
}

/// The lights that stay: the last `max_lights`, packed.
pub open spec fn kept_lights(lights: Seq<LightParams>, max_lights: int) -> Seq<GpuLight> {
    let dropped = dropped_lights(lights.len() as int, max_lights);
    Seq::new((lights.len() - dropped) as nat, |k: int| packed(lights[dropped + k]))
}

/// The entries of one list that name a light that stays, renumbered, in
/// order.
pub open spec fn kept_entries(list: Seq<u32>, dropped: int, total: int) -> Seq<u32>
    decreases list.len(),
{
    if list.len() == 0 {
        Seq::empty()
    } else {
        let earlier = kept_entries(list.drop_last(), dropped, total);
        if dropped <= list.last() < total {
            earlier.push((list.last() - dropped) as u32)
        } else {
            earlier
        }
    }
}

/// The kept entries of all the lists, one list after the other.
pub open spec fn flattened(cells: Seq<Seq<u32>>, dropped: int, total: int) -> Seq<u32>
    decreases cells.len(),
{
    if cells.len() == 0 {
        Seq::empty()
    } else {
        flattened(cells.drop_last(), dropped, total) + kept_entries(cells.last(), dropped, total)
    }
}

/// Where the list of cell `cell` lies in an index buffer of `capacity`
/// entries: it starts after the lists of the cells before it, and holds
/// what fits.
pub open spec fn span_of(
    cells: Seq<Seq<u32>>,
    dropped: int,
    total: int,
    capacity: int,
    cell: int,
) -> ClusterSpan {
    let start = min_int(flattened(cells.take(cell), dropped, total).len() as int, capacity);
    let end = min_int(flattened(cells.take(cell + 1), dropped, total).len() as int, capacity);
    ClusterSpan { offset: start as u32, count: (end - start) as u32 }
}

/// The diagnostic for `dropped` lights and `cut` entries.
pub open spec fn diagnostic_of(dropped: int, cut: int) -> Option<CapacityExceeded> {
    if dropped > 0 || cut > 0 {
        Some(
            CapacityExceeded {
                lights_dropped: dropped as usize,
                indices_dropped: min_int(cut, u64::MAX as int) as u64,
            },
        )
    } else {
        None
    }
}

/// Packs the parameters of one light.
pub fn pack_light(light: &LightParams) -> (gpu: GpuLight)
    ensures
        gpu == packed(*light),
{
    let color: u32 = (light.red as u32) + 0x100 * (light.green as u32) + 0x1_0000 * (
    light.blue as u32) + 0x100_0000 * (light.alpha as u32);
    let shadow_map_index: i32 = match light.shadow_map {
        Some(layer) => layer as i32,
        None => -1,
    };
    GpuLight {
        position: light.position,
        direction: light.direction,
        color,
        range: light.range,
        shadow_map_index,
    }
}

/// Packs the lights and the lists of a grid into buffers of the given
/// capacities.
pub fn marshal(lights: &Vec<LightParams>, grid: &ClusterGrid, limits: BufferLimits) -> (buffers: GpuBuffers)
    ensures
        buffers.lights@ == kept_lights(lights@, limits.max_lights as int),
        buffers.indices@ == ({
            let dropped = dropped_lights(lights@.len() as int, limits.max_lights as int);
            let all = flattened(grid.cells(), dropped, lights@.len() as int);
            all.take(min_int(all.len() as int, limits.max_indices as int))
        }),
        buffers.spans@.len() == grid.cells().len(),
        forall|cell: int|
            0 <= cell < grid.cells().len() ==> #[trigger] buffers.spans@[cell] == span_of(
                grid.cells(),
                dropped_lights(lights@.len() as int, limits.max_lights as int),
                lights@.len() as int,
                limits.max_indices as int,
                cell,
            ),
        buffers.diagnostic == ({
            let dropped = dropped_lights(lights@.len() as int, limits.max_lights as int);
            let all = flattened(grid.cells(), dropped, lights@.len() as int);
            diagnostic_of(dropped, all.len() - min_int(all.len() as int, limits.max_indices as int))
        }),
        buffers.lights@.len() == min_int(lights@.len() as int, limits.max_lights as int),
        buffers.indices@.len() <= limits.max_indices,
        forall|i: int|
            0 <= i < buffers.indices@.len() ==> #[trigger] buffers.indices@[i]
                < buffers.lights@.len(),
{
    let total: usize = lights.len();
    let dropped: usize = if total > limits.max_lights as usize {
        total - (limits.max_lights as usize)
    } else {
        0
    };
    let mut packed_lights: Vec<GpuLight> = Vec::new();
    let mut k: usize = dropped;
    while k < total
        invariant
            dropped <= k <= total,
            total == lights@.len(),
            packed_lights@.len() == k - dropped,
            forall|j: int| 0 <= j < k - dropped ==> #[trigger] packed_lights@[j] == packed(lights@[dropped + j]),
        decreases total - k,
    {
        packed_lights.push(pack_light(&lights[k]));
        k += 1;
    }
    assert(packed_lights@ =~= kept_lights(lights@, limits.max_lights as int));

    let capacity: usize = limits.max_indices as usize;
    let ghost cells = grid.cells();
    let count: usize = grid.cell_count();
    let mut indices: Vec<u32> = Vec::new();
    let mut spans: Vec<ClusterSpan> = Vec::new();
    let mut cut: u64 = 0;
    let mut cell: usize = 0;
    assert(cells.take(0) =~= Seq::<Seq<u32>>::empty());
    while cell < count
        invariant
            0 <= cell <= count,
            count == cells.len(),
            cells == grid.cells(),
            total == lights@.len(),
            dropped == dropped_lights(total as int, limits.max_lights as int),
            capacity == limits.max_indices,
            spans@.len() == cell,
            forall|c: int|
                0 <= c < cell ==> #[trigger] spans@[c] == span_of(
                    cells,
                    dropped as int,
                    total as int,
                    capacity as int,
                    c,
                ),
            indices@ == ({
                let all = flattened(cells.take(cell as int), dropped as int, total as int);
                all.take(min_int(all.len() as int, capacity as int))
            }),
            cut == ({
                let all = flattened(cells.take(cell as int), dropped as int, total as int);
                min_int(all.len() - min_int(all.len() as int, capacity as int), u64::MAX as int)
            }),
            forall|i: int| 0 <= i < indices@.len() ==> #[trigger] indices@[i] < total - dropped,
        decreases count - cell,
    {
        let list = grid.cell(cell);
        let start: usize = indices.len();
        let ghost before = flattened(cells.take(cell as int), dropped as int, total as int);
        let mut j: usize = 0;
        assert(list@.take(0) =~= Seq::<u32>::empty());
        assert(before + Seq::<u32>::empty() =~= before);
        while j < list.len()
            invariant
                0 <= j <= list@.len(),
                capacity == limits.max_indices,
                dropped <= total,
                indices@ == ({
                    let all = before + kept_entries(list@.take(j as int), dropped as int, total as int);
                    all.take(min_int(all.len() as int, capacity as int))
                }),
                cut == ({
                    let all = before + kept_entries(list@.take(j as int), dropped as int, total as int);
                    min_int(all.len() - min_int(all.len() as int, capacity as int), u64::MAX as int)
                }),
                forall|i: int| 0 <= i < indices@.len() ==> #[trigger] indices@[i] < total - dropped,
            decreases list@.len() - j,
        {
            let entry: usize = list[j] as usize;
            let ghost sofar = before + kept_entries(list@.take(j as int), dropped as int, total as int);
            proof {
                assert(list@.take(j + 1).drop_last() =~= list@.take(j as int));
                assert(list@.take(j + 1).last() == list@[j as int]);
            }
            if entry >= dropped && entry < total {
                let renumbered: u32 = (entry - dropped) as u32;
                proof {
                    assert(before + kept_entries(list@.take(j + 1), dropped as int, total as int)
                        =~= sofar.push(renumbered));
                }
                if indices.len() < capacity {
                    indices.push(renumbered);
                    assert(indices@ =~= sofar.push(renumbered).take(
                        min_int((sofar.len() + 1) as int, capacity as int),
                    ));
                } else {
                    cut = cut.saturating_add(1);
                    assert(indices@ =~= sofar.push(renumbered).take(
                        min_int((sofar.len() + 1) as int, capacity as int),
                    ));
                }
            }
            j += 1;
        }
        proof {
            assert(list@.take(j as int) =~= list@);
            assert(cells.take(cell + 1).drop_last() =~= cells.take(cell as int));
            assert(cells.take(cell + 1).last() == cells[cell as int]);
        }
        spans.push(ClusterSpan { offset: start as u32, count: (indices.len() - start) as u32 });
        cell += 1;
    }
    assert(cells.take(count as int) =~= cells);
    let diagnostic = if dropped > 0 || cut > 0 {
        Some(CapacityExceeded { lights_dropped: dropped, indices_dropped: cut })
    } else {
        None
    };
    GpuBuffers { lights: packed_lights, spans, indices, diagnostic }
}

/// Every kept entry names a light that stays.
pub proof fn lemma_kept_entries_bounded(list: Seq<u32>, dropped: int, total: int)
    requires
        0 <= dropped <= total,
    ensures
        kept_entries(list, dropped, total).len() <= list.len(),
        forall|i: int|
            0 <= i < kept_entries(list, dropped, total).len() ==> #[trigger] kept_entries(
                list,
                dropped,
                total,
            )[i] < total - dropped,
    decreases list.len(),
{
    if list.len() > 0 {
        lemma_kept_entries_bounded(list.drop_last(), dropped, total);
    }
}

/// Every entry of the flattened lists names a light that stays.
pub proof fn lemma_flattened_bounded(cells: Seq<Seq<u32>>, dropped: int, total: int)
    requires
        0 <= dropped <= total,
    ensures
        forall|i: int|
            0 <= i < flattened(cells, dropped, total).len() ==> #[trigger] flattened(
                cells,
                dropped,
                total,
            )[i] < total - dropped,
    decreases cells.len(),
{
    if cells.len() > 0 {
        let earlier = flattened(cells.drop_last(), dropped, total);
        let list = kept_entries(cells.last(), dropped, total);
        let all = flattened(cells, dropped, total);
        lemma_flattened_bounded(cells.drop_last(), dropped, total);
        lemma_kept_entries_bounded(cells.last(), dropped, total);
        assert forall|i: int| 0 <= i < all.len() implies #[trigger] all[i] < total - dropped by {
            if i < earlier.len() {
                assert(all[i] == earlier[i]);
            } else {
                assert(all[i] == list[i - earlier.len()]);
            }
        }
    }
}

/// The flattened lists of the first cells start the flattened lists of all
/// cells.
pub proof fn lemma_flattened_prefix(cells: Seq<Seq<u32>>, dropped: int, total: int, fewer: int)
    requires
        0 <= fewer <= cells.len(),
    ensures
        flattened(cells.take(fewer), dropped, total).is_prefix_of(flattened(cells, dropped, total)),
    decreases cells.len(),
{
    if fewer == cells.len() {
        assert(cells.take(fewer) =~= cells);
    } else {
        assert(cells.drop_last().take(fewer) =~= cells.take(fewer));
        lemma_flattened_prefix(cells.drop_last(), dropped, total, fewer);
    }
}

/// Truncation keeps to the capacity: when there are more lights than fit,
/// exactly `max_lights` lights stay, a diagnostic is raised whatever the
/// lists hold, and no list entry names a light past the capacity.
pub proof fn lemma_truncation_keeps_capacity(
    lights: Seq<LightParams>,
    cells: Seq<Seq<u32>>,
    limits: BufferLimits,
)
    requires
        lights.len() > limits.max_lights,
    ensures
        kept_lights(lights, limits.max_lights as int).len() == limits.max_lights,
        ({
            let dropped = dropped_lights(lights.len() as int, limits.max_lights as int);
            let all = flattened(cells, dropped, lights.len() as int);
            let kept = all.take(min_int(all.len() as int, limits.max_indices as int));
            &&& dropped == lights.len() - limits.max_lights
            &&& diagnostic_of(dropped, all.len() - kept.len()) is Some
            &&& kept.len() <= limits.max_indices
            &&& forall|i: int| 0 <= i < kept.len() ==> #[trigger] kept[i] < limits.max_lights
        }),
{
    let dropped = dropped_lights(lights.len() as int, limits.max_lights as int);
    lemma_flattened_bounded(cells, dropped, lights.len() as int);
}

/// The offsets of the spans are the running sum of their counts: the first
/// span starts at zero, each span starts where the one before it ends, and
/// no span ends past the capacity.
pub proof fn lemma_spans_are_prefix_sums(
    cells: Seq<Seq<u32>>,
    dropped: int,
    total: int,
    capacity: int,
    cell: int,
)
    requires
        0 <= dropped <= total,
        0 <= capacity <= u32::MAX,
        0 <= cell < cells.len(),
    ensures
        span_of(cells, dropped, total, capacity, 0).offset == 0,
        span_of(cells, dropped, total, capacity, cell).offset + span_of(
            cells,
            dropped,
            total,
            capacity,
            cell,
        ).count <= capacity,
        cell + 1 < cells.len() ==> span_of(cells, dropped, total, capacity, cell + 1).offset
            == span_of(cells, dropped, total, capacity, cell).offset + span_of(
            cells,
            dropped,
            total,
            capacity,
            cell,
        ).count,
{
    assert(cells.take(0) =~= Seq::<Seq<u32>>::empty());
    assert(cells.take(cell + 1).drop_last() =~= cells.take(cell));
}

/// A span holds the kept entries of its cell, as many as fit, at its place
/// in the index buffer.
pub proof fn lemma_span_holds_its_list(
    cells: Seq<Seq<u32>>,
    dropped: int,
    total: int,
    capacity: int,
    cell: int,
)
    requires
        0 <= dropped <= total,
        0 <= capacity <= u32::MAX,
        0 <= cell < cells.len(),
    ensures
        ({
            let all = flattened(cells, dropped, total);
            let buffer = all.take(min_int(all.len() as int, capacity));
            let span = span_of(cells, dropped, total, capacity, cell);
            &&& span.offset + span.count <= buffer.len()
            &&& buffer.subrange(span.offset as int, span.offset + span.count) == kept_entries(
                cells[cell],
                dropped,
                total,
            ).take(span.count as int)
        }),
{
    let all = flattened(cells, dropped, total);
    let buffer = all.take(min_int(all.len() as int, capacity));
    let span = span_of(cells, dropped, total, capacity, cell);
    let before = flattened(cells.take(cell), dropped, total);
    let through = flattened(cells.take(cell + 1), dropped, total);
    let list = kept_entries(cells[cell], dropped, total);
    assert(cells.take(cell + 1).drop_last() =~= cells.take(cell));
    assert(cells.take(cell + 1).last() == cells[cell]);
    assert(through == before + list);
    lemma_flattened_prefix(cells, dropped, total, cell + 1);
    assert(through.len() <= all.len());
    let start = span.offset as int;
    let count = span.count as int;
    assert(start + count <= buffer.len());
    assert forall|j: int| 0 <= j < count implies buffer.subrange(start, start + count)[j]
        == list.take(count)[j] by {
        assert(buffer[start + j] == all[start + j]);
        assert(all[start + j] == through[start + j]);
        assert(start == before.len());
        assert(through[start + j] == list[j]);
    }
    assert(buffer.subrange(start, start + count) =~= list.take(count));
}

} // verus!
