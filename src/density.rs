//! The density picture: for each pixel of the viewport, how strongly the
//! particles around it press on it, as a colour.
use vstd::prelude::*;
use crate::chunk_map::{ChunkEntry, ChunkMap, viewport_ok, radius_ok};
use crate::geometry::{Vector2, UNIT, len_sq, isqrt, isqrt_spec, lemma_isqrt_spec};
use crate::neighbors::{get_nearby_chunks, nearby_of};
use crate::particle::position_in_bounds;

verus! {

/// Bound on the width and the height of the picture, in pixels.
pub const PICTURE_SIDE_LIMIT: usize = 0x10_0000;

/// Weight, in pixel terms, from which every colour channel is saturated.
pub const WEIGHT_CAP: u64 = 16_581_375;

/// `WEIGHT_CAP` in raw terms, where a weight is `UNIT * UNIT` times larger.
pub const RAW_WEIGHT_CAP: u64 = 17_386_831_872_000;

/// The centre of the pixel with the given index, row by row from the top
/// left, of a picture of `width` by `height` pixels laid over the viewport.
pub open spec fn pixel_spec(index: int, width: int, height: int) -> Vector2 {
    Vector2 {
        x: ((index % width) * UNIT - width * (UNIT / 2)) as i64,
        y: (height * (UNIT / 2) - (index / width) * UNIT) as i64,
    }
}

/// The contribution of the snapshot `e` to the weight at `pos`: for a
/// particle closer than the smoothing radius, the magnitude of its
/// dispersion force, `(radius - d)^2`; nothing for one farther away.
pub open spec fn weight_term(pos: Vector2, e: ChunkEntry, radius: int) -> int {
    let l = len_sq(pos.x - e.pos.x, pos.y - e.pos.y);
    if l < radius * radius {
        (radius - isqrt_spec(l)) * (radius - isqrt_spec(l))
    } else {
        0
    }
}

/// `acc` plus `term`, held at `RAW_WEIGHT_CAP`.
pub open spec fn capped_add(acc: int, term: int) -> int {
    if acc + term > RAW_WEIGHT_CAP {
        RAW_WEIGHT_CAP as int
    } else {
        acc + term
    }
}

/// The weight after adding the contribution of each snapshot of `entries`.
pub open spec fn weigh_entries(pos: Vector2, acc: int, entries: Seq<ChunkEntry>, radius: int) -> int
    decreases entries.len(),
{
    if entries.len() == 0 {
        acc
    } else {
        capped_add(weigh_entries(pos, acc, entries.drop_last(), radius), weight_term(pos, entries.last(), radius))
    }
}

/// The weight after adding the contributions of each chunk of `idxs`.
pub open spec fn weigh_chunks(
    pos: Vector2,
    acc: int,
    cells: Seq<Seq<ChunkEntry>>,
    idxs: Seq<int>,
    radius: int,
) -> int
    decreases idxs.len(),
{
    if idxs.len() == 0 {
        acc
    } else {
        weigh_entries(pos, weigh_chunks(pos, acc, cells, idxs.drop_last(), radius), cells[idxs.last()], radius)
    }
}

/// The raw weight at `pos`: the capped sum of the contributions of the
/// snapshots in the chunks around it.
pub open spec fn weight_spec(pos: Vector2, map: ChunkMap, win: (i64, i64), radius: int) -> int {
    weigh_chunks(pos, 0, map.cells(), nearby_of(map, pos, win, radius), radius)
}

/// The colour for a weight in pixel terms: red, orange, yellow, then white
/// as the weight grows, each channel saturating at 255, opaque.
pub open spec fn color_spec(weight: int) -> Seq<u8> {
    seq![
        (if weight > 255 { 255 } else { weight }) as u8,
        (if weight / 255 > 255 { 255 } else { weight / 255 }) as u8,
        (if weight / 65025 > 255 { 255 } else { weight / 65025 }) as u8,
        255u8,
    ]
}

/// The centre of the pixel with the given index, in raw units, in a picture
/// of `width` by `height` pixels centred on the origin.
pub fn pixel_position(index: usize, width: usize, height: usize) -> (r: Vector2)
    requires
        1 <= width <= PICTURE_SIDE_LIMIT,
        1 <= height <= PICTURE_SIDE_LIMIT,
        index < width * height,
    ensures
        r == pixel_spec(index as int, width as int, height as int),
        position_in_bounds(r),
{
    let col = index % width;
    let row = index / width;
    assert(row < height) by (nonlinear_arith)
        requires
            index < width * height,
            row == index / width,
            width >= 1,
    ;
    let x = col as i64 * UNIT - width as i64 * (UNIT / 2);
    let y = height as i64 * (UNIT / 2) - row as i64 * UNIT;
    Vector2 { x, y }
}

/// The contribution of the snapshot `e` to the weight at `pos`.
fn weight_of(pos: Vector2, e: &ChunkEntry, smoothing_radius: i64) -> (r: u64)
    requires
        position_in_bounds(pos),
        position_in_bounds(e.pos),
        radius_ok(smoothing_radius as int),
    ensures
        r == weight_term(pos, *e, smoothing_radius as int),
        r <= 0x1_0000_0000_0000,
{
    let diff = Vector2 { x: pos.x - e.pos.x, y: pos.y - e.pos.y };
    let l = diff.length_squared();
    let radius = smoothing_radius as u128;
    assert(radius * radius <= 0x1_0000_0000_0000) by (nonlinear_arith)
        requires
            1 <= radius <= 0x100_0000,
    ;
    if l < radius * radius {
        let d = isqrt(l) as u128;
        proof {
            lemma_isqrt_spec(l as int, d as int);
            assert(d < radius) by (nonlinear_arith)
                requires
                    d * d <= l,
                    l < radius * radius,
                    d >= 0,
                    radius >= 1,
            ;
        }
        let gap = radius - d;
        assert(gap * gap <= 0x1_0000_0000_0000) by (nonlinear_arith)
            requires
                0 < gap <= radius,
                radius * radius <= 0x1_0000_0000_0000,
        ;
        (gap * gap) as u64
    } else {
        0
    }
}

/// The raw weight at `pos`: the capped sum, over the snapshots in the
/// chunks around it that lie closer than the smoothing radius, of the
/// magnitudes of their dispersion forces.
pub fn pixel_weight(
    pos: Vector2,
    chunk_map_read: &ChunkMap,
    win_dimensions: &(i64, i64),
    smoothing_radius: i64,
) -> (r: u64)
    requires
        position_in_bounds(pos),
        chunk_map_read.wf(),
        chunk_map_read.entries_valid(),
        viewport_ok(*win_dimensions),
        radius_ok(smoothing_radius as int),
    ensures
        r == weight_spec(pos, *chunk_map_read, *win_dimensions, smoothing_radius as int),
        r <= RAW_WEIGHT_CAP,
{
    let nearby = get_nearby_chunks(&(pos.x, pos.y), chunk_map_read, win_dimensions, smoothing_radius);
    let ghost idxs = nearby@.map_values(|i: usize| i as int);
    let ghost cells = chunk_map_read.cells();
    let mut weight: u64 = 0;
    let mut k: usize = 0;
    while k < nearby.len()
        invariant
            k <= nearby@.len(),
            idxs == nearby@.map_values(|i: usize| i as int),
            cells == chunk_map_read.cells(),
            forall|q: int| 0 <= q < nearby@.len() ==> #[trigger] nearby@[q] < chunk_map_read.chunks@.len(),
            chunk_map_read.entries_valid(),
            position_in_bounds(pos),
            radius_ok(smoothing_radius as int),
            weight <= RAW_WEIGHT_CAP,
            weight == weigh_chunks(pos, 0, cells, idxs.take(k as int), smoothing_radius as int),
        decreases nearby@.len() - k,
    {
        let c = nearby[k];
        let chunk = &chunk_map_read.chunks[c];
        let ghost wk = weight;
        assert(cells[c as int] == chunk@);
        let mut j: usize = 0;
        while j < chunk.len()
            invariant
                j <= chunk@.len(),
                cells[c as int] == chunk@,
                c < chunk_map_read.chunks@.len(),
                cells == chunk_map_read.cells(),
                chunk_map_read.entries_valid(),
                position_in_bounds(pos),
                radius_ok(smoothing_radius as int),
                weight <= RAW_WEIGHT_CAP,
                weight == weigh_entries(pos, wk as int, chunk@.take(j as int), smoothing_radius as int),
            decreases chunk@.len() - j,
        {
            let e = &chunk[j];
            assert(cells[c as int][j as int].valid());
            let term = weight_of(pos, e, smoothing_radius);
            weight = if weight + term > RAW_WEIGHT_CAP {
                RAW_WEIGHT_CAP
            } else {
                weight + term
            };
            assert(chunk@.take(j + 1).drop_last() =~= chunk@.take(j as int));
            j = j + 1;
        }
        assert(chunk@.take(j as int) =~= chunk@);
        assert(idxs.take(k + 1).drop_last() =~= idxs.take(k as int));
        k = k + 1;
    }
    assert(idxs.take(k as int) =~= idxs);
    weight
}

/// The colour for a weight in pixel terms.
pub fn density_color(weight: u64) -> (r: [u8; 4])
    ensures
        r@ == color_spec(weight as int),
{
    let red: u8 = if weight > 255 { 255 } else { weight as u8 };
    let green: u8 = if weight / 255 > 255 { 255 } else { (weight / 255) as u8 };
    let blue: u8 = if weight / 65025 > 255 { 255 } else { (weight / 65025) as u8 };
    let r = [red, green, blue, 255u8];
    assert(r@ =~= color_spec(weight as int));
    r
}

/// The colour of the pixel with the given index in a picture of `width` by
/// `height` pixels over the viewport, from the grid the last frame filled.
pub fn density_pixel(
    index: usize,
    width: usize,
    height: usize,
    chunk_map_read: &ChunkMap,
    smoothing_radius: i64,
) -> (r: [u8; 4])
    requires
        1 <= width <= PICTURE_SIDE_LIMIT,
        1 <= height <= PICTURE_SIDE_LIMIT,
        index < width * height,
        chunk_map_read.wf(),
        chunk_map_read.entries_valid(),
        radius_ok(smoothing_radius as int),
    ensures
        r@ == color_spec(
            weight_spec(
                pixel_spec(index as int, width as int, height as int),
                *chunk_map_read,
                ((width * UNIT) as i64, (height * UNIT) as i64),
                smoothing_radius as int,
            ) / (UNIT * UNIT),
        ),
{
    let pos = pixel_position(index, width, height);
    let win = (width as i64 * UNIT, height as i64 * UNIT);
    let raw = pixel_weight(pos, chunk_map_read, &win, smoothing_radius);
    density_color(raw / (UNIT as u64 * UNIT as u64))
}

} // verus!
