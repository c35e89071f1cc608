//! Neighborhood indexing: the canonical offset sequence of a `w * h`
//! neighborhood rectangle, and the packing of a cell's neighborhood into an
//! integer key.
//!
//! The offset order is significant: position `i` in the offset sequence is
//! bit `i` of the packed key, so the order must be reproducible from the
//! dimensions alone. The rectangle straddles the origin asymmetrically for
//! even extents: an axis of extent `n` covers `-(n-1)/2 ..= n/2`.
use vstd::prelude::*;
use vstd::arithmetic::div_mod::lemma_fundamental_div_mod;
use vstd::arithmetic::div_mod::lemma_fundamental_div_mod_converse;
use vstd::arithmetic::div_mod::lemma_mod_division_less_than_divisor;

verus! {

/// Horizontal offset of the neighborhood cell at position `p`, for a
/// neighborhood of extents `w` by `h`.
pub open spec fn offset_dx(w: int, h: int, p: int) -> int {
    p / h - (w - 1) / 2
}

/// Vertical offset of the neighborhood cell at position `p`, for a
/// neighborhood of extents `w` by `h`.
pub open spec fn offset_dy(w: int, h: int, p: int) -> int {
    p % h - (h - 1) / 2
}

/// Flat index of the neighbor of `(x, y)` at offset `(dx, dy)` on a toroidal
/// `gw` by `gh` grid: both coordinates wrap by Euclidean modulo, so the
/// result is in range whenever the grid is nonempty.
pub open spec fn neighbor_index(gw: int, gh: int, x: int, y: int, dx: int, dy: int) -> int {
    (x + dx) % gw + ((y + dy) % gh) * gw
}

/// The packed key restricted to the first `n` offsets: bit `i` holds the
/// state of the neighbor at offset `i`.
pub open spec fn key_rec(
    cells: Seq<u8>,
    gw: int,
    gh: int,
    x: int,
    y: int,
    offsets: Seq<(isize, isize)>,
    n: int,
) -> u64
    decreases n,
{
    if n <= 0 {
        0u64
    } else {
        key_rec(cells, gw, gh, x, y, offsets, n - 1) | (
        (cells[neighbor_index(gw, gh, x, y, offsets[n - 1].0 as int, offsets[n - 1].1 as int)]
            as u64) << ((n - 1) as u64))
    }
}

/// The packed neighborhood key of cell `(x, y)`: one bit per offset.
pub open spec fn key_spec(
    cells: Seq<u8>,
    gw: int,
    gh: int,
    x: int,
    y: int,
    offsets: Seq<(isize, isize)>,
) -> u64 {
    key_rec(cells, gw, gh, x, y, offsets, offsets.len() as int)
}

/// The neighbor index is always a valid index of a `gw * gh` grid.
pub proof fn lemma_neighbor_index_in_range(gw: int, gh: int, x: int, y: int, dx: int, dy: int)
    requires
        1 <= gw,
        1 <= gh,
    ensures
        0 <= neighbor_index(gw, gh, x, y, dx, dy) < gw * gh,
{
    lemma_mod_division_less_than_divisor(x + dx, gw);
    lemma_mod_division_less_than_divisor(y + dy, gh);
    let nx = (x + dx) % gw;
    let ny = (y + dy) % gh;
    assert(nx + ny * gw < gw * gh) by (nonlinear_arith)
        requires
            0 <= nx < gw,
            0 <= ny < gh,
    ;
}

/// Offsets for distinct positions are distinct pairs: position `p` encodes
/// `(p / h, p % h)`, which determines `p`.
pub proof fn lemma_offsets_distinct(w: int, h: int, p1: int, p2: int)
    requires
        1 <= w,
        1 <= h,
        0 <= p1 < w * h,
        0 <= p2 < w * h,
        p1 != p2,
    ensures
        offset_dx(w, h, p1) != offset_dx(w, h, p2) || offset_dy(w, h, p1) != offset_dy(w, h, p2),
{
    if offset_dx(w, h, p1) == offset_dx(w, h, p2) && offset_dy(w, h, p1) == offset_dy(w, h, p2) {
        lemma_fundamental_div_mod(p1, h);
        lemma_fundamental_div_mod(p2, h);
        assert(p1 / h == p2 / h);
        assert(p1 % h == p2 % h);
        assert(false);
    }
}

/// OR-ing a bit into a clear position sets exactly that bit: the bit reads
/// back, all lower bits are untouched, and everything at or above the next
/// position stays clear.
proof fn lemma_set_bit(acc: u64, c: u64, i: u64, j: u64)
    by (bit_vector)
    requires
        i < 64,
        j == i + 1,
        c <= 1,
        acc >> i == 0,
    ensures
        ((acc | (c << i)) >> i) & 1 == c,
        (acc | (c << i)) >> j == 0,
        forall|b: u64| b < i ==> ((acc | (c << i)) >> b) & 1 == (acc >> b) & 1,
{
}

/// A value whose bits from position `n` upward are clear is below `2^n`.
pub proof fn lemma_key_in_range(k: u64, n: u64)
    by (bit_vector)
    requires
        n < 64,
        k >> n == 0,
    ensures
        k < (1u64 << n),
{
}

/// Bit `i` of the packed key is exactly the state of the wrapped neighbor at
/// offset position `i`, and all bits from position `n` upward are clear.
/// In particular a cell on one grid edge shows up, via the toroidal
/// wraparound, in the key of a cell by the opposite edge.
pub proof fn lemma_key_rec_bits(
    cells: Seq<u8>,
    gw: int,
    gh: int,
    x: int,
    y: int,
    offsets: Seq<(isize, isize)>,
    n: int,
)
    requires
        1 <= gw,
        1 <= gh,
        cells.len() == gw * gh,
        forall|i: int| 0 <= i < cells.len() ==> #[trigger] cells[i] <= 1,
        0 <= n <= offsets.len() <= 64,
    ensures
        key_rec(cells, gw, gh, x, y, offsets, n) >> (n as u64) == 0,
        forall|i: int|
            0 <= i < n ==> (key_rec(cells, gw, gh, x, y, offsets, n) >> (i as u64)) & 1 == cells[
                neighbor_index(gw, gh, x, y, (#[trigger] offsets[i]).0 as int, offsets[i].1 as int)
            ] as u64,
    decreases n,
{
    if n == 0 {
        assert(0u64 >> 0u64 == 0) by (bit_vector);
    } else {
        lemma_key_rec_bits(cells, gw, gh, x, y, offsets, n - 1);
        let prev = key_rec(cells, gw, gh, x, y, offsets, n - 1);
        let cur = key_rec(cells, gw, gh, x, y, offsets, n);
        lemma_neighbor_index_in_range(
            gw,
            gh,
            x,
            y,
            offsets[n - 1].0 as int,
            offsets[n - 1].1 as int,
        );
        let c = cells[neighbor_index(
            gw,
            gh,
            x,
            y,
            offsets[n - 1].0 as int,
            offsets[n - 1].1 as int,
        )] as u64;
        assert(cur == prev | (c << ((n - 1) as u64)));
        lemma_set_bit(prev, c, (n - 1) as u64, n as u64);
        assert forall|i: int|
            0 <= i < n implies (cur >> (i as u64)) & 1 == cells[neighbor_index(
            gw,
            gh,
            x,
            y,
            (#[trigger] offsets[i]).0 as int,
            offsets[i].1 as int,
        )] as u64 by {
            if i < n - 1 {
                assert((cur >> (i as u64)) & 1 == (prev >> (i as u64)) & 1);
            }
        }
    }
}

/// The packed key of any cell of a grid of zero-or-one states fits the key
/// space of its offset sequence: it is below `2^count` for `count` offsets.
pub proof fn lemma_key_spec_in_range(
    cells: Seq<u8>,
    gw: int,
    gh: int,
    x: int,
    y: int,
    offsets: Seq<(isize, isize)>,
)
    requires
        1 <= gw,
        1 <= gh,
        cells.len() == gw * gh,
        forall|i: int| 0 <= i < cells.len() ==> #[trigger] cells[i] <= 1,
        offsets.len() < 64,
    ensures
        key_spec(cells, gw, gh, x, y, offsets) < (1u64 << (offsets.len() as u64)),
{
    lemma_key_rec_bits(cells, gw, gh, x, y, offsets, offsets.len() as int);
    lemma_key_in_range(key_spec(cells, gw, gh, x, y, offsets), offsets.len() as u64);
}

/// The canonical neighborhood offsets of a `w` by `h` rectangle, in the
/// order that assigns each offset its bit position in the packed key.
pub fn offsets_for(w: usize, h: usize) -> (offsets: Vec<(isize, isize)>)
    requires
        1 <= w <= isize::MAX as usize,
        1 <= h <= isize::MAX as usize,
    ensures
        offsets@.len() == w * h,
        forall|p: int|
            0 <= p < offsets@.len() ==> (#[trigger] offsets@[p]).0 as int == offset_dx(
                w as int,
                h as int,
                p,
            ) && offsets@[p].1 as int == offset_dy(w as int, h as int, p),
{
    let half_w = (w - 1) / 2;
    let half_h = (h - 1) / 2;
    let mut offsets: Vec<(isize, isize)> = Vec::new();
    let mut i: usize = 0;
    while i < w
        invariant
            i <= w,
            1 <= w <= isize::MAX as usize,
            1 <= h <= isize::MAX as usize,
            half_w == (w - 1) as int / 2,
            half_h == (h - 1) as int / 2,
            offsets@.len() == i * h,
            forall|p: int|
                0 <= p < offsets@.len() ==> (#[trigger] offsets@[p]).0 as int == offset_dx(
                    w as int,
                    h as int,
                    p,
                ) && offsets@[p].1 as int == offset_dy(w as int, h as int, p),
        decreases w - i,
    {
        let mut j: usize = 0;
        while j < h
            invariant
                i < w,
                j <= h,
                1 <= w <= isize::MAX as usize,
                1 <= h <= isize::MAX as usize,
                half_w == (w - 1) as int / 2,
                half_h == (h - 1) as int / 2,
                offsets@.len() == i * h + j,
                forall|p: int|
                    0 <= p < offsets@.len() ==> (#[trigger] offsets@[p]).0 as int == offset_dx(
                        w as int,
                        h as int,
                        p,
                    ) && offsets@[p].1 as int == offset_dy(w as int, h as int, p),
            decreases h - j,
        {
            let dx = i as isize - half_w as isize;
            let dy = j as isize - half_h as isize;
            proof {
                lemma_fundamental_div_mod_converse(
                    i as int * h as int + j as int,
                    h as int,
                    i as int,
                    j as int,
                );
            }
            offsets.push((dx, dy));
            j += 1;
        }
        i += 1;
        proof {
            assert((i - 1) * h + h == i * h) by (nonlinear_arith);
        }
    }
    proof {
        assert(i == w);
    }
    offsets
}

/// Euclidean remainder of `v + d` by `m`, used to wrap a coordinate onto a
/// toroidal axis of extent `m`.
fn wrap_coord(v: usize, d: isize, m: usize) -> (r: usize)
    requires
        1 <= m,
    ensures
        r as int == (v + d) % (m as int),
        r < m,
{
    let a: i128 = v as i128 + d as i128;
    let m128: i128 = m as i128;
    proof {
        lemma_mod_division_less_than_divisor(a as int, m128 as int);
    }
    let r: i128 = a.checked_rem_euclid(m128).unwrap();
    r as usize
}

/// The packed neighborhood key of the cell at `(x, y)`: for each offset
/// `(dx, dy)` at position `i`, the state of the wrapped neighbor is OR-ed
/// into bit `i` of the accumulator.
pub fn key_for(
    cells: &Vec<u8>,
    grid_w: usize,
    grid_h: usize,
    x: usize,
    y: usize,
    offsets: &Vec<(isize, isize)>,
) -> (key: u64)
    requires
        1 <= grid_w,
        1 <= grid_h,
        cells@.len() == grid_w * grid_h,
        x < grid_w,
        y < grid_h,
        offsets@.len() <= 64,
        forall|i: int| 0 <= i < cells@.len() ==> #[trigger] cells@[i] <= 1,
    ensures
        key == key_spec(cells@, grid_w as int, grid_h as int, x as int, y as int, offsets@),
{
    let n = cells.len();
    let mut key: u64 = 0;
    let mut i: usize = 0;
    while i < offsets.len()
        invariant
            i <= offsets@.len() <= 64,
            1 <= grid_w,
            1 <= grid_h,
            n == cells@.len(),
            cells@.len() == grid_w * grid_h,
            x < grid_w,
            y < grid_h,
            forall|k: int| 0 <= k < cells@.len() ==> #[trigger] cells@[k] <= 1,
            key == key_rec(
                cells@,
                grid_w as int,
                grid_h as int,
                x as int,
                y as int,
                offsets@,
                i as int,
            ),
        decreases offsets@.len() - i,
    {
        let (dx, dy) = offsets[i];
        let nx = wrap_coord(x, dx, grid_w);
        let ny = wrap_coord(y, dy, grid_h);
        proof {
            lemma_neighbor_index_in_range(
                grid_w as int,
                grid_h as int,
                x as int,
                y as int,
                dx as int,
                dy as int,
            );
            assert(nx + ny * grid_w == neighbor_index(
                grid_w as int,
                grid_h as int,
                x as int,
                y as int,
                dx as int,
                dy as int,
            ));
        }
        let idx = nx + ny * grid_w;
        let c = cells[idx];
        key = key | ((c as u64) << (i as u64));
        i += 1;
    }
    key
}

} // verus!
