//! Coordinates: the index of a voxel in the dense array of its chunk, and
//! the chunk and place of a voxel of the world.

use crate::table::{is_chunk_key, pos_key};
use vstd::arithmetic::div_mod::{
    lemma_fundamental_div_mod, lemma_fundamental_div_mod_converse, lemma_mod_pos_bound,
};
use vstd::prelude::*;

verus! {

/// Number of voxels in a chunk whose side is `side` voxels long.
pub open spec fn volume(side: int) -> int {
    side * side * side
}

/// Position of the voxel `(x, y, z)` in the dense array of a chunk of side
/// `side`: `x` varies fastest, then `y`, then `z`.
pub open spec fn local_index(side: int, x: int, y: int, z: int) -> int {
    x + y * side + z * side * side
}

/// Whether `(x, y, z)` names a voxel of a chunk of side `side`.
pub open spec fn in_chunk(side: int, x: int, y: int, z: int) -> bool {
    0 <= x < side && 0 <= y < side && 0 <= z < side
}

/// Every voxel of a chunk has its index inside the dense array.
pub proof fn lemma_index_in_volume(side: int, x: int, y: int, z: int)
    requires
        in_chunk(side, x, y, z),
    ensures
        0 <= local_index(side, x, y, z) < volume(side),
{
    assert(0 <= y * side <= (side - 1) * side) by (nonlinear_arith)
        requires
            0 <= y <= side - 1,
            0 < side,
    ;
    assert(0 <= z * side * side <= (side - 1) * side * side) by (nonlinear_arith)
        requires
            0 <= z <= side - 1,
            0 < side,
    ;
    assert((side - 1) + (side - 1) * side + (side - 1) * side * side == side * side * side - 1)
        by (nonlinear_arith);
}

/// Two voxels of a chunk that share an index are the same voxel.
pub proof fn lemma_index_injective(side: int, x1: int, y1: int, z1: int, x2: int, y2: int, z2: int)
    requires
        in_chunk(side, x1, y1, z1),
        in_chunk(side, x2, y2, z2),
        local_index(side, x1, y1, z1) == local_index(side, x2, y2, z2),
    ensures
        x1 == x2 && y1 == y2 && z1 == z2,
{
    let a = y1 + z1 * side;
    let b = y2 + z2 * side;
    assert(local_index(side, x1, y1, z1) == x1 + a * side) by (nonlinear_arith)
        requires
            a == y1 + z1 * side,
    ;
    assert(local_index(side, x2, y2, z2) == x2 + b * side) by (nonlinear_arith)
        requires
            b == y2 + z2 * side,
    ;
    lemma_digits_unique(side, x1, a, x2, b);
    lemma_digits_unique(side, y1, z1, y2, z2);
}

/// A number below `side * k` has one way of being written as
/// `low + high * side` with `0 <= low < side`.
proof fn lemma_digits_unique(side: int, low1: int, high1: int, low2: int, high2: int)
    requires
        0 <= low1 < side,
        0 <= low2 < side,
        low1 + high1 * side == low2 + high2 * side,
    ensures
        low1 == low2,
        high1 == high2,
{
    assert(high1 == high2) by (nonlinear_arith)
        requires
            0 <= low1 < side,
            0 <= low2 < side,
            low1 + high1 * side == low2 + high2 * side,
    ;
}

/// The voxel one step up the `y` axis lies `side` places further in the array.
pub proof fn lemma_index_step_y(side: int, x: int, y: int, z: int, dy: int)
    ensures
        local_index(side, x, y + dy, z) == local_index(side, x, y, z) + dy * side,
{
    assert((y + dy) * side == y * side + dy * side) by (nonlinear_arith);
}

/// The `x` coordinate of the voxel stored at index `i`.
pub open spec fn index_x(side: int, i: int) -> int {
    i % side
}

/// The `y` coordinate of the voxel stored at index `i`.
pub open spec fn index_y(side: int, i: int) -> int {
    (i / side) % side
}

/// The `z` coordinate of the voxel stored at index `i`.
pub open spec fn index_z(side: int, i: int) -> int {
    (i / side) / side
}

/// Taking the coordinates of a voxel's index gives the voxel back.
pub proof fn lemma_coords_of_index(side: int, x: int, y: int, z: int)
    requires
        in_chunk(side, x, y, z),
    ensures
        index_x(side, local_index(side, x, y, z)) == x,
        index_y(side, local_index(side, x, y, z)) == y,
        index_z(side, local_index(side, x, y, z)) == z,
{
    let i = local_index(side, x, y, z);
    let q = y + z * side;
    assert(i == q * side + x) by (nonlinear_arith)
        requires
            i == x + y * side + z * side * side,
            q == y + z * side,
    ;
    lemma_fundamental_div_mod_converse(i, side, q, x);
    lemma_fundamental_div_mod_converse(q, side, z, y);
}

/// Every index of the dense array is the index of one voxel of the chunk:
/// the voxel at the index's coordinates.
pub proof fn lemma_index_of_coords(side: int, i: int)
    requires
        0 <= i < volume(side),
    ensures
        in_chunk(side, index_x(side, i), index_y(side, i), index_z(side, i)),
        local_index(side, index_x(side, i), index_y(side, i), index_z(side, i)) == i,
{
    assert(side > 0) by (nonlinear_arith)
        requires
            0 < side * side * side,
    ;
    let q = i / side;
    lemma_fundamental_div_mod(i, side);
    lemma_mod_pos_bound(i, side);
    lemma_fundamental_div_mod(q, side);
    lemma_mod_pos_bound(q, side);
    let x = i % side;
    let y = q % side;
    let z = q / side;
    assert(0 <= z < side) by (nonlinear_arith)
        requires
            side > 0,
            0 <= i < side * side * side,
            i == side * q + x,
            0 <= x < side,
            q == side * z + y,
            0 <= y < side,
    ;
    assert(x + y * side + z * side * side == i) by (nonlinear_arith)
        requires
            i == side * q + x,
            q == side * z + y,
    ;
}

/// Where a row or a layer of a chunk ends, the next one begins.
pub proof fn lemma_index_carry(side: int, y: int, z: int)
    ensures
        local_index(side, side, y, z) == local_index(side, 0, y + 1, z),
        local_index(side, 0, side, z) == local_index(side, 0, 0, z + 1),
        local_index(side, 0, 0, side) == volume(side),
        local_index(side, 0, 0, 0) == 0,
{
    assert(side + y * side == (y + 1) * side) by (nonlinear_arith);
    assert(side * side + z * side * side == (z + 1) * side * side) by (nonlinear_arith);
    assert(0 * side == 0 && 0 * side * side == 0) by (nonlinear_arith);
}

/// Computes `local_index` in machine integers.
pub fn local_pos_to_idx(side: usize, x: usize, y: usize, z: usize) -> (idx: usize)
    requires
        local_index(side as int, x as int, y as int, z as int) <= usize::MAX,
    ensures
        idx == local_index(side as int, x as int, y as int, z as int),
{
    assert(y * side >= 0 && z * side >= 0 && z * side * side >= 0) by (nonlinear_arith);
    assert(z * side <= z * side * side || side == 0) by (nonlinear_arith);
    x + y * side + z * side * side
}

/// Computes `local_index` in machine integers; `None` where the machine
/// cannot hold it.
pub fn checked_local_index(side: usize, x: usize, y: usize, z: usize) -> (idx: Option<usize>)
    ensures
        idx is Some <==> local_index(side as int, x as int, y as int, z as int) <= usize::MAX,
        idx matches Some(i) ==> i == local_index(side as int, x as int, y as int, z as int),
{
    assert(y * side >= 0 && z * side >= 0 && z * side * side >= 0) by (nonlinear_arith);
    let row = match y.checked_mul(side) {
        Some(v) => v,
        None => {
            return None;
        },
    };
    let layer = if z == 0 {
        assert(z * side * side == 0) by (nonlinear_arith)
            requires
                z == 0,
        ;
        0
    } else {
        assert(z * side <= z * side * side || side == 0) by (nonlinear_arith)
            requires
                z >= 0,
                side >= 0,
        ;
        assert(side == 0 ==> z * side * side == 0 && z * side == 0) by (nonlinear_arith);
        match z.checked_mul(side) {
            Some(v) => match v.checked_mul(side) {
                Some(w) => w,
                None => {
                    return None;
                },
            },
            None => {
                return None;
            },
        }
    };
    match x.checked_add(row) {
        Some(v) => v.checked_add(layer),
        None => None,
    }
}

/// The number of voxels of a chunk of side `side`, where it fits the machine.
pub fn chunk_volume(side: usize) -> (n: usize)
    requires
        volume(side as int) <= usize::MAX,
    ensures
        n == volume(side as int),
{
    if side == 0 {
        assert(side * side * side == 0) by (nonlinear_arith)
            requires
                side == 0,
        ;
        return 0;
    }
    assert(side * side <= side * side * side) by (nonlinear_arith)
        requires
            side >= 1,
    ;
    side * side * side
}

/// The number of voxels of a chunk of side `side`; `None` where the machine
/// cannot hold that number.
pub fn checked_volume(side: usize) -> (n: Option<usize>)
    ensures
        n == if volume(side as int) <= usize::MAX {
            Some(volume(side as int) as usize)
        } else {
            None
        },
{
    match side.checked_mul(side) {
        None => {
            assert(side * side <= side * side * side) by (nonlinear_arith)
                requires
                    side >= 1,
            ;
            None
        },
        Some(square) => square.checked_mul(side),
    }
}

/// Splits one coordinate of a voxel of the world into the coordinate of
/// its chunk and its place inside the chunk: floor division by the chunk's
/// side, and the remainder.
pub fn voxel_to_chunk(v: i32, side: usize) -> (r: (i32, usize))
    requires
        0 < side <= i32::MAX,
    ensures
        r.0 == v as int / side as int,
        r.1 == v as int % side as int,
{
    let s = side as i64;
    let w = v as i64;
    if w >= 0 {
        let q = w / s;
        let m = w % s;
        proof {
            lemma_fundamental_div_mod(w as int, s as int);
            lemma_mod_pos_bound(w as int, s as int);
            assert(0 <= q <= w) by (nonlinear_arith)
                requires
                    w == s * q + m,
                    0 <= m < s,
                    w >= 0,
            ;
        }
        (q as i32, m as usize)
    } else {
        let n = -(w + 1);
        let q = -(n / s) - 1;
        let m = s - 1 - n % s;
        proof {
            lemma_fundamental_div_mod(n as int, s as int);
            lemma_mod_pos_bound(n as int, s as int);
            assert(w == q * s + m) by (nonlinear_arith)
                requires
                    n == -(w + 1),
                    q == -(n / s) - 1,
                    m == s - 1 - n % s,
                    n == s * (n / s) + n % s,
            ;
            assert(q >= -0x8000_0000) by (nonlinear_arith)
                requires
                    w == q * s + m,
                    w >= -0x8000_0000,
                    0 <= m < s,
                    s >= 1,
                    q < 0,
            ;
            lemma_fundamental_div_mod_converse(w as int, s as int, q as int, m as int);
        }
        (q as i32, m as usize)
    }
}

/// The coordinates of the first voxel of the chunk at `chunk_pos`: the
/// chunk's coordinates times the chunk's side. `None` where one of them is
/// no 32-bit coordinate.
pub fn chunk_origin(chunk_pos: &[i32; 3], side: usize) -> (r: Option<[i32; 3]>)
    ensures
        r is Some <==> is_chunk_key(
            (chunk_pos[0] * side as int, chunk_pos[1] * side as int, chunk_pos[2] * side as int),
        ),
        r matches Some(origin) ==> pos_key(origin) == (
            chunk_pos[0] * side as int,
            chunk_pos[1] * side as int,
            chunk_pos[2] * side as int,
        ),
{
    match (scaled(chunk_pos[0], side), scaled(chunk_pos[1], side), scaled(chunk_pos[2], side)) {
        (Some(x), Some(y), Some(z)) => Some([x, y, z]),
        _ => None,
    }
}

/// A chunk coordinate times the chunk's side, where that fits 32 bits.
fn scaled(c: i32, side: usize) -> (r: Option<i32>)
    ensures
        r is Some <==> i32::MIN <= c * side as int <= i32::MAX,
        r matches Some(v) ==> v == c * side as int,
{
    if c == 0 {
        assert((c * side) == 0) by (nonlinear_arith)
            requires
                c == 0,
        ;
        return Some(0);
    }
    if side > 0x8000_0000 {
        assert((c * side) > i32::MAX || (c * side) < i32::MIN) by (nonlinear_arith)
            requires
                c != 0,
                side > 0x8000_0000,
        ;
        return None;
    }
    assert(-0x8000_0000 * 0x8000_0000 <= (c * side) <= 0x8000_0000 * 0x8000_0000)
        by (nonlinear_arith)
        requires
            -0x8000_0000 <= c <= 0x7FFF_FFFF,
            0 <= side <= 0x8000_0000,
    ;
    let product = c as i64 * side as i64;
    if -0x8000_0000 <= product && product <= 0x7FFF_FFFF {
        Some(product as i32)
    } else {
        None
    }
}

/// A voxel of a chunk lies in that chunk: splitting the world coordinate
/// of the voxel at place `local` of the chunk `c` gives `c` and `local`
/// back.
pub proof fn lemma_voxel_of_chunk(c: int, local: int, side: int)
    requires
        0 <= local < side,
    ensures
        (c * side + local) / side == c,
        (c * side + local) % side == local,
{
    lemma_fundamental_div_mod_converse(c * side + local, side, c, local);
}

} // verus!
