//! Integer helpers: rounded-up division and the row-major mapping between a
//! linear cell index and a 3D coordinate.
use vstd::prelude::*;
use vstd::arithmetic::div_mod::lemma_fundamental_div_mod_converse;

verus! {

/// The x coordinate of cell `index`.
pub open spec fn coord_x(index: int, dim_x: int) -> int {
    index % dim_x
}

/// The y coordinate of cell `index`.
pub open spec fn coord_y(index: int, dim_x: int, dim_y: int) -> int {
    (index / dim_x) % dim_y
}

/// The z coordinate of cell `index`.
pub open spec fn coord_z(index: int, dim_x: int, dim_y: int) -> int {
    index / (dim_x * dim_y)
}

/// A coordinate with `x < dim_x` and `y < dim_y` is the one that the
/// row-major index of it decodes to.
pub proof fn lemma_coord_unique(index: int, x: int, y: int, z: int, dim_x: int, dim_y: int)
    requires
        dim_x > 0,
        dim_y > 0,
        0 <= x < dim_x,
        0 <= y < dim_y,
        z >= 0,
        index == linear_index(x, y, z, dim_x, dim_y),
    ensures
        x == coord_x(index, dim_x),
        y == coord_y(index, dim_x, dim_y),
        z == coord_z(index, dim_x, dim_y),
{
    assert(index == (y + z * dim_y) * dim_x + x) by (nonlinear_arith)
        requires index == linear_index(x, y, z, dim_x, dim_y);
    lemma_fundamental_div_mod_converse(index, dim_x, y + z * dim_y, x);
    assert(y + z * dim_y == z * dim_y + y);
    lemma_fundamental_div_mod_converse(index / dim_x, dim_y, z, y);
    assert(x + y * dim_x < dim_x * dim_y) by (nonlinear_arith)
        requires 0 <= x < dim_x, 0 <= y < dim_y;
    assert(0 <= x + y * dim_x) by (nonlinear_arith)
        requires 0 <= x, 0 <= y, dim_x > 0;
    assert(dim_x * dim_y > 0) by (nonlinear_arith)
        requires dim_x > 0, dim_y > 0;
    assert(index == z * (dim_x * dim_y) + (x + y * dim_x));
    lemma_fundamental_div_mod_converse(index, dim_x * dim_y, z, x + y * dim_x);
}

/// Types that can be read back from the bytes of a GPU buffer, one value
/// after the other. GPU buffers hold their values little-endian.
pub trait Convert2Vec: Sized {
    /// The number of bytes of one value.
    spec fn byte_size() -> nat;

    /// The value that the first `byte_size()` bytes of `bytes` encode.
    spec fn decode(bytes: Seq<u8>) -> Self;

    /// The values that `data` holds; bytes after the last whole value are
    /// ignored.
    fn convert(data: &[u8]) -> (r: Vec<Self>)
        ensures
            r@.len() == data@.len() / Self::byte_size(),
            forall|i: int|
                0 <= i < r@.len() ==> #[trigger] r@[i] == Self::decode(
                    data@.subrange(i * Self::byte_size(), (i + 1) * Self::byte_size()),
                ),
    ;
}

/// The little-endian `u32` in the four bytes of `b` from `at` on.
pub open spec fn le_u32(b: Seq<u8>, at: int) -> u32 {
    (b[at] as int + b[at + 1] as int * 0x100 + b[at + 2] as int * 0x10000 + b[at + 3] as int
        * 0x1000000) as u32
}

/// The little-endian `u32` in `data[at..at + 4]`.
pub fn read_u32_le(data: &[u8], at: usize) -> (r: u32)
    requires
        at + 4 <= data@.len(),
    ensures
        r == le_u32(data@, at as int),
{
    data[at] as u32 + data[at + 1] as u32 * 0x100 + data[at + 2] as u32 * 0x10000 + data[at + 3] as u32
        * 0x1000000
}

impl Convert2Vec for u32 {
    open spec fn byte_size() -> nat {
        4
    }

    open spec fn decode(bytes: Seq<u8>) -> u32 {
        le_u32(bytes, 0)
    }

    fn convert(data: &[u8]) -> (r: Vec<u32>) {
        let len = data.len();
        let n = len / 4;
        let mut result: Vec<u32> = Vec::new();
        for i in 0..n
            invariant
                n == data@.len() / 4,
                len == data@.len(),
                result@.len() == i,
                forall|k: int|
                    0 <= k < i ==> #[trigger] result@[k] == le_u32(data@.subrange(k * 4, (k + 1) * 4), 0),
        {
            assert(4 * i + 4 <= data@.len()) by (nonlinear_arith)
                requires i < n, n == data@.len() / 4;
            let v = read_u32_le(data, 4 * i);
            assert(le_u32(data@.subrange(i * 4, (i + 1) * 4), 0) == le_u32(data@, 4 * i));
            result.push(v);
        }
        result
    }
}

/// The coordinate `(x, y, z)` of a grid whose rows are `dim_x` long and whose
/// layers hold `dim_y` rows, as one row-major index.
pub open spec fn linear_index(x: int, y: int, z: int, dim_x: int, dim_y: int) -> int {
    x + y * dim_x + z * (dim_x * dim_y)
}

/// `x / y`, rounded up.
pub fn udiv_up_32(x: u32, y: u32) -> (r: u32)
    requires
        y > 0,
        x + y - 1 <= u32::MAX,
    ensures
        r * y >= x,
        r == 0 || (r - 1) * y < x,
{
    let r = (x + (y - 1)) / y;
    proof {
        let a = x + y - 1;
        assert(a == r * y + a % (y as int)) by (nonlinear_arith)
            requires y > 0, r == a / (y as int);
        assert(0 <= a % (y as int) < y) by (nonlinear_arith)
            requires y > 0;
        assert(r * y >= x) by (nonlinear_arith)
            requires a == r * y + a % (y as int), a % (y as int) < y, a == x + y - 1;
        assert(r == 0 || (r - 1) * y < x) by (nonlinear_arith)
            requires a == r * y + a % (y as int), a % (y as int) >= 0, a == x + y - 1;
    }
    r
}

/// `x / y` rounded up, and 0 where `y` is 0.
pub fn udiv_up_safe32(x: u32, y: u32) -> (r: u32)
    requires
        x + y - 1 <= u32::MAX,
    ensures
        y == 0 ==> r == 0,
        y > 0 ==> r * y >= x && (r == 0 || (r - 1) * y < x),
{
    if y == 0 {
        0
    } else {
        udiv_up_32(x, y)
    }
}

/// The coordinate of `index` in a grid whose rows are `dim_x` long and whose
/// layers hold `dim_y` rows. The z direction is unbounded.
pub fn index_to_uvec3(index: u32, dim_x: u32, dim_y: u32) -> (r: [u32; 3])
    requires
        dim_x > 0,
        dim_y > 0,
        dim_x * dim_y <= u32::MAX,
    ensures
        r[0] < dim_x,
        r[1] < dim_y,
        index == linear_index(r[0] as int, r[1] as int, r[2] as int, dim_x as int, dim_y as int),
        r[0] == coord_x(index as int, dim_x as int),
        r[1] == coord_y(index as int, dim_x as int, dim_y as int),
        r[2] == coord_z(index as int, dim_x as int, dim_y as int),
{
    let wh = dim_x * dim_y;
    proof {
        assert(wh > 0) by (nonlinear_arith)
            requires dim_x > 0, dim_y > 0, wh == dim_x * dim_y;
    }
    let z = index / wh;
    proof {
        assert(z * wh <= index) by (nonlinear_arith)
            requires wh > 0, z == index as int / (wh as int);
    }
    let rest = index - z * wh;
    proof {
        assert(rest < wh) by (nonlinear_arith)
            requires wh > 0, z == index as int / (wh as int), rest == index - z * wh;
    }
    let y = rest / dim_x;
    proof {
        assert(y * dim_x <= rest) by (nonlinear_arith)
            requires dim_x > 0, y == rest as int / (dim_x as int);
    }
    let x = rest - y * dim_x;
    proof {
        assert(x < dim_x) by (nonlinear_arith)
            requires dim_x > 0, y == rest as int / (dim_x as int), x == rest - y * dim_x;
        assert(y < dim_y) by (nonlinear_arith)
            requires dim_x > 0, y == rest as int / (dim_x as int), rest < wh, wh == dim_x * dim_y;
        assert(z * (dim_x * dim_y) == z * wh);
        lemma_coord_unique(index as int, x as int, y as int, z as int, dim_x as int, dim_y as int);
    }
    [x, y, z]
}

/// The row-major index of `(x, y, z)` in a grid of rows `dimX` long and
/// layers of `dimY` rows.
#[allow(non_snake_case)]
pub fn uvec3_to_index(x: u32, y: u32, z: u32, dimX: u32, dimY: u32) -> (r: u32)
    requires
        linear_index(x as int, y as int, z as int, dimX as int, dimY as int) <= u32::MAX,
        z * dimX <= u32::MAX,
    ensures
        r == linear_index(x as int, y as int, z as int, dimX as int, dimY as int),
{
    proof {
        assert(0 <= y * dimX && 0 <= z * (dimX * dimY) && dimX * dimY >= 0) by (nonlinear_arith);
        assert(z * dimX * dimY == z * (dimX * dimY)) by (nonlinear_arith);
        if z > 0 {
            assert(dimX * dimY <= z * (dimX * dimY)) by (nonlinear_arith)
                requires z > 0, dimX * dimY >= 0;
        }
    }
    x + y * dimX + z * dimX * dimY
}

} // verus!
