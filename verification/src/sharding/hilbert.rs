//! Space-filling curve used to map multidimensional points to a single
//! `u64` key and back.
//!
//! The curve is processed level by level, from the most significant bit of
//! every coordinate down to the least significant one.  At each level the
//! bits of all coordinates form a *cell* number (bit `j` of the cell is the
//! bit of coordinate `j`), and the cell is turned into one base-`2^d` digit
//! of the index.  How cells become digits depends on a small state that is
//! carried from level to level:
//!
//! * `Diagonal` (the initial state): the digit is the cell itself; the state
//!   stays `Diagonal` while the cell is the all-ones corner and becomes
//!   `Plain` otherwise.
//! * `Plain`: the digit is the Gray-code rank of the cell; a digit of zero
//!   switches to `Swapped`.
//! * `Swapped`: the cell bits are first rotated right by one position, then
//!   ranked as in `Plain`; a digit of zero switches back to `Plain`.
//!
//! The map is a bijection between points with `bits_per_dimension`-bit
//! coordinates and indices below `2^(dimensions * bits_per_dimension)`.

use vstd::prelude::*;
use vstd::arithmetic::power::pow;
use vstd::arithmetic::power::lemma_pow_multiplies;
use vstd::arithmetic::power::lemma_pow_increases;
use vstd::arithmetic::power2::pow2;
use vstd::arithmetic::power2::lemma_pow2;
use vstd::arithmetic::power2::lemma_pow2_unfold;
use vstd::arithmetic::power2::lemma_pow2_pos;
use vstd::arithmetic::power2::lemma2_to64;
use vstd::arithmetic::div_mod::lemma_fundamental_div_mod;
use vstd::arithmetic::div_mod::lemma_div_pos_is_pos;
use vstd::bits::lemma_u128_shr_is_div;
use crate::sharding::digits::from_digits;
use crate::sharding::digits::to_digits;
use crate::sharding::digits::all_below;
use crate::sharding::digits::lemma_to_digits_shape;
use crate::sharding::digits::lemma_from_digits_bound;
use crate::sharding::digits::lemma_from_to_digits;
use crate::sharding::digits::lemma_to_from_digits;
use crate::sharding::digits::to_digits_exec;
use crate::sharding::digits::from_digits_exec;

verus! {

/// Gray code of `x`.
pub open spec fn gray(x: u128) -> u128 {
    x ^ (x >> 1u128)
}

/// Rank of `x` in the Gray-code order (inverse of [`gray`]).
pub open spec fn gray_inv(x: u128) -> u128 {
    let a = x ^ (x >> 1u128);
    let b = a ^ (a >> 2u128);
    let c = b ^ (b >> 4u128);
    let d = c ^ (c >> 8u128);
    let e = d ^ (d >> 16u128);
    let f = e ^ (e >> 32u128);
    f ^ (f >> 64u128)
}

/// Rotates the `top + 1` low bits of `x` right by one position.
pub open spec fn rot_right(x: u128, top: u128) -> u128 {
    (x >> 1u128) | ((x & 1u128) << top)
}

/// Rotates the `top + 1` low bits of `x` left by one position.
pub open spec fn rot_left(x: u128, top: u128) -> u128 {
    ((x ^ ((x >> top) << top)) << 1u128) | (x >> top)
}

/// State carried from one level of the curve to the next.
#[derive(Clone, Copy, Debug)]
pub enum CurveState {
    Diagonal,
    Plain,
    Swapped,
}

/// Digit produced by cell `c` in state `s`; `top` is `dimensions - 1`.
pub open spec fn cell_digit(s: CurveState, c: u128, top: u128) -> u128 {
    match s {
        CurveState::Diagonal => c,
        CurveState::Plain => gray_inv(c),
        CurveState::Swapped => gray_inv(rot_right(c, top)),
    }
}

/// Cell that produces digit `d` in state `s`.
pub open spec fn digit_cell(s: CurveState, d: u128, top: u128) -> u128 {
    match s {
        CurveState::Diagonal => d,
        CurveState::Plain => gray(d),
        CurveState::Swapped => rot_left(gray(d), top),
    }
}

/// State after cell `c` was encoded as digit `d` in state `s`; `ones` is the
/// all-ones cell.
pub open spec fn next_state(s: CurveState, c: u128, d: u128, ones: u128) -> CurveState {
    match s {
        CurveState::Diagonal => if c == ones {
            CurveState::Diagonal
        } else {
            CurveState::Plain
        },
        CurveState::Plain => if d == 0 {
            CurveState::Swapped
        } else {
            CurveState::Plain
        },
        CurveState::Swapped => if d == 0 {
            CurveState::Plain
        } else {
            CurveState::Swapped
        },
    }
}

/// Digits of the cells `cells` (entry `k` is level `k`), the highest level
/// being encoded first, starting in state `s`.
pub open spec fn cells_to_digits(cells: Seq<u128>, s: CurveState, top: u128, ones: u128) -> Seq<
    u128,
>
    decreases cells.len(),
{
    if cells.len() == 0 {
        Seq::empty()
    } else {
        let c = cells.last();
        let d = cell_digit(s, c, top);
        cells_to_digits(cells.drop_last(), next_state(s, c, d, ones), top, ones).push(d)
    }
}

/// Cells of the digits `ds` (entry `k` is level `k`), the highest level being
/// decoded first, starting in state `s`.
pub open spec fn digits_to_cells(ds: Seq<u128>, s: CurveState, top: u128, ones: u128) -> Seq<u128>
    decreases ds.len(),
{
    if ds.len() == 0 {
        Seq::empty()
    } else {
        let d = ds.last();
        let c = digit_cell(s, d, top);
        digits_to_cells(ds.drop_last(), next_state(s, c, d, ones), top, ones).push(c)
    }
}

/// Bit `k` of every coordinate of `p`, as the cell of level `k`.
pub open spec fn point_cells(p: Seq<u64>, dims: nat, bits: nat) -> Seq<u128> {
    Seq::new(
        bits,
        |k: int|
            from_digits(
                Seq::new(dims, |j: int| to_digits(p[j] as int, 2, bits)[k]),
                2,
            ) as u128,
    )
}

/// Coordinates whose bit `k` is given by the cell of level `k`.
pub open spec fn cells_point(cells: Seq<u128>, dims: nat, bits: nat) -> Seq<u64> {
    Seq::new(
        dims,
        |j: int|
            from_digits(
                Seq::new(bits, |k: int| to_digits(cells[k] as int, 2, dims)[j]),
                2,
            ) as u64,
    )
}

/// Position on the curve of the point `p`.
pub open spec fn curve_index(p: Seq<u64>, dims: nat, bits: nat) -> u64 {
    from_digits(
        cells_to_digits(
            point_cells(p, dims, bits),
            CurveState::Diagonal,
            (dims - 1) as u128,
            (pow2(dims) - 1) as u128,
        ),
        pow2(dims) as int,
    ) as u64
}

/// Point at position `i` on the curve (only the `dims * bits` low bits of
/// `i` are read).
pub open spec fn curve_point(i: u64, dims: nat, bits: nat) -> Seq<u64> {
    cells_point(
        digits_to_cells(
            to_digits(i as int, pow2(dims) as int, bits),
            CurveState::Diagonal,
            (dims - 1) as u128,
            (pow2(dims) - 1) as u128,
        ),
        dims,
        bits,
    )
}

/// Every coordinate of `p` fits in `bits` bits.
pub open spec fn coords_fit(p: Seq<u64>, bits: nat) -> bool {
    forall|j: int| 0 <= j < p.len() ==> p[j] < pow2(bits)
}

/// Curve parameters that the curve accepts.
pub open spec fn valid_shape(dims: nat, bits: nat) -> bool {
    dims > 0 && bits > 0 && dims * bits <= 64
}

proof fn lemma_gray_roundtrip(x: u128)
    ensures
        gray_inv(gray(x)) == x,
        gray(gray_inv(x)) == x,
{
    assert(gray_inv(gray(x)) == x) by (bit_vector);
    assert(gray(gray_inv(x)) == x) by (bit_vector);
}

proof fn lemma_gray_range(x: u128, top: u128)
    requires
        top < 64,
        x >> top <= 1,
    ensures
        gray(x) >> top <= 1,
        gray_inv(x) >> top <= 1,
{
    assert(gray(x) >> top <= 1) by (bit_vector)
        requires
            top < 64,
            x >> top <= 1,
    ;
    assert(gray_inv(x) >> top <= 1) by (bit_vector)
        requires
            top < 64,
            x >> top <= 1,
    ;
}

proof fn lemma_rot_roundtrip(x: u128, top: u128)
    requires
        top < 64,
        x >> top <= 1,
    ensures
        rot_left(rot_right(x, top), top) == x,
        rot_right(rot_left(x, top), top) == x,
        rot_right(x, top) >> top <= 1,
        rot_left(x, top) >> top <= 1,
{
    assert(rot_left(rot_right(x, top), top) == x) by (bit_vector)
        requires
            top < 64,
            x >> top <= 1,
    ;
    assert(rot_right(rot_left(x, top), top) == x) by (bit_vector)
        requires
            top < 64,
            x >> top <= 1,
    ;
    assert(rot_right(x, top) >> top <= 1) by (bit_vector)
        requires
            top < 64,
            x >> top <= 1,
    ;
    assert(rot_left(x, top) >> top <= 1) by (bit_vector)
        requires
            top < 64,
            x >> top <= 1,
    ;
}

/// `x` fits in `top + 1` bits exactly when its shift by `top` is at most one.
proof fn lemma_fits_iff(x: u128, top: u128)
    requires
        top < 64,
    ensures
        (x >> top <= 1) <==> (x < pow2((top + 1) as nat)),
{
    lemma_u128_shr_is_div(x, top);
    lemma_pow2_unfold((top + 1) as nat);
    lemma_pow2_pos(top as nat);
    let p = pow2(top as nat) as int;
    lemma_fundamental_div_mod(x as int, p);
    assert(0 <= x as int % p < p);
    let q = x as int / p;
    assert(x as int == p * q + x as int % p);
    if q <= 1 {
        assert(p * q <= p) by (nonlinear_arith)
            requires
                q <= 1,
                p > 0,
        ;
    } else {
        assert(p * q >= 2 * p) by (nonlinear_arith)
            requires
                q >= 2,
                p > 0,
        ;
    }
}

/// Encoding one cell and decoding its digit give back the cell, and the
/// digit stays in range.
proof fn lemma_step_roundtrip(s: CurveState, c: u128, top: u128)
    requires
        top < 64,
        c >> top <= 1,
    ensures
        digit_cell(s, cell_digit(s, c, top), top) == c,
        cell_digit(s, c, top) >> top <= 1,
{
    lemma_gray_roundtrip(c);
    lemma_gray_range(c, top);
    lemma_rot_roundtrip(c, top);
    let r = rot_right(c, top);
    lemma_gray_roundtrip(r);
    lemma_gray_range(r, top);
}

/// Decoding one digit and encoding its cell give back the digit, and the
/// cell stays in range.
proof fn lemma_step_roundtrip_rev(s: CurveState, d: u128, top: u128)
    requires
        top < 64,
        d >> top <= 1,
    ensures
        cell_digit(s, digit_cell(s, d, top), top) == d,
        digit_cell(s, d, top) >> top <= 1,
{
    lemma_gray_roundtrip(d);
    lemma_gray_range(d, top);
    let g = gray(d);
    lemma_rot_roundtrip(g, top);
}

/// Every entry of `s` fits in `top + 1` bits.
pub open spec fn all_fit(s: Seq<u128>, top: u128) -> bool {
    forall|i: int| 0 <= i < s.len() ==> s[i] >> top <= 1
}

proof fn lemma_cells_digits_roundtrip(cells: Seq<u128>, s: CurveState, top: u128, ones: u128)
    requires
        top < 64,
        all_fit(cells, top),
    ensures
        cells_to_digits(cells, s, top, ones).len() == cells.len(),
        all_fit(cells_to_digits(cells, s, top, ones), top),
        digits_to_cells(cells_to_digits(cells, s, top, ones), s, top, ones) == cells,
    decreases cells.len(),
{
    if cells.len() > 0 {
        let c = cells.last();
        let d = cell_digit(s, c, top);
        lemma_step_roundtrip(s, c, top);
        let s2 = next_state(s, c, d, ones);
        let rest = cells.drop_last();
        assert(all_fit(rest, top));
        lemma_cells_digits_roundtrip(rest, s2, top, ones);
        let ds = cells_to_digits(cells, s, top, ones);
        let rd = cells_to_digits(rest, s2, top, ones);
        assert(ds == rd.push(d));
        assert(ds.last() == d);
        assert(ds.drop_last() =~= rd);
        assert(digits_to_cells(ds, s, top, ones) =~= cells);
    }
}

proof fn lemma_digits_cells_roundtrip(ds: Seq<u128>, s: CurveState, top: u128, ones: u128)
    requires
        top < 64,
        all_fit(ds, top),
    ensures
        digits_to_cells(ds, s, top, ones).len() == ds.len(),
        all_fit(digits_to_cells(ds, s, top, ones), top),
        cells_to_digits(digits_to_cells(ds, s, top, ones), s, top, ones) == ds,
    decreases ds.len(),
{
    if ds.len() > 0 {
        let d = ds.last();
        let c = digit_cell(s, d, top);
        lemma_step_roundtrip_rev(s, d, top);
        let s2 = next_state(s, c, d, ones);
        let rest = ds.drop_last();
        assert(all_fit(rest, top));
        lemma_digits_cells_roundtrip(rest, s2, top, ones);
        let cs = digits_to_cells(ds, s, top, ones);
        let rc = digits_to_cells(rest, s2, top, ones);
        assert(cs == rc.push(c));
        assert(cs.last() == c);
        assert(cs.drop_last() =~= rc);
        assert(cells_to_digits(cs, s, top, ones) =~= ds);
    }
}

/// `pow2(e)` is `pow(2, e)` and fits in 64 bits plus one.
proof fn lemma_pow2_small(e: nat)
    requires
        e <= 64,
    ensures
        pow2(e) == pow(2, e),
        0 < pow2(e) <= 0x1_0000_0000_0000_0000,
{
    lemma_pow2(e);
    lemma_pow2(64);
    lemma2_to64();
    lemma_pow_increases(2, e, 64);
    lemma_pow2_pos(e);
}

proof fn lemma_all_fit_iff(s: Seq<u128>, dims: nat)
    requires
        1 <= dims <= 64,
    ensures
        all_fit(s, (dims - 1) as u128) <==> all_below(s, pow2(dims) as int),
{
    assert forall|i: int| 0 <= i < s.len() implies ((s[i] >> ((dims - 1) as u128) <= 1) <==> s[i]
        < pow2(dims)) by {
        lemma_fits_iff(s[i], (dims - 1) as u128);
    }
}

/// Splitting a point into cells and reassembling it gives the point back.
proof fn lemma_point_cells_roundtrip(p: Seq<u64>, dims: nat, bits: nat)
    requires
        1 <= dims <= 64,
        1 <= bits <= 64,
        p.len() == dims,
        coords_fit(p, bits),
    ensures
        point_cells(p, dims, bits).len() == bits,
        all_below(point_cells(p, dims, bits), pow2(dims) as int),
        cells_point(point_cells(p, dims, bits), dims, bits) == p,
{
    lemma_pow2_small(dims);
    lemma_pow2_small(bits);
    let cells = point_cells(p, dims, bits);
    let bj = |j: int| to_digits(p[j] as int, 2, bits);
    let row = |k: int| Seq::new(dims, |j: int| to_digits(p[j] as int, 2, bits)[k]);
    assert forall|j: int| 0 <= j < dims implies #[trigger] bj(j).len() == bits && all_below(
        bj(j),
        2,
    ) by {
        lemma_to_digits_shape(p[j] as int, 2, bits);
    }
    assert forall|k: int| 0 <= k < bits implies all_below(#[trigger] row(k), 2) && cells[k]
        == from_digits(row(k), 2) && to_digits(cells[k] as int, 2, dims) == row(k) by {
        assert forall|j: int| 0 <= j < dims implies #[trigger] row(k)[j] < 2 by {
            lemma_to_digits_shape(p[j] as int, 2, bits);
            assert(row(k)[j] == bj(j)[k]);
        }
        lemma_from_digits_bound(row(k), 2);
        lemma_to_from_digits(row(k), 2);
    }
    assert(all_below(cells, pow2(dims) as int)) by {
        assert forall|k: int| 0 <= k < bits implies cells[k] < pow2(dims) by {
            lemma_from_digits_bound(row(k), 2);
        }
    }
    let back = cells_point(cells, dims, bits);
    assert forall|j: int| 0 <= j < dims implies back[j] == p[j] by {
        let col = Seq::new(bits, |k: int| to_digits(cells[k] as int, 2, dims)[j]);
        assert(col =~= bj(j)) by {
            assert forall|k: int| 0 <= k < bits implies col[k] == bj(j)[k] by {
                assert(to_digits(cells[k] as int, 2, dims) == row(k));
                assert(row(k)[j] == bj(j)[k]);
            }
        }
        lemma_from_to_digits(p[j] as int, 2, bits);
    }
    assert(back =~= p);
}

/// Reassembling a point from cells and splitting it again gives the cells
/// back.
proof fn lemma_cells_point_roundtrip(cells: Seq<u128>, dims: nat, bits: nat)
    requires
        1 <= dims <= 64,
        1 <= bits <= 64,
        cells.len() == bits,
        all_below(cells, pow2(dims) as int),
    ensures
        cells_point(cells, dims, bits).len() == dims,
        coords_fit(cells_point(cells, dims, bits), bits),
        point_cells(cells_point(cells, dims, bits), dims, bits) == cells,
{
    lemma_pow2_small(dims);
    lemma_pow2_small(bits);
    let p = cells_point(cells, dims, bits);
    let ck = |k: int| to_digits(cells[k] as int, 2, dims);
    let col = |j: int| Seq::new(bits, |k: int| to_digits(cells[k] as int, 2, dims)[j]);
    assert forall|k: int| 0 <= k < bits implies #[trigger] ck(k).len() == dims && all_below(
        ck(k),
        2,
    ) by {
        lemma_to_digits_shape(cells[k] as int, 2, dims);
    }
    assert forall|j: int| 0 <= j < dims implies all_below(#[trigger] col(j), 2) && p[j]
        == from_digits(col(j), 2) && p[j] < pow2(bits) && to_digits(p[j] as int, 2, bits) == col(
        j,
    ) by {
        assert forall|k: int| 0 <= k < bits implies #[trigger] col(j)[k] < 2 by {
            lemma_to_digits_shape(cells[k] as int, 2, dims);
            assert(col(j)[k] == ck(k)[j]);
        }
        lemma_from_digits_bound(col(j), 2);
        lemma_to_from_digits(col(j), 2);
    }
    assert(coords_fit(p, bits)) by {
        assert forall|j: int| 0 <= j < p.len() implies p[j] < pow2(bits) by {
            assert(all_below(col(j), 2));
        }
    }
    let back = point_cells(p, dims, bits);
    assert forall|k: int| 0 <= k < bits implies back[k] == cells[k] by {
        let r = Seq::new(dims, |j: int| to_digits(p[j] as int, 2, bits)[k]);
        assert(r =~= ck(k)) by {
            assert forall|j: int| 0 <= j < dims implies r[j] == ck(k)[j] by {
                assert(to_digits(p[j] as int, 2, bits) == col(j));
                assert(col(j)[k] == ck(k)[j]);
            }
        }
        lemma_from_to_digits(cells[k] as int, 2, dims);
    }
    assert(back =~= cells);
}

/// `pow2(dims)` raised to `bits` is `pow2(dims * bits)`, which fits in 64
/// bits plus one.
proof fn lemma_index_space(dims: nat, bits: nat)
    requires
        valid_shape(dims, bits),
    ensures
        1 <= dims <= 64,
        1 <= bits <= 64,
        pow(pow2(dims) as int, bits) == pow2(dims * bits),
        pow2(dims * bits) <= 0x1_0000_0000_0000_0000,
        2 <= pow2(dims) <= 0x1_0000_0000_0000_0000,
{
    assert(dims <= 64) by (nonlinear_arith)
        requires
            dims * bits <= 64,
            bits >= 1,
    ;
    assert(bits <= 64) by (nonlinear_arith)
        requires
            dims * bits <= 64,
            dims >= 1,
    ;
    lemma_pow2_small(dims);
    lemma_pow2_small(dims * bits);
    lemma_pow_multiplies(2, dims, bits);
    lemma_pow2_unfold(dims);
    lemma_pow2_pos((dims - 1) as nat);
}

/// Decoding the position of a point gives the point back, and positions lie
/// below `2^(dims * bits)`.
pub proof fn lemma_point_index_point(p: Seq<u64>, dims: nat, bits: nat)
    requires
        valid_shape(dims, bits),
        p.len() == dims,
        coords_fit(p, bits),
    ensures
        curve_index(p, dims, bits) < pow2(dims * bits),
        curve_point(curve_index(p, dims, bits), dims, bits) == p,
{
    lemma_index_space(dims, bits);
    let top = (dims - 1) as u128;
    let w = pow2(dims) as int;
    let ones = (pow2(dims) - 1) as u128;
    lemma_point_cells_roundtrip(p, dims, bits);
    let cells = point_cells(p, dims, bits);
    lemma_all_fit_iff(cells, dims);
    lemma_cells_digits_roundtrip(cells, CurveState::Diagonal, top, ones);
    let ds = cells_to_digits(cells, CurveState::Diagonal, top, ones);
    lemma_all_fit_iff(ds, dims);
    lemma_from_digits_bound(ds, w);
    let v = from_digits(ds, w);
    assert(v as u64 == v);
    lemma_to_from_digits(ds, w);
}

/// Encoding the point at a position gives the position back, for every
/// position below `2^(dims * bits)`.
pub proof fn lemma_index_point_index(i: u64, dims: nat, bits: nat)
    requires
        valid_shape(dims, bits),
        i < pow2(dims * bits),
    ensures
        curve_point(i, dims, bits).len() == dims,
        coords_fit(curve_point(i, dims, bits), bits),
        curve_index(curve_point(i, dims, bits), dims, bits) == i,
{
    lemma_index_space(dims, bits);
    let top = (dims - 1) as u128;
    let w = pow2(dims) as int;
    let ones = (pow2(dims) - 1) as u128;
    let ds = to_digits(i as int, w, bits);
    lemma_to_digits_shape(i as int, w, bits);
    lemma_all_fit_iff(ds, dims);
    lemma_digits_cells_roundtrip(ds, CurveState::Diagonal, top, ones);
    let cells = digits_to_cells(ds, CurveState::Diagonal, top, ones);
    lemma_all_fit_iff(cells, dims);
    lemma_cells_point_roundtrip(cells, dims, bits);
    lemma_from_to_digits(i as int, w, bits);
}

fn gray_exec(x: u128) -> (r: u128)
    ensures
        r == gray(x),
{
    x ^ (x >> 1u128)
}

fn gray_inv_exec(x: u128) -> (r: u128)
    ensures
        r == gray_inv(x),
{
    let a = x ^ (x >> 1u128);
    let b = a ^ (a >> 2u128);
    let c = b ^ (b >> 4u128);
    let d = c ^ (c >> 8u128);
    let e = d ^ (d >> 16u128);
    let f = e ^ (e >> 32u128);
    f ^ (f >> 64u128)
}

fn rot_right_exec(x: u128, top: u128) -> (r: u128)
    requires
        top < 64,
    ensures
        r == rot_right(x, top),
{
    (x >> 1u128) | ((x & 1u128) << top)
}

fn rot_left_exec(x: u128, top: u128) -> (r: u128)
    requires
        top < 64,
    ensures
        r == rot_left(x, top),
{
    ((x ^ ((x >> top) << top)) << 1u128) | (x >> top)
}

fn encode_cell(s: CurveState, c: u128, top: u128) -> (d: u128)
    requires
        top < 64,
    ensures
        d == cell_digit(s, c, top),
{
    match s {
        CurveState::Diagonal => c,
        CurveState::Plain => gray_inv_exec(c),
        CurveState::Swapped => gray_inv_exec(rot_right_exec(c, top)),
    }
}

fn decode_digit(s: CurveState, d: u128, top: u128) -> (c: u128)
    requires
        top < 64,
    ensures
        c == digit_cell(s, d, top),
{
    match s {
        CurveState::Diagonal => d,
        CurveState::Plain => gray_exec(d),
        CurveState::Swapped => rot_left_exec(gray_exec(d), top),
    }
}

fn advance(s: CurveState, c: u128, d: u128, ones: u128) -> (r: CurveState)
    ensures
        r == next_state(s, c, d, ones),
{
    match s {
        CurveState::Diagonal => if c == ones {
            CurveState::Diagonal
        } else {
            CurveState::Plain
        },
        CurveState::Plain => if d == 0 {
            CurveState::Swapped
        } else {
            CurveState::Plain
        },
        CurveState::Swapped => if d == 0 {
            CurveState::Plain
        } else {
            CurveState::Swapped
        },
    }
}

fn pow2_exec(e: usize) -> (w: u128)
    requires
        e <= 64,
    ensures
        w == pow2(e as nat),
{
    let mut w: u128 = 1;
    let mut k: usize = 0;
    proof {
        lemma_pow2(0);
        reveal(pow);
    }
    while k < e
        invariant
            k <= e <= 64,
            w == pow2(k as nat),
        decreases e - k,
    {
        proof {
            lemma_pow2_unfold((k + 1) as nat);
            lemma_pow2_small((k + 1) as nat);
        }
        w = w * 2;
        k = k + 1;
    }
    w
}

fn zero_vec(n: usize) -> (v: Vec<u128>)
    ensures
        v@.len() == n,
{
    let mut v: Vec<u128> = Vec::new();
    let mut k: usize = 0;
    while k < n
        invariant
            k <= n,
            v@.len() == k,
        decreases n - k,
    {
        v.push(0);
        k = k + 1;
    }
    v
}

/// Maps points with `dimensions` coordinates of `bits_per_dimension` bits to
/// positions on the curve and back.
#[derive(Debug)]
pub struct HilbertCurve {
    dimensions: usize,
    bits_per_dimension: usize,
}

impl HilbertCurve {
    #[verifier::type_invariant]
    spec fn shape_ok(&self) -> bool {
        valid_shape(self.dimensions as nat, self.bits_per_dimension as nat)
    }

    /// Number of coordinates of a point.
    pub closed spec fn dims(&self) -> nat {
        self.dimensions as nat
    }

    /// Number of bits of each coordinate.
    pub closed spec fn bits(&self) -> nat {
        self.bits_per_dimension as nat
    }

    /// Creates a curve over `dimensions` coordinates of `bits_per_dimension`
    /// bits each; both must be positive and their product at most 64.
    pub fn new(dimensions: usize, bits_per_dimension: usize) -> (c: Self)
        requires
            valid_shape(dimensions as nat, bits_per_dimension as nat),
        ensures
            c.dims() == dimensions,
            c.bits() == bits_per_dimension,
    {
        HilbertCurve { dimensions, bits_per_dimension }
    }

    /// Number of bits of each coordinate.
    pub fn bits_per_dimension(&self) -> (b: usize)
        ensures
            b == self.bits(),
    {
        self.bits_per_dimension
    }

    /// Position of `point` on the curve.
    pub fn point_to_index(&self, point: &[u64]) -> (idx: u64)
        requires
            point@.len() == self.dims(),
            coords_fit(point@, self.bits()),
        ensures
            idx == curve_index(point@, self.dims(), self.bits()),
            idx < pow2(self.dims() * self.bits()),
    {
        proof {
            use_type_invariant(self);
            lemma_index_space(self.dims(), self.bits());
            lemma_point_index_point(point@, self.dims(), self.bits());
        }
        let d = self.dimensions;
        let b = self.bits_per_dimension;
        let ghost p = point@;
        assert(d <= 64 && b <= 64) by (nonlinear_arith)
            requires
                d * b <= 64,
                d >= 1,
                b >= 1,
        ;
        proof {
            lemma_pow2_small(d as nat);
            lemma_pow2_small(b as nat);
        }
        // bits of every coordinate
        let mut coord_bits: Vec<Vec<u128>> = Vec::new();
        let mut j: usize = 0;
        while j < d
            invariant
                j <= d,
                d == p.len(),
                p == point@,
                coord_bits@.len() == j,
                forall|jj: int| 0 <= jj < j ==> (#[trigger] coord_bits@[jj])@ == to_digits(p[jj] as int, 2, b as nat),
            decreases d - j,
        {
            coord_bits.push(to_digits_exec(point[j] as u128, 2, b));
            j = j + 1;
        }
        // one cell per level
        let mut cells: Vec<u128> = Vec::new();
        let mut k: usize = 0;
        while k < b
            invariant
                k <= b <= 64,
                1 <= d <= 64,
                d == p.len(),
                coord_bits@.len() == d,
                forall|jj: int| 0 <= jj < d ==> (#[trigger] coord_bits@[jj])@ == to_digits(p[jj] as int, 2, b as nat),
                pow(2, d as nat) <= 0x1_0000_0000_0000_0000,
                cells@.len() == k,
                forall|kk: int| 0 <= kk < k ==> #[trigger] cells@[kk] == point_cells(p, d as nat, b as nat)[kk],
            decreases b - k,
        {
            let mut row: Vec<u128> = Vec::new();
            let mut jr: usize = 0;
            while jr < d
                invariant
                    jr <= d,
                    k < b,
                    d == p.len(),
                    coord_bits@.len() == d,
                    forall|jj: int| 0 <= jj < d ==> (#[trigger] coord_bits@[jj])@ == to_digits(p[jj] as int, 2, b as nat),
                    row@.len() == jr,
                    forall|jj: int| 0 <= jj < jr ==> #[trigger] row@[jj] == to_digits(p[jj] as int, 2, b as nat)[k as int],
                    all_below(row@, 2),
                decreases d - jr,
            {
                proof {
                    lemma_to_digits_shape(p[jr as int] as int, 2, b as nat);
                }
                let bit = coord_bits[jr][k];
                row.push(bit);
                jr = jr + 1;
            }
            let ghost want = Seq::new(d as nat, |jj: int| to_digits(p[jj] as int, 2, b as nat)[k as int]);
            assert(row@ =~= want);
            let cell = from_digits_exec(&row, 2);
            cells.push(cell);
            k = k + 1;
        }
        let ghost all_cells = point_cells(p, d as nat, b as nat);
        assert(cells@ =~= all_cells);
        // one digit per level, the highest level first
        let top = (d - 1) as u128;
        let w = pow2_exec(d);
        let ones = w - 1;
        let mut digits = zero_vec(b);
        let mut state = CurveState::Diagonal;
        let mut lvl: usize = b;
        assert(cells@.subrange(0, b as int) =~= cells@);
        assert(digits@.subrange(b as int, b as int) =~= Seq::<u128>::empty());
        while lvl > 0
            invariant
                lvl <= b,
                cells@.len() == b,
                digits@.len() == b,
                top < 64,
                cells_to_digits(cells@, CurveState::Diagonal, top, ones) == cells_to_digits(
                    cells@.subrange(0, lvl as int),
                    state,
                    top,
                    ones,
                ) + digits@.subrange(lvl as int, b as int),
            decreases lvl,
        {
            let ghost pre = cells@.subrange(0, lvl as int);
            let ghost done = digits@.subrange(lvl as int, b as int);
            let c = cells[lvl - 1];
            let dg = encode_cell(state, c, top);
            let next = advance(state, c, dg, ones);
            assert(pre.last() == c);
            assert(pre.drop_last() =~= cells@.subrange(0, lvl - 1));
            digits.set(lvl - 1, dg);
            assert(digits@.subrange(lvl - 1, b as int) =~= seq![dg] + done);
            assert(cells_to_digits(cells@.subrange(0, lvl - 1), next, top, ones).push(dg) + done
                =~= cells_to_digits(cells@.subrange(0, lvl - 1), next, top, ones) + (seq![dg]
                + done));
            state = next;
            lvl = lvl - 1;
        }
        assert(cells@.subrange(0, 0) =~= Seq::<u128>::empty());
        assert(digits@.subrange(0, b as int) =~= digits@);
        assert(Seq::<u128>::empty() + digits@ =~= digits@);
        proof {
            lemma_point_cells_roundtrip(p, d as nat, b as nat);
            lemma_all_fit_iff(cells@, d as nat);
            lemma_cells_digits_roundtrip(cells@, CurveState::Diagonal, top, ones);
            lemma_all_fit_iff(digits@, d as nat);
        }
        let v = from_digits_exec(&digits, w);
        proof {
            lemma_from_digits_bound(digits@, w as int);
        }
        v as u64
    }

    /// Point at position `index` on the curve; only the
    /// `dimensions * bits_per_dimension` low bits of `index` are read.
    pub fn index_to_point(&self, index: u64) -> (point: Vec<u64>)
        ensures
            point@ == curve_point(index, self.dims(), self.bits()),
    {
        proof {
            use_type_invariant(self);
            lemma_index_space(self.dims(), self.bits());
        }
        let d = self.dimensions;
        let b = self.bits_per_dimension;
        assert(d <= 64 && b <= 64) by (nonlinear_arith)
            requires
                d * b <= 64,
                d >= 1,
                b >= 1,
        ;
        proof {
            lemma_pow2_small(d as nat);
            lemma_pow2_small(b as nat);
        }
        let top = (d - 1) as u128;
        let w = pow2_exec(d);
        let ones = w - 1;
        let digits = to_digits_exec(index as u128, w, b);
        proof {
            lemma_to_digits_shape(index as int, w as int, b as nat);
        }
        // one cell per level, the highest level first
        let mut cells = zero_vec(b);
        let mut state = CurveState::Diagonal;
        let mut lvl: usize = b;
        assert(digits@.subrange(0, b as int) =~= digits@);
        assert(cells@.subrange(b as int, b as int) =~= Seq::<u128>::empty());
        while lvl > 0
            invariant
                lvl <= b,
                digits@.len() == b,
                cells@.len() == b,
                top < 64,
                digits_to_cells(digits@, CurveState::Diagonal, top, ones) == digits_to_cells(
                    digits@.subrange(0, lvl as int),
                    state,
                    top,
                    ones,
                ) + cells@.subrange(lvl as int, b as int),
            decreases lvl,
        {
            let ghost pre = digits@.subrange(0, lvl as int);
            let ghost done = cells@.subrange(lvl as int, b as int);
            let dg = digits[lvl - 1];
            let c = decode_digit(state, dg, top);
            let next = advance(state, c, dg, ones);
            assert(pre.last() == dg);
            assert(pre.drop_last() =~= digits@.subrange(0, lvl - 1));
            cells.set(lvl - 1, c);
            assert(cells@.subrange(lvl - 1, b as int) =~= seq![c] + done);
            assert(digits_to_cells(digits@.subrange(0, lvl - 1), next, top, ones).push(c) + done
                =~= digits_to_cells(digits@.subrange(0, lvl - 1), next, top, ones) + (seq![c]
                + done));
            state = next;
            lvl = lvl - 1;
        }
        assert(digits@.subrange(0, 0) =~= Seq::<u128>::empty());
        assert(cells@.subrange(0, b as int) =~= cells@);
        assert(Seq::<u128>::empty() + cells@ =~= cells@);
        // bits of every cell
        let mut cell_bits: Vec<Vec<u128>> = Vec::new();
        let mut k: usize = 0;
        while k < b
            invariant
                k <= b,
                cells@.len() == b,
                cell_bits@.len() == k,
                forall|kk: int| 0 <= kk < k ==> (#[trigger] cell_bits@[kk])@ == to_digits(cells@[kk] as int, 2, d as nat),
            decreases b - k,
        {
            cell_bits.push(to_digits_exec(cells[k], 2, d));
            k = k + 1;
        }
        // reassemble every coordinate
        let ghost cs = cells@;
        let mut point: Vec<u64> = Vec::new();
        let mut j: usize = 0;
        while j < d
            invariant
                j <= d <= 64,
                1 <= b <= 64,
                cs == cells@,
                cs.len() == b,
                cell_bits@.len() == b,
                forall|kk: int| 0 <= kk < b ==> (#[trigger] cell_bits@[kk])@ == to_digits(cs[kk] as int, 2, d as nat),
                pow(2, b as nat) <= 0x1_0000_0000_0000_0000,
                point@.len() == j,
                forall|jj: int| 0 <= jj < j ==> #[trigger] point@[jj] == cells_point(cs, d as nat, b as nat)[jj],
            decreases d - j,
        {
            let mut col: Vec<u128> = Vec::new();
            let mut kc: usize = 0;
            while kc < b
                invariant
                    kc <= b,
                    j < d,
                    cs.len() == b,
                    cell_bits@.len() == b,
                    forall|kk: int| 0 <= kk < b ==> (#[trigger] cell_bits@[kk])@ == to_digits(cs[kk] as int, 2, d as nat),
                    col@.len() == kc,
                    forall|kk: int| 0 <= kk < kc ==> #[trigger] col@[kk] == to_digits(cs[kk] as int, 2, d as nat)[j as int],
                    all_below(col@, 2),
                decreases b - kc,
            {
                proof {
                    lemma_to_digits_shape(cs[kc as int] as int, 2, d as nat);
                }
                let bit = cell_bits[kc][j];
                col.push(bit);
                kc = kc + 1;
            }
            let ghost want = Seq::new(b as nat, |kk: int| to_digits(cs[kk] as int, 2, d as nat)[j as int]);
            assert(col@ =~= want);
            let v = from_digits_exec(&col, 2);
            point.push(v as u64);
            j = j + 1;
        }
        assert(point@ =~= cells_point(cs, d as nat, b as nat));
        point
    }

    /// Distance between two points measured along the curve.
    pub fn distance(&self, point1: &[u64], point2: &[u64]) -> (dist: u64)
        requires
            point1@.len() == self.dims(),
            point2@.len() == self.dims(),
            coords_fit(point1@, self.bits()),
            coords_fit(point2@, self.bits()),
        ensures
            dist as int == if curve_index(point1@, self.dims(), self.bits()) >= curve_index(point2@, self.dims(), self.bits()) {
                curve_index(point1@, self.dims(), self.bits()) - curve_index(point2@, self.dims(), self.bits())
            } else {
                curve_index(point2@, self.dims(), self.bits()) - curve_index(point1@, self.dims(), self.bits())
            },
    {
        let index1 = self.point_to_index(point1);
        let index2 = self.point_to_index(point2);
        if index1 > index2 {
            index1 - index2
        } else {
            index2 - index1
        }
    }
}

} // verus!
