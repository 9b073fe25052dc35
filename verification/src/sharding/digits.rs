//! Positional digit expansions, used to move between coordinates, curve
//! cells and curve indices.

use vstd::prelude::*;
use vstd::arithmetic::power::pow;
use vstd::arithmetic::power::lemma_pow_increases;
use vstd::arithmetic::power::lemma_pow_positive;
use vstd::arithmetic::div_mod::lemma_fundamental_div_mod;
use vstd::arithmetic::div_mod::lemma_fundamental_div_mod_converse;
use vstd::arithmetic::div_mod::lemma_multiply_divide_lt;
use vstd::arithmetic::div_mod::lemma_div_pos_is_pos;

verus! {

/// Value of a little-endian digit sequence in the given base.
pub open spec fn from_digits(ds: Seq<u128>, base: int) -> int
    decreases ds.len(),
{
    if ds.len() == 0 {
        0
    } else {
        ds[0] + base * from_digits(ds.drop_first(), base)
    }
}

/// The `m` lowest digits of `x` in the given base, least significant first.
pub open spec fn to_digits(x: int, base: int, m: nat) -> Seq<u128>
    decreases m,
{
    if m == 0 {
        Seq::empty()
    } else {
        seq![(x % base) as u128] + to_digits(x / base, base, (m - 1) as nat)
    }
}

/// Every digit of `ds` is a valid digit of the base.
pub open spec fn all_below(ds: Seq<u128>, base: int) -> bool {
    forall|i: int| 0 <= i < ds.len() ==> ds[i] < base
}

pub proof fn lemma_to_digits_shape(x: int, base: int, m: nat)
    requires
        2 <= base <= u128::MAX,
        0 <= x,
    ensures
        to_digits(x, base, m).len() == m,
        all_below(to_digits(x, base, m), base),
    decreases m,
{
    if m > 0 {
        lemma_div_pos_is_pos(x, base);
        lemma_to_digits_shape(x / base, base, (m - 1) as nat);
        let ds = to_digits(x, base, m);
        let tail = to_digits(x / base, base, (m - 1) as nat);
        assert forall|i: int| 0 <= i < ds.len() implies ds[i] < base by {
            if i > 0 {
                assert(ds[i] == tail[i - 1]);
            }
        }
    }
}

pub proof fn lemma_from_digits_bound(ds: Seq<u128>, base: int)
    requires
        2 <= base,
        all_below(ds, base),
    ensures
        0 <= from_digits(ds, base) < pow(base, ds.len()),
    decreases ds.len(),
{
    reveal(pow);
    if ds.len() > 0 {
        let tail = ds.drop_first();
        lemma_from_digits_bound(tail, base);
        let r = from_digits(tail, base);
        let p = pow(base, tail.len());
        assert(ds[0] + base * r < base * p) by (nonlinear_arith)
            requires
                0 <= ds[0] < base,
                0 <= r < p,
        ;
        assert(pow(base, ds.len()) == base * p);
        assert(0 <= base * r) by (nonlinear_arith)
            requires
                0 <= r,
                2 <= base,
        ;
    }
}

pub proof fn lemma_from_to_digits(x: int, base: int, m: nat)
    requires
        2 <= base <= u128::MAX,
        0 <= x < pow(base, m),
    ensures
        from_digits(to_digits(x, base, m), base) == x,
    decreases m,
{
    reveal(pow);
    if m == 0 {
        assert(x == 0);
    } else {
        let q = x / base;
        lemma_fundamental_div_mod(x, base);
        lemma_div_pos_is_pos(x, base);
        lemma_multiply_divide_lt(x, base, pow(base, (m - 1) as nat));
        lemma_from_to_digits(q, base, (m - 1) as nat);
        let ds = to_digits(x, base, m);
        assert(ds.drop_first() =~= to_digits(q, base, (m - 1) as nat));
        assert(ds[0] == x % base);
    }
}

pub proof fn lemma_to_from_digits(ds: Seq<u128>, base: int)
    requires
        2 <= base <= u128::MAX,
        all_below(ds, base),
    ensures
        to_digits(from_digits(ds, base), base, ds.len()) == ds,
    decreases ds.len(),
{
    if ds.len() > 0 {
        let tail = ds.drop_first();
        lemma_to_from_digits(tail, base);
        lemma_from_digits_bound(tail, base);
        let r = from_digits(tail, base);
        let v = from_digits(ds, base);
        assert(v == r * base + ds[0]) by (nonlinear_arith)
            requires
                v == ds[0] + base * r,
        ;
        lemma_fundamental_div_mod_converse(v, base, r, ds[0] as int);
        let out = to_digits(v, base, ds.len());
        assert(out =~= ds) by {
            assert(out[0] == ds[0]);
            assert forall|i: int| 1 <= i < ds.len() implies out[i] == ds[i] by {
                assert(out[i] == to_digits(r, base, tail.len())[i - 1]);
            }
        }
    }
}

/// Splits `x` into its `m` lowest digits in `base`, least significant first.
pub fn to_digits_exec(x: u128, base: u128, m: usize) -> (ds: Vec<u128>)
    requires
        2 <= base,
    ensures
        ds@ == to_digits(x as int, base as int, m as nat),
{
    let mut ds: Vec<u128> = Vec::new();
    let mut rem: u128 = x;
    let mut k: usize = 0;
    while k < m
        invariant
            2 <= base,
            k <= m,
            to_digits(x as int, base as int, m as nat) == ds@ + to_digits(
                rem as int,
                base as int,
                (m - k) as nat,
            ),
        decreases m - k,
    {
        let ghost old_ds = ds@;
        let d = rem % base;
        let next = rem / base;
        assert(to_digits(rem as int, base as int, (m - k) as nat) =~= seq![d] + to_digits(
            next as int,
            base as int,
            (m - k - 1) as nat,
        ));
        ds.push(d);
        rem = next;
        k = k + 1;
        assert(old_ds + (seq![d] + to_digits(next as int, base as int, (m - k) as nat)) =~= ds@
            + to_digits(next as int, base as int, (m - k) as nat));
    }
    assert(to_digits(rem as int, base as int, 0) =~= Seq::<u128>::empty());
    assert(ds@ + Seq::<u128>::empty() =~= ds@);
    ds
}

/// Value of the little-endian digit sequence `ds` in `base`.
pub fn from_digits_exec(ds: &Vec<u128>, base: u128) -> (v: u128)
    requires
        2 <= base,
        all_below(ds@, base as int),
        pow(base as int, ds@.len()) <= u128::MAX,
    ensures
        v == from_digits(ds@, base as int),
{
    let n = ds.len();
    let mut acc: u128 = 0;
    let mut k: usize = n;
    assert(ds@.subrange(n as int, n as int) =~= Seq::<u128>::empty());
    while k > 0
        invariant
            2 <= base,
            n == ds@.len(),
            k <= n,
            all_below(ds@, base as int),
            pow(base as int, n as nat) <= u128::MAX,
            acc == from_digits(ds@.subrange(k as int, n as int), base as int),
        decreases k,
    {
        let ghost tail = ds@.subrange(k as int, n as int);
        let ghost whole = ds@.subrange(k - 1, n as int);
        assert(whole.drop_first() =~= tail);
        assert(all_below(whole, base as int));
        proof {
            lemma_from_digits_bound(whole, base as int);
            lemma_pow_increases(base as nat, whole.len(), n as nat);
        }
        assert(from_digits(whole, base as int) == ds@[k - 1] + base * acc);
        k = k - 1;
        acc = ds[k] + base * acc;
    }
    assert(ds@.subrange(0, n as int) =~= ds@);
    acc
}

} // verus!
