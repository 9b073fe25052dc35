//! Audit-trail indexing: link tags that carry a timestamp as eight
//! big-endian bytes, and the order in which recent audits are read back
//! (newest first, at most the number asked for).

use vstd::prelude::*;
use crate::core_lib::time_order::{by_time, sort_by_time, is_ordered_by_time, lemma_by_time_orders, lemma_by_time_len};

verus! {

/// `256` raised to `n`.
pub open spec fn pow256(n: nat) -> nat
    decreases n,
{
    if n == 0 {
        1
    } else {
        pow256((n - 1) as nat) * 256
    }
}

/// The number that the bytes `b` spell, most significant byte first.
pub open spec fn be_value(b: Seq<u8>) -> nat
    decreases b.len(),
{
    if b.len() == 0 {
        0
    } else {
        be_value(b.drop_last()) * 256 + b.last() as nat
    }
}

/// The last `n` base-256 digits of `t`, most significant first.
pub open spec fn be_bytes(t: nat, n: nat) -> Seq<u8>
    decreases n,
{
    if n == 0 {
        Seq::empty()
    } else {
        be_bytes(t / 256, (n - 1) as nat).push((t % 256) as u8)
    }
}

/// The timestamp that a link tag carries: its first eight bytes, read
/// big-endian.
pub open spec fn tag_time(tag: Seq<u8>) -> nat {
    be_value(tag.take(8))
}

proof fn lemma_be_value_bound(b: Seq<u8>)
    ensures
        be_value(b) < pow256(b.len()),
    decreases b.len(),
{
    if b.len() > 0 {
        lemma_be_value_bound(b.drop_last());
    }
}

proof fn lemma_be_bytes_len(t: nat, n: nat)
    ensures
        be_bytes(t, n).len() == n,
    decreases n,
{
    if n > 0 {
        lemma_be_bytes_len(t / 256, (n - 1) as nat);
    }
}

proof fn lemma_pow256_u64()
    ensures
        pow256(8) == 0x1_0000_0000_0000_0000,
{
    reveal_with_fuel(pow256, 9);
}

/// Writing a number below `256^n` as `n` bytes and reading them back gives
/// the number.
pub proof fn lemma_be_bytes_value(t: nat, n: nat)
    requires
        t < pow256(n),
    ensures
        be_value(be_bytes(t, n)) == t,
    decreases n,
{
    if n > 0 {
        assert(t / 256 < pow256((n - 1) as nat));
        lemma_be_bytes_value(t / 256, (n - 1) as nat);
        let s = be_bytes(t, n);
        assert(s.drop_last() == be_bytes(t / 256, (n - 1) as nat));
        assert(s.last() == (t % 256) as u8);
    }
}

/// Reading `n` bytes as a number and writing the number back as `n` bytes
/// gives the bytes.
pub proof fn lemma_be_value_bytes(b: Seq<u8>)
    ensures
        be_bytes(be_value(b), b.len()) == b,
    decreases b.len(),
{
    if b.len() > 0 {
        let x = be_value(b.drop_last());
        let v = be_value(b);
        vstd::arithmetic::div_mod::lemma_fundamental_div_mod_converse(v as int, 256, x as int, b.last() as int);
        lemma_be_value_bytes(b.drop_last());
        assert(be_bytes(v, b.len()) =~= be_bytes(x, (b.len() - 1) as nat).push(b.last()));
        assert(b =~= b.drop_last().push(b.last()));
    }
}

/// The bytes of a timestamp tag for the time `now`: its eight bytes,
/// big-endian.
pub fn timestamp_tag_at(now: u64) -> (tag: Vec<u8>)
    ensures
        tag@ == be_bytes(now as nat, 8),
        tag@.len() == 8,
{
    proof {
        lemma_be_bytes_len(now as nat, 8);
    }
    encode_be(now, 8)
}

fn encode_be(t: u64, n: usize) -> (b: Vec<u8>)
    ensures
        b@ == be_bytes(t as nat, n as nat),
    decreases n,
{
    if n == 0 {
        Vec::new()
    } else {
        let mut b = encode_be(t / 256, n - 1);
        let last: u8 = (t % 256) as u8;
        b.push(last);
        proof {
            assert(b@ =~= be_bytes(t as nat, n as nat));
        }
        b
    }
}

/// The timestamp carried by a link tag of at least eight bytes.
pub fn tag_timestamp(tag: &Vec<u8>) -> (t: u64)
    requires
        tag@.len() >= 8,
    ensures
        t == tag_time(tag@),
{
    let mut acc: u64 = 0;
    let mut i: usize = 0;
    while i < 8
        invariant
            i <= 8,
            tag@.len() >= 8,
            acc == be_value(tag@.take(i as int)),
        decreases 8 - i,
    {
        proof {
            lemma_be_value_bound(tag@.take(i as int));
            reveal_with_fuel(pow256, 9);
            assert(tag@.take(i as int + 1).drop_last() =~= tag@.take(i as int));
        }
        acc = acc * 256 + tag[i] as u64;
        i = i + 1;
    }
    acc
}

/// A timestamp tag read back gives the time it was made for.
pub proof fn lemma_tag_roundtrip(now: u64)
    ensures
        be_bytes(now as nat, 8).len() == 8,
        tag_time(be_bytes(now as nat, 8)) == now,
{
    lemma_be_bytes_len(now as nat, 8);
    lemma_pow256_u64();
    lemma_be_bytes_value(now as nat, 8);
    assert(be_bytes(now as nat, 8).take(8) =~= be_bytes(now as nat, 8));
}

/// An eight-byte tag is the timestamp tag of the time it carries.
pub proof fn lemma_tag_of_time(tag: Seq<u8>)
    requires
        tag.len() == 8,
    ensures
        tag_time(tag) < 0x1_0000_0000_0000_0000,
        be_bytes(tag_time(tag), 8) == tag,
{
    assert(tag.take(8) =~= tag);
    lemma_be_value_bound(tag);
    lemma_pow256_u64();
    lemma_be_value_bytes(tag);
}

/// The signed key that orders unsigned times the same way: `t - 2^63`.
pub open spec fn order_key(t: nat) -> int {
    t - 0x8000_0000_0000_0000
}

fn order_key_of(t: u64) -> (k: i64)
    ensures
        k == order_key(t as nat),
{
    if t >= 0x8000_0000_0000_0000 {
        (t - 0x8000_0000_0000_0000) as i64
    } else {
        let s: i64 = t as i64;
        s - 0x7fff_ffff_ffff_ffff - 1
    }
}

/// Order keys of times compare as the times do.
pub proof fn lemma_order_key_monotone(t1: u64, t2: u64)
    ensures
        (order_key(t1 as nat) as i64) < (order_key(t2 as nat) as i64) <==> t1 < t2,
        (order_key(t1 as nat) as i64) == (order_key(t2 as nat) as i64) <==> t1 == t2,
{
}

/// Audit links, each keyed by the order key of its tag's timestamp.
pub open spec fn keyed_links<T>(links: Seq<(Vec<u8>, T)>) -> Seq<(i64, T)> {
    Seq::new(links.len(), |i: int| (order_key(tag_time(links[i].0@)) as i64, links[i].1))
}

/// The targets of the `count` most recent audit links, newest first; links
/// with equal timestamps keep the order they came in.
pub open spec fn recent_targets<T>(links: Seq<(Vec<u8>, T)>, count: nat) -> Seq<T> {
    let ordered = by_time(keyed_links(links), true);
    let n = if count < ordered.len() { count as int } else { ordered.len() as int };
    Seq::new(n as nat, |i: int| ordered[i].1)
}

/// The targets of the `count` most recent audit links: the links ordered by
/// the timestamps of their tags, newest first (ties in the order given),
/// and cut to `count`.  Every tag must hold a timestamp.
pub fn recent_audit_links<T>(links: Vec<(Vec<u8>, T)>, count: usize) -> (r: Vec<T>)
    requires
        forall|i: int| 0 <= i < links@.len() ==> (#[trigger] links@[i]).0@.len() >= 8,
    ensures
        r@ == recent_targets(links@, count as nat),
        r@.len() == (if count < links@.len() { count as int } else { links@.len() as int }),
{
    let ghost s0 = links@;
    let mut links = links;
    let mut keyed: Vec<(i64, T)> = Vec::new();
    let ghost mut k: int = 0;
    while links.len() > 0
        invariant
            0 <= k <= s0.len(),
            links@ == s0.skip(k),
            forall|i: int| 0 <= i < s0.len() ==> (#[trigger] s0[i]).0@.len() >= 8,
            keyed@ == keyed_links(s0).take(k),
        decreases links@.len(),
    {
        let (tag, target) = links.remove(0);
        proof {
            assert(s0[k] == (tag, target));
        }
        let t = tag_timestamp(&tag);
        let key = order_key_of(t);
        keyed.push((key, target));
        proof {
            assert(keyed@ =~= keyed_links(s0).take(k + 1));
            k = k + 1;
            assert(links@ =~= s0.skip(k));
        }
    }
    proof {
        assert(keyed@ =~= keyed_links(s0));
        lemma_by_time_len(keyed_links(s0), true);
    }
    let ordered = sort_by_time(keyed, true);
    let n: usize = if count < ordered.len() { count } else { ordered.len() };
    let mut ordered = ordered;
    ordered.truncate(n);
    let ghost o = ordered@;
    let mut r: Vec<T> = Vec::new();
    let ghost mut j: int = 0;
    while ordered.len() > 0
        invariant
            0 <= j <= n,
            o.len() == n,
            ordered@ == o.skip(j),
            r@ == Seq::new(j as nat, |i: int| o[i].1),
        decreases ordered@.len(),
    {
        let (_key, target) = ordered.remove(0);
        r.push(target);
        proof {
            assert(r@ =~= Seq::new((j + 1) as nat, |i: int| o[i].1));
            j = j + 1;
            assert(ordered@ =~= o.skip(j));
        }
    }
    proof {
        assert(j == n);
        assert(r@ =~= recent_targets(s0, count as nat));
    }
    r
}

/// The recent audit links come newest first: in the ordered links, no tag
/// carries a later time than one before it, and every link is kept.
pub proof fn lemma_recent_newest_first<T>(links: Seq<(Vec<u8>, T)>)
    ensures
        is_ordered_by_time(by_time(keyed_links(links), true), true),
        by_time(keyed_links(links), true).to_multiset() == keyed_links(links).to_multiset(),
{
    lemma_by_time_orders(keyed_links(links), true);
}

} // verus!
