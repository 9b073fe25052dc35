//! The integer side of metrics collection: summaries of recorded
//! histograms, and the text exposition of integer metrics in the
//! Prometheus format.

use vstd::prelude::*;
use vstd::string::StringExecFns;

verus! {

/// Most points a time series keeps; older points are dropped first.
pub const MAX_TIMESERIES_POINTS: usize = 1000;

/// Sum of the values of `s`.
pub open spec fn total(s: Seq<u64>) -> int
    decreases s.len(),
{
    if s.len() == 0 {
        0
    } else {
        total(s.drop_last()) + s.last()
    }
}

/// Count, smallest, largest and sum of the values of a histogram.
#[derive(Debug, Clone, Copy, PartialEq, Eq, Structural)]
pub struct HistogramSummary {
    pub count: usize,
    pub min: u64,
    pub max: u64,
    pub sum: u64,
}

/// Summary of the non-empty histogram `values`: its count, its least and
/// greatest value (each one of the values) and its sum.
pub fn summarize(values: &Vec<u64>) -> (s: HistogramSummary)
    requires
        values@.len() > 0,
        total(values@) <= u64::MAX,
    ensures
        s.count == values@.len(),
        s.sum == total(values@),
        values@.contains(s.min),
        values@.contains(s.max),
        forall|i: int| 0 <= i < values@.len() ==> s.min <= #[trigger] values@[i] <= s.max,
{
    let mut min = values[0];
    let mut max = values[0];
    let mut sum: u64 = 0;
    let mut i: usize = 0;
    proof {
        lemma_total_prefix_bound(values@, 0);
    }
    while i < values.len()
        invariant
            values@.len() > 0,
            total(values@) <= u64::MAX,
            i <= values@.len(),
            sum == total(values@.subrange(0, i as int)),
            values@.contains(min),
            values@.contains(max),
            forall|j: int| 0 <= j < i ==> min <= #[trigger] values@[j] <= max,
            i == 0 ==> min == values@[0] && max == values@[0],
        decreases values@.len() - i,
    {
        let v = values[i];
        proof {
            assert(values@.subrange(0, i + 1).drop_last() =~= values@.subrange(0, i as int));
            lemma_total_prefix_bound(values@, i + 1);
        }
        sum = sum + v;
        if v < min {
            min = v;
        }
        if v > max {
            max = v;
        }
        i = i + 1;
    }
    proof {
        assert(values@.subrange(0, values@.len() as int) =~= values@);
    }
    HistogramSummary { count: values.len(), min, max, sum }
}

proof fn lemma_total_prefix_bound(s: Seq<u64>, n: int)
    requires
        0 <= n <= s.len(),
    ensures
        0 <= total(s.subrange(0, n)) <= total(s),
    decreases s.len() - n,
{
    if n < s.len() {
        lemma_total_prefix_bound(s, n + 1);
        assert(s.subrange(0, n + 1).drop_last() =~= s.subrange(0, n));
    } else {
        assert(s.subrange(0, n) =~= s);
    }
    lemma_total_nonneg(s.subrange(0, n));
}

proof fn lemma_total_nonneg(s: Seq<u64>)
    ensures
        total(s) >= 0,
    decreases s.len(),
{
    if s.len() > 0 {
        lemma_total_nonneg(s.drop_last());
    }
}

/// Decimal digit `d` (below 10).
pub open spec fn digit_char(d: nat) -> char {
    (('0' as nat) + d) as char
}

/// Decimal spelling of `n`, without leading zeros.
pub open spec fn decimal_text(n: nat) -> Seq<char>
    decreases n,
{
    if n < 10 {
        seq![digit_char(n)]
    } else {
        decimal_text(n / 10) + seq![digit_char(n % 10)]
    }
}

fn digit_str(d: u64) -> (s: &'static str)
    requires
        d < 10,
    ensures
        s@ == seq![digit_char(d as nat)],
{
    proof {
        reveal_strlit("0");
        reveal_strlit("1");
        reveal_strlit("2");
        reveal_strlit("3");
        reveal_strlit("4");
        reveal_strlit("5");
        reveal_strlit("6");
        reveal_strlit("7");
        reveal_strlit("8");
        reveal_strlit("9");
    }
    match d {
        0 => "0",
        1 => "1",
        2 => "2",
        3 => "3",
        4 => "4",
        5 => "5",
        6 => "6",
        7 => "7",
        8 => "8",
        _ => "9",
    }
}

/// Appends the decimal spelling of `n` to `out`.
fn push_decimal(out: &mut String, n: u64)
    ensures
        final(out)@ == old(out)@ + decimal_text(n as nat),
    decreases n,
{
    if n >= 10 {
        push_decimal(out, n / 10);
    }
    out.append(digit_str(n % 10));
    proof {
        if n >= 10 {
            assert(final(out)@ =~= old(out)@ + decimal_text(n as nat));
        } else {
            assert(n % 10 == n);
        }
    }
}

/// Decimal spelling of `n`.
pub fn decimal(n: u64) -> (s: String)
    ensures
        s@ == decimal_text(n as nat),
{
    let mut s = String::new();
    push_decimal(&mut s, n);
    assert(s@ =~= decimal_text(n as nat));
    s
}

/// Exposition of the integer metric `name` of kind `kind` with value
/// `value`: a type line and a sample line.
pub open spec fn exposition(name: Seq<char>, kind: Seq<char>, value: u64) -> Seq<char> {
    "# TYPE "@ + name + " "@ + kind + "\n"@ + name + " "@ + decimal_text(value as nat) + "\n"@
}

/// Exposition of the integer metric `name` of kind `kind` with value
/// `value`, in the Prometheus text format.
pub fn prometheus_entry(name: &str, kind: &str, value: u64) -> (s: String)
    ensures
        s@ == exposition(name@, kind@, value),
{
    let mut s = "# TYPE ".to_owned();
    s.append(name);
    s.append(" ");
    s.append(kind);
    s.append("\n");
    s.append(name);
    s.append(" ");
    let v = decimal(value);
    s.append(v.as_str());
    s.append("\n");
    proof {
        assert(s@ =~= exposition(name@, kind@, value));
    }
    s
}

/// Number of oldest points to drop from a time series of `len` points.
pub fn timeseries_excess(len: usize) -> (excess: usize)
    ensures
        excess == (if len > MAX_TIMESERIES_POINTS { len - MAX_TIMESERIES_POINTS } else { 0 }),
{
    if len > MAX_TIMESERIES_POINTS {
        len - MAX_TIMESERIES_POINTS
    } else {
        0
    }
}

} // verus!
