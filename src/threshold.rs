use vstd::prelude::*;
use vstd::relations::{sorted_by, total_ordering};
use vstd::seq_lib::{lemma_sorted_unique, group_to_multiset_ensures};
use crate::models::{TransactionRecord, TxStorage, sender_records, sent_by, fee_of};
use vstd::arithmetic::div_mod::{lemma_fundamental_div_mod, lemma_fundamental_div_mod_converse};

verus! {

/// The percentile used for every global threshold.
pub const PERC: u64 = 90;

/// Ascending order on samples.
pub open spec fn ascending() -> spec_fn(u128, u128) -> bool {
    |a: u128, b: u128| a <= b
}

/// The sample in ascending order.
pub open spec fn sorted_sample(s: Seq<u128>) -> Seq<u128> {
    s.sort_by(ascending())
}

/// Nearest-rank index `floor(p/100 * (n-1))` into a sample of `n` values.
pub open spec fn rank_index(n: int, p: int) -> int {
    p * (n - 1) / 100
}

/// The `p`-th percentile of a sample: 0 when empty, else the value at
/// the nearest-rank index of the sorted sample.
pub open spec fn percentile_of(s: Seq<u128>, p: int) -> u128 {
    if s.len() == 0 {
        0
    } else {
        sorted_sample(s)[rank_index(s.len() as int, p)]
    }
}

proof fn lemma_ascending_total()
    ensures
        total_ordering(ascending()),
{
}

proof fn lemma_rank_index_bounds(n: int, p: int)
    requires
        n >= 1,
        0 <= p <= 100,
    ensures
        0 <= rank_index(n, p) < n,
{
    assert(0 <= p * (n - 1) <= 100 * (n - 1)) by (nonlinear_arith)
        requires
            n >= 1,
            0 <= p <= 100,
    ;
}

proof fn lemma_rank_index_monotone(n: int, p: int, q: int)
    requires
        n >= 1,
        0 <= p <= q <= 100,
    ensures
        rank_index(n, p) <= rank_index(n, q),
{
    assert(p * (n - 1) <= q * (n - 1)) by (nonlinear_arith)
        requires
            n >= 1,
            p <= q,
    ;
    vstd::arithmetic::div_mod::lemma_div_is_ordered(p * (n - 1), q * (n - 1), 100);
}

/// Facts about the sorted sample: it is sorted and a permutation of `s`.
pub proof fn lemma_sorted_sample(s: Seq<u128>)
    ensures
        sorted_by(sorted_sample(s), ascending()),
        sorted_sample(s).to_multiset() == s.to_multiset(),
        sorted_sample(s).len() == s.len(),
{
    broadcast use group_to_multiset_ensures;

    lemma_ascending_total();
    s.lemma_sort_by_ensures(ascending());
    vstd::seq_lib::to_multiset_len(s);
    vstd::seq_lib::to_multiset_len(sorted_sample(s));
}

/// Returns the values of `v` in ascending order.
pub fn sort_ascending(v: &Vec<u128>) -> (r: Vec<u128>)
    ensures
        r@ == sorted_sample(v@),
{
    broadcast use group_to_multiset_ensures;

    let mut out: Vec<u128> = Vec::new();
    let mut i: usize = 0;
    while i < v.len()
        invariant
            i <= v.len(),
            sorted_by(out@, ascending()),
            out@.to_multiset() == v@.take(i as int).to_multiset(),
        decreases v.len() - i,
    {
        let x = v[i];
        let mut pos: usize = 0;
        while pos < out.len() && out[pos] <= x
            invariant
                pos <= out.len(),
                forall|k: int| 0 <= k < pos ==> out@[k] <= x,
            decreases out.len() - pos,
        {
            pos = pos + 1;
        }
        proof {
            assert(forall|k: int| pos <= k < out@.len() ==> out@[k] > x) by {
                assert forall|k: int| pos <= k < out@.len() implies out@[k] > x by {
                    assert(ascending()(out@[pos as int], out@[k]) || k == pos);
                }
            }
            vstd::seq_lib::to_multiset_insert(out@, pos as int, x);
            assert(v@.take(i + 1) =~= v@.take(i as int).push(x));
            vstd::seq_lib::to_multiset_build(v@.take(i as int), x);
        }
        let ghost before = out@;
        out.insert(pos, x);
        proof {
            assert forall|a: int, b: int| 0 <= a < b < out@.len() implies #[trigger] ascending()(
                out@[a],
                out@[b],
            ) by {
                if b < pos {
                    assert(ascending()(before[a], before[b]));
                } else if a < pos && b == pos {
                } else if a < pos {
                    assert(before[a] <= x);
                } else if a == pos {
                } else {
                    assert(ascending()(before[a - 1], before[b - 1]));
                }
            }
        }
        i = i + 1;
    }
    proof {
        assert(v@.take(v@.len() as int) == v@);
        lemma_sorted_sample(v@);
        lemma_ascending_total();
        lemma_sorted_unique(out@, sorted_sample(v@), ascending());
    }
    out
}

/// Nearest-rank percentile of a sample (0 for an empty one).
pub fn percentile(values: &Vec<u128>, p: u64) -> (r: u128)
    requires
        p <= 100,
    ensures
        r == percentile_of(values@, p as int),
{
    if values.len() == 0 {
        return 0;
    }
    let sorted = sort_ascending(values);
    proof {
        lemma_rank_index_bounds(values.len() as int, p as int);
        lemma_sorted_sample(values@);
        let n: int = values.len() - 1;
        assert(0 <= (p as int) * n <= 100 * 0xffff_ffff_ffff_ffff) by (nonlinear_arith)
            requires
                0 <= p <= 100,
                0 <= n <= 0xffff_ffff_ffff_ffff,
        ;
    }
    let idx: usize = ((p as u128) * ((values.len() - 1) as u128) / 100) as usize;
    sorted[idx]
}

/// The percentile of an empty sample is 0.
pub proof fn lemma_percentile_empty(p: int)
    ensures
        percentile_of(Seq::<u128>::empty(), p) == 0,
{
}

/// For a fixed sample the percentile does not decrease as `p` grows.
pub proof fn lemma_percentile_monotone(s: Seq<u128>, p: int, q: int)
    requires
        0 <= p <= q <= 100,
    ensures
        percentile_of(s, p) <= percentile_of(s, q),
{
    if s.len() > 0 {
        lemma_sorted_sample(s);
        lemma_rank_index_bounds(s.len() as int, p);
        lemma_rank_index_bounds(s.len() as int, q);
        lemma_rank_index_monotone(s.len() as int, p, q);
        let i = rank_index(s.len() as int, p);
        let j = rank_index(s.len() as int, q);
        if i < j {
            assert(ascending()(sorted_sample(s)[i], sorted_sample(s)[j]));
        }
    }
}

/// The percentile depends on the sample's values only, not on their order.
pub proof fn lemma_percentile_order_invariant(s: Seq<u128>, t: Seq<u128>, p: int)
    requires
        s.to_multiset() == t.to_multiset(),
    ensures
        percentile_of(s, p) == percentile_of(t, p),
{
    broadcast use group_to_multiset_ensures;

    lemma_sorted_sample(s);
    lemma_sorted_sample(t);
    lemma_ascending_total();
    lemma_sorted_unique(sorted_sample(s), sorted_sample(t), ascending());
}

/// Sum of a sample.
pub open spec fn sample_sum(s: Seq<u128>) -> int
    decreases s.len(),
{
    if s.len() == 0 {
        0
    } else {
        sample_sum(s.drop_last()) + s.last()
    }
}

/// Integer part of the arithmetic mean of a sample (0 when empty).
pub open spec fn mean_whole(s: Seq<u128>) -> int {
    if s.len() == 0 {
        0
    } else {
        sample_sum(s) / (s.len() as int)
    }
}

/// The mean's remainder: the mean is `mean_whole + mean_rem / len`.
pub open spec fn mean_rem(s: Seq<u128>) -> int {
    if s.len() == 0 {
        0
    } else {
        sample_sum(s) % (s.len() as int)
    }
}

/// The arithmetic mean of a sample, held exactly as `whole + rem / count`
/// (all zero for an empty sample).
pub struct Mean {
    pub whole: u128,
    pub rem: u128,
    pub count: u128,
}

impl Mean {
    /// `rem` is a proper remainder of `count`.
    pub open spec fn wf(&self) -> bool {
        &&& self.count <= u64::MAX
        &&& self.count == 0 ==> self.whole == 0 && self.rem == 0
        &&& self.count > 0 ==> self.rem < self.count
    }

    /// The sum of the sample: `mean * count`.
    pub open spec fn total(&self) -> int {
        self.whole * self.count + self.rem
    }

    /// Whether the mean is positive and `x` exceeds `k` times the mean,
    /// that is `x * count > k * total`.
    pub fn exceeds_scaled(&self, x: u128, k: u64) -> (r: bool)
        requires
            self.wf(),
        ensures
            r == (self.total() > 0 && x * self.count > k * self.total()),
    {
        if self.count == 0 || (self.whole == 0 && self.rem == 0) {
            return false;
        }
        let n = self.count;
        proof {
            assert(self.total() > 0) by (nonlinear_arith)
                requires
                    self.whole > 0 || self.rem > 0,
                    self.count > 0,
                    self.total() == self.whole * self.count + self.rem,
            ;
        }
        match (k as u128).checked_mul(self.whole) {
            None => {
                proof {
                    let kq = k * self.whole;
                    assert(x * n <= k * self.total()) by (nonlinear_arith)
                        requires
                            kq == k * self.whole,
                            kq > x,
                            n > 0,
                            self.rem >= 0,
                            k >= 0,
                            self.total() == self.whole * n + self.rem,
                    ;
                }
                false
            },
            Some(kq) => {
                if x <= kq {
                    proof {
                        assert(x * n <= k * self.total()) by (nonlinear_arith)
                            requires
                                kq == k * self.whole,
                                x <= kq,
                                n > 0,
                                self.rem >= 0,
                                k >= 0,
                                self.total() == self.whole * n + self.rem,
                        ;
                    }
                    false
                } else {
                    let d = x - kq;
                    proof {
                        assert(k * self.rem <= 0xffff_ffff_ffff_ffff * 0xffff_ffff_ffff_ffff)
                            by (nonlinear_arith)
                            requires
                                0 <= k <= 0xffff_ffff_ffff_ffff,
                                0 <= self.rem < n <= 0xffff_ffff_ffff_ffff,
                        ;
                    }
                    let c = (k as u128) * self.rem;
                    proof {
                        lemma_fundamental_div_mod(c as int, n as int);
                        let cq = c as int / n as int;
                        let cr = c as int % n as int;
                        assert((x * n > k * self.total()) == (d * n > c)) by (nonlinear_arith)
                            requires
                                d == x - kq,
                                kq == k * self.whole,
                                c == k * self.rem,
                                self.total() == self.whole * n + self.rem,
                        ;
                        assert((d * n > c) == (d > cq)) by (nonlinear_arith)
                            requires
                                c == n * cq + cr,
                                0 <= cr < n,
                                n > 0,
                        ;
                    }
                    d > c / n
                }
            },
        }
    }

    /// Whether the mean exceeds `thr`, that is `total > thr * count`.
    pub fn exceeds(&self, thr: u128) -> (r: bool)
        requires
            self.wf(),
        ensures
            r == (self.total() > thr * self.count),
    {
        if self.count == 0 {
            return false;
        }
        let n = self.count;
        proof {
            assert((self.total() > thr * n) == (self.whole > thr || (self.whole == thr
                && self.rem > 0))) by (nonlinear_arith)
                requires
                    self.total() == self.whole * n + self.rem,
                    0 <= self.rem < n,
            ;
        }
        self.whole > thr || (self.whole == thr && self.rem > 0)
    }
}

proof fn lemma_quotient_bound(q: int, n: int, r: int, s: int, m: int)
    requires
        n > 0,
        r >= 0,
        q * n + r == s,
        s <= n * m,
    ensures
        q <= m,
{
    assert(q <= m) by (nonlinear_arith)
        requires
            n > 0,
            r >= 0,
            q * n + r == s,
            s <= n * m,
    ;
}

/// The arithmetic mean of `items`, exactly.
pub fn mean_of(items: &Vec<u128>) -> (m: Mean)
    ensures
        m.wf(),
        m.count == items@.len(),
        m.total() == sample_sum(items@),
        m.whole == mean_whole(items@),
        m.rem == mean_rem(items@),
{
    let len = items.len();
    if len == 0 {
        return Mean { whole: 0, rem: 0, count: 0 };
    }
    let n = len as u128;
    let mut q: u128 = 0;
    let mut r: u128 = 0;
    let mut i: usize = 0;
    while i < len
        invariant
            len == items@.len(),
            n == len,
            0 < n <= u64::MAX,
            i <= len,
            q * n + r == sample_sum(items@.take(i as int)),
            r < n,
            sample_sum(items@.take(i as int)) <= i * u128::MAX,
        decreases len - i,
    {
        let f = items[i];
        proof {
            assert(items@.take(i + 1).drop_last() =~= items@.take(i as int));
            lemma_fundamental_div_mod(f as int, n as int);
            let s1 = sample_sum(items@.take(i + 1));
            assert(s1 == q * n + r + f);
            assert(s1 <= (i + 1) * u128::MAX) by (nonlinear_arith)
                requires
                    s1 == sample_sum(items@.take(i as int)) + f,
                    sample_sum(items@.take(i as int)) <= i * u128::MAX,
                    f <= u128::MAX,
            ;
            assert(s1 <= n * u128::MAX) by (nonlinear_arith)
                requires
                    s1 <= (i + 1) * u128::MAX,
                    i + 1 <= n,
            ;
            let fq = f as int / n as int;
            let fr = f as int % n as int;
            assert((q + fq) * n + (r + fr) == s1) by (nonlinear_arith)
                requires
                    f == n * fq + fr,
                    s1 == q * n + r + f,
            ;
            lemma_quotient_bound(q + fq, n as int, r + fr, s1, u128::MAX as int);
            if r + fr >= n {
                assert((q + fq + 1) * n + (r + fr - n) == s1) by (nonlinear_arith)
                    requires
                        (q + fq) * n + (r + fr) == s1,
                ;
                lemma_quotient_bound(q + fq + 1, n as int, r + fr - n, s1, u128::MAX as int);
            }
        }
        q = q + f / n;
        r = r + f % n;
        if r >= n {
            q = q + 1;
            r = r - n;
        }
        i = i + 1;
    }
    proof {
        assert(items@.take(len as int) =~= items@);
        lemma_fundamental_div_mod_converse(sample_sum(items@), n as int, q as int, r as int);
    }
    Mean { whole: q, rem: r, count: n }
}

/// The values of the records, as a sample.
pub open spec fn values_of(s: Seq<TransactionRecord>) -> Seq<u128> {
    s.map_values(|r: TransactionRecord| r.value)
}

/// The fees of the records, as a sample.
pub open spec fn fees_of(s: Seq<TransactionRecord>) -> Seq<u128> {
    s.map_values(|r: TransactionRecord| fee_of(r) as u128)
}

/// The gas prices of the records, as a sample.
pub open spec fn gas_prices_of(s: Seq<TransactionRecord>) -> Seq<u128> {
    s.map_values(|r: TransactionRecord| r.gas_price)
}

/// The fee of a record, in wei.
pub fn fee(r: &TransactionRecord) -> (f: u128)
    ensures
        f == fee_of(*r),
{
    match (r.gas as u128).checked_mul(r.gas_price) {
        Some(f) => f,
        None => u128::MAX,
    }
}

/// Which measure of a record a sample is made of.
#[derive(Clone, Copy, PartialEq, Eq, Structural)]
pub enum Measure {
    Value,
    Fee,
    GasPrice,
}

/// The sample of `measure` over the records.
pub open spec fn measure_of(s: Seq<TransactionRecord>, measure: Measure) -> Seq<u128> {
    match measure {
        Measure::Value => values_of(s),
        Measure::Fee => fees_of(s),
        Measure::GasPrice => gas_prices_of(s),
    }
}

fn measure_one(r: &TransactionRecord, measure: Measure) -> (x: u128)
    ensures
        x == measure_of(seq![*r], measure)[0],
{
    match measure {
        Measure::Value => r.value,
        Measure::Fee => fee(r),
        Measure::GasPrice => r.gas_price,
    }
}

/// The sample of `measure` over all records.
pub fn sample(all: &Vec<TransactionRecord>, measure: Measure) -> (r: Vec<u128>)
    ensures
        r@ == measure_of(all@, measure),
{
    let mut out: Vec<u128> = Vec::new();
    let mut i: usize = 0;
    while i < all.len()
        invariant
            i <= all.len(),
            out@ == measure_of(all@.take(i as int), measure),
        decreases all.len() - i,
    {
        let x = measure_one(&all[i], measure);
        out.push(x);
        proof {
            assert(all@.take(i + 1) =~= all@.take(i as int).push(all@[i as int]));
            assert(out@ =~= measure_of(all@.take(i + 1), measure));
        }
        i = i + 1;
    }
    proof {
        assert(all@.take(all@.len() as int) =~= all@);
    }
    out
}

/// The sample of `measure` over the records sent by `sender`.
pub fn sender_sample(all: &Vec<TransactionRecord>, sender: &String, measure: Measure) -> (r: Vec<
    u128,
>)
    ensures
        r@ == measure_of(sender_records(all@, sender@), measure),
{
    let mut out: Vec<u128> = Vec::new();
    let mut i: usize = 0;
    while i < all.len()
        invariant
            i <= all.len(),
            out@ == measure_of(sender_records(all@.take(i as int), sender@), measure),
        decreases all.len() - i,
    {
        let ghost pred = sent_by(sender@);
        proof {
            assert(all@.take(i + 1) =~= all@.take(i as int).push(all@[i as int]));
            all@.take(i as int).lemma_filter_push(all@[i as int], pred);
        }
        if all[i].from == *sender {
            let x = measure_one(&all[i], measure);
            out.push(x);
            proof {
                assert(out@ =~= measure_of(sender_records(all@.take(i + 1), sender@), measure));
            }
        }
        i = i + 1;
    }
    proof {
        assert(all@.take(all@.len() as int) =~= all@);
    }
    out
}

/// Global threshold of a measure: its `PERC`-th percentile over all
/// records of the store.
pub fn global_threshold(storage: &TxStorage, measure: Measure) -> (r: u128)
    requires
        storage.wf(),
    ensures
        r == percentile_of(measure_of(storage.records(), measure), PERC as int),
{
    let values = sample(storage.all_txs(), measure);
    percentile(&values, PERC)
}

/// Mean value sent by `sender` over all of its records.
pub fn local_mean(storage: &TxStorage, sender: &String) -> (m: Mean)
    requires
        storage.wf(),
    ensures
        m.wf(),
        m.count == sender_records(storage.records(), sender@).len(),
        m.total() == sample_sum(values_of(sender_records(storage.records(), sender@))),
        m.whole == mean_whole(values_of(sender_records(storage.records(), sender@))),
        m.rem == mean_rem(values_of(sender_records(storage.records(), sender@))),
{
    let values = sender_sample(storage.all_txs(), sender, Measure::Value);
    mean_of(&values)
}

/// Mean fee paid by `sender` over all of its records.
pub fn local_mean_fee(storage: &TxStorage, sender: &String) -> (m: Mean)
    requires
        storage.wf(),
    ensures
        m.wf(),
        m.count == sender_records(storage.records(), sender@).len(),
        m.total() == sample_sum(fees_of(sender_records(storage.records(), sender@))),
        m.whole == mean_whole(fees_of(sender_records(storage.records(), sender@))),
        m.rem == mean_rem(fees_of(sender_records(storage.records(), sender@))),
{
    let fees = sender_sample(storage.all_txs(), sender, Measure::Fee);
    mean_of(&fees)
}

/// The local mean of a sender with no records is 0.
pub proof fn lemma_local_mean_unseen(all: Seq<TransactionRecord>, sender: Seq<char>)
    requires
        forall|i: int| 0 <= i < all.len() ==> all[i].from@ != sender,
    ensures
        mean_whole(values_of(sender_records(all, sender))) == 0,
        mean_rem(values_of(sender_records(all, sender))) == 0,
{
    let pred = sent_by(sender);
    assert(all.all(|x: TransactionRecord| !pred(x)));
    all.lemma_all_neg_filter_empty(pred);
    assert(values_of(sender_records(all, sender)).len() == 0);
}

/// The local mean of a sender whose only value is `v` is `v`.
pub proof fn lemma_local_mean_single(all: Seq<TransactionRecord>, sender: Seq<char>, v: u128)
    requires
        values_of(sender_records(all, sender)) == seq![v],
    ensures
        mean_whole(values_of(sender_records(all, sender))) == v,
        mean_rem(values_of(sender_records(all, sender))) == 0,
{
    let s = seq![v];
    assert(s.drop_last() =~= Seq::<u128>::empty());
    assert(s.last() == v);
    assert(sample_sum(s.drop_last()) == 0);
    assert(sample_sum(s) == v);
    assert(s.len() == 1);
    lemma_fundamental_div_mod_converse(v as int, 1, v as int, 0);
}

/// A prefix of a sample sums to no more than the sample.
pub proof fn lemma_prefix_sum_le(s: Seq<u128>, i: int)
    requires
        0 <= i <= s.len(),
    ensures
        sample_sum(s.take(i)) <= sample_sum(s),
    decreases s.len(),
{
    if i < s.len() {
        assert(s.take(i) =~= s.drop_last().take(i));
        lemma_prefix_sum_le(s.drop_last(), i);
    } else {
        assert(s.take(i) =~= s);
    }
}

/// The values of a selection of records sum to no more than all values.
pub proof fn lemma_filter_sum_le(s: Seq<TransactionRecord>, p: spec_fn(TransactionRecord) -> bool)
    ensures
        sample_sum(values_of(s.filter(p))) <= sample_sum(values_of(s)),
    decreases s.len(),
{
    if s.len() > 0 {
        let init = s.drop_last();
        assert(s =~= init.push(s.last()));
        init.lemma_filter_push(s.last(), p);
        lemma_filter_sum_le(init, p);
        assert(values_of(s).drop_last() =~= values_of(init));
        if p(s.last()) {
            assert(values_of(s.filter(p)).drop_last() =~= values_of(init.filter(p)));
        }
    }
}

/// The sum of the values of the first `i` records of `s`, for `i` in range,
/// is within that of all of them.
pub proof fn lemma_filtered_prefix_sum_le(
    s: Seq<TransactionRecord>,
    i: int,
    p: spec_fn(TransactionRecord) -> bool,
)
    requires
        0 <= i <= s.len(),
    ensures
        sample_sum(values_of(s.take(i).filter(p))) <= sample_sum(values_of(s)),
{
    lemma_filter_sum_le(s.take(i), p);
    assert(values_of(s.take(i)) =~= values_of(s).take(i));
    lemma_prefix_sum_le(values_of(s), i);
}

} // verus!
