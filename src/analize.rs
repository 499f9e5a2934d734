use vstd::prelude::*;
use vstd::string::{StrSliceExecFns, StringExecFns};
use crate::config::{
    BATCH_COUNT, BATCH_WINDOW, BURST_COUNT, BURST_WINDOW, DAY, HOUR, K_LOCAL, K_LOCAL_FEE,
    NIGHT_END, STRUCTURING_COUNT, THRESHOLD_TIME, ACTIVE_TRADER_COUNT,
};
use crate::models::{
    Anomaly, AnomalyView, BusinessPattern, FlagSet, MAX_RECORDS, MAX_TOTAL_VALUE, PatternView, Severity,
    TransactionRecord, TxStorage, anomaly_views, fee_of, pattern_views, receiver_of,
    sender_records, sent_by, texts,
};
use crate::text::{contains, contains_text, decimal, decimal_string, has_prefix, starts_with};
use crate::threshold::{
    Measure, PERC, fee, fees_of, global_threshold, sort_ascending, sorted_sample, local_mean,
    local_mean_fee, measure_of, lemma_filtered_prefix_sum_le, lemma_prefix_sum_le,
    percentile_of, sample_sum, values_of,
};

verus! {

/// The mean of a sample is positive and `x` exceeds `k` times it.
pub open spec fn exceeds_scaled_mean(x: int, s: Seq<u128>, k: int) -> bool {
    sample_sum(s) > 0 && x * s.len() > k * sample_sum(s)
}

/// `Strong` when both criteria hold, else `Weak`.
pub open spec fn severity_of(a: bool, b: bool) -> Severity {
    if a && b {
        Severity::Strong
    } else {
        Severity::Weak
    }
}

/// The global threshold of a measure over a record sequence.
pub open spec fn threshold_of(all: Seq<TransactionRecord>, m: Measure) -> u128 {
    percentile_of(measure_of(all, m), PERC as int)
}

fn one_reason(s: String) -> (v: Vec<String>)
    ensures
        texts(v@) == seq![s@],
{
    let mut v: Vec<String> = Vec::new();
    v.push(s);
    assert(texts(v@) =~= seq![s@]);
    v
}

// ---------------------------------------------------------------- LargeTx

/// The reason given for a large transaction.
pub open spec fn large_reason(value: u128) -> Seq<char> {
    "Suspiciously large transaction: "@ + decimal(value as nat)
}

/// The value exceeds `K_LOCAL` times the sender's positive mean value.
pub open spec fn large_local(all: Seq<TransactionRecord>, r: TransactionRecord) -> bool {
    exceeds_scaled_mean(r.value as int, values_of(sender_records(all, r.from@)), K_LOCAL as int)
}

/// The value exceeds the global value threshold.
pub open spec fn large_global(all: Seq<TransactionRecord>, r: TransactionRecord) -> bool {
    r.value > threshold_of(all, Measure::Value)
}

/// LargeTx reports the record.
pub open spec fn large_flagged(all: Seq<TransactionRecord>, r: TransactionRecord) -> bool {
    large_local(all, r) || large_global(all, r)
}

/// The records that LargeTx reports.
pub open spec fn large_pred(all: Seq<TransactionRecord>) -> spec_fn(TransactionRecord) -> bool {
    |t: TransactionRecord| large_flagged(all, t)
}

/// What LargeTx reports for the records `recs` of the store `all`.
pub open spec fn large_tx_spec(all: Seq<TransactionRecord>, recs: Seq<TransactionRecord>) -> Seq<
    AnomalyView,
>
    decreases recs.len(),
{
    if recs.len() == 0 {
        Seq::empty()
    } else {
        let r = recs.last();
        let rest = large_tx_spec(all, recs.drop_last());
        if large_flagged(all, r) {
            rest.push(
                AnomalyView::LargeTx {
                    tx_hash: r.hash@,
                    severity: severity_of(large_local(all, r), large_global(all, r)),
                    reasons: seq![large_reason(r.value)],
                    timestamp: r.timestamp,
                },
            )
        } else {
            rest
        }
    }
}

/// The hashes of the records of `recs` that satisfy `p`.
pub open spec fn hashes_where(recs: Seq<TransactionRecord>, p: spec_fn(TransactionRecord) -> bool) -> Set<
    Seq<char>,
>
    decreases recs.len(),
{
    if recs.len() == 0 {
        Set::empty()
    } else {
        let rest = hashes_where(recs.drop_last(), p);
        if p(recs.last()) {
            rest.insert(recs.last().hash@)
        } else {
            rest
        }
    }
}

/// Flags transactions whose value is large against the sender's own mean
/// (more than `K_LOCAL` times it) or against the global value threshold;
/// `Strong` when both hold. Each reported hash is flagged.
pub fn detect_large_tx(storage: &TxStorage, flags: &mut FlagSet) -> (r: Vec<Anomaly>)
    requires
        storage.wf(),
    ensures
        anomaly_views(r@) == large_tx_spec(storage.records(), storage.records()),
        final(flags)@ == old(flags)@.union(
            hashes_where(storage.records(), large_pred(storage.records())),
        ),
        old(flags)@.subset_of(final(flags)@),
{
    let all = storage.all_txs();
    let ghost recs = storage.records();
    let ghost p = large_pred(recs);
    let thr = global_threshold(storage, Measure::Value);
    let mut out: Vec<Anomaly> = Vec::new();
    let mut i: usize = 0;
    while i < all.len()
        invariant
            storage.wf(),
            all@ == recs,
            recs == storage.records(),
            thr == threshold_of(recs, Measure::Value),
            i <= all.len(),
            p == large_pred(recs),
            anomaly_views(out@) == large_tx_spec(recs, recs.take(i as int)),
            flags@ == old(flags)@.union(hashes_where(recs.take(i as int), p)),
        decreases all.len() - i,
    {
        let tx = &all[i];
        proof {
            assert(recs.take(i + 1).drop_last() =~= recs.take(i as int));
            assert(recs.take(i + 1).last() == recs[i as int]);
        }
        let mean = local_mean(storage, &tx.from);
        let local_flag = mean.exceeds_scaled(tx.value, K_LOCAL);
        let global_flag = (tx.value) > thr;
        proof {
            assert(values_of(sender_records(recs, tx.from@)).len() == sender_records(
                recs,
                tx.from@,
            ).len());
            assert(local_flag == large_local(recs, recs[i as int]));
            assert(global_flag == large_global(recs, recs[i as int]));
            assert(p(recs[i as int]) == (local_flag || global_flag));
            assert(hashes_where(recs.take(i + 1), p) == if p(recs[i as int]) {
                hashes_where(recs.take(i as int), p).insert(recs[i as int].hash@)
            } else {
                hashes_where(recs.take(i as int), p)
            });
        }
        if local_flag || global_flag {
            let severity = if local_flag && global_flag {
                Severity::Strong
            } else {
                Severity::Weak
            };
            let reason = String::from_str("Suspiciously large transaction: ").concat(
                crate::text::decimal_string(tx.value).as_str(),
            );
            let a = Anomaly::LargeTx {
                tx_hash: tx.hash.clone(),
                severity,
                reasons: one_reason(reason),
                timestamp: tx.timestamp,
            };
            let ghost before = out@;
            out.push(a);
            flags.insert(&tx.hash);
            proof {
                assert(anomaly_views(out@) =~= anomaly_views(before).push(a@));
                assert(flags@ =~= old(flags)@.union(hashes_where(recs.take(i + 1), p)));
            }
        } else {
            proof {
                assert(flags@ =~= old(flags)@.union(hashes_where(recs.take(i + 1), p)));
            }
        }
        i = i + 1;
    }
    proof {
        assert(recs.take(all.len() as int) =~= recs);
    }
    out
}

// ---------------------------------------------------------------- HighFee

/// The reason given for a high fee.
pub open spec fn fee_reason(f: int) -> Seq<char> {
    "Suspiciously high fee: "@ + decimal(f as nat)
}

/// The fee exceeds `K_LOCAL_FEE` times the sender's positive mean fee.
pub open spec fn fee_local(all: Seq<TransactionRecord>, r: TransactionRecord) -> bool {
    exceeds_scaled_mean(fee_of(r), fees_of(sender_records(all, r.from@)), K_LOCAL_FEE as int)
}

/// The fee exceeds the global fee threshold.
pub open spec fn fee_global(all: Seq<TransactionRecord>, r: TransactionRecord) -> bool {
    fee_of(r) > threshold_of(all, Measure::Fee)
}

/// The records that HighFee reports.
pub open spec fn fee_pred(all: Seq<TransactionRecord>) -> spec_fn(TransactionRecord) -> bool {
    |t: TransactionRecord| fee_local(all, t) || fee_global(all, t)
}

/// What HighFee reports for the records `recs` of the store `all`.
pub open spec fn high_fee_spec(all: Seq<TransactionRecord>, recs: Seq<TransactionRecord>) -> Seq<
    AnomalyView,
>
    decreases recs.len(),
{
    if recs.len() == 0 {
        Seq::empty()
    } else {
        let r = recs.last();
        let rest = high_fee_spec(all, recs.drop_last());
        if fee_local(all, r) || fee_global(all, r) {
            rest.push(
                AnomalyView::HighFee {
                    tx_hash: r.hash@,
                    fee_wei: fee_of(r) as u128,
                    severity: severity_of(fee_local(all, r), fee_global(all, r)),
                    reasons: seq![fee_reason(fee_of(r))],
                    timestamp: r.timestamp,
                },
            )
        } else {
            rest
        }
    }
}

/// Flags transactions whose fee (`gas * gas_price`, in wei, see [`fee_of`]) is high against
/// the sender's mean fee (more than `K_LOCAL_FEE` times it) or against the
/// global fee threshold; `Strong` when both hold. Each reported hash is
/// flagged.
pub fn detect_high_fee(storage: &TxStorage, flags: &mut FlagSet) -> (r: Vec<Anomaly>)
    requires
        storage.wf(),
    ensures
        anomaly_views(r@) == high_fee_spec(storage.records(), storage.records()),
        final(flags)@ == old(flags)@.union(
            hashes_where(storage.records(), fee_pred(storage.records())),
        ),
        old(flags)@.subset_of(final(flags)@),
{
    let all = storage.all_txs();
    let ghost recs = storage.records();
    let ghost p = fee_pred(recs);
    let thr = global_threshold(storage, Measure::Fee);
    let mut out: Vec<Anomaly> = Vec::new();
    let mut i: usize = 0;
    while i < all.len()
        invariant
            storage.wf(),
            all@ == recs,
            recs == storage.records(),
            thr == threshold_of(recs, Measure::Fee),
            i <= all.len(),
            p == fee_pred(recs),
            anomaly_views(out@) == high_fee_spec(recs, recs.take(i as int)),
            flags@ == old(flags)@.union(hashes_where(recs.take(i as int), p)),
        decreases all.len() - i,
    {
        let tx = &all[i];
        proof {
            assert(recs.take(i + 1).drop_last() =~= recs.take(i as int));
            assert(recs.take(i + 1).last() == recs[i as int]);
        }
        let fee_wei = fee(tx);
        let mean = local_mean_fee(storage, &tx.from);
        let local_flag = mean.exceeds_scaled(fee_wei, K_LOCAL_FEE);
        let global_flag = fee_wei > thr;
        proof {
            assert(fees_of(sender_records(recs, tx.from@)).len() == sender_records(
                recs,
                tx.from@,
            ).len());
            assert(local_flag == fee_local(recs, recs[i as int]));
            assert(global_flag == fee_global(recs, recs[i as int]));
            assert(p(recs[i as int]) == (local_flag || global_flag));
        }
        if local_flag || global_flag {
            let severity = if local_flag && global_flag {
                Severity::Strong
            } else {
                Severity::Weak
            };
            let reason = String::from_str("Suspiciously high fee: ").concat(
                decimal_string(fee_wei).as_str(),
            );
            let a = Anomaly::HighFee {
                tx_hash: tx.hash.clone(),
                fee_wei,
                severity,
                reasons: one_reason(reason),
                timestamp: tx.timestamp,
            };
            let ghost before = out@;
            out.push(a);
            flags.insert(&tx.hash);
            proof {
                assert(anomaly_views(out@) =~= anomaly_views(before).push(a@));
                assert(flags@ =~= old(flags)@.union(hashes_where(recs.take(i + 1), p)));
            }
        } else {
            proof {
                assert(flags@ =~= old(flags)@.union(hashes_where(recs.take(i + 1), p)));
            }
        }
        i = i + 1;
    }
    proof {
        assert(recs.take(all.len() as int) =~= recs);
    }
    out
}

// ---------------------------------------------------------------- UnusualOp

/// Length of a record's input, in characters.
pub open spec fn input_len(r: TransactionRecord) -> int {
    r.input@.len() as int
}

/// The call data is not `0x`-prefixed or is longer than 100 characters.
pub open spec fn unusual_input(r: TransactionRecord) -> bool {
    !has_prefix(r.input@, "0x"@) || input_len(r) > 100
}

/// The value or the gas price exceeds its global threshold.
pub open spec fn unusual_strong(all: Seq<TransactionRecord>, r: TransactionRecord) -> bool {
    r.value > threshold_of(all, Measure::Value) || r.gas_price > threshold_of(
        all,
        Measure::GasPrice,
    )
}

/// The reason given for an unusual operation.
pub open spec fn unusual_reason(r: TransactionRecord) -> Seq<char> {
    "Unusual operation: value="@ + decimal(r.value as nat) + ", gas="@ + decimal(
        r.gas_price as nat,
    ) + ", input_len="@ + decimal(input_len(r) as nat)
}

/// What UnusualOp reports for the records `recs` of the store `all`, given
/// the hashes already flagged.
pub open spec fn unusual_op_spec(
    all: Seq<TransactionRecord>,
    recs: Seq<TransactionRecord>,
    flagged: Set<Seq<char>>,
) -> Seq<AnomalyView>
    decreases recs.len(),
{
    if recs.len() == 0 {
        Seq::empty()
    } else {
        let r = recs.last();
        let rest = unusual_op_spec(all, recs.drop_last(), flagged);
        if !flagged.contains(r.hash@) && (unusual_strong(all, r) || unusual_input(r)) {
            rest.push(
                AnomalyView::UnusualOp {
                    tx_hash: r.hash@,
                    severity: if unusual_strong(all, r) {
                        Severity::Strong
                    } else {
                        Severity::Weak
                    },
                    reasons: seq![unusual_reason(r)],
                    timestamp: r.timestamp,
                },
            )
        } else {
            rest
        }
    }
}

/// Reports transactions not yet flagged in this pass whose value or gas
/// price exceeds its global threshold (`Strong`), or whose input is not
/// `0x`-prefixed or longer than 100 characters (`Weak`).
pub fn detect_unusual_op(storage: &TxStorage, flags: &FlagSet) -> (r: Vec<Anomaly>)
    requires
        storage.wf(),
    ensures
        anomaly_views(r@) == unusual_op_spec(storage.records(), storage.records(), flags@),
{
    let all = storage.all_txs();
    let ghost recs = storage.records();
    let value_threshold = global_threshold(storage, Measure::Value);
    let gas_threshold = global_threshold(storage, Measure::GasPrice);
    let mut out: Vec<Anomaly> = Vec::new();
    let mut i: usize = 0;
    while i < all.len()
        invariant
            all@ == recs,
            value_threshold == threshold_of(recs, Measure::Value),
            gas_threshold == threshold_of(recs, Measure::GasPrice),
            i <= all.len(),
            anomaly_views(out@) == unusual_op_spec(recs, recs.take(i as int), flags@),
        decreases all.len() - i,
    {
        let tx = &all[i];
        proof {
            assert(recs.take(i + 1).drop_last() =~= recs.take(i as int));
            assert(recs.take(i + 1).last() == recs[i as int]);
        }
        if !flags.contains(&tx.hash) {
            let unusual_value = (tx.value) > value_threshold;
            let unusual_gas = tx.gas_price > gas_threshold;
            let len = tx.input.as_str().unicode_len();
            let bad_input = !starts_with(tx.input.as_str(), "0x") || len > 100;
            proof {
                assert(len == input_len(recs[i as int]));
                assert(bad_input == unusual_input(recs[i as int]));
                assert((unusual_value || unusual_gas) == unusual_strong(recs, recs[i as int]));
            }
            if unusual_value || unusual_gas || bad_input {
                let severity = if unusual_value || unusual_gas {
                    Severity::Strong
                } else {
                    Severity::Weak
                };
                let reason = String::from_str("Unusual operation: value=").concat(
                    decimal_string(tx.value).as_str(),
                ).concat(", gas=").concat(decimal_string(tx.gas_price).as_str()).concat(
                    ", input_len=",
                ).concat(decimal_string(len as u128).as_str());
                let a = Anomaly::UnusualOp {
                    tx_hash: tx.hash.clone(),
                    severity,
                    reasons: one_reason(reason),
                    timestamp: tx.timestamp,
                };
                let ghost before = out@;
                out.push(a);
                proof {
                    assert(anomaly_views(out@) =~= anomaly_views(before).push(a@));
                }
            }
        }
        i = i + 1;
    }
    proof {
        assert(recs.take(all.len() as int) =~= recs);
    }
    out
}

// ---------------------------------------------------------------- BlacklistedAddress

/// `addr` is one of the listed addresses.
pub open spec fn listed(list: Seq<String>, addr: Seq<char>) -> bool {
    exists|i: int| 0 <= i < list.len() && list[i]@ == addr
}

fn is_listed(list: &Vec<String>, addr: &String) -> (r: bool)
    ensures
        r == listed(list@, addr@),
{
    let mut i: usize = 0;
    while i < list.len()
        invariant
            i <= list.len(),
            forall|j: int| 0 <= j < i ==> list@[j]@ != addr@,
        decreases list.len() - i,
    {
        if list[i] == *addr {
            return true;
        }
        i = i + 1;
    }
    false
}

/// The record's receiver is listed.
pub open spec fn to_listed(list: Seq<String>, r: TransactionRecord) -> bool {
    match r.to {
        Some(t) => listed(list, t@),
        None => false,
    }
}

/// The records that BlacklistedAddress reports.
pub open spec fn blacklist_pred(list: Seq<String>) -> spec_fn(TransactionRecord) -> bool {
    |t: TransactionRecord| listed(list, t.from@) || to_listed(list, t)
}

/// What BlacklistedAddress reports for `recs` against the listed addresses.
pub open spec fn blacklist_spec(list: Seq<String>, recs: Seq<TransactionRecord>) -> Seq<
    AnomalyView,
>
    decreases recs.len(),
{
    if recs.len() == 0 {
        Seq::empty()
    } else {
        let r = recs.last();
        let rest = blacklist_spec(list, recs.drop_last());
        let with_from = if listed(list, r.from@) {
            rest.push(
                AnomalyView::BlacklistedAddress {
                    tx_hash: r.hash@,
                    addres: r.from@,
                    reasons: seq!["Transactions from a sanctioned address: "@ + r.from@],
                    timestamp: r.timestamp,
                },
            )
        } else {
            rest
        };
        match r.to {
            Some(t) => if listed(list, t@) {
                with_from.push(
                    AnomalyView::BlacklistedAddress {
                        tx_hash: r.hash@,
                        addres: t@,
                        reasons: seq!["Transactions to a sanctioned address: "@ + t@],
                        timestamp: r.timestamp,
                    },
                )
            } else {
                with_from
            },
            None => with_from,
        }
    }
}

/// Reports every transaction whose sender, and separately whose receiver,
/// is in `blacklist`, and flags its hash.
pub fn detect_blacklist_adresses(
    storage: &TxStorage,
    blacklist: &Vec<String>,
    flags: &mut FlagSet,
) -> (r: Vec<Anomaly>)
    requires
        storage.wf(),
    ensures
        anomaly_views(r@) == blacklist_spec(blacklist@, storage.records()),
        final(flags)@ == old(flags)@.union(
            hashes_where(storage.records(), blacklist_pred(blacklist@)),
        ),
        old(flags)@.subset_of(final(flags)@),
{
    let all = storage.all_txs();
    let ghost recs = storage.records();
    let ghost p = blacklist_pred(blacklist@);
    let mut out: Vec<Anomaly> = Vec::new();
    let mut i: usize = 0;
    while i < all.len()
        invariant
            all@ == recs,
            i <= all.len(),
            p == blacklist_pred(blacklist@),
            anomaly_views(out@) == blacklist_spec(blacklist@, recs.take(i as int)),
            flags@ == old(flags)@.union(hashes_where(recs.take(i as int), p)),
        decreases all.len() - i,
    {
        let tx = &all[i];
        proof {
            assert(recs.take(i + 1).drop_last() =~= recs.take(i as int));
            assert(recs.take(i + 1).last() == recs[i as int]);
        }
        let ghost start = out@;
        let ghost flags_start = flags@;
        let from_listed = is_listed(blacklist, &tx.from);
        if from_listed {
            let reason = String::from_str("Transactions from a sanctioned address: ").concat(
                tx.from.as_str(),
            );
            let a = Anomaly::BlacklistedAddress {
                tx_hash: tx.hash.clone(),
                addres: tx.from.clone(),
                reasons: one_reason(reason),
                timestamp: tx.timestamp,
            };
            let ghost before = out@;
            out.push(a);
            flags.insert(&tx.hash);
            proof {
                assert(anomaly_views(out@) =~= anomaly_views(before).push(a@));
            }
        }
        let mut to_flag = false;
        match &tx.to {
            Some(to) => {
                if is_listed(blacklist, to) {
                    let reason = String::from_str("Transactions to a sanctioned address: ").concat(
                        to.as_str(),
                    );
                    let a = Anomaly::BlacklistedAddress {
                        tx_hash: tx.hash.clone(),
                        addres: to.clone(),
                        reasons: one_reason(reason),
                        timestamp: tx.timestamp,
                    };
                    let ghost before = out@;
                    out.push(a);
                    flags.insert(&tx.hash);
                    to_flag = true;
                    proof {
                        assert(anomaly_views(out@) =~= anomaly_views(before).push(a@));
                    }
                }
            },
            None => {},
        }
        proof {
            assert(to_flag == to_listed(blacklist@, recs[i as int]));
            assert(p(recs[i as int]) == (from_listed || to_flag));
            assert(flags@ =~= old(flags)@.union(hashes_where(recs.take(i + 1), p)));
        }
        i = i + 1;
    }
    proof {
        assert(recs.take(all.len() as int) =~= recs);
    }
    out
}

// ---------------------------------------------------------------- senders

/// The distinct senders of `recs`, in order of first appearance.
pub open spec fn senders_of(recs: Seq<TransactionRecord>) -> Seq<Seq<char>>
    decreases recs.len(),
{
    if recs.len() == 0 {
        Seq::empty()
    } else {
        let rest = senders_of(recs.drop_last());
        if rest.contains(recs.last().from@) {
            rest
        } else {
            rest.push(recs.last().from@)
        }
    }
}

fn position_of(v: &Vec<String>, s: &String) -> (r: bool)
    ensures
        r == texts(v@).contains(s@),
{
    let mut i: usize = 0;
    while i < v.len()
        invariant
            i <= v.len(),
            forall|j: int| 0 <= j < i ==> v@[j]@ != s@,
        decreases v.len() - i,
    {
        if v[i] == *s {
            assert(texts(v@)[i as int] == s@);
            return true;
        }
        i = i + 1;
    }
    assert forall|j: int| 0 <= j < texts(v@).len() implies texts(v@)[j] != s@ by {
        assert(texts(v@)[j] == v@[j]@);
    }
    false
}

/// The distinct senders of the records, in order of first appearance.
pub fn distinct_senders(all: &Vec<TransactionRecord>) -> (r: Vec<String>)
    ensures
        texts(r@) == senders_of(all@),
        r@.len() <= all@.len(),
{
    let mut out: Vec<String> = Vec::new();
    let mut i: usize = 0;
    while i < all.len()
        invariant
            i <= all.len(),
            texts(out@) == senders_of(all@.take(i as int)),
            out@.len() <= i,
        decreases all.len() - i,
    {
        proof {
            assert(all@.take(i + 1).drop_last() =~= all@.take(i as int));
            assert(all@.take(i + 1).last() == all@[i as int]);
        }
        if !position_of(&out, &all[i].from) {
            let ghost before = out@;
            out.push(all[i].from.clone());
            proof {
                assert(texts(out@) =~= texts(before).push(all@[i as int].from@));
            }
        }
        i = i + 1;
    }
    proof {
        assert(all@.take(all@.len() as int) =~= all@);
    }
    out
}

// ---------------------------------------------------------------- trailing window

/// A record falls within the hour that ends at `now`.
pub open spec fn in_window(r: TransactionRecord, now: i64) -> bool {
    now - HOUR <= r.timestamp <= now
}

/// A record of `sender` within the hour that ends at `now`.
pub open spec fn window_pred(sender: Seq<char>, now: i64) -> spec_fn(TransactionRecord) -> bool {
    |t: TransactionRecord| t.from@ == sender && in_window(t, now)
}

/// The records of `sender` within the hour that ends at `now`.
pub open spec fn window_records(all: Seq<TransactionRecord>, sender: Seq<char>, now: i64) -> Seq<
    TransactionRecord,
> {
    all.filter(window_pred(sender, now))
}

/// Count and sum of the values of `sender`'s records within the hour that
/// ends at `now`.
fn sender_window(all: &Vec<TransactionRecord>, sender: &String, now: i64) -> (r: (usize, u128))
    requires
        all@.len() <= MAX_RECORDS,
        sample_sum(values_of(all@)) <= MAX_TOTAL_VALUE,
    ensures
        r.0 == window_records(all@, sender@, now).len(),
        r.1 == sample_sum(values_of(window_records(all@, sender@, now))),
{
    let mut count: usize = 0;
    let mut sum: u128 = 0;
    let mut i: usize = 0;
    while i < all.len()
        invariant
            all@.len() <= MAX_RECORDS,
            sample_sum(values_of(all@)) <= MAX_TOTAL_VALUE,
            i <= all.len(),
            count <= i,
            count == window_records(all@.take(i as int), sender@, now).len(),
            sum == sample_sum(values_of(window_records(all@.take(i as int), sender@, now))),
        decreases all.len() - i,
    {
        let tx = &all[i];
        proof {
            assert(all@.take(i + 1) =~= all@.take(i as int).push(all@[i as int]));
            all@.take(i as int).lemma_filter_push(all@[i as int], window_pred(sender@, now));
        }
        let inside = tx.from == *sender && (now as i128) - (HOUR as i128) <= (tx.timestamp as i128)
            && (tx.timestamp as i128) <= (now as i128);
        if inside {
            proof {
                let w = window_records(all@.take(i + 1), sender@, now);
                assert(values_of(w).drop_last() =~= values_of(window_records(all@.take(i as int), sender@, now)));
                lemma_filtered_prefix_sum_le(all@, i + 1, window_pred(sender@, now));
            }
            count = count + 1;
            sum = sum + tx.value;
        }
        i = i + 1;
    }
    proof {
        assert(all@.take(all@.len() as int) =~= all@);
    }
    (count, sum)
}

/// Flags the hashes of `sender`'s records within the hour that ends at `now`.
fn flag_window(all: &Vec<TransactionRecord>, sender: &String, now: i64, flags: &mut FlagSet)
    ensures
        final(flags)@ == old(flags)@.union(hashes_where(all@, window_pred(sender@, now))),
{
    let ghost p = window_pred(sender@, now);
    let mut i: usize = 0;
    while i < all.len()
        invariant
            i <= all.len(),
            p == window_pred(sender@, now),
            flags@ == old(flags)@.union(hashes_where(all@.take(i as int), p)),
        decreases all.len() - i,
    {
        let tx = &all[i];
        proof {
            assert(all@.take(i + 1).drop_last() =~= all@.take(i as int));
            assert(all@.take(i + 1).last() == all@[i as int]);
        }
        let inside = tx.from == *sender && (now as i128) - (HOUR as i128) <= (tx.timestamp as i128)
            && (tx.timestamp as i128) <= (now as i128);
        if inside {
            flags.insert(&tx.hash);
        }
        proof {
            assert(p(all@[i as int]) == inside);
            assert(flags@ =~= old(flags)@.union(hashes_where(all@.take(i + 1), p)));
        }
        i = i + 1;
    }
    proof {
        assert(all@.take(all@.len() as int) =~= all@);
    }
}

/// The hashes flagged for the senders `ss` for which `emitted` holds:
/// their records within the hour that ends at `now`.
pub open spec fn window_hashes(
    all: Seq<TransactionRecord>,
    ss: Seq<Seq<char>>,
    now: i64,
    emitted: spec_fn(Seq<char>) -> bool,
) -> Set<Seq<char>>
    decreases ss.len(),
{
    if ss.len() == 0 {
        Set::empty()
    } else {
        let rest = window_hashes(all, ss.drop_last(), now, emitted);
        if emitted(ss.last()) {
            rest.union(hashes_where(all, window_pred(ss.last(), now)))
        } else {
            rest
        }
    }
}

// ---------------------------------------------------------------- HighFrequency

/// Number of `s`'s records within the hour that ends at `now`.
pub open spec fn hf_count(all: Seq<TransactionRecord>, s: Seq<char>, now: i64) -> int {
    window_records(all, s, now).len() as int
}

/// The senders that HighFrequency reports.
pub open spec fn hf_emitted(all: Seq<TransactionRecord>, now: i64) -> spec_fn(Seq<char>) -> bool {
    |s: Seq<char>| hf_count(all, s, now) > THRESHOLD_TIME
}

/// What HighFrequency reports for the senders `ss` of the store `all`.
pub open spec fn high_frequency_spec(all: Seq<TransactionRecord>, ss: Seq<Seq<char>>, now: i64) -> Seq<
    AnomalyView,
>
    decreases ss.len(),
{
    if ss.len() == 0 {
        Seq::empty()
    } else {
        let s = ss.last();
        let rest = high_frequency_spec(all, ss.drop_last(), now);
        let c = hf_count(all, s, now);
        if c > THRESHOLD_TIME {
            rest.push(
                AnomalyView::HighFrequency {
                    sender: s,
                    count: c as usize,
                    reasons: seq!["Too many transactions per hour: "@ + decimal(c as nat)],
                },
            )
        } else {
            rest
        }
    }
}

/// Reports each sender with more than `THRESHOLD_TIME` transactions in the
/// hour that ends at `now` (seconds since the epoch), and flags the hashes
/// of those transactions.
pub fn detect_high_frequency_at(storage: &TxStorage, now: i64, flags: &mut FlagSet) -> (r: Vec<
    Anomaly,
>)
    requires
        storage.wf(),
    ensures
        anomaly_views(r@) == high_frequency_spec(
            storage.records(),
            senders_of(storage.records()),
            now,
        ),
        final(flags)@ == old(flags)@.union(
            window_hashes(
                storage.records(),
                senders_of(storage.records()),
                now,
                hf_emitted(storage.records(), now),
            ),
        ),
        old(flags)@.subset_of(final(flags)@),
{
    let all = storage.all_txs();
    let ghost recs = storage.records();
    let ghost e = hf_emitted(recs, now);
    let senders = distinct_senders(all);
    let ghost ss = texts(senders@);
    let mut out: Vec<Anomaly> = Vec::new();
    let mut k: usize = 0;
    while k < senders.len()
        invariant
            all@ == recs,
            all@.len() <= MAX_RECORDS,
            sample_sum(values_of(all@)) <= MAX_TOTAL_VALUE,
            ss == texts(senders@),
            e == hf_emitted(recs, now),
            k <= senders.len(),
            anomaly_views(out@) == high_frequency_spec(recs, ss.take(k as int), now),
            flags@ == old(flags)@.union(window_hashes(recs, ss.take(k as int), now, e)),
        decreases senders.len() - k,
    {
        let sender = &senders[k];
        proof {
            assert(ss.take(k + 1).drop_last() =~= ss.take(k as int));
            assert(ss.take(k + 1).last() == sender@);
        }
        let (count, _sum) = sender_window(all, sender, now);
        if count > THRESHOLD_TIME {
            let reason = String::from_str("Too many transactions per hour: ").concat(
                decimal_string(count as u128).as_str(),
            );
            let a = Anomaly::HighFrequency {
                sender: sender.clone(),
                count,
                reasons: one_reason(reason),
            };
            let ghost before = out@;
            out.push(a);
            flag_window(all, sender, now, flags);
            proof {
                assert(anomaly_views(out@) =~= anomaly_views(before).push(a@));
            }
        }
        proof {
            assert(flags@ =~= old(flags)@.union(window_hashes(recs, ss.take(k + 1), now, e)));
        }
        k = k + 1;
    }
    proof {
        assert(ss.take(senders.len() as int) =~= ss);
    }
    out
}

// ---------------------------------------------------------------- Structuring

/// Sum of the values of `s`'s records within the hour that ends at `now`.
pub open spec fn window_sum(all: Seq<TransactionRecord>, s: Seq<char>, now: i64) -> int {
    sample_sum(values_of(window_records(all, s, now)))
}

/// The window's sum exceeds `K_LOCAL` times the sender's positive mean value.
pub open spec fn st_local(all: Seq<TransactionRecord>, s: Seq<char>, now: i64) -> bool {
    exceeds_scaled_mean(window_sum(all, s, now), values_of(sender_records(all, s)), K_LOCAL as int)
}

/// The window's sum exceeds the global value threshold.
pub open spec fn st_global(all: Seq<TransactionRecord>, s: Seq<char>, now: i64) -> bool {
    window_sum(all, s, now) > threshold_of(all, Measure::Value)
}

/// The window holds more than `STRUCTURING_COUNT` records.
pub open spec fn st_count(all: Seq<TransactionRecord>, s: Seq<char>, now: i64) -> bool {
    hf_count(all, s, now) > STRUCTURING_COUNT
}

/// The senders that Structuring reports.
pub open spec fn st_emitted(all: Seq<TransactionRecord>, now: i64) -> spec_fn(Seq<char>) -> bool {
    |s: Seq<char>| st_local(all, s, now) || st_global(all, s, now) || st_count(all, s, now)
}

/// The reason given for structuring.
pub open spec fn structuring_reason(count: int, sum: int) -> Seq<char> {
    "Suspected structuring\n Transations count: "@ + decimal(count as nat)
        + ",\n Transations sum: "@ + decimal(sum as nat)
}

/// What Structuring reports for the senders `ss` of the store `all`.
pub open spec fn structuring_spec(all: Seq<TransactionRecord>, ss: Seq<Seq<char>>, now: i64) -> Seq<
    AnomalyView,
>
    decreases ss.len(),
{
    if ss.len() == 0 {
        Seq::empty()
    } else {
        let s = ss.last();
        let rest = structuring_spec(all, ss.drop_last(), now);
        let (l, g, c) = (st_local(all, s, now), st_global(all, s, now), st_count(all, s, now));
        if l || g || c {
            rest.push(
                AnomalyView::Structuring {
                    sender: s,
                    count: hf_count(all, s, now) as usize,
                    severity: if l && g && c {
                        Severity::Strong
                    } else {
                        Severity::Weak
                    },
                    reasons: seq![structuring_reason(hf_count(all, s, now), window_sum(all, s, now))],
                },
            )
        } else {
            rest
        }
    }
}

/// For each sender, over the hour that ends at `now`: the window's sum is
/// locally large (more than `K_LOCAL` times the sender's mean), globally
/// large (above the value threshold), and the count exceeds
/// `STRUCTURING_COUNT`. All three give `Strong`, none gives nothing, any
/// other mix `Weak`. The hashes of a reported sender's window are flagged.
pub fn detect_structuring_at(storage: &TxStorage, now: i64, flags: &mut FlagSet) -> (r: Vec<
    Anomaly,
>)
    requires
        storage.wf(),
    ensures
        anomaly_views(r@) == structuring_spec(storage.records(), senders_of(storage.records()), now),
        final(flags)@ == old(flags)@.union(
            window_hashes(
                storage.records(),
                senders_of(storage.records()),
                now,
                st_emitted(storage.records(), now),
            ),
        ),
        old(flags)@.subset_of(final(flags)@),
{
    let all = storage.all_txs();
    let ghost recs = storage.records();
    let ghost e = st_emitted(recs, now);
    let thr = global_threshold(storage, Measure::Value);
    let senders = distinct_senders(all);
    let ghost ss = texts(senders@);
    let mut out: Vec<Anomaly> = Vec::new();
    let mut k: usize = 0;
    while k < senders.len()
        invariant
            storage.wf(),
            recs == storage.records(),
            all@ == recs,
            all@.len() <= MAX_RECORDS,
            sample_sum(values_of(all@)) <= MAX_TOTAL_VALUE,
            sample_sum(values_of(all@)) <= MAX_TOTAL_VALUE,
            thr == threshold_of(recs, Measure::Value),
            ss == texts(senders@),
            e == st_emitted(recs, now),
            k <= senders.len(),
            anomaly_views(out@) == structuring_spec(recs, ss.take(k as int), now),
            flags@ == old(flags)@.union(window_hashes(recs, ss.take(k as int), now, e)),
        decreases senders.len() - k,
    {
        let sender = &senders[k];
        proof {
            assert(ss.take(k + 1).drop_last() =~= ss.take(k as int));
            assert(ss.take(k + 1).last() == sender@);
        }
        let (count, sum) = sender_window(all, sender, now);
        let mean = local_mean(storage, sender);
        let local_flag = mean.exceeds_scaled(sum, K_LOCAL);
        let global_flag = sum > thr;
        let count_flag = count > STRUCTURING_COUNT;
        proof {
            assert(values_of(sender_records(recs, sender@)).len() == sender_records(
                recs,
                sender@,
            ).len());
            assert(local_flag == st_local(recs, sender@, now));
            assert(e(sender@) == (local_flag || global_flag || count_flag));
        }
        if local_flag || global_flag || count_flag {
            let severity = if local_flag && global_flag && count_flag {
                Severity::Strong
            } else {
                Severity::Weak
            };
            let reason = String::from_str("Suspected structuring\n Transations count: ").concat(
                decimal_string(count as u128).as_str(),
            ).concat(",\n Transations sum: ").concat(decimal_string(sum).as_str());
            let a = Anomaly::Structuring {
                sender: sender.clone(),
                count,
                severity,
                reasons: one_reason(reason),
            };
            let ghost before = out@;
            out.push(a);
            flag_window(all, sender, now, flags);
            proof {
                assert(anomaly_views(out@) =~= anomaly_views(before).push(a@));
            }
        }
        proof {
            assert(flags@ =~= old(flags)@.union(window_hashes(recs, ss.take(k + 1), now, e)));
        }
        k = k + 1;
    }
    proof {
        assert(ss.take(senders.len() as int) =~= ss);
    }
    out
}

// ---------------------------------------------------------------- Whales

/// The sender's mean value exceeds the global value threshold.
pub open spec fn is_whale(all: Seq<TransactionRecord>, s: Seq<char>) -> bool {
    sample_sum(values_of(sender_records(all, s))) > threshold_of(all, Measure::Value)
        * sender_records(all, s).len()
}

/// What Whales reports for the senders `ss` of the store `all`.
pub open spec fn whales_spec(all: Seq<TransactionRecord>, ss: Seq<Seq<char>>) -> Seq<PatternView>
    decreases ss.len(),
{
    if ss.len() == 0 {
        Seq::empty()
    } else {
        let rest = whales_spec(all, ss.drop_last());
        if is_whale(all, ss.last()) {
            rest.push(PatternView::Whales { sender: ss.last() })
        } else {
            rest
        }
    }
}

/// Reports each sender whose mean value exceeds the global value threshold.
pub fn detect_whales(storage: &TxStorage) -> (r: Vec<BusinessPattern>)
    requires
        storage.wf(),
    ensures
        pattern_views(r@) == whales_spec(storage.records(), senders_of(storage.records())),
{
    let all = storage.all_txs();
    let ghost recs = storage.records();
    let thr = global_threshold(storage, Measure::Value);
    let senders = distinct_senders(all);
    let ghost ss = texts(senders@);
    let mut out: Vec<BusinessPattern> = Vec::new();
    let mut k: usize = 0;
    while k < senders.len()
        invariant
            storage.wf(),
            recs == storage.records(),
            all@ == recs,
            thr == threshold_of(recs, Measure::Value),
            ss == texts(senders@),
            k <= senders.len(),
            pattern_views(out@) == whales_spec(recs, ss.take(k as int)),
        decreases senders.len() - k,
    {
        let sender = &senders[k];
        proof {
            assert(ss.take(k + 1).drop_last() =~= ss.take(k as int));
            assert(ss.take(k + 1).last() == sender@);
        }
        let mean = local_mean(storage, sender);
        if mean.exceeds(thr) {
            let p = BusinessPattern::Whales { sender: sender.clone() };
            let ghost before = out@;
            out.push(p);
            proof {
                assert(pattern_views(out@) =~= pattern_views(before).push(p@));
            }
        }
        k = k + 1;
    }
    proof {
        assert(ss.take(senders.len() as int) =~= ss);
    }
    out
}

// ---------------------------------------------------------------- clock

/// Relies on `SystemTime::duration_since(UNIX_EPOCH)` applied to
/// `SystemTime::now()`: the current time in whole seconds since the Unix
/// epoch, negative for a clock set before it. Neither call panics; nothing
/// is assumed of the value.
#[verifier::external_body]
fn unix_now() -> (t: i64) {
    match std::time::SystemTime::now().duration_since(std::time::UNIX_EPOCH) {
        Ok(d) => d.as_secs() as i64,
        Err(e) => (e.duration().as_secs() as i64).wrapping_neg(),
    }
}

/// HighFrequency over the hour that ends now; see
/// [`detect_high_frequency_at`].
pub fn detect_high_frequency(storage: &TxStorage, flags: &mut FlagSet) -> (r: Vec<Anomaly>)
    requires
        storage.wf(),
    ensures
        exists|now: i64|
            anomaly_views(r@) == high_frequency_spec(
                storage.records(),
                senders_of(storage.records()),
                now,
            ) && final(flags)@ == old(flags)@.union(
                window_hashes(
                    storage.records(),
                    senders_of(storage.records()),
                    now,
                    hf_emitted(storage.records(), now),
                ),
            ),
        old(flags)@.subset_of(final(flags)@),
{
    let now = unix_now();
    detect_high_frequency_at(storage, now, flags)
}

/// Structuring over the hour that ends now; see [`detect_structuring_at`].
pub fn detect_structuring(storage: &TxStorage, flags: &mut FlagSet) -> (r: Vec<Anomaly>)
    requires
        storage.wf(),
    ensures
        exists|now: i64|
            anomaly_views(r@) == structuring_spec(
                storage.records(),
                senders_of(storage.records()),
                now,
            ) && final(flags)@ == old(flags)@.union(
                window_hashes(
                    storage.records(),
                    senders_of(storage.records()),
                    now,
                    st_emitted(storage.records(), now),
                ),
            ),
        old(flags)@.subset_of(final(flags)@),
{
    let now = unix_now();
    detect_structuring_at(storage, now, flags)
}

// ---------------------------------------------------------------- TimeAnomaly / BurstActivity

/// A record timestamped between 00:00 and 06:59:59 UTC.
pub open spec fn at_night(r: TransactionRecord) -> bool {
    r.timestamp % DAY < NIGHT_END
}

/// The `TimeAnomaly` reports for `recs`.
pub open spec fn night_spec(recs: Seq<TransactionRecord>) -> Seq<AnomalyView>
    decreases recs.len(),
{
    if recs.len() == 0 {
        Seq::empty()
    } else {
        let r = recs.last();
        let rest = night_spec(recs.drop_last());
        if at_night(r) {
            rest.push(
                AnomalyView::TimeAnomaly {
                    tx_hash: r.hash@,
                    severity: Severity::Weak,
                    reasons: seq!["Transaction in unusual time"@],
                    timestamp: r.timestamp,
                },
            )
        } else {
            rest
        }
    }
}

/// The timestamps of `sender`'s records.
pub open spec fn sender_times(all: Seq<TransactionRecord>, sender: Seq<char>) -> Seq<u64> {
    sender_records(all, sender).map_values(|r: TransactionRecord| r.timestamp)
}

/// Timestamps within `[t, t + BURST_WINDOW]`.
pub open spec fn in_burst_window(t: u64) -> spec_fn(u64) -> bool {
    |u: u64| t <= u <= t + BURST_WINDOW
}

/// Some timestamp of `ts` starts a window of `BURST_WINDOW` seconds that
/// holds at least `BURST_COUNT` of them.
pub open spec fn has_burst(ts: Seq<u64>) -> bool {
    exists|i: int| 0 <= i < ts.len() && #[trigger] ts.filter(in_burst_window(ts[i])).len() >= BURST_COUNT
}

/// The `BurstActivity` reports for the senders `ss`.
pub open spec fn burst_spec(all: Seq<TransactionRecord>, ss: Seq<Seq<char>>) -> Seq<AnomalyView>
    decreases ss.len(),
{
    if ss.len() == 0 {
        Seq::empty()
    } else {
        let rest = burst_spec(all, ss.drop_last());
        if has_burst(sender_times(all, ss.last())) {
            rest.push(
                AnomalyView::BurstActivity {
                    sender: ss.last(),
                    reasons: seq!["Detected Burst activity from: "@ + ss.last()],
                },
            )
        } else {
            rest
        }
    }
}

fn times_of(all: &Vec<TransactionRecord>, sender: &String) -> (r: Vec<u64>)
    ensures
        r@ == sender_times(all@, sender@),
{
    let mut out: Vec<u64> = Vec::new();
    let mut i: usize = 0;
    while i < all.len()
        invariant
            i <= all.len(),
            out@ == sender_times(all@.take(i as int), sender@),
        decreases all.len() - i,
    {
        proof {
            assert(all@.take(i + 1) =~= all@.take(i as int).push(all@[i as int]));
            all@.take(i as int).lemma_filter_push(all@[i as int], crate::models::sent_by(sender@));
        }
        if all[i].from == *sender {
            out.push(all[i].timestamp);
            proof {
                assert(out@ =~= sender_times(all@.take(i + 1), sender@));
            }
        }
        i = i + 1;
    }
    proof {
        assert(all@.take(all@.len() as int) =~= all@);
    }
    out
}

fn count_in_burst_window(ts: &Vec<u64>, t: u64) -> (c: usize)
    ensures
        c == ts@.filter(in_burst_window(t)).len(),
{
    let mut c: usize = 0;
    let mut j: usize = 0;
    while j < ts.len()
        invariant
            j <= ts.len(),
            c <= j,
            c == ts@.take(j as int).filter(in_burst_window(t)).len(),
        decreases ts.len() - j,
    {
        proof {
            assert(ts@.take(j + 1) =~= ts@.take(j as int).push(ts@[j as int]));
            ts@.take(j as int).lemma_filter_push(ts@[j as int], in_burst_window(t));
        }
        if t <= ts[j] && (ts[j] as u128) <= (t as u128) + (BURST_WINDOW as u128) {
            c = c + 1;
        }
        j = j + 1;
    }
    proof {
        assert(ts@.take(ts@.len() as int) =~= ts@);
    }
    c
}

fn burst_found(ts: &Vec<u64>) -> (r: bool)
    ensures
        r == has_burst(ts@),
{
    let mut i: usize = 0;
    while i < ts.len()
        invariant
            i <= ts.len(),
            forall|k: int| 0 <= k < i ==> #[trigger] ts@.filter(in_burst_window(ts@[k])).len() < BURST_COUNT,
        decreases ts.len() - i,
    {
        if count_in_burst_window(ts, ts[i]) >= BURST_COUNT {
            return true;
        }
        i = i + 1;
    }
    false
}

/// Reports, in store order, each transaction timestamped between 00:00 and
/// 06:59:59 UTC (`Weak`); then, per sender, one `BurstActivity` when some
/// transaction starts a `BURST_WINDOW`-second window that holds at least
/// `BURST_COUNT` of the sender's transactions.
pub fn detect_time_anomalies(storage: &TxStorage) -> (r: Vec<Anomaly>)
    requires
        storage.wf(),
    ensures
        anomaly_views(r@) == night_spec(storage.records()) + burst_spec(
            storage.records(),
            senders_of(storage.records()),
        ),
{
    let all = storage.all_txs();
    let ghost recs = storage.records();
    let mut out: Vec<Anomaly> = Vec::new();
    let mut i: usize = 0;
    while i < all.len()
        invariant
            all@ == recs,
            i <= all.len(),
            anomaly_views(out@) == night_spec(recs.take(i as int)),
        decreases all.len() - i,
    {
        let tx = &all[i];
        proof {
            assert(recs.take(i + 1).drop_last() =~= recs.take(i as int));
            assert(recs.take(i + 1).last() == recs[i as int]);
        }
        if tx.timestamp % DAY < NIGHT_END {
            let a = Anomaly::TimeAnomaly {
                tx_hash: tx.hash.clone(),
                severity: Severity::Weak,
                reasons: one_reason(String::from_str("Transaction in unusual time")),
                timestamp: tx.timestamp,
            };
            let ghost before = out@;
            out.push(a);
            proof {
                assert(anomaly_views(out@) =~= anomaly_views(before).push(a@));
            }
        }
        i = i + 1;
    }
    proof {
        assert(recs.take(all.len() as int) =~= recs);
    }
    let ghost night = anomaly_views(out@);
    let senders = distinct_senders(all);
    let ghost ss = texts(senders@);
    let mut k: usize = 0;
    while k < senders.len()
        invariant
            all@ == recs,
            ss == texts(senders@),
            k <= senders.len(),
            anomaly_views(out@) == night + burst_spec(recs, ss.take(k as int)),
        decreases senders.len() - k,
    {
        let sender = &senders[k];
        proof {
            assert(ss.take(k + 1).drop_last() =~= ss.take(k as int));
            assert(ss.take(k + 1).last() == sender@);
        }
        let times = times_of(all, sender);
        if burst_found(&times) {
            let reason = String::from_str("Detected Burst activity from: ").concat(sender.as_str());
            let a = Anomaly::BurstActivity { sender: sender.clone(), reasons: one_reason(reason) };
            let ghost before = out@;
            out.push(a);
            proof {
                assert(anomaly_views(out@) =~= anomaly_views(before).push(a@));
                assert(anomaly_views(out@) =~= night + burst_spec(recs, ss.take(k + 1)));
            }
        }
        k = k + 1;
    }
    proof {
        assert(ss.take(senders.len() as int) =~= ss);
    }
    out
}

// ---------------------------------------------------------------- BatchPayments

/// The timestamps of `sender`'s records, in ascending order.
pub open spec fn batch_times(all: Seq<TransactionRecord>, sender: Seq<char>) -> Seq<u128> {
    sorted_sample(sender_records(all, sender).map_values(|r: TransactionRecord| r.timestamp as u128))
}

/// The end of the run that starts at `i`, scanning from `j`: the first
/// index whose timestamp is more than `BATCH_WINDOW` after `ts[i]`.
pub open spec fn run_end(ts: Seq<u128>, i: int, j: int) -> int
    decreases ts.len() - j,
{
    if 0 <= i < j < ts.len() && ts[j] - ts[i] <= BATCH_WINDOW {
        run_end(ts, i, j + 1)
    } else {
        j
    }
}

/// Greedy, non-overlapping batches of `ts` from index `i`: the sizes of the
/// runs of at least `BATCH_COUNT` timestamps within `BATCH_WINDOW` of the
/// run's first one. A batch consumes its whole run; otherwise the scan moves
/// on by one.
pub open spec fn batches(ts: Seq<u128>, i: int) -> Seq<int>
    decreases ts.len() - i,
{
    if i < 0 || i >= ts.len() {
        Seq::empty()
    } else {
        let e = run_end(ts, i, i + 1);
        let c = if i < e <= ts.len() {
            e - i
        } else {
            1
        };
        if c >= BATCH_COUNT {
            seq![c] + batches(ts, i + c)
        } else {
            batches(ts, i + 1)
        }
    }
}

/// The message of a batch of `c` payments from `s`.
pub open spec fn batch_message(s: Seq<char>, c: int) -> Seq<char> {
    "Detected batch payments from "@ + s + ":\n Payments count: "@ + decimal(c as nat)
}

/// The BatchPayments reports of `s` for the batch sizes `counts`.
pub open spec fn batch_views(s: Seq<char>, counts: Seq<int>) -> Seq<PatternView> {
    counts.map_values(
        |c: int| PatternView::BatchPayments { sender: s, count: c as usize, message: batch_message(s, c) },
    )
}

/// What BatchPayments reports for the senders `ss`.
pub open spec fn batch_spec(all: Seq<TransactionRecord>, ss: Seq<Seq<char>>) -> Seq<PatternView>
    decreases ss.len(),
{
    if ss.len() == 0 {
        Seq::empty()
    } else {
        batch_spec(all, ss.drop_last()) + batch_views(
            ss.last(),
            batches(batch_times(all, ss.last()), 0),
        )
    }
}

proof fn lemma_run_end_step(ts: Seq<u128>, i: int, j: int)
    requires
        0 <= i < j < ts.len(),
        ts[j] - ts[i] <= BATCH_WINDOW,
    ensures
        run_end(ts, i, j) == run_end(ts, i, j + 1),
{
}

fn sorted_times(all: &Vec<TransactionRecord>, sender: &String) -> (r: Vec<u128>)
    ensures
        r@ == batch_times(all@, sender@),
{
    let times = times_of(all, sender);
    let mut wide: Vec<u128> = Vec::new();
    let mut i: usize = 0;
    while i < times.len()
        invariant
            i <= times.len(),
            wide@ == times@.take(i as int).map_values(|t: u64| t as u128),
        decreases times.len() - i,
    {
        wide.push(times[i] as u128);
        proof {
            assert(wide@ =~= times@.take(i + 1).map_values(|t: u64| t as u128));
        }
        i = i + 1;
    }
    proof {
        assert(times@.take(times@.len() as int) =~= times@);
        assert(wide@ =~= sender_records(all@, sender@).map_values(
            |r: TransactionRecord| r.timestamp as u128,
        ));
    }
    sort_ascending(&wide)
}

/// Reports, per sender, each greedy non-overlapping batch of at least
/// `BATCH_COUNT` transactions within `BATCH_WINDOW` seconds of the batch's
/// first one, with its size.
pub fn detect_batch_payments(storage: &TxStorage) -> (r: Vec<BusinessPattern>)
    requires
        storage.wf(),
    ensures
        pattern_views(r@) == batch_spec(storage.records(), senders_of(storage.records())),
{
    let all = storage.all_txs();
    let ghost recs = storage.records();
    let senders = distinct_senders(all);
    let ghost ss = texts(senders@);
    let mut out: Vec<BusinessPattern> = Vec::new();
    let mut k: usize = 0;
    while k < senders.len()
        invariant
            all@ == recs,
            ss == texts(senders@),
            k <= senders.len(),
            pattern_views(out@) == batch_spec(recs, ss.take(k as int)),
        decreases senders.len() - k,
    {
        let sender = &senders[k];
        proof {
            assert(ss.take(k + 1).drop_last() =~= ss.take(k as int));
            assert(ss.take(k + 1).last() == sender@);
        }
        let ts = sorted_times(all, sender);
        let ghost start = pattern_views(out@);
        let ghost emitted: Seq<int> = Seq::empty();
        let n = ts.len();
        let mut i: usize = 0;
        while i < n
            invariant
                n == ts@.len(),
                i <= n,
                batches(ts@, 0) == emitted + batches(ts@, i as int),
                pattern_views(out@) == start + batch_views(sender@, emitted),
            decreases n - i,
        {
            let mut j: usize = i + 1;
            while j < n && (ts[j] < ts[i] || ts[j] - ts[i] <= BATCH_WINDOW as u128)
                invariant
                    n == ts@.len(),
                    i < j <= n,
                    run_end(ts@, i as int, i + 1) == run_end(ts@, i as int, j as int),
                decreases n - j,
            {
                proof {
                    lemma_run_end_step(ts@, i as int, j as int);
                }
                j = j + 1;
            }
            let c = j - i;
            if c >= BATCH_COUNT {
                let msg = String::from_str("Detected batch payments from ").concat(sender.as_str()).concat(
                    ":\n Payments count: ",
                ).concat(decimal_string(c as u128).as_str());
                let p = BusinessPattern::BatchPayments { sender: sender.clone(), count: c, message: msg };
                let ghost before = out@;
                out.push(p);
                proof {
                    assert(batches(ts@, i as int) == seq![c as int] + batches(ts@, j as int));
                    assert(emitted + batches(ts@, i as int) =~= emitted.push(c as int) + batches(ts@, j as int));
                    emitted = emitted.push(c as int);
                    assert(pattern_views(out@) =~= pattern_views(before).push(p@));
                    assert(batch_views(sender@, emitted) =~= batch_views(sender@, emitted.drop_last()).push(p@));
                }
                i = j;
            } else {
                proof {
                    assert(batches(ts@, i as int) == batches(ts@, i + 1));
                }
                i = i + 1;
            }
        }
        proof {
            assert(batches(ts@, n as int) == Seq::<int>::empty());
            assert(emitted + Seq::<int>::empty() =~= emitted);
            assert(pattern_views(out@) =~= batch_spec(recs, ss.take(k + 1)));
        }
        k = k + 1;
    }
    proof {
        assert(ss.take(senders.len() as int) =~= ss);
    }
    out
}

// ---------------------------------------------------------------- RegularPayments

/// The distinct receivers of `recs` (`None` standing for contract
/// creations), in order of first appearance.
pub open spec fn receivers_of(recs: Seq<TransactionRecord>) -> Seq<Option<Seq<char>>>
    decreases recs.len(),
{
    if recs.len() == 0 {
        Seq::empty()
    } else {
        let rest = receivers_of(recs.drop_last());
        if rest.contains(receiver_of(recs.last())) {
            rest
        } else {
            rest.push(receiver_of(recs.last()))
        }
    }
}

/// A record from `sender` to the counterparty `c`.
pub open spec fn pair_pred(sender: Seq<char>, c: Option<Seq<char>>) -> spec_fn(TransactionRecord) -> bool {
    |r: TransactionRecord| r.from@ == sender && receiver_of(r) == c
}

/// The values that `sender` paid to `c`, in store order.
pub open spec fn group_values(all: Seq<TransactionRecord>, sender: Seq<char>, c: Option<Seq<char>>) -> Seq<
    u128,
> {
    values_of(all.filter(pair_pred(sender, c)))
}

/// `sum |n * v - t|` over the values `v` of `vals`.
pub open spec fn abs_dev(vals: Seq<u128>, n: int, t: int) -> int
    decreases vals.len(),
{
    if vals.len() == 0 {
        0
    } else {
        let d = n * vals.last() - t;
        abs_dev(vals.drop_last(), n, t) + if d >= 0 {
            d
        } else {
            -d
        }
    }
}

/// At least two values whose mean absolute deviation is under 10% of their
/// mean. With mean `m = t / n`, `sum |v - m| / n < m / 10` is, times `10 n^2`,
/// `10 * sum |n v - t| < n * t`.
pub open spec fn is_regular(vals: Seq<u128>) -> bool {
    vals.len() >= 2 && 10 * abs_dev(vals, vals.len() as int, sample_sum(vals)) < vals.len()
        * sample_sum(vals)
}

/// The RegularPayments reports of `s` for its counterparties `cs`.
pub open spec fn regular_for(all: Seq<TransactionRecord>, s: Seq<char>, cs: Seq<Option<Seq<char>>>) -> Seq<
    PatternView,
>
    decreases cs.len(),
{
    if cs.len() == 0 {
        Seq::empty()
    } else {
        let rest = regular_for(all, s, cs.drop_last());
        if is_regular(group_values(all, s, cs.last())) {
            rest.push(
                PatternView::RegularPayments {
                    sender: s,
                    message: "Detected regular payments from "@ + s,
                },
            )
        } else {
            rest
        }
    }
}

/// What RegularPayments reports for the senders `ss`.
pub open spec fn regular_spec(all: Seq<TransactionRecord>, ss: Seq<Seq<char>>) -> Seq<PatternView>
    decreases ss.len(),
{
    if ss.len() == 0 {
        Seq::empty()
    } else {
        regular_spec(all, ss.drop_last()) + regular_for(
            all,
            ss.last(),
            receivers_of(sender_records(all, ss.last())),
        )
    }
}

/// An optional string as optional characters.
pub open spec fn opt_text(o: Option<String>) -> Option<Seq<char>> {
    match o {
        Some(s) => Some(s@),
        None => None,
    }
}

fn same_receiver(a: &Option<String>, b: &Option<String>) -> (r: bool)
    ensures
        r == (opt_text(*a) == opt_text(*b)),
{
    match (a, b) {
        (Some(x), Some(y)) => *x == *y,
        (None, None) => true,
        _ => false,
    }
}

fn copy_receiver(a: &Option<String>) -> (r: Option<String>)
    ensures
        opt_text(r) == opt_text(*a),
{
    match a {
        Some(x) => Some(x.clone()),
        None => None,
    }
}

/// The distinct receivers of `sender`'s records, in order of first appearance.
fn counterparties(all: &Vec<TransactionRecord>, sender: &String) -> (r: Vec<Option<String>>)
    ensures
        r@.map_values(|o: Option<String>| opt_text(o)) == receivers_of(sender_records(all@, sender@)),
{
    let mut out: Vec<Option<String>> = Vec::new();
    let mut i: usize = 0;
    while i < all.len()
        invariant
            i <= all.len(),
            out@.map_values(|o: Option<String>| opt_text(o)) == receivers_of(
                sender_records(all@.take(i as int), sender@),
            ),
        decreases all.len() - i,
    {
        let ghost cur = out@.map_values(|o: Option<String>| opt_text(o));
        proof {
            assert(all@.take(i + 1) =~= all@.take(i as int).push(all@[i as int]));
            all@.take(i as int).lemma_filter_push(all@[i as int], sent_by(sender@));
        }
        if all[i].from == *sender {
            let ghost recs_i = sender_records(all@.take(i + 1), sender@);
            proof {
                assert(recs_i.drop_last() =~= sender_records(all@.take(i as int), sender@));
                assert(recs_i.last() == all@[i as int]);
                assert(opt_text(all@[i as int].to) == receiver_of(all@[i as int]));
            }
            let mut j: usize = 0;
            let mut seen = false;
            while j < out.len()
                invariant
                    i < all@.len(),
                    j <= out.len(),
                    cur == out@.map_values(|o: Option<String>| opt_text(o)),
                    seen == exists|m: int| 0 <= m < j && cur[m] == receiver_of(all@[i as int]),
                decreases out.len() - j,
            {
                if same_receiver(&out[j], &all[i].to) {
                    seen = true;
                }
                proof {
                    assert(cur[j as int] == opt_text(out@[j as int]));
                }
                j = j + 1;
            }
            proof {
                assert(seen == cur.contains(receiver_of(all@[i as int])));
            }
            if !seen {
                let c = copy_receiver(&all[i].to);
                out.push(c);
                proof {
                    assert(out@.map_values(|o: Option<String>| opt_text(o)) =~= cur.push(
                        receiver_of(all@[i as int]),
                    ));
                }
            }
        }
        i = i + 1;
    }
    proof {
        assert(all@.take(all@.len() as int) =~= all@);
    }
    out
}

/// The values that `sender` paid to `c`.
fn pair_values(all: &Vec<TransactionRecord>, sender: &String, c: &Option<String>) -> (r: Vec<u128>)
    requires
        all@.len() <= MAX_RECORDS,
        sample_sum(values_of(all@)) <= MAX_TOTAL_VALUE,
    ensures
        r@ == group_values(all@, sender@, opt_text(*c)),
        r@.len() <= MAX_RECORDS,
        sample_sum(r@) <= MAX_TOTAL_VALUE,
{
    let ghost p = pair_pred(sender@, opt_text(*c));
    let mut out: Vec<u128> = Vec::new();
    let mut i: usize = 0;
    while i < all.len()
        invariant
            all@.len() <= MAX_RECORDS,
            i <= all.len(),
            p == pair_pred(sender@, opt_text(*c)),
            out@ == values_of(all@.take(i as int).filter(p)),
            out@.len() <= i,
        decreases all.len() - i,
    {
        proof {
            assert(all@.take(i + 1) =~= all@.take(i as int).push(all@[i as int]));
            all@.take(i as int).lemma_filter_push(all@[i as int], p);
            assert(opt_text(all@[i as int].to) == receiver_of(all@[i as int]));
        }
        if all[i].from == *sender && same_receiver(&all[i].to, c) {
            out.push(all[i].value);
            proof {
                assert(out@ =~= values_of(all@.take(i + 1).filter(p)));
            }
        }
        i = i + 1;
    }
    proof {
        assert(all@.take(all@.len() as int) =~= all@);
        crate::threshold::lemma_filter_sum_le(all@, p);
    }
    out
}

proof fn lemma_sum_nonneg(s: Seq<u128>)
    ensures
        sample_sum(s) >= 0,
    decreases s.len(),
{
    if s.len() > 0 {
        lemma_sum_nonneg(s.drop_last());
    }
}

/// Whether the values are regular payments (see [`is_regular`]).
pub fn regular(vals: &Vec<u128>) -> (r: bool)
    requires
        vals@.len() <= MAX_RECORDS,
        sample_sum(vals@) <= MAX_TOTAL_VALUE,
    ensures
        r == is_regular(vals@),
{
    let n = vals.len();
    if n < 2 {
        return false;
    }
    let mut t: u128 = 0;
    let mut i: usize = 0;
    while i < n
        invariant
            n == vals@.len(),
            sample_sum(vals@) <= MAX_TOTAL_VALUE,
            i <= n,
            t == sample_sum(vals@.take(i as int)),
        decreases n - i,
    {
        proof {
            assert(vals@.take(i + 1).drop_last() =~= vals@.take(i as int));
            lemma_prefix_sum_le(vals@, i + 1);
        }
        t = t + vals[i];
        i = i + 1;
    }
    proof {
        assert(vals@.take(n as int) =~= vals@);
    }
    let nn = n as u128;
    let mut dev: u128 = 0;
    let mut k: usize = 0;
    while k < n
        invariant
            n == vals@.len(),
            n <= MAX_RECORDS,
            nn == n,
            t == sample_sum(vals@),
            t <= MAX_TOTAL_VALUE,
            k <= n,
            dev == abs_dev(vals@.take(k as int), n as int, t as int),
            dev <= n * sample_sum(vals@.take(k as int)) + k * t,
        decreases n - k,
    {
        let v = vals[k];
        proof {
            let s0 = sample_sum(vals@.take(k as int));
            let s1 = sample_sum(vals@.take(k + 1));
            assert(vals@.take(k + 1).drop_last() =~= vals@.take(k as int));
            lemma_prefix_sum_le(vals@, k + 1);
            lemma_sum_nonneg(vals@.take(k as int));
            assert(s1 == s0 + v);
            assert(nn * v <= nn * t) by (nonlinear_arith)
                requires
                    v <= t,
                    nn >= 0,
            ;
            assert(nn * t <= 0xffff_ffff * MAX_TOTAL_VALUE) by (nonlinear_arith)
                requires
                    nn <= 0xffff_ffff,
                    0 <= t <= MAX_TOTAL_VALUE,
            ;
            assert(dev + nn * v + t <= nn * s1 + (k + 1) * t) by (nonlinear_arith)
                requires
                    dev <= nn * s0 + k * t,
                    s1 == s0 + v,
            ;
            assert(nn * s1 + (k + 1) * t <= 2 * (0xffff_ffff * MAX_TOTAL_VALUE)) by (nonlinear_arith)
                requires
                    s1 <= t,
                    k + 1 <= nn,
                    nn <= 0xffff_ffff,
                    0 <= t <= MAX_TOTAL_VALUE,
                    s1 >= 0,
            ;
        }
        let nv = nn * v;
        let d = if nv >= t {
            nv - t
        } else {
            t - nv
        };
        dev = dev + d;
        k = k + 1;
    }
    proof {
        assert(vals@.take(n as int) =~= vals@);
        assert(nn * t <= 0xffff_ffff * MAX_TOTAL_VALUE) by (nonlinear_arith)
            requires
                nn <= 0xffff_ffff,
                0 <= t <= MAX_TOTAL_VALUE,
        ;
    }
    let nt = nn * t;
    match dev.checked_mul(10) {
        Some(d10) => d10 < nt,
        None => false,
    }
}

/// Reports, per sender and counterparty with at least two payments, one
/// `RegularPayments` when the mean absolute deviation of the values is
/// under 10% of their mean.
pub fn detect_regular_payments(storage: &TxStorage) -> (r: Vec<BusinessPattern>)
    requires
        storage.wf(),
    ensures
        pattern_views(r@) == regular_spec(storage.records(), senders_of(storage.records())),
{
    let all = storage.all_txs();
    let ghost recs = storage.records();
    let senders = distinct_senders(all);
    let ghost ss = texts(senders@);
    let mut out: Vec<BusinessPattern> = Vec::new();
    let mut k: usize = 0;
    while k < senders.len()
        invariant
            all@ == recs,
            all@.len() <= MAX_RECORDS,
            sample_sum(values_of(all@)) <= MAX_TOTAL_VALUE,
            ss == texts(senders@),
            k <= senders.len(),
            pattern_views(out@) == regular_spec(recs, ss.take(k as int)),
        decreases senders.len() - k,
    {
        let sender = &senders[k];
        proof {
            assert(ss.take(k + 1).drop_last() =~= ss.take(k as int));
            assert(ss.take(k + 1).last() == sender@);
        }
        let cs = counterparties(all, sender);
        let ghost cv = cs@.map_values(|o: Option<String>| opt_text(o));
        let ghost start = pattern_views(out@);
        let mut g: usize = 0;
        while g < cs.len()
            invariant
                all@ == recs,
                all@.len() <= MAX_RECORDS,
                sample_sum(values_of(all@)) <= MAX_TOTAL_VALUE,
                cv == cs@.map_values(|o: Option<String>| opt_text(o)),
                g <= cs.len(),
                pattern_views(out@) == start + regular_for(recs, sender@, cv.take(g as int)),
            decreases cs.len() - g,
        {
            proof {
                assert(cv.take(g + 1).drop_last() =~= cv.take(g as int));
                assert(cv.take(g + 1).last() == opt_text(cs@[g as int]));
            }
            let vals = pair_values(all, sender, &cs[g]);
            if regular(&vals) {
                let msg = String::from_str("Detected regular payments from ").concat(sender.as_str());
                let p = BusinessPattern::RegularPayments { sender: sender.clone(), message: msg };
                let ghost before = out@;
                out.push(p);
                proof {
                    assert(pattern_views(out@) =~= pattern_views(before).push(p@));
                }
            }
            g = g + 1;
        }
        proof {
            assert(cv.take(cs.len() as int) =~= cv);
            assert(pattern_views(out@) =~= regular_spec(recs, ss.take(k + 1)));
        }
        k = k + 1;
    }
    proof {
        assert(ss.take(senders.len() as int) =~= ss);
    }
    out
}

// ---------------------------------------------------------------- addresses

/// Characters the hex decoder skips.
pub open spec fn is_blank(c: char) -> bool {
    c == ' ' || c == '\r' || c == '\n' || c == '\t'
}

/// The value of a hex digit of either case; -1 for any other character.
pub open spec fn hex_value(c: char) -> int {
    let u = c as u32;
    if 48 <= u <= 57 {
        u - 48
    } else if 97 <= u <= 102 {
        u - 87
    } else if 65 <= u <= 70 {
        u - 55
    } else {
        -1
    }
}

/// The text after an optional `0x`.
pub open spec fn strip_hex_prefix(s: Seq<char>) -> Seq<char> {
    if has_prefix(s, "0x"@) {
        s.subrange(2, s.len() as int)
    } else {
        s
    }
}

/// The hex digits of an address text, blanks left out.
pub open spec fn address_digits(s: Seq<char>) -> Seq<char> {
    strip_hex_prefix(s).filter(|c: char| !is_blank(c))
}

/// The 20 bytes that an address text denotes: after an optional `0x`,
/// nothing but hex digits and blanks, exactly forty digits, read two by two
/// big-endian. `None` for any other text.
pub open spec fn address_bytes(s: Seq<char>) -> Option<Seq<u8>> {
    let body = strip_hex_prefix(s);
    let d = address_digits(s);
    if (forall|i: int| 0 <= i < body.len() ==> is_blank(body[i]) || hex_value(body[i]) >= 0) && d.len()
        == 40 {
        Some(Seq::new(20, |i: int| (hex_value(d[2 * i]) * 16 + hex_value(d[2 * i + 1])) as u8))
    } else {
        None
    }
}

/// Relies on `H160::from_str` (fixed-hash, re-exported by ethers): after an
/// optional `0x`, exactly forty hex digits of either case, blanks skipped,
/// read big-endian; any other text is an error.
#[verifier::external_body]
fn parse_h160(s: &str) -> (r: Option<[u8; 20]>)
    ensures
        r matches Some(b) ==> address_bytes(s@) == Some(b@),
        r is None ==> address_bytes(s@) is None,
{
    s.parse::<ethers::types::H160>().ok().map(|a| a.0)
}

/// Parses an address text into its 20 bytes.
pub fn parse_address(s: &str) -> (r: Option<[u8; 20]>)
    ensures
        r matches Some(b) ==> address_bytes(s@) == Some(b@),
        r is None ==> address_bytes(s@) is None,
{
    parse_h160(s)
}

/// `b` is one of the DEX contract addresses.
pub open spec fn is_dex(dex: Seq<[u8; 20]>, b: Seq<u8>) -> bool {
    exists|i: int| 0 <= i < dex.len() && dex[i]@ == b
}

/// A record addressed to a DEX contract; a receiver text that is no
/// address counts as no DEX.
pub open spec fn dex_target(dex: Seq<[u8; 20]>, r: TransactionRecord) -> bool {
    match r.to {
        Some(t) => match address_bytes(t@) {
            Some(b) => is_dex(dex, b),
            None => false,
        },
        None => false,
    }
}

fn same_address(a: &[u8; 20], b: &[u8; 20]) -> (r: bool)
    ensures
        r == (a@ == b@),
{
    let mut i: usize = 0;
    while i < 20
        invariant
            i <= 20,
            a@.len() == 20,
            b@.len() == 20,
            forall|k: int| 0 <= k < i ==> a@[k] == b@[k],
        decreases 20 - i,
    {
        if a[i] != b[i] {
            return false;
        }
        i = i + 1;
    }
    assert(a@ =~= b@);
    true
}

fn is_dex_target(dex: &Vec<[u8; 20]>, tx: &TransactionRecord) -> (r: bool)
    ensures
        r == dex_target(dex@, *tx),
{
    match &tx.to {
        Some(t) => match parse_h160(t.as_str()) {
            Some(b) => {
                assert(tx.to == Some(*t));
                assert(address_bytes(t@) == Some(b@));
                let mut i: usize = 0;
                while i < dex.len()
                    invariant
                        tx.to == Some(*t),
                        address_bytes(t@) == Some(b@),
                        i <= dex.len(),
                        forall|k: int| 0 <= k < i ==> dex@[k]@ != b@,
                    decreases dex.len() - i,
                {
                    if same_address(&dex[i], &b) {
                        assert(dex@[i as int]@ == b@);
                        assert(is_dex(dex@, b@));
                        return true;
                    }
                    i = i + 1;
                }
                false
            },
            None => false,
        },
        None => false,
    }
}

// ---------------------------------------------------------------- DEXTrade

/// What DEXTrade reports for `recs`.
pub open spec fn dex_trade_spec(dex: Seq<[u8; 20]>, recs: Seq<TransactionRecord>) -> Seq<PatternView>
    decreases recs.len(),
{
    if recs.len() == 0 {
        Seq::empty()
    } else {
        let r = recs.last();
        let rest = dex_trade_spec(dex, recs.drop_last());
        if dex_target(dex, r) {
            let t = r.to.unwrap()@;
            rest.push(PatternView::DEXTrade { dex: t, message: "Detected trading with DEX: "@ + t })
        } else {
            rest
        }
    }
}

/// Reports each transaction addressed to one of the DEX contracts.
pub fn detect_dex_trade(storage: &TxStorage, dex_contracts: &Vec<[u8; 20]>) -> (r: Vec<
    BusinessPattern,
>)
    requires
        storage.wf(),
    ensures
        pattern_views(r@) == dex_trade_spec(dex_contracts@, storage.records()),
{
    let all = storage.all_txs();
    let ghost recs = storage.records();
    let mut out: Vec<BusinessPattern> = Vec::new();
    let mut i: usize = 0;
    while i < all.len()
        invariant
            all@ == recs,
            i <= all.len(),
            pattern_views(out@) == dex_trade_spec(dex_contracts@, recs.take(i as int)),
        decreases all.len() - i,
    {
        let tx = &all[i];
        proof {
            assert(recs.take(i + 1).drop_last() =~= recs.take(i as int));
            assert(recs.take(i + 1).last() == recs[i as int]);
        }
        if is_dex_target(dex_contracts, tx) {
            match &tx.to {
                Some(to) => {
                    let msg = String::from_str("Detected trading with DEX: ").concat(to.as_str());
                    let p = BusinessPattern::DEXTrade { dex: to.clone(), message: msg };
                    let ghost before = out@;
                    out.push(p);
                    proof {
                        assert(pattern_views(out@) =~= pattern_views(before).push(p@));
                    }
                },
                None => {},
            }
        }
        i = i + 1;
    }
    proof {
        assert(recs.take(all.len() as int) =~= recs);
    }
    out
}

// ---------------------------------------------------------------- LiquidityProvider

/// The call data starts with an add-liquidity selector.
pub open spec fn adds_liquidity(r: TransactionRecord) -> bool {
    has_prefix(r.input@, "0xe8e33700"@) || has_prefix(r.input@, "0xf305d719"@)
}

/// What LiquidityProvider reports for `recs`.
pub open spec fn liquidity_spec(dex: Seq<[u8; 20]>, recs: Seq<TransactionRecord>) -> Seq<PatternView>
    decreases recs.len(),
{
    if recs.len() == 0 {
        Seq::empty()
    } else {
        let rest = liquidity_spec(dex, recs.drop_last());
        if dex_target(dex, recs.last()) && adds_liquidity(recs.last()) {
            rest.push(PatternView::LiquidityProvider)
        } else {
            rest
        }
    }
}

/// Reports each DEX-directed transaction whose selector adds liquidity.
pub fn detect_liquid_provider(storage: &TxStorage, dex_contracts: &Vec<[u8; 20]>) -> (r: Vec<
    BusinessPattern,
>)
    requires
        storage.wf(),
    ensures
        pattern_views(r@) == liquidity_spec(dex_contracts@, storage.records()),
{
    let all = storage.all_txs();
    let ghost recs = storage.records();
    let mut out: Vec<BusinessPattern> = Vec::new();
    let mut i: usize = 0;
    while i < all.len()
        invariant
            all@ == recs,
            i <= all.len(),
            pattern_views(out@) == liquidity_spec(dex_contracts@, recs.take(i as int)),
        decreases all.len() - i,
    {
        let tx = &all[i];
        proof {
            assert(recs.take(i + 1).drop_last() =~= recs.take(i as int));
            assert(recs.take(i + 1).last() == recs[i as int]);
        }
        if is_dex_target(dex_contracts, tx) && (starts_with(tx.input.as_str(), "0xe8e33700")
            || starts_with(tx.input.as_str(), "0xf305d719")) {
            let p = BusinessPattern::LiquidityProvider;
            let ghost before = out@;
            out.push(p);
            proof {
                assert(pattern_views(out@) =~= pattern_views(before).push(p@));
            }
        }
        i = i + 1;
    }
    proof {
        assert(recs.take(all.len() as int) =~= recs);
    }
    out
}

// ---------------------------------------------------------------- Arbitrage

/// The call data names a multicall or a token-to-token swap.
pub open spec fn arbitrage_call(r: TransactionRecord) -> bool {
    contains_text(r.input@, "multicall"@) || contains_text(r.input@, "swapExactTokensForTokens"@)
}

/// What Arbitrage reports for `recs`.
pub open spec fn arbitrage_spec(dex: Seq<[u8; 20]>, recs: Seq<TransactionRecord>) -> Seq<PatternView>
    decreases recs.len(),
{
    if recs.len() == 0 {
        Seq::empty()
    } else {
        let r = recs.last();
        let rest = arbitrage_spec(dex, recs.drop_last());
        if dex_target(dex, r) && arbitrage_call(r) {
            rest.push(
                PatternView::Arbitrage {
                    sender: r.from@,
                    message: "Detected possible arbitrage from: "@ + r.from@,
                },
            )
        } else {
            rest
        }
    }
}

/// Reports each DEX-directed transaction whose call data holds `multicall`
/// or `swapExactTokensForTokens`.
pub fn detect_arbitrage(storage: &TxStorage, dex_contracts: &Vec<[u8; 20]>) -> (r: Vec<
    BusinessPattern,
>)
    requires
        storage.wf(),
    ensures
        pattern_views(r@) == arbitrage_spec(dex_contracts@, storage.records()),
{
    let all = storage.all_txs();
    let ghost recs = storage.records();
    let mut out: Vec<BusinessPattern> = Vec::new();
    let mut i: usize = 0;
    while i < all.len()
        invariant
            all@ == recs,
            i <= all.len(),
            pattern_views(out@) == arbitrage_spec(dex_contracts@, recs.take(i as int)),
        decreases all.len() - i,
    {
        let tx = &all[i];
        proof {
            assert(recs.take(i + 1).drop_last() =~= recs.take(i as int));
            assert(recs.take(i + 1).last() == recs[i as int]);
        }
        if is_dex_target(dex_contracts, tx) && (contains(tx.input.as_str(), "multicall") || contains(
            tx.input.as_str(),
            "swapExactTokensForTokens",
        )) {
            let msg = String::from_str("Detected possible arbitrage from: ").concat(tx.from.as_str());
            let p = BusinessPattern::Arbitrage { sender: tx.from.clone(), message: msg };
            let ghost before = out@;
            out.push(p);
            proof {
                assert(pattern_views(out@) =~= pattern_views(before).push(p@));
            }
        }
        i = i + 1;
    }
    proof {
        assert(recs.take(all.len() as int) =~= recs);
    }
    out
}

// ---------------------------------------------------------------- ActiveTraders

/// The test that a record is a DEX-directed one of `sender`.
pub open spec fn dex_trade_of(dex: Seq<[u8; 20]>, sender: Seq<char>) -> spec_fn(TransactionRecord) -> bool {
    |r: TransactionRecord| r.from@ == sender && dex_target(dex, r)
}

/// Number of `sender`'s transactions addressed to a DEX contract.
pub open spec fn dex_count(dex: Seq<[u8; 20]>, all: Seq<TransactionRecord>, sender: Seq<char>) -> int {
    all.filter(dex_trade_of(dex, sender)).len() as int
}

/// What ActiveTraders reports for the senders `ss`.
pub open spec fn active_traders_spec(
    dex: Seq<[u8; 20]>,
    all: Seq<TransactionRecord>,
    ss: Seq<Seq<char>>,
) -> Seq<PatternView>
    decreases ss.len(),
{
    if ss.len() == 0 {
        Seq::empty()
    } else {
        let rest = active_traders_spec(dex, all, ss.drop_last());
        if dex_count(dex, all, ss.last()) > ACTIVE_TRADER_COUNT {
            rest.push(
                PatternView::ActiveTraders {
                    sender: ss.last(),
                    message: "Detected active trader: "@ + ss.last(),
                },
            )
        } else {
            rest
        }
    }
}

fn count_dex_trades(all: &Vec<TransactionRecord>, dex: &Vec<[u8; 20]>, sender: &String) -> (c: usize)
    ensures
        c == dex_count(dex@, all@, sender@),
{
    let ghost p = dex_trade_of(dex@, sender@);
    let mut c: usize = 0;
    let mut i: usize = 0;
    while i < all.len()
        invariant
            i <= all.len(),
            c <= i,
            p == dex_trade_of(dex@, sender@),
            c == all@.take(i as int).filter(p).len(),
        decreases all.len() - i,
    {
        proof {
            assert(all@.take(i + 1) =~= all@.take(i as int).push(all@[i as int]));
            all@.take(i as int).lemma_filter_push(all@[i as int], p);
        }
        if all[i].from == *sender && is_dex_target(dex, &all[i]) {
            c = c + 1;
        }
        i = i + 1;
    }
    proof {
        assert(all@.take(all@.len() as int) =~= all@);
    }
    c
}

/// Reports each sender with more than `ACTIVE_TRADER_COUNT` transactions
/// addressed to DEX contracts.
pub fn detect_active_traders(storage: &TxStorage, dex_contracts: &Vec<[u8; 20]>) -> (r: Vec<
    BusinessPattern,
>)
    requires
        storage.wf(),
    ensures
        pattern_views(r@) == active_traders_spec(
            dex_contracts@,
            storage.records(),
            senders_of(storage.records()),
        ),
{
    let all = storage.all_txs();
    let ghost recs = storage.records();
    let senders = distinct_senders(all);
    let ghost ss = texts(senders@);
    let mut out: Vec<BusinessPattern> = Vec::new();
    let mut k: usize = 0;
    while k < senders.len()
        invariant
            all@ == recs,
            ss == texts(senders@),
            k <= senders.len(),
            pattern_views(out@) == active_traders_spec(dex_contracts@, recs, ss.take(k as int)),
        decreases senders.len() - k,
    {
        let sender = &senders[k];
        proof {
            assert(ss.take(k + 1).drop_last() =~= ss.take(k as int));
            assert(ss.take(k + 1).last() == sender@);
        }
        if count_dex_trades(all, dex_contracts, sender) > ACTIVE_TRADER_COUNT {
            let msg = String::from_str("Detected active trader: ").concat(sender.as_str());
            let p = BusinessPattern::ActiveTraders { sender: sender.clone(), message: msg };
            let ghost before = out@;
            out.push(p);
            proof {
                assert(pattern_views(out@) =~= pattern_views(before).push(p@));
            }
        }
        k = k + 1;
    }
    proof {
        assert(ss.take(senders.len() as int) =~= ss);
    }
    out
}

// ---------------------------------------------------------------- NFTActivity

/// The call data starts with an ERC-721 or ERC-1155 selector.
pub open spec fn nft_call(r: TransactionRecord) -> bool {
    has_prefix(r.input@, "0x80ac58cd"@) || has_prefix(r.input@, "0xd9b67a26"@)
}

/// What NFTActivity reports for `recs`.
pub open spec fn nft_spec(recs: Seq<TransactionRecord>) -> Seq<PatternView>
    decreases recs.len(),
{
    if recs.len() == 0 {
        Seq::empty()
    } else {
        let r = recs.last();
        let rest = nft_spec(recs.drop_last());
        if nft_call(r) {
            rest.push(
                PatternView::NFTActivity {
                    tx_hash: r.hash@,
                    message: "Detected NFT activity: "@ + r.hash@,
                },
            )
        } else {
            rest
        }
    }
}

/// Reports each transaction whose selector is an NFT one.
pub fn detect_nft_activity(storage: &TxStorage) -> (r: Vec<BusinessPattern>)
    requires
        storage.wf(),
    ensures
        pattern_views(r@) == nft_spec(storage.records()),
{
    let all = storage.all_txs();
    let ghost recs = storage.records();
    let mut out: Vec<BusinessPattern> = Vec::new();
    let mut i: usize = 0;
    while i < all.len()
        invariant
            all@ == recs,
            i <= all.len(),
            pattern_views(out@) == nft_spec(recs.take(i as int)),
        decreases all.len() - i,
    {
        let tx = &all[i];
        proof {
            assert(recs.take(i + 1).drop_last() =~= recs.take(i as int));
            assert(recs.take(i + 1).last() == recs[i as int]);
        }
        if starts_with(tx.input.as_str(), "0x80ac58cd") || starts_with(tx.input.as_str(), "0xd9b67a26") {
            let msg = String::from_str("Detected NFT activity: ").concat(tx.hash.as_str());
            let p = BusinessPattern::NFTActivity { tx_hash: tx.hash.clone(), message: msg };
            let ghost before = out@;
            out.push(p);
            proof {
                assert(pattern_views(out@) =~= pattern_views(before).push(p@));
            }
        }
        i = i + 1;
    }
    proof {
        assert(recs.take(all.len() as int) =~= recs);
    }
    out
}

} // verus!
