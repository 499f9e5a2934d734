use vstd::prelude::*;
use vstd::hash_set::StringHashSet;
use crate::threshold::{sample_sum, values_of};
use crate::index::{
    BucketMap, at_positions, bucket_get, bucket_new, bucket_of, bucket_push, buckets,
    lemma_receiver_index_selects, lemma_sender_index_selects, receiver_index, sender_index,
};

verus! {

/// Largest number of records that one store holds.
pub const MAX_RECORDS: usize = 0xffff_ffff;

/// Largest total value, in wei, of the records of one store: 2^95 wei. The
/// detectors compute in `u128` with products of a record count (below
/// 2^32) and a sum of values, as in `2 * n * sum`; this bound keeps every
/// such product below 2^128.
pub const MAX_TOTAL_VALUE: u128 = 0x8000_0000_0000_0000_0000_0000;

/// One transaction as scanned from a block. Never changed once stored.
pub struct TransactionRecord {
    /// Unique transaction hash, hex.
    pub hash: String,
    /// Sender address.
    pub from: String,
    /// Receiver address; `None` for a contract creation.
    pub to: Option<String>,
    /// Amount transferred, in wei.
    pub value: u128,
    /// Gas used.
    pub gas: u64,
    /// Gas price, in wei.
    pub gas_price: u128,
    /// Number of the block that holds the transaction.
    pub block_number: u64,
    /// Block time, in seconds since the Unix epoch (UTC).
    pub timestamp: u64,
    /// Raw call data, `0x`-prefixed hex.
    pub input: String,
}

/// The fee paid by a transaction, `gas * gas_price` in wei. It saturates at
/// `u128::MAX` wei (3.4 * 10^20 coins), beyond any fee that can be paid.
pub open spec fn fee_of(r: TransactionRecord) -> int {
    if r.gas * r.gas_price <= u128::MAX {
        r.gas * r.gas_price
    } else {
        u128::MAX as int
    }
}

/// The receiver of a record, as characters.
pub open spec fn receiver_of(r: TransactionRecord) -> Option<Seq<char>> {
    match r.to {
        Some(t) => Some(t@),
        None => None,
    }
}

/// The test that a record was sent by `sender`.
pub open spec fn sent_by(sender: Seq<char>) -> spec_fn(TransactionRecord) -> bool {
    |r: TransactionRecord| r.from@ == sender
}

/// The records of `all` sent by `sender`, in store order.
pub open spec fn sender_records(all: Seq<TransactionRecord>, sender: Seq<char>) -> Seq<
    TransactionRecord,
> {
    all.filter(sent_by(sender))
}

/// The test that a record is addressed to `receiver`.
pub open spec fn sent_to(receiver: Seq<char>) -> spec_fn(TransactionRecord) -> bool {
    |r: TransactionRecord| receiver_of(r) == Some(receiver)
}

/// The records of `all` addressed to `receiver`, in store order.
pub open spec fn receiver_records(all: Seq<TransactionRecord>, receiver: Seq<char>) -> Seq<
    TransactionRecord,
> {
    all.filter(sent_to(receiver))
}

/// The records that references point to.
pub open spec fn referenced(v: Seq<&TransactionRecord>) -> Seq<TransactionRecord> {
    v.map_values(|r: &TransactionRecord| *r)
}

/// Append-only store of scanned transactions. The records are kept in
/// insertion order; two concurrent maps file their positions by sender and
/// by receiver, so that each bucket is the order-preserving selection of
/// that sequence.
pub struct TxStorage {
    all_txs: Vec<TransactionRecord>,
    total: u128,
    by_sender: BucketMap,
    by_reciever: BucketMap,
}

impl TxStorage {
    /// Well-formedness: the store is within its capacity, and `total` is
    /// the sum of its values.
    pub closed spec fn wf(&self) -> bool {
        &&& self.all_txs.len() <= MAX_RECORDS
        &&& self.total == sample_sum(values_of(self.all_txs@))
        &&& self.total <= MAX_TOTAL_VALUE
        &&& buckets(self.by_sender) == sender_index(self.all_txs@)
        &&& buckets(self.by_reciever) == receiver_index(self.all_txs@)
    }

    /// All records, in insertion order.
    pub closed spec fn records(&self) -> Seq<TransactionRecord> {
        self.all_txs@
    }

    /// An empty store.
    pub fn new() -> (r: TxStorage)
        ensures
            r.wf(),
            r.records() == Seq::<TransactionRecord>::empty(),
    {
        let r = TxStorage {
            all_txs: Vec::new(),
            total: 0,
            by_sender: bucket_new(),
            by_reciever: bucket_new(),
        };
        assert(values_of(r.all_txs@) =~= Seq::<u128>::empty());
        r
    }

    /// Appends a record; refused, leaving the store as it was, when the
    /// store holds `MAX_RECORDS` records or the record would bring the total
    /// value above `MAX_TOTAL_VALUE`.
    pub fn ingest(&mut self, record: TransactionRecord) -> (added: bool)
        requires
            old(self).wf(),
        ensures
            final(self).wf(),
            added == (old(self).records().len() < MAX_RECORDS && sample_sum(
                values_of(old(self).records()),
            ) + record.value <= MAX_TOTAL_VALUE),
            added ==> final(self).records() == old(self).records().push(record),
            !added ==> final(self).records() == old(self).records(),
    {
        if self.all_txs.len() < MAX_RECORDS && record.value <= MAX_TOTAL_VALUE - self.total {
            let v = record.value;
            let idx = self.all_txs.len();
            bucket_push(&mut self.by_sender, &record.from, idx);
            match &record.to {
                Some(t) => bucket_push(&mut self.by_reciever, t, idx),
                None => {},
            }
            let ghost before = self.all_txs@;
            self.all_txs.push(record);
            self.total = self.total + v;
            proof {
                assert(values_of(self.all_txs@).drop_last() =~= values_of(before));
                assert(self.all_txs@.drop_last() =~= before);
            }
            true
        } else {
            false
        }
    }

    /// Number of records held.
    pub fn len(&self) -> (n: usize)
        ensures
            n == self.records().len(),
    {
        self.all_txs.len()
    }

    /// The bucket of `sender`: its records, in insertion order.
    pub fn by_sender(&self, sender: &String) -> (r: Vec<&TransactionRecord>)
        requires
            self.wf(),
        ensures
            referenced(r@) == sender_records(self.records(), sender@),
    {
        proof {
            lemma_sender_index_selects(self.all_txs@, sender@);
        }
        let positions = bucket_get(&self.by_sender, sender);
        self.records_at(positions, Ghost(sender_index(self.all_txs@)), Ghost(sender@))
    }

    /// The bucket of `receiver`: the records addressed to it, in insertion
    /// order.
    pub fn by_receiver(&self, receiver: &String) -> (r: Vec<&TransactionRecord>)
        requires
            self.wf(),
        ensures
            referenced(r@) == receiver_records(self.records(), receiver@),
    {
        proof {
            lemma_receiver_index_selects(self.all_txs@, receiver@);
        }
        let positions = bucket_get(&self.by_reciever, receiver);
        self.records_at(positions, Ghost(receiver_index(self.all_txs@)), Ghost(receiver@))
    }

    fn records_at(
        &self,
        positions: Option<Vec<usize>>,
        index: Ghost<Map<Seq<char>, Seq<usize>>>,
        key: Ghost<Seq<char>>,
    ) -> (r: Vec<&TransactionRecord>)
        requires
            positions matches Some(v) ==> index@.contains_key(key@) && v@ == index@[key@],
            positions is None ==> !index@.contains_key(key@),
            forall|j: int|
                0 <= j < bucket_of(index@, key@).len() ==> bucket_of(index@, key@)[j]
                    < self.all_txs@.len(),
        ensures
            referenced(r@) == at_positions(self.all_txs@, bucket_of(index@, key@)),
    {
        let mut out: Vec<&TransactionRecord> = Vec::new();
        match positions {
            Some(v) => {
                let mut k: usize = 0;
                while k < v.len()
                    invariant
                        v@ == bucket_of(index@, key@),
                        forall|j: int| 0 <= j < v@.len() ==> v@[j] < self.all_txs@.len(),
                        k <= v.len(),
                        referenced(out@) == at_positions(self.all_txs@, v@.take(k as int)),
                    decreases v.len() - k,
                {
                    let ghost before = out@;
                    let rec = &self.all_txs[v[k]];
                    out.push(rec);
                    proof {
                        assert(*rec == self.all_txs@[v@[k as int] as int]);
                        assert(referenced(out@) =~= referenced(before).push(*rec));
                        assert(v@.take(k + 1) =~= v@.take(k as int).push(v@[k as int]));
                        assert(referenced(out@) =~= at_positions(self.all_txs@, v@.take(k + 1)));
                    }
                    k = k + 1;
                }
                proof {
                    assert(v@.take(v@.len() as int) =~= v@);
                }
            },
            None => {
                assert(referenced(out@) =~= at_positions(self.all_txs@, bucket_of(index@, key@)));
            },
        }
        out
    }

    /// All records, in insertion order.
    pub fn all_txs(&self) -> (r: &Vec<TransactionRecord>)
        requires
            self.wf(),
        ensures
            r@ == self.records(),
            r@.len() <= MAX_RECORDS,
            sample_sum(values_of(r@)) <= MAX_TOTAL_VALUE,
    {
        &self.all_txs
    }
}

/// Strength of an anomaly: `Strong` when every criterion holds, `Weak`
/// when only some do.
#[derive(Debug, Clone, Copy, PartialEq, Eq, Structural)]
pub enum Severity {
    Strong,
    Weak,
}

impl Severity {
    /// The severity's name.
    pub fn name(&self) -> (r: String)
        ensures
            r@ == severity_name(*self),
    {
        match self {
            Severity::Strong => String::from_str("Strong"),
            Severity::Weak => String::from_str("Weak"),
        }
    }
}

/// The name of a severity.
pub open spec fn severity_name(s: Severity) -> Seq<char> {
    match s {
        Severity::Strong => "Strong"@,
        Severity::Weak => "Weak"@,
    }
}

/// An anomalous transaction or sender.
#[derive(Debug, PartialEq)]
pub enum Anomaly {
    LargeTx { tx_hash: String, severity: Severity, reasons: Vec<String>, timestamp: u64 },
    HighFrequency { sender: String, count: usize, reasons: Vec<String> },
    BurstActivity { sender: String, reasons: Vec<String> },
    Structuring { sender: String, count: usize, severity: Severity, reasons: Vec<String> },
    HighFee {
        tx_hash: String,
        fee_wei: u128,
        severity: Severity,
        reasons: Vec<String>,
        timestamp: u64,
    },
    BlacklistedAddress { tx_hash: String, addres: String, reasons: Vec<String>, timestamp: u64 },
    UnusualOp { tx_hash: String, severity: Severity, reasons: Vec<String>, timestamp: u64 },
    TimeAnomaly { tx_hash: String, severity: Severity, reasons: Vec<String>, timestamp: u64 },
}

/// The mathematical content of an [`Anomaly`].
pub enum AnomalyView {
    LargeTx {
        tx_hash: Seq<char>,
        severity: Severity,
        reasons: Seq<Seq<char>>,
        timestamp: u64,
    },
    HighFrequency { sender: Seq<char>, count: usize, reasons: Seq<Seq<char>> },
    BurstActivity { sender: Seq<char>, reasons: Seq<Seq<char>> },
    Structuring {
        sender: Seq<char>,
        count: usize,
        severity: Severity,
        reasons: Seq<Seq<char>>,
    },
    HighFee {
        tx_hash: Seq<char>,
        fee_wei: u128,
        severity: Severity,
        reasons: Seq<Seq<char>>,
        timestamp: u64,
    },
    BlacklistedAddress {
        tx_hash: Seq<char>,
        addres: Seq<char>,
        reasons: Seq<Seq<char>>,
        timestamp: u64,
    },
    UnusualOp {
        tx_hash: Seq<char>,
        severity: Severity,
        reasons: Seq<Seq<char>>,
        timestamp: u64,
    },
    TimeAnomaly {
        tx_hash: Seq<char>,
        severity: Severity,
        reasons: Seq<Seq<char>>,
        timestamp: u64,
    },
}

/// The characters of each string.
pub open spec fn texts(v: Seq<String>) -> Seq<Seq<char>> {
    v.map_values(|s: String| s@)
}

impl View for Anomaly {
    type V = AnomalyView;

    open spec fn view(&self) -> AnomalyView {
        match self {
            Anomaly::LargeTx { tx_hash, severity, reasons, timestamp } => AnomalyView::LargeTx {
                tx_hash: tx_hash@,
                severity: *severity,
                reasons: texts(reasons@),
                timestamp: *timestamp,
            },
            Anomaly::HighFrequency { sender, count, reasons } => AnomalyView::HighFrequency {
                sender: sender@,
                count: *count,
                reasons: texts(reasons@),
            },
            Anomaly::BurstActivity { sender, reasons } => AnomalyView::BurstActivity {
                sender: sender@,
                reasons: texts(reasons@),
            },
            Anomaly::Structuring { sender, count, severity, reasons } => AnomalyView::Structuring {
                sender: sender@,
                count: *count,
                severity: *severity,
                reasons: texts(reasons@),
            },
            Anomaly::HighFee { tx_hash, fee_wei, severity, reasons, timestamp } =>
                AnomalyView::HighFee {
                tx_hash: tx_hash@,
                fee_wei: *fee_wei,
                severity: *severity,
                reasons: texts(reasons@),
                timestamp: *timestamp,
            },
            Anomaly::BlacklistedAddress { tx_hash, addres, reasons, timestamp } =>
                AnomalyView::BlacklistedAddress {
                tx_hash: tx_hash@,
                addres: addres@,
                reasons: texts(reasons@),
                timestamp: *timestamp,
            },
            Anomaly::UnusualOp { tx_hash, severity, reasons, timestamp } =>
                AnomalyView::UnusualOp {
                tx_hash: tx_hash@,
                severity: *severity,
                reasons: texts(reasons@),
                timestamp: *timestamp,
            },
            Anomaly::TimeAnomaly { tx_hash, severity, reasons, timestamp } =>
                AnomalyView::TimeAnomaly {
                tx_hash: tx_hash@,
                severity: *severity,
                reasons: texts(reasons@),
                timestamp: *timestamp,
            },
        }
    }
}

/// The content of each anomaly.
pub open spec fn anomaly_views(v: Seq<Anomaly>) -> Seq<AnomalyView> {
    v.map_values(|a: Anomaly| a@)
}

/// A recurring business pattern.
#[derive(Debug, PartialEq)]
pub enum BusinessPattern {
    RegularPayments { sender: String, message: String },
    BatchPayments { sender: String, count: usize, message: String },
    DEXTrade { dex: String, message: String },
    NFTActivity { tx_hash: String, message: String },
    LiquidityProvider,
    Whales { sender: String },
    ActiveTraders { sender: String, message: String },
    Arbitrage { sender: String, message: String },
}

/// The mathematical content of a [`BusinessPattern`].
pub enum PatternView {
    RegularPayments { sender: Seq<char>, message: Seq<char> },
    BatchPayments { sender: Seq<char>, count: usize, message: Seq<char> },
    DEXTrade { dex: Seq<char>, message: Seq<char> },
    NFTActivity { tx_hash: Seq<char>, message: Seq<char> },
    LiquidityProvider,
    Whales { sender: Seq<char> },
    ActiveTraders { sender: Seq<char>, message: Seq<char> },
    Arbitrage { sender: Seq<char>, message: Seq<char> },
}

impl View for BusinessPattern {
    type V = PatternView;

    open spec fn view(&self) -> PatternView {
        match self {
            BusinessPattern::RegularPayments { sender, message } => PatternView::RegularPayments {
                sender: sender@,
                message: message@,
            },
            BusinessPattern::BatchPayments { sender, count, message } =>
                PatternView::BatchPayments { sender: sender@, count: *count, message: message@ },
            BusinessPattern::DEXTrade { dex, message } => PatternView::DEXTrade {
                dex: dex@,
                message: message@,
            },
            BusinessPattern::NFTActivity { tx_hash, message } => PatternView::NFTActivity {
                tx_hash: tx_hash@,
                message: message@,
            },
            BusinessPattern::LiquidityProvider => PatternView::LiquidityProvider,
            BusinessPattern::Whales { sender } => PatternView::Whales { sender: sender@ },
            BusinessPattern::ActiveTraders { sender, message } => PatternView::ActiveTraders {
                sender: sender@,
                message: message@,
            },
            BusinessPattern::Arbitrage { sender, message } => PatternView::Arbitrage {
                sender: sender@,
                message: message@,
            },
        }
    }
}

/// The content of each pattern.
pub open spec fn pattern_views(v: Seq<BusinessPattern>) -> Seq<PatternView> {
    v.map_values(|p: BusinessPattern| p@)
}

/// The hashes of the transactions judged anomalous so far in one detection
/// pass, in a hash set. It only grows: no operation removes a hash.
pub struct FlagSet {
    hashes: StringHashSet,
}

impl View for FlagSet {
    type V = Set<Seq<char>>;

    closed spec fn view(&self) -> Set<Seq<char>> {
        self.hashes@
    }
}

impl FlagSet {
    /// An empty flag set, for a fresh pass.
    pub fn new() -> (r: FlagSet)
        ensures
            r@ == Set::<Seq<char>>::empty(),
    {
        FlagSet { hashes: StringHashSet::new() }
    }

    /// Whether `hash` has been flagged.
    pub fn contains(&self, hash: &String) -> (r: bool)
        ensures
            r == self@.contains(hash@),
    {
        self.hashes.contains(hash.as_str())
    }

    /// Flags `hash`.
    pub fn insert(&mut self, hash: &String)
        ensures
            final(self)@ == old(self)@.insert(hash@),
    {
        self.hashes.insert(hash.clone());
    }

    /// Number of flagged hashes.
    pub fn len(&self) -> (n: usize)
        ensures
            n == self@.len(),
    {
        self.hashes.len()
    }
}

} // verus!
