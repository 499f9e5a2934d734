use vstd::prelude::*;
use vstd::string::StringExecFns;
use crate::models::{
    Anomaly, AnomalyView, BusinessPattern, PatternView, Severity, severity_name, texts,
};
use crate::text::{decimal, decimal_string};

verus! {

/// The bytes of one CSV record holding `fields`, as the `csv` crate's writer
/// writes it with its default settings.
pub uninterp spec fn csv_record(fields: Seq<Seq<char>>) -> Seq<u8>;

/// Relies on `csv::Writer::write_record` and `Writer::into_inner` over an
/// in-memory buffer: the bytes of one record of `fields`. Neither call can
/// fail here: the field-count check does not apply to a fresh writer's
/// first record, and writing or flushing to a `Vec<u8>` does not fail.
#[verifier::external_body]
fn encode_record(fields: &Vec<String>) -> (r: Vec<u8>)
    ensures
        r@ == csv_record(texts(fields@)),
{
    let mut w = ::csv::Writer::from_writer(Vec::new());
    w.write_record(fields).expect("writing to memory does not fail");
    w.into_inner().expect("flushing to memory does not fail")
}

/// Joins texts with `sep` between each two.
pub open spec fn join(v: Seq<Seq<char>>, sep: Seq<char>) -> Seq<char>
    decreases v.len(),
{
    if v.len() == 0 {
        Seq::empty()
    } else if v.len() == 1 {
        v[0]
    } else {
        join(v.drop_last(), sep) + sep + v.last()
    }
}

/// Joins the strings with `; `.
pub fn join_reasons(v: &Vec<String>) -> (r: String)
    ensures
        r@ == join(texts(v@), "; "@),
{
    let mut out = String::new();
    let mut i: usize = 0;
    while i < v.len()
        invariant
            i <= v.len(),
            out@ == join(texts(v@.take(i as int)), "; "@),
        decreases v.len() - i,
    {
        proof {
            assert(texts(v@.take(i + 1)).drop_last() =~= texts(v@.take(i as int)));
            assert(texts(v@.take(i + 1)).last() == v@[i as int]@);
        }
        if i == 0 {
            out = v[i].clone();
            proof {
                assert(texts(v@.take(1)).len() == 1);
            }
        } else {
            out = out.concat("; ").concat(v[i].as_str());
        }
        i = i + 1;
    }
    proof {
        assert(v@.take(v@.len() as int) =~= v@);
    }
    out
}

/// An optional string as optional characters.
pub open spec fn opt_view(o: Option<String>) -> Option<Seq<char>> {
    match o {
        Some(s) => Some(s@),
        None => None,
    }
}

/// One anomaly in the flat tabular schema.
pub struct AnomalyCsv {
    pub kind: String,
    pub tx_hash: Option<String>,
    pub sender: Option<String>,
    pub addres: Option<String>,
    pub count: Option<usize>,
    pub fee_wei: Option<u128>,
    pub severity: Option<String>,
    pub reasons: Option<String>,
    pub timestamp: Option<u64>,
}

/// The content of an [`AnomalyCsv`].
pub struct AnomalyRow {
    pub kind: Seq<char>,
    pub tx_hash: Option<Seq<char>>,
    pub sender: Option<Seq<char>>,
    pub addres: Option<Seq<char>>,
    pub count: Option<usize>,
    pub fee_wei: Option<u128>,
    pub severity: Option<Seq<char>>,
    pub reasons: Option<Seq<char>>,
    pub timestamp: Option<u64>,
}

impl View for AnomalyCsv {
    type V = AnomalyRow;

    open spec fn view(&self) -> AnomalyRow {
        AnomalyRow {
            kind: self.kind@,
            tx_hash: opt_view(self.tx_hash),
            sender: opt_view(self.sender),
            addres: opt_view(self.addres),
            count: self.count,
            fee_wei: self.fee_wei,
            severity: opt_view(self.severity),
            reasons: opt_view(self.reasons),
            timestamp: self.timestamp,
        }
    }
}

/// The kind of an anomaly, as named in the table.
pub open spec fn anomaly_kind(a: AnomalyView) -> Seq<char> {
    match a {
        AnomalyView::LargeTx { .. } => "LargeTx"@,
        AnomalyView::HighFrequency { .. } => "HighFrequency"@,
        AnomalyView::BurstActivity { .. } => "BurstActivity"@,
        AnomalyView::Structuring { .. } => "Structuring"@,
        AnomalyView::HighFee { .. } => "HighFee"@,
        AnomalyView::BlacklistedAddress { .. } => "BlacklistedAddress"@,
        AnomalyView::UnusualOp { .. } => "UnusualOp"@,
        AnomalyView::TimeAnomaly { .. } => "TimeAnomaly"@,
    }
}

/// The transaction an anomaly is about, if any.
pub open spec fn anomaly_tx(a: AnomalyView) -> Option<Seq<char>> {
    match a {
        AnomalyView::LargeTx { tx_hash, .. } => Some(tx_hash),
        AnomalyView::HighFee { tx_hash, .. } => Some(tx_hash),
        AnomalyView::BlacklistedAddress { tx_hash, .. } => Some(tx_hash),
        AnomalyView::UnusualOp { tx_hash, .. } => Some(tx_hash),
        AnomalyView::TimeAnomaly { tx_hash, .. } => Some(tx_hash),
        _ => None,
    }
}

/// The account an anomaly is about, if any: the sender, or the listed
/// address.
pub open spec fn anomaly_account(a: AnomalyView) -> Option<Seq<char>> {
    match a {
        AnomalyView::HighFrequency { sender, .. } => Some(sender),
        AnomalyView::BurstActivity { sender, .. } => Some(sender),
        AnomalyView::Structuring { sender, .. } => Some(sender),
        AnomalyView::BlacklistedAddress { addres, .. } => Some(addres),
        _ => None,
    }
}

/// The severity of an anomaly, for the kinds that carry one.
pub open spec fn anomaly_severity(a: AnomalyView) -> Option<Severity> {
    match a {
        AnomalyView::LargeTx { severity, .. } => Some(severity),
        AnomalyView::Structuring { severity, .. } => Some(severity),
        AnomalyView::HighFee { severity, .. } => Some(severity),
        AnomalyView::UnusualOp { severity, .. } => Some(severity),
        AnomalyView::TimeAnomaly { severity, .. } => Some(severity),
        _ => None,
    }
}

/// The reasons of an anomaly.
pub open spec fn anomaly_reasons(a: AnomalyView) -> Seq<Seq<char>> {
    match a {
        AnomalyView::LargeTx { reasons, .. } => reasons,
        AnomalyView::HighFrequency { reasons, .. } => reasons,
        AnomalyView::BurstActivity { reasons, .. } => reasons,
        AnomalyView::Structuring { reasons, .. } => reasons,
        AnomalyView::HighFee { reasons, .. } => reasons,
        AnomalyView::BlacklistedAddress { reasons, .. } => reasons,
        AnomalyView::UnusualOp { reasons, .. } => reasons,
        AnomalyView::TimeAnomaly { reasons, .. } => reasons,
    }
}

/// The count of an anomaly, for the kinds that carry one.
pub open spec fn anomaly_count(a: AnomalyView) -> Option<usize> {
    match a {
        AnomalyView::HighFrequency { count, .. } => Some(count),
        AnomalyView::Structuring { count, .. } => Some(count),
        _ => None,
    }
}

/// The observation time of an anomaly, for the kinds that carry one.
pub open spec fn anomaly_time(a: AnomalyView) -> Option<u64> {
    match a {
        AnomalyView::LargeTx { timestamp, .. } => Some(timestamp),
        AnomalyView::HighFee { timestamp, .. } => Some(timestamp),
        AnomalyView::BlacklistedAddress { timestamp, .. } => Some(timestamp),
        AnomalyView::UnusualOp { timestamp, .. } => Some(timestamp),
        AnomalyView::TimeAnomaly { timestamp, .. } => Some(timestamp),
        _ => None,
    }
}

/// The row of an anomaly: its kind, the fields it carries, `None` for the
/// others, and its reasons joined with `; `.
pub open spec fn anomaly_row(a: AnomalyView) -> AnomalyRow {
    AnomalyRow {
        kind: anomaly_kind(a),
        tx_hash: anomaly_tx(a),
        sender: match a {
            AnomalyView::BlacklistedAddress { .. } => None,
            _ => anomaly_account(a),
        },
        addres: match a {
            AnomalyView::BlacklistedAddress { addres, .. } => Some(addres),
            _ => None,
        },
        count: anomaly_count(a),
        fee_wei: match a {
            AnomalyView::HighFee { fee_wei, .. } => Some(fee_wei),
            _ => None,
        },
        severity: match anomaly_severity(a) {
            Some(s) => Some(severity_name(s)),
            None => None,
        },
        reasons: Some(join(anomaly_reasons(a), "; "@)),
        timestamp: anomaly_time(a),
    }
}

/// The severity that a table text names.
pub open spec fn parse_severity(s: Seq<char>) -> Option<Severity> {
    if s == "Strong"@ {
        Some(Severity::Strong)
    } else if s == "Weak"@ {
        Some(Severity::Weak)
    } else {
        None
    }
}

/// The anomaly that a row holds: the kind named by `kind` with the fields
/// that kind carries, its reason text taken as one reason. `None` when the
/// kind is unknown or a field it needs is missing.
pub open spec fn read_anomaly_row(row: AnomalyRow) -> Option<AnomalyView> {
    let k = row.kind;
    let sev = match row.severity {
        Some(s) => parse_severity(s),
        None => None,
    };
    match (row.tx_hash, row.sender, row.addres, row.count, row.fee_wei, sev, row.reasons, row.timestamp) {
        (Some(h), _, _, _, _, Some(sv), Some(r), Some(t)) if k == "LargeTx"@ => Some(
            AnomalyView::LargeTx { tx_hash: h, severity: sv, reasons: seq![r], timestamp: t },
        ),
        (_, Some(sd), _, Some(c), _, _, Some(r), _) if k == "HighFrequency"@ => Some(
            AnomalyView::HighFrequency { sender: sd, count: c, reasons: seq![r] },
        ),
        (_, Some(sd), _, _, _, _, Some(r), _) if k == "BurstActivity"@ => Some(
            AnomalyView::BurstActivity { sender: sd, reasons: seq![r] },
        ),
        (_, Some(sd), _, Some(c), _, Some(sv), Some(r), _) if k == "Structuring"@ => Some(
            AnomalyView::Structuring { sender: sd, count: c, severity: sv, reasons: seq![r] },
        ),
        (Some(h), _, _, _, Some(f), Some(sv), Some(r), Some(t)) if k == "HighFee"@ => Some(
            AnomalyView::HighFee {
                tx_hash: h,
                fee_wei: f,
                severity: sv,
                reasons: seq![r],
                timestamp: t,
            },
        ),
        (Some(h), _, Some(ad), _, _, _, Some(r), Some(t)) if k == "BlacklistedAddress"@ => Some(
            AnomalyView::BlacklistedAddress { tx_hash: h, addres: ad, reasons: seq![r], timestamp: t },
        ),
        (Some(h), _, _, _, _, Some(sv), Some(r), Some(t)) if k == "UnusualOp"@ => Some(
            AnomalyView::UnusualOp { tx_hash: h, severity: sv, reasons: seq![r], timestamp: t },
        ),
        (Some(h), _, _, _, _, Some(sv), Some(r), Some(t)) if k == "TimeAnomaly"@ => Some(
            AnomalyView::TimeAnomaly { tx_hash: h, severity: sv, reasons: seq![r], timestamp: t },
        ),
        _ => None,
    }
}

proof fn lemma_kind_names_differ()
    ensures
        "LargeTx"@ != "HighFrequency"@,
        "LargeTx"@ != "BurstActivity"@,
        "LargeTx"@ != "Structuring"@,
        "LargeTx"@ != "HighFee"@,
        "LargeTx"@ != "BlacklistedAddress"@,
        "LargeTx"@ != "UnusualOp"@,
        "LargeTx"@ != "TimeAnomaly"@,
        "HighFrequency"@ != "BurstActivity"@,
        "HighFrequency"@ != "Structuring"@,
        "HighFrequency"@ != "HighFee"@,
        "HighFrequency"@ != "BlacklistedAddress"@,
        "HighFrequency"@ != "UnusualOp"@,
        "HighFrequency"@ != "TimeAnomaly"@,
        "BurstActivity"@ != "Structuring"@,
        "BurstActivity"@ != "HighFee"@,
        "BurstActivity"@ != "BlacklistedAddress"@,
        "BurstActivity"@ != "UnusualOp"@,
        "BurstActivity"@ != "TimeAnomaly"@,
        "Structuring"@ != "HighFee"@,
        "Structuring"@ != "BlacklistedAddress"@,
        "Structuring"@ != "UnusualOp"@,
        "Structuring"@ != "TimeAnomaly"@,
        "HighFee"@ != "BlacklistedAddress"@,
        "HighFee"@ != "UnusualOp"@,
        "HighFee"@ != "TimeAnomaly"@,
        "BlacklistedAddress"@ != "UnusualOp"@,
        "BlacklistedAddress"@ != "TimeAnomaly"@,
        "UnusualOp"@ != "TimeAnomaly"@,
        "Strong"@ != "Weak"@,
{
    reveal_strlit("LargeTx");
    reveal_strlit("HighFrequency");
    reveal_strlit("BurstActivity");
    reveal_strlit("Structuring");
    reveal_strlit("HighFee");
    reveal_strlit("BlacklistedAddress");
    reveal_strlit("UnusualOp");
    reveal_strlit("TimeAnomaly");
    reveal_strlit("Strong");
    reveal_strlit("Weak");
    assert("LargeTx"@[0] != "HighFrequency"@[0]);
    assert("LargeTx"@[0] != "BurstActivity"@[0]);
    assert("LargeTx"@[0] != "Structuring"@[0]);
    assert("LargeTx"@[0] != "HighFee"@[0]);
    assert("LargeTx"@[0] != "BlacklistedAddress"@[0]);
    assert("LargeTx"@[0] != "UnusualOp"@[0]);
    assert("LargeTx"@[0] != "TimeAnomaly"@[0]);
    assert("HighFrequency"@.len() != "HighFee"@.len());
    assert("HighFrequency"@[0] != "BurstActivity"@[0]);
    assert("HighFrequency"@[0] != "Structuring"@[0]);
    assert("HighFrequency"@[0] != "BlacklistedAddress"@[0]);
    assert("HighFrequency"@[0] != "UnusualOp"@[0]);
    assert("HighFrequency"@[0] != "TimeAnomaly"@[0]);
    assert("BurstActivity"@[0] != "Structuring"@[0]);
    assert("BurstActivity"@[0] != "HighFee"@[0]);
    assert("BurstActivity"@.len() != "BlacklistedAddress"@.len());
    assert("BurstActivity"@[0] != "UnusualOp"@[0]);
    assert("BurstActivity"@[0] != "TimeAnomaly"@[0]);
    assert("Structuring"@[0] != "HighFee"@[0]);
    assert("Structuring"@[0] != "BlacklistedAddress"@[0]);
    assert("Structuring"@[0] != "UnusualOp"@[0]);
    assert("Structuring"@[0] != "TimeAnomaly"@[0]);
    assert("HighFee"@[0] != "BlacklistedAddress"@[0]);
    assert("HighFee"@[0] != "UnusualOp"@[0]);
    assert("HighFee"@[0] != "TimeAnomaly"@[0]);
    assert("BlacklistedAddress"@[0] != "UnusualOp"@[0]);
    assert("BlacklistedAddress"@[0] != "TimeAnomaly"@[0]);
    assert("UnusualOp"@[0] != "TimeAnomaly"@[0]);
    assert("Strong"@[0] != "Weak"@[0]);
}

/// Exporting an anomaly to its row and reading the row back gives an
/// anomaly of the same kind, about the same transaction and account, with
/// the same severity, count and time, whose reason text is the exported
/// one.
pub proof fn lemma_anomaly_round_trip(a: AnomalyView)
    ensures
        read_anomaly_row(anomaly_row(a)) matches Some(b) && anomaly_kind(b) == anomaly_kind(a)
            && anomaly_tx(b) == anomaly_tx(a) && anomaly_account(b) == anomaly_account(a)
            && anomaly_severity(b) == anomaly_severity(a) && anomaly_count(b) == anomaly_count(a)
            && anomaly_time(b) == anomaly_time(a) && join(anomaly_reasons(b), "; "@) == join(
            anomaly_reasons(a),
            "; "@,
        ),
{
    lemma_kind_names_differ();
    let r = join(anomaly_reasons(a), "; "@);
    assert(join(seq![r], "; "@) == r);
}

fn text_of(s: &str) -> (r: String)
    ensures
        r@ == s@,
{
    String::from_str(s)
}

impl AnomalyCsv {
    /// The row of an anomaly (see [`anomaly_row`]).
    pub fn from_anomaly(a: &Anomaly) -> (r: AnomalyCsv)
        ensures
            r@ == anomaly_row(a@),
    {
        match a {
            Anomaly::LargeTx { tx_hash, severity, reasons, timestamp } => AnomalyCsv {
                kind: text_of("LargeTx"),
                tx_hash: Some(tx_hash.clone()),
                sender: None,
                addres: None,
                count: None,
                fee_wei: None,
                severity: Some(severity.name()),
                reasons: Some(join_reasons(reasons)),
                timestamp: Some(*timestamp),
            },
            Anomaly::HighFrequency { sender, count, reasons } => AnomalyCsv {
                kind: text_of("HighFrequency"),
                tx_hash: None,
                sender: Some(sender.clone()),
                addres: None,
                count: Some(*count),
                fee_wei: None,
                severity: None,
                reasons: Some(join_reasons(reasons)),
                timestamp: None,
            },
            Anomaly::BurstActivity { sender, reasons } => AnomalyCsv {
                kind: text_of("BurstActivity"),
                tx_hash: None,
                sender: Some(sender.clone()),
                addres: None,
                count: None,
                fee_wei: None,
                severity: None,
                reasons: Some(join_reasons(reasons)),
                timestamp: None,
            },
            Anomaly::Structuring { sender, count, severity, reasons } => AnomalyCsv {
                kind: text_of("Structuring"),
                tx_hash: None,
                sender: Some(sender.clone()),
                addres: None,
                count: Some(*count),
                fee_wei: None,
                severity: Some(severity.name()),
                reasons: Some(join_reasons(reasons)),
                timestamp: None,
            },
            Anomaly::HighFee { tx_hash, fee_wei, severity, reasons, timestamp } => AnomalyCsv {
                kind: text_of("HighFee"),
                tx_hash: Some(tx_hash.clone()),
                sender: None,
                addres: None,
                count: None,
                fee_wei: Some(*fee_wei),
                severity: Some(severity.name()),
                reasons: Some(join_reasons(reasons)),
                timestamp: Some(*timestamp),
            },
            Anomaly::BlacklistedAddress { tx_hash, addres, reasons, timestamp } => AnomalyCsv {
                kind: text_of("BlacklistedAddress"),
                tx_hash: Some(tx_hash.clone()),
                sender: None,
                addres: Some(addres.clone()),
                count: None,
                fee_wei: None,
                severity: None,
                reasons: Some(join_reasons(reasons)),
                timestamp: Some(*timestamp),
            },
            Anomaly::UnusualOp { tx_hash, severity, reasons, timestamp } => AnomalyCsv {
                kind: text_of("UnusualOp"),
                tx_hash: Some(tx_hash.clone()),
                sender: None,
                addres: None,
                count: None,
                fee_wei: None,
                severity: Some(severity.name()),
                reasons: Some(join_reasons(reasons)),
                timestamp: Some(*timestamp),
            },
            Anomaly::TimeAnomaly { tx_hash, severity, reasons, timestamp } => AnomalyCsv {
                kind: text_of("TimeAnomaly"),
                tx_hash: Some(tx_hash.clone()),
                sender: None,
                addres: None,
                count: None,
                fee_wei: None,
                severity: Some(severity.name()),
                reasons: Some(join_reasons(reasons)),
                timestamp: Some(*timestamp),
            },
        }
    }
}

fn read_severity(s: &Option<String>) -> (r: Option<Severity>)
    ensures
        r == match opt_view(*s) {
            Some(t) => parse_severity(t),
            None => None,
        },
{
    match s {
        Some(t) => {
            if *t == text_of("Strong") {
                Some(Severity::Strong)
            } else if *t == text_of("Weak") {
                Some(Severity::Weak)
            } else {
                None
            }
        },
        None => None,
    }
}

fn single(s: String) -> (v: Vec<String>)
    ensures
        texts(v@) == seq![s@],
{
    let mut v: Vec<String> = Vec::new();
    v.push(s);
    assert(texts(v@) =~= seq![s@]);
    v
}

impl AnomalyCsv {
    /// Reads the anomaly back from its row (see [`read_anomaly_row`]).
    pub fn to_anomaly(&self) -> (r: Option<Anomaly>)
        ensures
            r matches Some(a) ==> read_anomaly_row(self@) == Some(a@),
            r is None ==> read_anomaly_row(self@) is None,
    {
        let sev = read_severity(&self.severity);
        let k = &self.kind;
        match (&self.tx_hash, &self.sender, &self.addres, self.count, self.fee_wei, sev, &self.reasons, self.timestamp) {
            (Some(h), _, _, _, _, Some(sv), Some(r), Some(t)) if *k == text_of("LargeTx") => Some(
                Anomaly::LargeTx { tx_hash: h.clone(), severity: sv, reasons: single(r.clone()), timestamp: t },
            ),
            (_, Some(sd), _, Some(c), _, _, Some(r), _) if *k == text_of("HighFrequency") => Some(
                Anomaly::HighFrequency { sender: sd.clone(), count: c, reasons: single(r.clone()) },
            ),
            (_, Some(sd), _, _, _, _, Some(r), _) if *k == text_of("BurstActivity") => Some(
                Anomaly::BurstActivity { sender: sd.clone(), reasons: single(r.clone()) },
            ),
            (_, Some(sd), _, Some(c), _, Some(sv), Some(r), _) if *k == text_of("Structuring") => Some(
                Anomaly::Structuring { sender: sd.clone(), count: c, severity: sv, reasons: single(r.clone()) },
            ),
            (Some(h), _, _, _, Some(f), Some(sv), Some(r), Some(t)) if *k == text_of("HighFee") => Some(
                Anomaly::HighFee {
                    tx_hash: h.clone(),
                    fee_wei: f,
                    severity: sv,
                    reasons: single(r.clone()),
                    timestamp: t,
                },
            ),
            (Some(h), _, Some(ad), _, _, _, Some(r), Some(t)) if *k == text_of("BlacklistedAddress") => Some(
                Anomaly::BlacklistedAddress { tx_hash: h.clone(), addres: ad.clone(), reasons: single(r.clone()), timestamp: t },
            ),
            (Some(h), _, _, _, _, Some(sv), Some(r), Some(t)) if *k == text_of("UnusualOp") => Some(
                Anomaly::UnusualOp { tx_hash: h.clone(), severity: sv, reasons: single(r.clone()), timestamp: t },
            ),
            (Some(h), _, _, _, _, Some(sv), Some(r), Some(t)) if *k == text_of("TimeAnomaly") => Some(
                Anomaly::TimeAnomaly { tx_hash: h.clone(), severity: sv, reasons: single(r.clone()), timestamp: t },
            ),
            _ => None,
        }
    }
}

/// One business pattern in the flat tabular schema.
pub struct BusinessPatternCsv {
    pub kind: String,
    pub sender: Option<String>,
    pub tx_hash: Option<String>,
    pub count: Option<usize>,
    pub message: Option<String>,
}

/// The content of a [`BusinessPatternCsv`].
pub struct PatternRow {
    pub kind: Seq<char>,
    pub sender: Option<Seq<char>>,
    pub tx_hash: Option<Seq<char>>,
    pub count: Option<usize>,
    pub message: Option<Seq<char>>,
}

impl View for BusinessPatternCsv {
    type V = PatternRow;

    open spec fn view(&self) -> PatternRow {
        PatternRow {
            kind: self.kind@,
            sender: opt_view(self.sender),
            tx_hash: opt_view(self.tx_hash),
            count: self.count,
            message: opt_view(self.message),
        }
    }
}

/// The row of a pattern. A DEX trade's contract address, its subject, goes
/// in the sender/address column.
pub open spec fn pattern_row(p: PatternView) -> PatternRow {
    match p {
        PatternView::RegularPayments { sender, message } => PatternRow {
            kind: "RegularPayments"@,
            sender: Some(sender),
            tx_hash: None,
            count: None,
            message: Some(message),
        },
        PatternView::BatchPayments { sender, count, message } => PatternRow {
            kind: "BatchPayments"@,
            sender: Some(sender),
            tx_hash: None,
            count: Some(count),
            message: Some(message),
        },
        PatternView::DEXTrade { dex, message } => PatternRow {
            kind: "DEXTrade"@,
            sender: Some(dex),
            tx_hash: None,
            count: None,
            message: Some(message),
        },
        PatternView::NFTActivity { tx_hash, message } => PatternRow {
            kind: "NFTActivity"@,
            sender: None,
            tx_hash: Some(tx_hash),
            count: None,
            message: Some(message),
        },
        PatternView::LiquidityProvider => PatternRow {
            kind: "LiquidityProvider"@,
            sender: None,
            tx_hash: None,
            count: None,
            message: None,
        },
        PatternView::Whales { sender } => PatternRow {
            kind: "Whales"@,
            sender: Some(sender),
            tx_hash: None,
            count: None,
            message: None,
        },
        PatternView::ActiveTraders { sender, message } => PatternRow {
            kind: "ActiveTraders"@,
            sender: Some(sender),
            tx_hash: None,
            count: None,
            message: Some(message),
        },
        PatternView::Arbitrage { sender, message } => PatternRow {
            kind: "Arbitrage"@,
            sender: Some(sender),
            tx_hash: None,
            count: None,
            message: Some(message),
        },
    }
}

impl BusinessPatternCsv {
    /// The row of a pattern (see [`pattern_row`]).
    pub fn from_pattern(p: &BusinessPattern) -> (r: BusinessPatternCsv)
        ensures
            r@ == pattern_row(p@),
    {
        match p {
            BusinessPattern::RegularPayments { sender, message } => BusinessPatternCsv {
                kind: text_of("RegularPayments"),
                sender: Some(sender.clone()),
                tx_hash: None,
                count: None,
                message: Some(message.clone()),
            },
            BusinessPattern::BatchPayments { sender, count, message } => BusinessPatternCsv {
                kind: text_of("BatchPayments"),
                sender: Some(sender.clone()),
                tx_hash: None,
                count: Some(*count),
                message: Some(message.clone()),
            },
            BusinessPattern::DEXTrade { dex, message } => BusinessPatternCsv {
                kind: text_of("DEXTrade"),
                sender: Some(dex.clone()),
                tx_hash: None,
                count: None,
                message: Some(message.clone()),
            },
            BusinessPattern::NFTActivity { tx_hash, message } => BusinessPatternCsv {
                kind: text_of("NFTActivity"),
                sender: None,
                tx_hash: Some(tx_hash.clone()),
                count: None,
                message: Some(message.clone()),
            },
            BusinessPattern::LiquidityProvider => BusinessPatternCsv {
                kind: text_of("LiquidityProvider"),
                sender: None,
                tx_hash: None,
                count: None,
                message: None,
            },
            BusinessPattern::Whales { sender } => BusinessPatternCsv {
                kind: text_of("Whales"),
                sender: Some(sender.clone()),
                tx_hash: None,
                count: None,
                message: None,
            },
            BusinessPattern::ActiveTraders { sender, message } => BusinessPatternCsv {
                kind: text_of("ActiveTraders"),
                sender: Some(sender.clone()),
                tx_hash: None,
                count: None,
                message: Some(message.clone()),
            },
            BusinessPattern::Arbitrage { sender, message } => BusinessPatternCsv {
                kind: text_of("Arbitrage"),
                sender: Some(sender.clone()),
                tx_hash: None,
                count: None,
                message: Some(message.clone()),
            },
        }
    }
}

// ---------------------------------------------------------------- CSV text

/// An optional text as a field: empty when absent.
pub open spec fn field(o: Option<Seq<char>>) -> Seq<char> {
    match o {
        Some(t) => t,
        None => Seq::empty(),
    }
}

/// An optional number as a field: decimal, empty when absent.
pub open spec fn number_field(o: Option<int>) -> Seq<char> {
    match o {
        Some(n) => decimal(n as nat),
        None => Seq::empty(),
    }
}

/// The header record of the anomaly table.
pub open spec fn anomaly_header() -> Seq<Seq<char>> {
    seq![
        "kind"@,
        "tx_hash"@,
        "sender"@,
        "addres"@,
        "count"@,
        "fee_wei"@,
        "severity"@,
        "reasons"@,
        "timestamp"@,
    ]
}

/// The fields of an anomaly row, in header order.
pub open spec fn anomaly_fields(r: AnomalyRow) -> Seq<Seq<char>> {
    seq![
        r.kind,
        field(r.tx_hash),
        field(r.sender),
        field(r.addres),
        number_field(
            match r.count {
                Some(c) => Some(c as int),
                None => None,
            },
        ),
        number_field(
            match r.fee_wei {
                Some(f) => Some(f as int),
                None => None,
            },
        ),
        field(r.severity),
        field(r.reasons),
        number_field(
            match r.timestamp {
                Some(t) => Some(t as int),
                None => None,
            },
        ),
    ]
}

/// The header record of the pattern table.
pub open spec fn pattern_header() -> Seq<Seq<char>> {
    seq!["kind"@, "sender"@, "tx_hash"@, "count"@, "message"@]
}

/// The fields of a pattern row, in header order.
pub open spec fn pattern_fields(r: PatternRow) -> Seq<Seq<char>> {
    seq![
        r.kind,
        field(r.sender),
        field(r.tx_hash),
        number_field(
            match r.count {
                Some(c) => Some(c as int),
                None => None,
            },
        ),
        field(r.message),
    ]
}

/// The CSV records of the anomalies' rows.
pub open spec fn anomaly_records(v: Seq<AnomalyView>) -> Seq<u8>
    decreases v.len(),
{
    if v.len() == 0 {
        Seq::empty()
    } else {
        anomaly_records(v.drop_last()) + csv_record(anomaly_fields(anomaly_row(v.last())))
    }
}

/// The CSV records of the patterns' rows.
pub open spec fn pattern_records(v: Seq<PatternView>) -> Seq<u8>
    decreases v.len(),
{
    if v.len() == 0 {
        Seq::empty()
    } else {
        pattern_records(v.drop_last()) + csv_record(pattern_fields(pattern_row(v.last())))
    }
}

fn opt_field(o: &Option<String>) -> (r: String)
    ensures
        r@ == field(opt_view(*o)),
{
    match o {
        Some(t) => t.clone(),
        None => String::new(),
    }
}

fn number_text(o: Option<u128>) -> (r: String)
    ensures
        r@ == number_field(
            match o {
                Some(n) => Some(n as int),
                None => None,
            },
        ),
{
    match o {
        Some(n) => decimal_string(n),
        None => String::new(),
    }
}

fn anomaly_header_strings() -> (r: Vec<String>)
    ensures
        texts(r@) == anomaly_header(),
{
    let mut v: Vec<String> = Vec::new();
    v.push(text_of("kind"));
    v.push(text_of("tx_hash"));
    v.push(text_of("sender"));
    v.push(text_of("addres"));
    v.push(text_of("count"));
    v.push(text_of("fee_wei"));
    v.push(text_of("severity"));
    v.push(text_of("reasons"));
    v.push(text_of("timestamp"));
    assert(texts(v@) =~= anomaly_header());
    v
}

fn pattern_header_strings() -> (r: Vec<String>)
    ensures
        texts(r@) == pattern_header(),
{
    let mut v: Vec<String> = Vec::new();
    v.push(text_of("kind"));
    v.push(text_of("sender"));
    v.push(text_of("tx_hash"));
    v.push(text_of("count"));
    v.push(text_of("message"));
    assert(texts(v@) =~= pattern_header());
    v
}

fn anomaly_field_strings(row: &AnomalyCsv) -> (r: Vec<String>)
    ensures
        texts(r@) == anomaly_fields(row@),
{
    let mut v: Vec<String> = Vec::new();
    v.push(row.kind.clone());
    v.push(opt_field(&row.tx_hash));
    v.push(opt_field(&row.sender));
    v.push(opt_field(&row.addres));
    v.push(
        number_text(
            match row.count {
                Some(c) => Some(c as u128),
                None => None,
            },
        ),
    );
    v.push(number_text(row.fee_wei));
    v.push(opt_field(&row.severity));
    v.push(opt_field(&row.reasons));
    v.push(
        number_text(
            match row.timestamp {
                Some(t) => Some(t as u128),
                None => None,
            },
        ),
    );
    assert(texts(v@) =~= anomaly_fields(row@));
    v
}

fn pattern_field_strings(row: &BusinessPatternCsv) -> (r: Vec<String>)
    ensures
        texts(r@) == pattern_fields(row@),
{
    let mut v: Vec<String> = Vec::new();
    v.push(row.kind.clone());
    v.push(opt_field(&row.sender));
    v.push(opt_field(&row.tx_hash));
    v.push(
        number_text(
            match row.count {
                Some(c) => Some(c as u128),
                None => None,
            },
        ),
    );
    v.push(opt_field(&row.message));
    assert(texts(v@) =~= pattern_fields(row@));
    v
}

/// The CSV text of the anomalies: a header record, then one record per
/// anomaly's row.
pub fn export_anomalies_csv(anomalies: &Vec<Anomaly>) -> (r: Vec<u8>)
    ensures
        r@ == csv_record(anomaly_header()) + anomaly_records(
            crate::models::anomaly_views(anomalies@),
        ),
{
    let mut out = encode_record(&anomaly_header_strings());
    let ghost head = out@;
    let mut i: usize = 0;
    while i < anomalies.len()
        invariant
            i <= anomalies.len(),
            head == csv_record(anomaly_header()),
            out@ == head + anomaly_records(crate::models::anomaly_views(anomalies@.take(i as int))),
        decreases anomalies.len() - i,
    {
        let row = AnomalyCsv::from_anomaly(&anomalies[i]);
        let mut rec = encode_record(&anomaly_field_strings(&row));
        let ghost before = out@;
        out.append(&mut rec);
        proof {
            let v = crate::models::anomaly_views(anomalies@.take(i + 1));
            assert(v.drop_last() =~= crate::models::anomaly_views(anomalies@.take(i as int)));
            assert(v.last() == anomalies@[i as int]@);
            assert(out@ =~= head + anomaly_records(v));
        }
        i = i + 1;
    }
    proof {
        assert(anomalies@.take(anomalies@.len() as int) =~= anomalies@);
    }
    out
}

/// The CSV text of the patterns: a header record, then one record per
/// pattern's row.
pub fn export_patterns_csv(patterns: &Vec<BusinessPattern>) -> (r: Vec<u8>)
    ensures
        r@ == csv_record(pattern_header()) + pattern_records(
            crate::models::pattern_views(patterns@),
        ),
{
    let mut out = encode_record(&pattern_header_strings());
    let ghost head = out@;
    let mut i: usize = 0;
    while i < patterns.len()
        invariant
            i <= patterns.len(),
            head == csv_record(pattern_header()),
            out@ == head + pattern_records(crate::models::pattern_views(patterns@.take(i as int))),
        decreases patterns.len() - i,
    {
        let row = BusinessPatternCsv::from_pattern(&patterns[i]);
        let mut rec = encode_record(&pattern_field_strings(&row));
        let ghost before = out@;
        out.append(&mut rec);
        proof {
            let v = crate::models::pattern_views(patterns@.take(i + 1));
            assert(v.drop_last() =~= crate::models::pattern_views(patterns@.take(i as int)));
            assert(v.last() == patterns@[i as int]@);
            assert(out@ =~= head + pattern_records(v));
        }
        i = i + 1;
    }
    proof {
        assert(patterns@.take(patterns@.len() as int) =~= patterns@);
    }
    out
}

} // verus!
