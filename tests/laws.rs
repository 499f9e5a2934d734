use eth_analyzer::analize::{
    detect_active_traders, detect_arbitrage, detect_batch_payments, detect_blacklist_adresses,
    detect_high_frequency_at, detect_large_tx, detect_liquid_provider, detect_regular_payments,
    detect_structuring_at, detect_time_anomalies, detect_unusual_op, parse_address,
};
use eth_analyzer::csv::{AnomalyCsv, BusinessPatternCsv};
use eth_analyzer::models::{
    Anomaly, BusinessPattern, FlagSet, Severity, TransactionRecord, TxStorage, MAX_TOTAL_VALUE,
};
use eth_analyzer::scanner::{input_text, to_record, ChainTx};
use eth_analyzer::text::decimal_string;
use eth_analyzer::threshold::{local_mean, mean_of, percentile};

const COIN: u128 = 1_000_000_000_000_000_000;
const GWEI: u128 = 1_000_000_000;
const T0: u64 = 1_700_000_000;

fn tx(hash: &str, from: &str, to: Option<&str>, value: u128, timestamp: u64) -> TransactionRecord {
    TransactionRecord {
        hash: hash.to_string(),
        from: from.to_string(),
        to: to.map(str::to_string),
        value,
        gas: 21000,
        gas_price: 50 * GWEI,
        block_number: 7,
        timestamp,
        input: "0x".to_string(),
    }
}

fn store(txs: Vec<TransactionRecord>) -> TxStorage {
    let mut s = TxStorage::new();
    for t in txs {
        assert!(s.ingest(t));
    }
    s
}

#[test]
fn percentile_of_empty_sample_is_zero() {
    assert_eq!(percentile(&vec![], 90), 0);
    assert_eq!(percentile(&vec![], 0), 0);
}

#[test]
fn percentile_takes_nearest_rank() {
    assert_eq!(percentile(&vec![1000, 1, 20], 90), 20);
    assert_eq!(percentile(&vec![10, 15, 200, 250], 90), 200);
    assert_eq!(percentile(&vec![7], 90), 7);
    assert_eq!(percentile(&vec![5, 3, 9, 1, 7, 2, 8, 4, 6, 0, 10], 90), 9);
    assert_eq!(percentile(&vec![5, 3, 9], 100), 9);
    assert_eq!(percentile(&vec![5, 3, 9], 0), 3);
}

#[test]
fn percentile_grows_with_p() {
    let sample = vec![40, 10, 30, 20, 50];
    let mut last = 0;
    for p in 0..=100u64 {
        let v = percentile(&sample, p);
        assert!(v >= last);
        last = v;
    }
}

#[test]
fn percentile_ignores_order() {
    let a = vec![3, 1, 4, 1, 5, 9, 2, 6];
    let b = vec![9, 6, 5, 4, 3, 2, 1, 1];
    for p in [0u64, 25, 50, 90, 100] {
        assert_eq!(percentile(&a, p), percentile(&b, p));
    }
}

#[test]
fn local_mean_of_unseen_sender_is_zero() {
    let s = store(vec![tx("a", "x", None, 5, T0)]);
    let m = local_mean(&s, &"nobody".to_string());
    assert_eq!((m.whole, m.rem, m.count), (0, 0, 0));
}

#[test]
fn local_mean_of_single_value_is_that_value() {
    let s = store(vec![tx("a", "x", None, 42, T0), tx("b", "y", None, 7, T0)]);
    let m = local_mean(&s, &"x".to_string());
    assert_eq!((m.whole, m.rem, m.count), (42, 0, 1));
}

#[test]
fn mean_keeps_remainder() {
    let m = mean_of(&vec![1, 2, 2]);
    assert_eq!((m.whole, m.rem, m.count), (1, 2, 3));
    assert!(m.exceeds_scaled(4, 2));
    assert!(!m.exceeds_scaled(3, 2));
    assert!(m.exceeds(1));
    assert!(!m.exceeds(2));
}

#[test]
fn large_tx_strong_when_both_criteria_hold() {
    let mut txs = vec![];
    for i in 0..9 {
        txs.push(tx(&format!("s{}", i), "small", None, COIN, T0));
    }
    txs.push(tx("big", "whale", None, 100 * COIN, T0));
    txs.push(tx("w1", "whale", None, COIN, T0));
    txs.push(tx("w2", "whale", None, COIN, T0));
    txs.push(tx("w3", "whale", None, COIN, T0));
    txs.push(tx("w4", "whale", None, COIN, T0));
    let s = store(txs);
    let mut flags = FlagSet::new();
    let found = detect_large_tx(&s, &mut flags);
    assert_eq!(found.len(), 1);
    match &found[0] {
        Anomaly::LargeTx { tx_hash, severity, reasons, timestamp } => {
            assert_eq!(tx_hash, "big");
            assert_eq!(*severity, Severity::Strong);
            assert_eq!(reasons[0], format!("Suspiciously large transaction: {}", 100 * COIN));
            assert_eq!(*timestamp, T0);
        }
        _ => panic!("expected LargeTx"),
    }
    assert!(flags.contains(&"big".to_string()));
    assert!(!flags.contains(&"w1".to_string()));
}

#[test]
fn structuring_strong_for_twelve_equal_values_in_the_hour() {
    let mut txs = vec![];
    for i in 0..12u64 {
        txs.push(tx(&format!("h{}", i), "sender1", Some("r"), 10 * COIN, T0 - 60 * i));
    }
    let s = store(txs);
    let mut flags = FlagSet::new();
    let found = detect_structuring_at(&s, T0 as i64, &mut flags);
    assert_eq!(found.len(), 1);
    match &found[0] {
        Anomaly::Structuring { sender, count, severity, reasons } => {
            assert_eq!(sender, "sender1");
            assert_eq!(*count, 12);
            assert_eq!(*severity, Severity::Strong);
            assert_eq!(
                reasons[0],
                format!(
                    "Suspected structuring\n Transations count: 12,\n Transations sum: {}",
                    120 * COIN
                )
            );
        }
        _ => panic!("expected Structuring"),
    }
    assert!(flags.contains(&"h11".to_string()));
}

#[test]
fn structuring_skips_transactions_outside_the_hour() {
    let mut txs = vec![];
    for i in 0..12u64 {
        txs.push(tx(&format!("h{}", i), "sender1", Some("r"), 10 * COIN, T0 - 7200 - i));
    }
    let s = store(txs);
    let mut flags = FlagSet::new();
    let found = detect_structuring_at(&s, T0 as i64, &mut flags);
    assert_eq!(found.len(), 0);
    assert!(!flags.contains(&"h0".to_string()));
}

#[test]
fn high_frequency_counts_only_the_trailing_hour() {
    let mut txs = vec![];
    for i in 0..11u64 {
        txs.push(tx(&format!("h{}", i), "busy", None, COIN, T0 - 60 * i));
    }
    txs.push(tx("old", "busy", None, COIN, T0 - 4000));
    let s = store(txs);
    let mut flags = FlagSet::new();
    let found = detect_high_frequency_at(&s, T0 as i64, &mut flags);
    assert_eq!(found.len(), 1);
    match &found[0] {
        Anomaly::HighFrequency { count, reasons, .. } => {
            assert_eq!(*count, 11);
            assert_eq!(reasons[0], "Too many transactions per hour: 11");
        }
        _ => panic!("expected HighFrequency"),
    }
    assert!(flags.contains(&"h10".to_string()));
    assert!(!flags.contains(&"old".to_string()));
    let mut flags = FlagSet::new();
    assert_eq!(detect_high_frequency_at(&s, (T0 + 7200) as i64, &mut flags).len(), 0);
}

fn bursts(n: u64) -> Vec<Anomaly> {
    let noon = T0 - T0 % 86400 + 12 * 3600;
    let mut txs = vec![];
    for i in 0..n {
        txs.push(tx(&format!("b{}", i), "sender2", None, COIN, noon + 60 * i));
    }
    detect_time_anomalies(&store(txs))
}

#[test]
fn five_transactions_a_minute_apart_are_a_burst() {
    let found = bursts(5);
    assert_eq!(found.len(), 1);
    match &found[0] {
        Anomaly::BurstActivity { sender, reasons } => {
            assert_eq!(sender, "sender2");
            assert_eq!(reasons[0], "Detected Burst activity from: sender2");
        }
        _ => panic!("expected BurstActivity"),
    }
}

#[test]
fn four_transactions_are_no_burst() {
    assert_eq!(bursts(4).len(), 0);
}

#[test]
fn night_hours_run_to_seven() {
    let day = T0 - T0 % 86400;
    let s = store(vec![
        tx("midnight", "a", None, 1, day),
        tx("late", "b", None, 1, day + 6 * 3600 + 3599),
        tx("seven", "c", None, 1, day + 7 * 3600),
    ]);
    let found = detect_time_anomalies(&s);
    assert_eq!(found.len(), 2);
}

#[test]
fn ten_payments_make_two_batches_of_five() {
    let mut txs = vec![];
    for i in 0..5u64 {
        txs.push(tx(&format!("a{}", i), "payer", Some("r"), COIN, T0 + 30 * i));
    }
    for i in 0..5u64 {
        txs.push(tx(&format!("b{}", i), "payer", Some("r"), COIN, T0 + 1000 + 30 * i));
    }
    let found = detect_batch_payments(&store(txs));
    assert_eq!(found.len(), 2);
    for p in &found {
        match p {
            BusinessPattern::BatchPayments { sender, count, message } => {
                assert_eq!(sender, "payer");
                assert_eq!(*count, 5);
                assert_eq!(message, "Detected batch payments from payer:\n Payments count: 5");
            }
            _ => panic!("expected BatchPayments"),
        }
    }
}

#[test]
fn four_payments_are_no_batch() {
    let mut txs = vec![];
    for i in 0..4u64 {
        txs.push(tx(&format!("a{}", i), "payer", Some("r"), COIN, T0 + 30 * i));
    }
    assert_eq!(detect_batch_payments(&store(txs)).len(), 0);
}

#[test]
fn three_equal_payments_are_regular_whatever_the_times() {
    let s = store(vec![
        tx("t1", "sender1", Some("receiver1"), 100 * COIN, T0 + 5),
        tx("t2", "sender1", Some("receiver1"), 100 * COIN, T0 - 999_999),
        tx("t3", "sender1", Some("receiver1"), 100 * COIN, T0 + 17),
    ]);
    let found = detect_regular_payments(&s);
    assert_eq!(found.len(), 1);
    match &found[0] {
        BusinessPattern::RegularPayments { sender, message } => {
            assert_eq!(sender, "sender1");
            assert_eq!(message, "Detected regular payments from sender1");
        }
        _ => panic!("expected RegularPayments"),
    }
}

#[test]
fn lone_transaction_is_not_regular() {
    let s = store(vec![tx("t1", "sender1", Some("receiver1"), 100 * COIN, T0)]);
    assert_eq!(detect_regular_payments(&s).len(), 0);
}

#[test]
fn spread_values_are_not_regular() {
    let s = store(vec![
        tx("t1", "sender1", Some("r"), 100, T0),
        tx("t2", "sender1", Some("r"), 130, T0),
    ]);
    assert_eq!(detect_regular_payments(&s).len(), 0);
    let s = store(vec![
        tx("t1", "sender1", Some("r"), 100, T0),
        tx("t2", "sender1", Some("r"), 110, T0),
    ]);
    assert_eq!(detect_regular_payments(&s).len(), 1);
}

#[test]
fn anomaly_row_round_trip() {
    let a = Anomaly::BlacklistedAddress {
        tx_hash: "0xabc".to_string(),
        addres: "0xdead".to_string(),
        reasons: vec!["first".to_string(), "second".to_string()],
        timestamp: T0,
    };
    let row = AnomalyCsv::from_anomaly(&a);
    assert_eq!(row.kind, "BlacklistedAddress");
    assert_eq!(row.reasons.as_deref(), Some("first; second"));
    match row.to_anomaly() {
        Some(Anomaly::BlacklistedAddress { tx_hash, addres, reasons, timestamp }) => {
            assert_eq!(tx_hash, "0xabc");
            assert_eq!(addres, "0xdead");
            assert_eq!(reasons, vec!["first; second".to_string()]);
            assert_eq!(timestamp, T0);
        }
        _ => panic!("expected BlacklistedAddress"),
    }
    let t = Anomaly::TimeAnomaly {
        tx_hash: "tx9".to_string(),
        severity: Severity::Weak,
        reasons: vec!["Night".to_string()],
        timestamp: T0,
    };
    let row = AnomalyCsv::from_anomaly(&t);
    assert_eq!(row.kind, "TimeAnomaly");
    assert_eq!(row.severity.as_deref(), Some("Weak"));
    match row.to_anomaly() {
        Some(Anomaly::TimeAnomaly { tx_hash, severity, .. }) => {
            assert_eq!(tx_hash, "tx9");
            assert_eq!(severity, Severity::Weak);
        }
        _ => panic!("expected TimeAnomaly"),
    }
}

#[test]
fn malformed_row_reads_as_none() {
    let mut row = AnomalyCsv::from_anomaly(&Anomaly::UnusualOp {
        tx_hash: "x".to_string(),
        severity: Severity::Strong,
        reasons: vec![],
        timestamp: T0,
    });
    row.severity = Some("Medium".to_string());
    assert!(row.to_anomaly().is_none());
    row.kind = "Unknown".to_string();
    assert!(row.to_anomaly().is_none());
}

#[test]
fn pattern_row_keeps_dex_address() {
    let row = BusinessPatternCsv::from_pattern(&BusinessPattern::DEXTrade {
        dex: "0xd9".to_string(),
        message: "m".to_string(),
    });
    assert_eq!(row.kind, "DEXTrade");
    assert_eq!(row.sender.as_deref(), Some("0xd9"));
    assert_eq!(row.message.as_deref(), Some("m"));
}

#[test]
fn flags_only_grow_within_a_pass() {
    let mut txs = vec![tx("big", "a", None, 1000 * COIN, T0)];
    txs.push(tx("s1", "b", None, COIN, T0));
    txs.push(tx("s2", "b", None, COIN, T0));
    let s = store(txs);
    let mut flags = FlagSet::new();
    detect_large_tx(&s, &mut flags);
    assert!(flags.contains(&"big".to_string()));
    detect_high_frequency_at(&s, T0 as i64, &mut flags);
    detect_blacklist_adresses(&s, &vec!["nobody".to_string()], &mut flags);
    assert!(flags.contains(&"big".to_string()));
    let unusual = detect_unusual_op(&s, &flags);
    assert!(unusual.iter().all(|a| !matches!(a, Anomaly::UnusualOp { tx_hash, .. } if tx_hash == "big")));
}

#[test]
fn blacklist_reports_each_side() {
    let s = store(vec![tx("t", "bad", Some("worse"), 1, T0), tx("u", "ok", Some("fine"), 1, T0)]);
    let mut flags = FlagSet::new();
    let found = detect_blacklist_adresses(&s, &vec!["bad".to_string(), "worse".to_string()], &mut flags);
    assert_eq!(found.len(), 2);
    match (&found[0], &found[1]) {
        (
            Anomaly::BlacklistedAddress { addres: a, reasons: ra, .. },
            Anomaly::BlacklistedAddress { addres: b, reasons: rb, .. },
        ) => {
            assert_eq!(a, "bad");
            assert_eq!(ra[0], "Transactions from a sanctioned address: bad");
            assert_eq!(b, "worse");
            assert_eq!(rb[0], "Transactions to a sanctioned address: worse");
        }
        _ => panic!("expected BlacklistedAddress"),
    }
    assert!(flags.contains(&"t".to_string()));
    assert!(!flags.contains(&"u".to_string()));
}

#[test]
fn address_parsing_follows_h160() {
    let a = parse_address("0x00000000000000000000000000000000000000ff").unwrap();
    assert_eq!(a[19], 255);
    assert_eq!(a[0], 0);
    let b = parse_address("D9E1cE17f2641f24aE83637ab66a2cca9C378B9F").unwrap();
    assert_eq!(b[0], 0xd9);
    assert!(parse_address("receiver1").is_none());
    assert!(parse_address("0x1111").is_none());
}

fn dex_store(to: &str, input: &str, n: usize) -> TxStorage {
    let mut txs = vec![];
    for i in 0..n {
        let mut t = tx(&format!("d{}", i), "trader", Some(to), COIN, T0);
        t.input = input.to_string();
        txs.push(t);
    }
    store(txs)
}

#[test]
fn arbitrage_needs_a_dex_and_a_swap_call() {
    let dex = vec![parse_address("0x1111111111111111111111111111111111111111").unwrap()];
    let s = dex_store("0x1111111111111111111111111111111111111111", "0xmulticall", 1);
    assert_eq!(detect_arbitrage(&s, &dex).len(), 1);
    let s = dex_store("0x2222222222222222222222222222222222222222", "0xmulticall", 1);
    assert_eq!(detect_arbitrage(&s, &dex).len(), 0);
    let s = dex_store("not an address", "swapExactTokensForTokens", 1);
    assert_eq!(detect_arbitrage(&s, &dex).len(), 0);
}

#[test]
fn liquidity_and_active_traders() {
    let dex = vec![parse_address("0x1111111111111111111111111111111111111111").unwrap()];
    let s = dex_store("0x1111111111111111111111111111111111111111", "0xe8e33700ff", 11);
    assert_eq!(detect_liquid_provider(&s, &dex).len(), 11);
    let traders = detect_active_traders(&s, &dex);
    assert_eq!(traders.len(), 1);
    let s = dex_store("0x1111111111111111111111111111111111111111", "0x", 10);
    assert_eq!(detect_liquid_provider(&s, &dex).len(), 0);
    assert_eq!(detect_active_traders(&s, &dex).len(), 0);
}

#[test]
fn chain_transactions_become_records() {
    let t = ChainTx {
        hash: "0xh".to_string(),
        from: "0xf".to_string(),
        to: None,
        value_wei: 2_500_000_000_000_000_000,
        gas: 21000,
        gas_price_wei: 30_000_000_000,
        input: vec![0xa9, 0x05, 0x9c, 0xbb],
    };
    let r = to_record(t, 12, T0);
    assert_eq!(r.value, 2_500_000_000_000_000_000);
    assert_eq!(r.gas_price, 30_000_000_000);
    assert_eq!(r.input, "0xa9059cbb");
    assert_eq!(r.block_number, 12);
    assert_eq!(input_text(&vec![]), "0x");
    let huge = ChainTx {
        hash: "h".to_string(),
        from: "f".to_string(),
        to: None,
        value_wei: 0,
        gas: 1,
        gas_price_wei: u128::MAX,
        input: vec![],
    };
    let r = to_record(huge, 1, T0);
    assert_eq!(r.gas_price, u128::MAX);
    assert_eq!(eth_analyzer::threshold::fee(&r), u128::MAX);
    let mut costly = r;
    costly.gas = 3;
    assert_eq!(eth_analyzer::threshold::fee(&costly), u128::MAX);
    costly.gas_price = 7;
    assert_eq!(eth_analyzer::threshold::fee(&costly), 21);
}

#[test]
fn ingest_block_keeps_every_transaction() {
    let mut s = TxStorage::new();
    let txs = vec![
        ChainTx {
            hash: "a".to_string(),
            from: "x".to_string(),
            to: Some("y".to_string()),
            value_wei: 1,
            gas: 1,
            gas_price_wei: u128::MAX,
            input: vec![1],
        },
        ChainTx {
            hash: "b".to_string(),
            from: "y".to_string(),
            to: None,
            value_wei: 2,
            gas: 1,
            gas_price_wei: 1,
            input: vec![],
        },
    ];
    assert_eq!(eth_analyzer::scanner::ingest_block(&mut s, txs, 5, T0), 2);
    assert_eq!(s.len(), 2);
    assert_eq!(s.by_receiver(&"y".to_string())[0].hash, "a");
}

#[test]
fn flag_set_counts_distinct_hashes() {
    let mut f = FlagSet::new();
    f.insert(&"h".to_string());
    f.insert(&"h".to_string());
    f.insert(&"g".to_string());
    assert_eq!(f.len(), 2);
    assert!(f.contains(&"g".to_string()));
}

#[test]
fn decimal_text() {
    assert_eq!(decimal_string(0), "0");
    assert_eq!(decimal_string(1_000_000_007), "1000000007");
}

#[test]
fn long_or_unprefixed_input_is_a_weak_unusual_op() {
    let mut long = tx("long", "a", None, 1, T0);
    long.input = format!("0x{}", "ab".repeat(50));
    let mut plain = tx("plain", "a", None, 1, T0);
    plain.input = "abcd".to_string();
    let fine = tx("fine", "a", None, 1, T0);
    let s = store(vec![long, plain, fine]);
    let found = detect_unusual_op(&s, &FlagSet::new());
    assert_eq!(found.len(), 2);
    match &found[0] {
        Anomaly::UnusualOp { tx_hash, severity, reasons, .. } => {
            assert_eq!(tx_hash, "long");
            assert_eq!(*severity, Severity::Weak);
            assert_eq!(reasons[0], format!("Unusual operation: value=1, gas={}, input_len=102", 50 * GWEI));
        }
        _ => panic!("expected UnusualOp"),
    }
}

#[test]
fn buckets_keep_insertion_order() {
    let s = store(vec![
        tx("a1", "alice", Some("bob"), 1, T0),
        tx("b1", "bob", None, 2, T0),
        tx("a2", "alice", Some("carol"), 3, T0),
        tx("c1", "carol", Some("bob"), 4, T0),
    ]);
    let alice: Vec<&str> = s.by_sender(&"alice".to_string()).iter().map(|r| r.hash.as_str()).collect();
    assert_eq!(alice, vec!["a1", "a2"]);
    let to_bob: Vec<&str> = s.by_receiver(&"bob".to_string()).iter().map(|r| r.hash.as_str()).collect();
    assert_eq!(to_bob, vec!["a1", "c1"]);
    assert!(s.by_sender(&"dave".to_string()).is_empty());
    assert_eq!(s.len(), 4);
}

#[test]
fn store_refuses_value_beyond_its_total() {
    let mut s = TxStorage::new();
    assert!(s.ingest(tx("a", "x", None, MAX_TOTAL_VALUE - 5, T0)));
    assert!(!s.ingest(tx("b", "x", None, 6, T0)));
    assert!(s.ingest(tx("c", "x", None, 5, T0)));
    assert_eq!(s.len(), 2);
}

#[test]
fn sub_gwei_values_are_kept() {
    let s = store(vec![
        tx("t1", "dust", Some("r"), 500_000_000, T0),
        tx("t2", "dust", Some("r"), 500_000_000, T0 + 60),
    ]);
    assert_eq!(detect_regular_payments(&s).len(), 1);
    assert_eq!(s.by_sender(&"dust".to_string())[0].value, 500_000_000);
}

#[test]
fn exported_patterns_keep_the_dex_address() {
    let bytes = eth_analyzer::csv::export_patterns_csv(&vec![BusinessPattern::DEXTrade {
        dex: "0xd9e1ce17f2641f24ae83637ab66a2cca9c378b9f".to_string(),
        message: "m".to_string(),
    }]);
    let text = String::from_utf8(bytes).unwrap();
    assert_eq!(text, "kind,sender,tx_hash,count,message\nDEXTrade,0xd9e1ce17f2641f24ae83637ab66a2cca9c378b9f,,,m\n");
}
