use eth_analyzer::analize::{
    detect_active_traders, detect_arbitrage, detect_batch_payments, detect_blacklist_adresses,
    detect_dex_trade, detect_high_fee, detect_high_frequency, detect_high_frequency_at,
    detect_large_tx, detect_liquid_provider, detect_nft_activity, detect_regular_payments,
    detect_structuring, detect_structuring_at, detect_time_anomalies, detect_unusual_op,
    detect_whales, parse_address,
};
use eth_analyzer::csv::{export_anomalies_csv, export_patterns_csv};
use eth_analyzer::models::{Anomaly, BusinessPattern, FlagSet, Severity, TransactionRecord, TxStorage};

/// Wei in one unit of the native coin.
const COIN: u128 = 1_000_000_000_000_000_000;
/// Wei in one gwei.
const GWEI: u128 = 1_000_000_000;

fn now() -> u64 {
    chrono::Utc::now().timestamp() as u64
}

fn record(
    hash: &str,
    from: &str,
    to: Option<&str>,
    value: u128,
    gas: u64,
    gas_price: u128,
    timestamp: u64,
    input: &str,
) -> TransactionRecord {
    TransactionRecord {
        hash: hash.to_string(),
        from: from.to_string(),
        to: to.map(str::to_string),
        value,
        gas,
        gas_price,
        block_number: 1,
        timestamp,
        input: input.to_string(),
    }
}

fn make_tx(hash: &str, from: &str, to: Option<&str>, value: u128, timestamp: u64) -> TransactionRecord {
    record(hash, from, to, value, 21000, 50 * GWEI, timestamp, "0x")
}

fn storage_with(txs: Vec<TransactionRecord>) -> TxStorage {
    let mut s = TxStorage::new();
    for tx in txs {
        assert!(s.ingest(tx));
    }
    s
}

#[test]
fn test_detect_large_tx() {
    let t = now();
    let storage = storage_with(vec![
        record("tx1", "sender1", Some("receiver1"), 1000 * COIN, 21000, 50 * GWEI, t, ""),
        record("tx2", "sender1", Some("receiver1"), COIN, 2100, 10 * GWEI, t, ""),
        record("tx3", "sender1", Some("receiver1"), 20 * COIN, 2100, 10 * GWEI, t, ""),
    ]);
    let mut flags = FlagSet::new();
    let anomalies = detect_large_tx(&storage, &mut flags);
    assert_eq!(anomalies.len(), 1);
    match &anomalies[0] {
        Anomaly::LargeTx { severity, tx_hash, .. } => {
            assert_eq!(tx_hash, "tx1");
            assert_eq!(*severity, Severity::Weak);
        }
        _ => panic!("Wrong Anomaly type"),
    }
}

#[test]
fn test_detect_high_frequency() {
    let t = now();
    let mut txs = Vec::new();
    for i in 0..11u64 {
        txs.push(record(
            &format!("tx{}", i),
            "sender1",
            Some("receiver1"),
            COIN,
            21000,
            50 * GWEI,
            t - 60 * i,
            "",
        ));
    }
    let storage = storage_with(txs);
    let mut flags = FlagSet::new();
    let anomalies = detect_high_frequency(&storage, &mut flags);
    assert_eq!(anomalies.len(), 1);
    match &anomalies[0] {
        Anomaly::HighFrequency { sender: s, count, .. } => {
            assert_eq!(s, "sender1");
            assert_eq!(*count, 11);
        }
        _ => panic!("Wrong anomaly type"),
    }
}

#[test]
fn test_detect_high_fee() {
    let t = now();
    let storage = storage_with(vec![
        record("tx1", "sender1", Some("receiver1"), COIN, 21, 50 * GWEI, t, ""),
        record("tx2", "sender1", Some("receiver1"), COIN, 21, GWEI, t, ""),
        record("tx3", "sender1", Some("receiver1"), 20 * COIN, 21, GWEI, t, ""),
    ]);
    let mut flags = FlagSet::new();
    let anomalies = detect_high_fee(&storage, &mut flags);
    assert_eq!(anomalies.len(), 1);
    match &anomalies[0] {
        Anomaly::HighFee { severity, tx_hash, .. } => {
            assert_eq!(tx_hash, "tx1");
            assert_eq!(*severity, Severity::Weak);
        }
        _ => panic!("Wrong Anomaly type"),
    }
}

#[test]
fn test_detect_unusual_op() {
    let t = now();
    let storage = storage_with(vec![
        record("tx1", "sender1", Some("receiver1"), COIN, 21, 500 * GWEI, t, "0xffwhkfhk"),
        record("tx2", "sender1", Some("receiver1"), COIN, 21, 50 * GWEI, t, "0xfddflfl"),
        record("tx3", "sender1", Some("receiver1"), 1000 * COIN, 21, 50 * GWEI, t, "0xfpjrfpjw"),
        record("tx4", "sender1", Some("receiver1"), COIN, 21, 50 * GWEI, t, "0xfwrhfwurhf"),
        record("tx5", "sender1", Some("receiver1"), COIN, 21, 50 * GWEI, t, "3xgkfkjsfuwh"),
    ]);
    let flags = FlagSet::new();
    let anomalies = detect_unusual_op(&storage, &flags);
    assert_eq!(anomalies.len(), 3);
}

#[test]
fn test_detect_structuring() {
    let t = now();
    let mut txs = vec![];
    for i in 0..12u64 {
        txs.push(make_tx(&format!("hash{}", i), "sender1", Some("receiver1"), 10 * COIN, t - 60 * i));
    }
    let storage = storage_with(txs);
    let mut flags = FlagSet::new();
    let anomalies = detect_structuring(&storage, &mut flags);
    assert_eq!(anomalies.len(), 1);
    match &anomalies[0] {
        Anomaly::Structuring { sender, count, severity, reasons } => {
            assert_eq!(sender, "sender1");
            assert_eq!(*count, 12);
            assert_eq!(*severity, Severity::Strong);
            assert!(reasons[0].contains("Transations count"));
            assert!(reasons[0].contains("Transations sum"));
        }
        _ => panic!("expected Anomaly::Structuring"),
    }
}

#[test]
fn test_detect_time_anomalies() {
    let t = now();
    let day = t - t % 86400;
    let mut txs = vec![make_tx("tx1", "sender1", Some("receiver1"), 10 * COIN, day + 3 * 3600)];
    let noon = day + 12 * 3600;
    for i in 0..5u64 {
        txs.push(make_tx(&format!("burst{}", i), "sender2", Some("receiver2"), COIN, noon + 60 * i));
    }
    let storage = storage_with(txs);
    let anomalies = detect_time_anomalies(&storage);
    assert_eq!(anomalies.len(), 2);
    let mut time_anomaly_found = false;
    let mut burst_anomaly_found = false;
    for anomaly in anomalies {
        match anomaly {
            Anomaly::TimeAnomaly { tx_hash, severity, .. } => {
                assert_eq!(tx_hash, "tx1");
                assert_eq!(severity, Severity::Weak);
                time_anomaly_found = true;
            }
            Anomaly::BurstActivity { sender, reasons } => {
                assert_eq!(sender, "sender2");
                assert!(reasons[0].contains("Detected Burst activity"));
                burst_anomaly_found = true;
            }
            _ => {}
        }
    }
    assert!(time_anomaly_found, "Time anomaly not detected");
    assert!(burst_anomaly_found, "Burst activity not detected");
}

#[test]
fn test_detect_regular_payments() {
    let t = now();
    let mut storage = storage_with(vec![
        make_tx("tx1", "sender1", Some("receiver1"), 100 * COIN, t - 3 * 3600),
        make_tx("tx2", "sender1", Some("receiver1"), 100 * COIN, t - 2 * 3600),
        make_tx("tx3", "sender1", Some("receiver1"), 100 * COIN, t - 3600),
    ]);
    let patterns = detect_regular_payments(&storage);
    assert_eq!(patterns.len(), 1);
    match &patterns[0] {
        BusinessPattern::RegularPayments { sender, message } => {
            assert_eq!(sender, "sender1");
            assert!(message.contains("Detected regular payments"));
        }
        _ => panic!("expected BusinessPattern::RegularPayments"),
    }
    assert!(storage.ingest(make_tx("tx4", "sender2", Some("receiver2"), 50 * COIN, t)));
    let patterns = detect_regular_payments(&storage);
    assert_eq!(patterns.len(), 1);
}

fn dex_fixture(first_input: &str) -> TxStorage {
    let t = now();
    storage_with(vec![
        record(
            "tx1",
            "sender1",
            Some("0x1111111111111111111111111111111111111111"),
            10 * COIN,
            21,
            GWEI,
            t,
            first_input,
        ),
        record(
            "tx2",
            "sender2",
            Some("0x2222222222222222222222222222222222222222"),
            15 * COIN,
            21,
            GWEI,
            t,
            "",
        ),
        record("tx3", "sender3", None, 20 * COIN, 21, GWEI, t, ""),
    ])
}

fn dex_set() -> Vec<[u8; 20]> {
    let dex_address = parse_address("0x1111111111111111111111111111111111111111").unwrap();
    vec![dex_address]
}

#[test]
fn test_detect_dex_trade() {
    let storage = dex_fixture("");
    let patterns = detect_dex_trade(&storage, &dex_set());
    assert_eq!(patterns.len(), 1);
}

#[test]
fn test_nft_activity() {
    let storage = storage_with(vec![record(
        "tx1",
        "sender1",
        Some("receiver"),
        100 * COIN,
        21000,
        50 * GWEI,
        now(),
        "0x80ac58cd",
    )]);
    let patterns = detect_nft_activity(&storage);
    assert_eq!(patterns.len(), 1);
    match &patterns[0] {
        BusinessPattern::NFTActivity { tx_hash, .. } => assert_eq!(tx_hash, "tx1"),
        _ => panic!("expected BusinessPattern::NFTActivity"),
    }
}

#[test]
fn test_detect_arbitrage() {
    let storage = dex_fixture("multicall");
    let _patterns = detect_dex_trade(&storage, &dex_set());
}

#[test]
fn test_detect_whales() {
    let t = now();
    let storage = storage_with(vec![
        make_tx("tx1", "sender1", Some("receiver1"), 200 * COIN, t),
        make_tx("tx2", "sender1", Some("receiver1"), 250 * COIN, t),
        make_tx("tx3", "sender2", Some("receiver2"), 10 * COIN, t),
        make_tx("tx4", "sender2", Some("receiver2"), 15 * COIN, t),
    ]);
    let patterns = detect_whales(&storage);
    assert_eq!(patterns.len(), 1);
    match &patterns[0] {
        BusinessPattern::Whales { sender } => assert_eq!(sender, "sender1"),
        _ => panic!("expected BusinessPattern::Whales"),
    }
}

#[test]
fn test_export_anomalies_csv() {
    let anomalies = vec![
        Anomaly::Structuring {
            sender: "sender1".to_string(),
            count: 12,
            severity: Severity::Strong,
            reasons: vec!["Suspicious activity".to_string()],
        },
        Anomaly::TimeAnomaly {
            tx_hash: "tx123".to_string(),
            severity: Severity::Weak,
            reasons: vec!["Night time transaction".to_string()],
            timestamp: now(),
        },
    ];
    let bytes = export_anomalies_csv(&anomalies);
    let content = String::from_utf8(bytes).unwrap();
    assert!(content.contains("sender1"));
    assert!(content.contains("tx123"));
    assert!(content.contains("Strong"));
    assert!(content.contains("Weak"));
}

#[test]
fn test_export_patterns_csv() {
    let patterns = vec![
        BusinessPattern::RegularPayments {
            sender: "userA".to_string(),
            message: "Detected regular payments from userA".to_string(),
        },
        BusinessPattern::DEXTrade {
            dex: "0xd9e1ce17f2641f24ae83637ab66a2cca9c378b9f".to_string(),
            message: "Detected trading with DEX".to_string(),
        },
    ];
    let bytes = export_patterns_csv(&patterns);
    let content = String::from_utf8(bytes).unwrap();
    assert!(content.contains("userA"));
    assert!(content.contains("DEX"));
}
