//! Anomaly and business-pattern detection over a window of scanned
//! blockchain transactions.
//!
//! * `models` – transaction records, the append-only transaction store, the
//!   per-pass flag set and the result records.
//! * `threshold` – nearest-rank percentiles and exact per-sender means.
//! * `analize` – the detector battery.
//! * `csv` – the flat tabular schema of results and its CSV encoding.
//! * `scanner` – normalisation of fetched chain data into records.
//! * `config` – the detectors' constants.
//! * `index` – the concurrent per-sender and per-receiver bucket maps.
//! * `text` – decimal notation and substring tests.
pub mod analize;
pub mod config;
pub mod csv;
pub mod index;
pub mod models;
pub mod scanner;
pub mod text;
pub mod threshold;
