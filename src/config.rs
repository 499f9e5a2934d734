use vstd::prelude::*;

verus! {

/// A value is locally large when it exceeds this many times the sender's mean.
pub const K_LOCAL: u64 = 3;

/// A fee is locally high when it exceeds this many times the sender's mean fee.
pub const K_LOCAL_FEE: u64 = 3;

/// More transactions than this from one sender within the trailing hour is
/// high frequency.
pub const THRESHOLD_TIME: usize = 10;

/// More transactions than this within the trailing hour trips the count
/// criterion of structuring.
pub const STRUCTURING_COUNT: usize = 10;

/// Length of the trailing window, in seconds.
pub const HOUR: u64 = 3600;

/// Length of a burst window, in seconds.
pub const BURST_WINDOW: u64 = 600;

/// Transactions needed within one burst window.
pub const BURST_COUNT: usize = 5;

/// Length of a batch window, in seconds.
pub const BATCH_WINDOW: u64 = 300;

/// Transactions needed within one batch window.
pub const BATCH_COUNT: usize = 5;

/// Senders with more DEX-directed transactions than this are active traders.
pub const ACTIVE_TRADER_COUNT: usize = 10;

/// Transactions timestamped before this second of the UTC day (07:00) are
/// at an unusual time.
pub const NIGHT_END: u64 = 25200;

/// Seconds in a day.
pub const DAY: u64 = 86400;

} // verus!
