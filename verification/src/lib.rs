//! Detection of Bitcoin miners on a local network: the protocol parsers,
//! classification rules and probe decisions of a LAN scanner.
use vstd::prelude::*;

pub mod bytes;
pub mod cgm;
pub mod detection;
pub mod http;
pub mod miner;
pub mod probe;
pub mod text;
pub mod util;

pub use self::miner::{DiscoveredMiner, IpAddress, MinerFamily, SocketAddress};

use core::time::Duration;

verus! {

/// The span that `Duration::from_millis` makes of a number of milliseconds.
/// A `Duration` is opaque here, so the span is named rather than described.
pub uninterp spec fn millis_span(millis: u64) -> Duration;

/// `Duration::from_millis`: it returns (it never panics), and its result is
/// the span named for its argument, the same span for the same number.
pub assume_specification[ core::time::Duration::from_millis ](millis: u64) -> (r: Duration)
    ensures
        r == millis_span(millis),
;

/// How many hosts are probed at the same time by default.
pub const DEFAULT_CONCURRENCY: usize = 256;

/// The default connect and I/O timeout, in milliseconds.
pub const DEFAULT_TIMEOUT_MILLIS: u64 = 500;

/// Controls how the scanner probes each host.
///
/// The defaults are tuned for a typical local network where miners are
/// expected to answer quickly. Slower networks may require larger timeout
/// values or lower concurrency.
#[derive(Debug, Clone, Copy)]
pub struct ScanOptions {
    /// Maximum number of hosts probed at the same time.
    pub concurrency: usize,
    /// Timeout applied while opening a TCP connection.
    pub connect_timeout: Duration,
    /// Timeout applied to each read and write after a connection is open.
    pub io_timeout: Duration,
}

impl Default for ScanOptions {
    /// 256 hosts at a time, with timeouts of 500 ms.
    fn default() -> (r: Self)
        ensures
            r.concurrency == DEFAULT_CONCURRENCY,
            r.connect_timeout == millis_span(DEFAULT_TIMEOUT_MILLIS),
            r.io_timeout == millis_span(DEFAULT_TIMEOUT_MILLIS),
    {
        ScanOptions {
            concurrency: DEFAULT_CONCURRENCY,
            connect_timeout: Duration::from_millis(DEFAULT_TIMEOUT_MILLIS),
            io_timeout: Duration::from_millis(DEFAULT_TIMEOUT_MILLIS),
        }
    }
}

} // verus!
