//! What a scan is asked to do, and the ways in which such a request can
//! be wrong.

use crate::address::TargetAddress;
use crate::range::{PortRange, Span};
use vstd::prelude::*;

verus! {

/// The number of local workers that each head task runs unless told
/// otherwise.
pub const DEFAULT_LOCAL_WORKERS: u16 = 50;

/// The number of connection attempts per port unless told otherwise.
pub const DEFAULT_RETRIES: u8 = 1;

/// The most probing units (head tasks times local workers) that a scan may
/// ask for: there are no more ports than this, so no more can be of use.
pub const MAX_PROBING_UNITS: u32 = 65535;

/// Why a scan could not be started.
#[derive(Clone, Copy, Debug, PartialEq, Eq)]
pub enum ConfigError {
    /// The command line does not have the expected number of words.
    Usage,
    /// A required option is missing.
    MissingOption,
    /// The value of an option is not a number, or too large a one.
    BadNumber,
    /// The target is not a dotted-decimal IPv4 address.
    BadAddress,
    /// The range ends before it begins.
    BackwardRange,
    /// The range holds no port.
    EmptyRange,
    /// No head task was asked for.
    NoHeads,
    /// No local worker was asked for.
    NoWorkers,
    /// More probing units were asked for than there are ports.
    TooManyWorkers,
}

/// A request for a scan of the ports `[low, high)` of one host.
#[derive(Clone, Copy, Debug, PartialEq, Eq)]
pub struct ScanConfig {
    /// The host to scan; its port is of no account.
    pub target: TargetAddress,
    pub low: u16,
    pub high: u16,
    /// The number of head tasks among which the range is split.
    pub head_count: u16,
    /// The number of scanner workers that each head task runs.
    pub local_worker_count: u16,
    /// The number of connection attempts per port.
    pub retries: u8,
}

/// What is wrong with a request for the ports `[low, high)` with this many
/// head tasks and local workers, if anything is. The first fault in this
/// order is the one reported.
pub open spec fn range_fault(low: u16, high: u16, head_count: u16, local_worker_count: u16) -> Option<
    ConfigError,
> {
    if low > high {
        Some(ConfigError::BackwardRange)
    } else if low == high {
        Some(ConfigError::EmptyRange)
    } else if head_count == 0 {
        Some(ConfigError::NoHeads)
    } else if local_worker_count == 0 {
        Some(ConfigError::NoWorkers)
    } else if head_count * local_worker_count > MAX_PROBING_UNITS {
        Some(ConfigError::TooManyWorkers)
    } else {
        None
    }
}

impl ScanConfig {
    /// The ports that the request asks for.
    pub open spec fn span(self) -> Span {
        Span { low: self.low as int, high: self.high as int }
    }

    /// What is wrong with the request, if anything is.
    pub open spec fn fault(self) -> Option<ConfigError> {
        range_fault(self.low, self.high, self.head_count, self.local_worker_count)
    }

    /// A request with the usual number of local workers and of tries.
    pub fn new(target: TargetAddress, low: u16, high: u16, head_count: u16) -> (config:
        ScanConfig)
        ensures
            config == (ScanConfig {
                target,
                low,
                high,
                head_count,
                local_worker_count: DEFAULT_LOCAL_WORKERS,
                retries: DEFAULT_RETRIES,
            }),
    {
        ScanConfig {
            target,
            low,
            high,
            head_count,
            local_worker_count: DEFAULT_LOCAL_WORKERS,
            retries: DEFAULT_RETRIES,
        }
    }

    /// Checks the request, and gives its range where nothing is wrong.
    pub fn validate(&self) -> (checked: Result<PortRange, ConfigError>)
        ensures
            match checked {
                Ok(range) => self.fault() is None && range@ == self.span(),
                Err(e) => self.fault() == Some(e),
            },
    {
        if self.low > self.high {
            return Err(ConfigError::BackwardRange);
        }
        if self.low == self.high {
            return Err(ConfigError::EmptyRange);
        }
        if self.head_count == 0 {
            return Err(ConfigError::NoHeads);
        }
        if self.local_worker_count == 0 {
            return Err(ConfigError::NoWorkers);
        }
        let heads: u32 = self.head_count as u32;
        let locals: u32 = self.local_worker_count as u32;
        assert(heads * locals <= 0xffff * 0xffff) by (nonlinear_arith)
            requires
                heads <= 0xffff,
                locals <= 0xffff,
        ;
        if heads * locals > MAX_PROBING_UNITS {
            return Err(ConfigError::TooManyWorkers);
        }
        match PortRange::new(self.low, self.high) {
            Some(range) => Ok(range),
            None => Err(ConfigError::BackwardRange),
        }
    }
}

} // verus!
