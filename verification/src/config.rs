//! What a run is configured with: the exchange, and the window of sequence
//! numbers whose packets are copied to the output capture.

use crate::exchange::{Exchange, Range};
use vstd::prelude::*;

verus! {

/// The window `[begin, end)` of sequence numbers whose packets go to the
/// output capture at `output`.
#[derive(Debug, PartialEq, Eq)]
pub struct Config {
    pub output: String,
    pub begin: u64,
    pub end: u64,
}

/// Why a selection window could not be made.
#[derive(Clone, Copy, Debug, PartialEq, Eq, Structural)]
pub enum ConfigError {
    /// Both the end of the window and its length were given.
    EndAndCount,
    /// Neither the end of the window nor its length was given.
    NoEndOrCount,
    /// The window's length takes its end past the largest sequence number.
    EndOutOfRange,
}

impl ConfigError {
    /// The error in words.
    pub fn message(&self) -> (text: &'static str)
        ensures
            text@ == match self {
                ConfigError::EndAndCount => "Must specify either --end or --count"@,
                ConfigError::NoEndOrCount => "Must specify one of --end or --count"@,
                ConfigError::EndOutOfRange => "The selected range ends past the last sequence number"@,
            },
    {
        match self {
            ConfigError::EndAndCount => "Must specify either --end or --count",
            ConfigError::NoEndOrCount => "Must specify one of --end or --count",
            ConfigError::EndOutOfRange => "The selected range ends past the last sequence number",
        }
    }
}

/// What [`get_config`] makes of its arguments.
pub open spec fn config_of(
    dest: Option<Seq<char>>,
    begin: u64,
    end_opt: Option<u64>,
    count_opt: Option<u64>,
) -> Result<Option<(Seq<char>, u64, u64)>, ConfigError> {
    match dest {
        None => Ok(None),
        Some(output) => match (end_opt, count_opt) {
            (Some(_), Some(_)) => Err(ConfigError::EndAndCount),
            (None, None) => Err(ConfigError::NoEndOrCount),
            (Some(end), None) => Ok(Some((output, begin, end))),
            (None, Some(count)) => if begin + count <= u64::MAX {
                Ok(Some((output, begin, (begin + count) as u64)))
            } else {
                Err(ConfigError::EndOutOfRange)
            },
        },
    }
}

/// The selection window of a run. Without an output path there is none.
/// With one, the window starts at `begin` and ends at `end_opt`, or
/// `count_opt` sequence numbers after `begin`; exactly one of the two must
/// be given.
pub fn get_config(dest: Option<&str>, begin: u64, end_opt: Option<u64>, count_opt: Option<u64>) -> (config:
    Result<Option<Config>, ConfigError>)
    ensures
        match config_of(
            match dest {
                Some(path) => Some(path@),
                None => None,
            },
            begin,
            end_opt,
            count_opt,
        ) {
            Ok(None) => config matches Ok(None),
            Ok(Some((output, b, e))) => {
                &&& config matches Ok(Some(c))
                &&& c.output@ == output
                &&& c.begin == b
                &&& c.end == e
            },
            Err(error) => config == Err::<Option<Config>, ConfigError>(error),
        },
{
    let path: &str = match dest {
        None => {
            return Ok(None);
        },
        Some(path) => path,
    };
    let end: u64 = match (end_opt, count_opt) {
        (Some(_), Some(_)) => {
            return Err(ConfigError::EndAndCount);
        },
        (None, None) => {
            return Err(ConfigError::NoEndOrCount);
        },
        (Some(end), None) => end,
        (None, Some(count)) => match begin.checked_add(count) {
            Some(end) => end,
            None => {
                return Err(ConfigError::EndOutOfRange);
            },
        },
    };
    Ok(Some(Config { output: String::from_str(path), begin, end }))
}

/// The exchange that the flags select: the one flag that is set, where
/// exactly one is.
pub fn get_exchange(cme: bool, cboe: bool, ice: bool) -> (exchange: Option<Exchange>)
    ensures
        exchange == match (cme, cboe, ice) {
            (true, false, false) => Some(Exchange::CME),
            (false, true, false) => Some(Exchange::CBOE),
            (false, false, true) => Some(Exchange::ICE),
            _ => None,
        },
{
    match (cme, cboe, ice) {
        (true, false, false) => Some(Exchange::CME),
        (false, true, false) => Some(Exchange::CBOE),
        (false, false, true) => Some(Exchange::ICE),
        _ => None,
    }
}

/// Whether `range` and the window `[begin, end)` share a sequence number.
pub open spec fn overlaps(range: Range, begin: u64, end: u64) -> bool {
    exists|n: int| #[trigger] range.contains(n) && begin <= n < end
}

impl Config {
    /// Whether a packet that carries `range` is selected for the output
    /// capture: whether the range shares a sequence number with the window.
    /// A range without messages, the sentinel among them, shares none.
    pub fn selects(&self, range: Range) -> (selected: bool)
        ensures
            selected == overlaps(range, self.begin, self.end),
    {
        let selected: bool = range.count > 0 && self.begin < self.end && range.begin < self.end && (
        range.begin >= self.begin || self.begin - range.begin < range.count);
        proof {
            if selected {
                let n: int = if range.begin >= self.begin {
                    range.begin as int
                } else {
                    self.begin as int
                };
                assert(range.contains(n) && self.begin <= n < self.end);
            }
        }
        selected
    }
}

} // verus!
