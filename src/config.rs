//! Run configuration: which mode a run is in, which browser driver a path
//! names, and how each source is crawled.

use crate::pagination::StopRule;
use crate::retry::{Backoff, RetryPolicy};
use crate::text::{contains_text, occurs_in};
use vstd::prelude::*;

verus! {

/// What a run does: crawl one source, or enrich persisted listings.
#[derive(Clone, Copy, Debug, PartialEq, Eq, Structural)]
pub enum Mode {
    Remax,
    Era,
    SuperCasas,
    Imovirtual,
    Idealista,
    Enrich,
}

/// The mode a mode name selects.
pub open spec fn mode_named(name: Seq<char>) -> Option<Mode> {
    if name == "remax"@ {
        Some(Mode::Remax)
    } else if name == "era"@ {
        Some(Mode::Era)
    } else if name == "supercasas"@ {
        Some(Mode::SuperCasas)
    } else if name == "imovirtual"@ {
        Some(Mode::Imovirtual)
    } else if name == "idealista"@ {
        Some(Mode::Idealista)
    } else if name == "llm"@ {
        Some(Mode::Enrich)
    } else {
        None
    }
}

/// Reads a mode name. An unknown name selects no mode: the run does nothing.
pub fn parse_mode(name: &str) -> (r: Option<Mode>)
    ensures
        r == mode_named(name@),
{
    let n = name.to_owned();
    if n == "remax".to_owned() {
        Some(Mode::Remax)
    } else if n == "era".to_owned() {
        Some(Mode::Era)
    } else if n == "supercasas".to_owned() {
        Some(Mode::SuperCasas)
    } else if n == "imovirtual".to_owned() {
        Some(Mode::Imovirtual)
    } else if n == "idealista".to_owned() {
        Some(Mode::Idealista)
    } else if n == "llm".to_owned() {
        Some(Mode::Enrich)
    } else {
        None
    }
}

/// The browser a driver executable drives.
#[derive(Clone, Copy, Debug, PartialEq, Eq, Structural)]
pub enum DriverKind {
    Chrome,
    Safari,
}

/// Why a run cannot start.
#[derive(Clone, Copy, Debug, PartialEq, Eq, Structural)]
pub enum ConfigError {
    /// The driver path names neither chromedriver nor safaridriver.
    UnsupportedDriver,
}

/// Tells the browser from the driver's path: a path naming chromedriver drives
/// Chrome, else one naming safaridriver drives Safari; any other is an error,
/// raised before any crawl work starts.
pub fn driver_kind(path: &str) -> (r: Result<DriverKind, ConfigError>)
    ensures
        occurs_in(path@, "chromedriver"@) ==> r == Ok::<DriverKind, ConfigError>(DriverKind::Chrome),
        !occurs_in(path@, "chromedriver"@) && occurs_in(path@, "safaridriver"@) ==> r == Ok::<
            DriverKind,
            ConfigError,
        >(DriverKind::Safari),
        !occurs_in(path@, "chromedriver"@) && !occurs_in(path@, "safaridriver"@) ==> r == Err::<
            DriverKind,
            ConfigError,
        >(ConfigError::UnsupportedDriver),
{
    if contains_text(path, "chromedriver") {
        Ok(DriverKind::Chrome)
    } else if contains_text(path, "safaridriver") {
        Ok(DriverKind::Safari)
    } else {
        Err(ConfigError::UnsupportedDriver)
    }
}

/// The hard deadline for loading one result page, in milliseconds.
pub const PAGE_TIMEOUT_MS: u64 = 30000;

/// The pause after each stored listing, in milliseconds.
pub const ITEM_DELAY_MS: u64 = 500;

/// A policy that never retries.
pub open spec fn no_retries() -> RetryPolicy {
    RetryPolicy { backoff: Backoff::Fixed { interval_ms: 0 }, max_retries: 0 }
}

/// The exponential policy from 500 ms, capped at 30 s, with `n` retries.
pub open spec fn exponential_retries(n: u32) -> RetryPolicy {
    RetryPolicy { backoff: Backoff::Exponential { base_ms: 500, max_delay_ms: 30000 }, max_retries: n }
}

/// How one source is crawled.
#[derive(Clone, Copy, Debug, PartialEq, Eq, Structural)]
pub struct SourceProfile {
    /// How the end of a scope's pages shows.
    pub stop_rule: StopRule,
    /// Whether the source is walked region by region, resuming from a cursor.
    pub by_region: bool,
    /// Retries of a page load, within the page deadline.
    pub page_retry: RetryPolicy,
    /// Retries of a single listing fetch.
    pub listing_retry: RetryPolicy,
    /// Retries of the whole crawl, each run resuming where the last stopped.
    pub crawl_retry: RetryPolicy,
}

/// The crawl profile of each source mode; the enrichment mode has none. Every
/// source retries a page load twice and a single listing fetch a few times,
/// each with growing delays; only the whole crawl's retry differs.
pub open spec fn profile_of(mode: Mode) -> Option<SourceProfile> {
    match mode {
        Mode::Era | Mode::Remax => Some(SourceProfile {
            stop_rule: StopRule::RepeatedPage,
            by_region: false,
            page_retry: exponential_retries(2),
            listing_retry: exponential_retries(3),
            crawl_retry: no_retries(),
        }),
        Mode::Imovirtual => Some(SourceProfile {
            stop_rule: StopRule::Marker,
            by_region: false,
            page_retry: exponential_retries(2),
            listing_retry: exponential_retries(3),
            crawl_retry: no_retries(),
        }),
        Mode::SuperCasas => Some(SourceProfile {
            stop_rule: StopRule::Marker,
            by_region: true,
            page_retry: exponential_retries(2),
            listing_retry: RetryPolicy { backoff: Backoff::Fixed { interval_ms: 500 }, max_retries: 6 },
            crawl_retry: no_retries(),
        }),
        Mode::Idealista => Some(SourceProfile {
            stop_rule: StopRule::Marker,
            by_region: true,
            page_retry: exponential_retries(2),
            listing_retry: exponential_retries(3),
            crawl_retry: exponential_retries(20),
        }),
        Mode::Enrich => None,
    }
}

impl Mode {
    /// How this mode's source is crawled, if it crawls one.
    pub fn profile(&self) -> (r: Option<SourceProfile>)
        ensures
            r == profile_of(*self),
    {
        let none = RetryPolicy { backoff: Backoff::Fixed { interval_ms: 0 }, max_retries: 0 };
        let page = RetryPolicy {
            backoff: Backoff::Exponential { base_ms: 500, max_delay_ms: 30000 },
            max_retries: 2,
        };
        let listing = RetryPolicy {
            backoff: Backoff::Exponential { base_ms: 500, max_delay_ms: 30000 },
            max_retries: 3,
        };
        match self {
            Mode::Era | Mode::Remax => Some(SourceProfile {
                stop_rule: StopRule::RepeatedPage,
                by_region: false,
                page_retry: page,
                listing_retry: listing,
                crawl_retry: none,
            }),
            Mode::Imovirtual => Some(SourceProfile {
                stop_rule: StopRule::Marker,
                by_region: false,
                page_retry: page,
                listing_retry: listing,
                crawl_retry: none,
            }),
            Mode::SuperCasas => Some(SourceProfile {
                stop_rule: StopRule::Marker,
                by_region: true,
                page_retry: page,
                listing_retry: RetryPolicy {
                    backoff: Backoff::Fixed { interval_ms: 500 },
                    max_retries: 6,
                },
                crawl_retry: none,
            }),
            Mode::Idealista => Some(SourceProfile {
                stop_rule: StopRule::Marker,
                by_region: true,
                page_retry: page,
                listing_retry: listing,
                crawl_retry: RetryPolicy {
                    backoff: Backoff::Exponential { base_ms: 500, max_delay_ms: 30000 },
                    max_retries: 20,
                },
            }),
            Mode::Enrich => None,
        }
    }
}

} // verus!
