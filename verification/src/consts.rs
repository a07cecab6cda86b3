//! Limits, timeouts and addresses.

use vstd::prelude::*;

verus! {

/// TMDB REST API base.
pub const TMDB_API_BASE: &'static str = "https://api.themoviedb.org/3";

/// TMDB image CDN base; a size segment follows it.
pub const TMDB_IMAGE_BASE: &'static str = "https://image.tmdb.org/t/p";

/// The size segment of poster images.
pub const TMDB_POSTER_SIZE: &'static str = "w500";

/// Timeout of a TMDB request, in seconds.
pub const TMDB_SEARCH_TIMEOUT_SECS: u64 = 1000;

/// Timeout of the TMDB HTTP client, in seconds.
pub const TMDB_POSTER_TIMEOUT_SECS: u64 = 3000;

/// Pause after a rate limit reply that names none, in seconds.
pub const TMDB_RATE_LIMIT_DEFAULT_RETRY_SECS: u64 = 5;

/// Longest wait for a TMDB request permit, in seconds.
pub const TMDB_ENRICH_WAIT_DEADLINE_SECS: u64 = 3000;

/// Timeout of a query to one indexer, in seconds.
pub const PER_INDEXER_QUERY_TIMEOUT_SECS: u64 = 300;

/// Anchors that are kept for one keyword.
pub const CACHED_PRINCIPAL_DEPTH: usize = 30;

/// The environment variable that lets records without a TMDB entry pass with
/// made-up metadata, for testing a consumer's filters.
pub const ENV_STUB_UNMATCHED: &'static str = "META_GATEWAY_PROWLARR_STUB_UNMATCHED";

/// Timeout of a probe for whether an indexer can be reached, in seconds.
pub fn search_probe_timeout() -> (r: u64)
    ensures
        r == PER_INDEXER_QUERY_TIMEOUT_SECS,
{
    PER_INDEXER_QUERY_TIMEOUT_SECS
}

/// A probe waits no longer than a query to an indexer does.
pub proof fn probe_waits_as_long_as_a_query(r: u64)
    requires
        call_ensures(search_probe_timeout, (), r),
    ensures
        r == PER_INDEXER_QUERY_TIMEOUT_SECS,
        r == 300,
{
}

} // verus!
