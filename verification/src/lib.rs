//! Wire protocol of the beava server.

use std::sync::atomic::AtomicBool;
use std::sync::Arc;
use vstd::prelude::*;

pub mod bench;
pub mod buffer;
pub mod histogram;
pub mod io_thread_worker;
pub mod json;
pub mod net;
pub mod text;
pub mod wire;
pub mod wire_request;
pub mod worker_loop;

verus! {

/// Semantic version of the server binary.
pub const VERSION: &'static str = "0.1.0";

/// What the banner says.
pub open spec fn banner_text() -> Seq<char> {
    "beava v"@ + VERSION@ + " (skeleton)"@
}

/// Human-readable banner for the logs.
pub fn banner() -> (r: String)
    ensures
        r@ == banner_text(),
{
    let mut r = String::new();
    r.append("beava v");
    r.append(VERSION);
    r.append(" (skeleton)");
    assert(r@ =~= banner_text());
    r
}

/// State of the process that all handlers share: the registry with the state
/// tables, the sink of the write-ahead log, and the idempotency cache.
pub struct AppState<D, W, I> {
    pub dev_agg: D,
    pub wal_sink: W,
    pub idem_cache: I,
    /// Gates the `/registry` endpoint of the data plane. All clones of the
    /// state share the flag, so that it can be flipped while they are in use.
    pub dev_endpoints: Arc<AtomicBool>,
    /// Whether the process runs in test mode; a reset is rejected where it does
    /// not.
    pub effective_test_mode: bool,
    /// Whether memory governance is enforced.
    pub memory_governance_enforce: bool,
}

impl<D, W, I> AppState<D, W, I> {
    /// Starts as in production: without the endpoints for development, without
    /// test mode, and with memory governance.
    pub fn new(dev_agg: D, wal_sink: W, idem_cache: I) -> (r: AppState<D, W, I>)
        ensures
            r.dev_agg == dev_agg,
            r.wal_sink == wal_sink,
            r.idem_cache == idem_cache,
            !r.effective_test_mode,
            r.memory_governance_enforce,
    {
        AppState {
            dev_agg,
            wal_sink,
            idem_cache,
            dev_endpoints: Arc::new(AtomicBool::new(false)),
            effective_test_mode: false,
            memory_governance_enforce: true,
        }
    }

    /// Whether the `/registry` endpoint of the data plane is served. Another
    /// thread may flip the flag at any time, so nothing is said of the answer.
    pub fn dev_endpoints_enabled(&self) -> bool {
        self.dev_endpoints.load(std::sync::atomic::Ordering::Relaxed)
    }
}

impl<D: Clone, W: Clone, I: Clone> Clone for AppState<D, W, I> {
    /// Another handle on the state: the flag of the endpoints for development
    /// is the same one.
    fn clone(&self) -> (r: AppState<D, W, I>)
        ensures
            cloned(self.dev_agg, r.dev_agg),
            cloned(self.wal_sink, r.wal_sink),
            cloned(self.idem_cache, r.idem_cache),
            r.dev_endpoints == self.dev_endpoints,
            r.effective_test_mode == self.effective_test_mode,
            r.memory_governance_enforce == self.memory_governance_enforce,
    {
        AppState {
            dev_agg: self.dev_agg.clone(),
            wal_sink: self.wal_sink.clone(),
            idem_cache: self.idem_cache.clone(),
            dev_endpoints: self.dev_endpoints.clone(),
            effective_test_mode: self.effective_test_mode,
            memory_governance_enforce: self.memory_governance_enforce,
        }
    }
}

} // verus!
