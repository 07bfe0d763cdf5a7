//! Warm-state helpers: the pre-allocated channel pool and the structs that
//! report pool and cache readiness. The process-wide singletons and the
//! thread-pool warm-up live with the embedding, which creates one
//! `ChannelPool` and one pattern cache at start-up and reuses them.

use vstd::prelude::*;

use crate::results::result_channel;
use crate::results::FindResult;

verus! {

/// Pre-allocated channels of three sizes: small for content search, medium
/// for standard finds, large for sort workloads.
pub struct ChannelPool {
    small_channels: Vec<(crossbeam_channel::Sender<FindResult>, crossbeam_channel::Receiver<
        FindResult,
    >)>,
    medium_channels: Vec<(crossbeam_channel::Sender<FindResult>, crossbeam_channel::Receiver<
        FindResult,
    >)>,
    large_channels: Vec<(crossbeam_channel::Sender<FindResult>, crossbeam_channel::Receiver<
        FindResult,
    >)>,
}

/// Channel pool statistics.
pub struct ChannelPoolStats {
    pub small_channels: usize,
    pub medium_channels: usize,
    pub large_channels: usize,
}

impl ChannelPool {
    /// How many channels of each size the pool holds.
    pub closed spec fn counts(self) -> (int, int, int) {
        (
            self.small_channels@.len() as int,
            self.medium_channels@.len() as int,
            self.large_channels@.len() as int,
        )
    }

    /// Create the pool: four small channels of capacity 500, four medium of
    /// 5000, two large of 10000.
    pub fn new() -> (r: Self)
        ensures
            r.counts() == (4int, 4int, 2int),
    {
        let mut small_channels: Vec<
            (crossbeam_channel::Sender<FindResult>, crossbeam_channel::Receiver<FindResult>),
        > = Vec::new();
        let mut medium_channels: Vec<
            (crossbeam_channel::Sender<FindResult>, crossbeam_channel::Receiver<FindResult>),
        > = Vec::new();
        let mut large_channels: Vec<
            (crossbeam_channel::Sender<FindResult>, crossbeam_channel::Receiver<FindResult>),
        > = Vec::new();
        let mut i: usize = 0;
        while i < 4
            invariant
                i <= 4,
                small_channels@.len() == i,
            decreases 4 - i,
        {
            small_channels.push(result_channel(500));
            i += 1;
        }
        let mut j: usize = 0;
        while j < 4
            invariant
                j <= 4,
                medium_channels@.len() == j,
            decreases 4 - j,
        {
            medium_channels.push(result_channel(5000));
            j += 1;
        }
        let mut k: usize = 0;
        while k < 2
            invariant
                k <= 2,
                large_channels@.len() == k,
            decreases 2 - k,
        {
            large_channels.push(result_channel(10000));
            k += 1;
        }
        ChannelPool { small_channels, medium_channels, large_channels }
    }

    /// Hand out a channel of exactly the requested capacity. Channels are
    /// cheap, so the pool answers with a fresh one rather than lending from
    /// its stock.
    pub fn get_channel(&self, capacity: usize) -> (r: (crossbeam_channel::Sender<FindResult>,
        crossbeam_channel::Receiver<FindResult>))
        ensures
            crate::results::sender_capacity(r.0) == Some(capacity),
    {
        result_channel(capacity)
    }

    /// Get statistics about the channel pool.
    pub fn stats(&self) -> (r: ChannelPoolStats)
        ensures
            (r.small_channels as int, r.medium_channels as int, r.large_channels as int)
                == self.counts(),
    {
        ChannelPoolStats {
            small_channels: self.small_channels.len(),
            medium_channels: self.medium_channels.len(),
            large_channels: self.large_channels.len(),
        }
    }
}

/// Readiness metrics reported after initialisation.
#[derive(Debug)]
pub struct InitMetrics {
    pub thread_pool_ready: bool,
    pub pattern_cache_size: usize,
    pub channel_pool_size: usize,
}

} // verus!
