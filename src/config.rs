//! Sizing and mode of a worker pool, fixed when the pool is built.
use vstd::prelude::*;

verus! {

/// A pool cannot be built with the configuration given.
#[derive(Debug, Clone, Copy, PartialEq, Eq, Structural)]
pub enum ConstructionError {
    /// A pool needs at least one worker thread.
    NoThreads,
}

/// Relies on `sysinfo::System::physical_core_count`: the number of physical
/// cores of the host, or `None` when it cannot be read. The value depends on
/// the machine, so nothing is stated of it.
pub assume_specification[ sysinfo::System::physical_core_count ]() -> (r: Option<usize>);

/// How many workers a pool runs and whether it lives as long as the process.
#[derive(Debug, Clone, Copy, PartialEq, Eq, Structural)]
pub struct PoolConfig {
    thread_count: usize,
    daemon: bool,
}

impl PoolConfig {
    /// Number of worker threads.
    pub closed spec fn spec_thread_count(&self) -> usize {
        self.thread_count
    }

    /// Whether the pool may be left running at process exit.
    pub closed spec fn spec_daemon(&self) -> bool {
        self.daemon
    }

    /// A configuration of `thread_count` workers. A daemon pool may be left
    /// running when the process ends; any other supports an orderly
    /// shutdown. Fewer than one worker is refused.
    pub fn new(thread_count: usize, daemon: bool) -> (r: Result<PoolConfig, ConstructionError>)
        ensures
            thread_count == 0 ==> r == Err::<PoolConfig, ConstructionError>(
                ConstructionError::NoThreads,
            ),
            thread_count >= 1 ==> r is Ok && r->Ok_0.spec_thread_count() == thread_count
                && r->Ok_0.spec_daemon() == daemon,
    {
        if thread_count == 0 {
            Err(ConstructionError::NoThreads)
        } else {
            Ok(PoolConfig { thread_count, daemon })
        }
    }

    /// The default configuration for a host whose detected core count is
    /// `detected`: one worker per core, or a single worker when the count
    /// could not be read (or reads as zero). Not a daemon.
    pub fn from_detected_cores(detected: Option<usize>) -> (r: PoolConfig)
        ensures
            !r.spec_daemon(),
            r.spec_thread_count() == match detected {
                Some(c) => if c >= 1 {
                    c
                } else {
                    1
                },
                None => 1,
            },
            r.spec_thread_count() >= 1,
    {
        let thread_count = match detected {
            Some(c) => if c >= 1 {
                c
            } else {
                1
            },
            None => 1,
        };
        PoolConfig { thread_count, daemon: false }
    }

    /// The default configuration for this host, sized by its physical core
    /// count as `from_detected_cores` says.
    pub fn host_default() -> (r: PoolConfig)
        ensures
            !r.spec_daemon(),
            r.spec_thread_count() >= 1,
    {
        let detected = sysinfo::System::physical_core_count();
        PoolConfig::from_detected_cores(detected)
    }

    pub fn thread_count(&self) -> (r: usize)
        ensures
            r == self.spec_thread_count(),
    {
        self.thread_count
    }

    pub fn daemon(&self) -> (r: bool)
        ensures
            r == self.spec_daemon(),
    {
        self.daemon
    }
}

} // verus!
