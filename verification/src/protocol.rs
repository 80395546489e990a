//! Messages between the daemon and its plugins. Plugins observe; the daemon
//! decides.
use vstd::prelude::*;

verus! {

/// What a plugin sends.
#[derive(Debug)]
#[allow(inconsistent_fields)]
pub enum PluginMessage {
    /// The first message: who the plugin is.
    Identify { name: String, version: String, capabilities: Vec<String> },
    /// A measurement, in whole units.
    Observation { plugin: String, metric: Metric, pid: Option<u32>, value: u64 },
    /// A request to act.
    ActionRequest { plugin: String, action: PluginAction, reason: String },
    /// A request for the last known GPU memory of a process.
    QueryGpu { pid: u32 },
    /// The window in the foreground has changed.
    ActiveWindow { pid: Option<u32> },
}

/// What a measurement is of.
#[derive(Debug)]
pub enum Metric {
    GpuResidentKb,
    GpuSharedKb,
    GpuTotalKb,
    GpuPurgeableKb,
    RssKb,
    Custom { name: String },
}

/// What a plugin may ask for.
#[derive(Debug)]
pub enum PluginAction {
    /// Restart a process of the desktop.
    RestartProcess { name: String },
    FreezePid { pid: u32 },
    KillPid { pid: u32 },
}

/// What the daemon sends.
#[derive(Debug)]
pub enum CoreMessage {
    /// The pressure level has changed.
    PressureChanged { level: String },
    /// The answer to a request to act.
    ActionResponse { action: PluginAction, approved: bool, reason: Option<String> },
    /// The answer to a query for GPU memory.
    GpuObservation { pid: u32, kb: u64, shared_kb: u64, total_kb: u64, purgeable_kb: u64 },
    /// The daemon is about to exit.
    Shutdown,
    /// The configuration was read again.
    ConfigReload,
}

} // verus!
