//! Static description of the services a session is made of: what to run,
//! what each service depends on, whether its failure must end the session,
//! and how its readiness is judged.

use vstd::prelude::*;

verus! {

/// How a dependency is judged safe to depend upon before dependents launch.
#[derive(Clone, Debug)]
pub enum ReadinessPolicy {
    /// Wait a fixed number of milliseconds and then assume readiness.
    FixedDelay { delay_ms: u64 },
    /// Wait, up to a bounded timeout, for a well-known file to exist.
    SignalFile { path: String, timeout_ms: u64 },
    /// Wait, up to a bounded timeout, for a well-known socket to accept.
    SocketProbe { path: String, timeout_ms: u64 },
}

/// Static declaration of one process to supervise.
#[derive(Clone, Debug)]
pub struct ServiceDescriptor {
    /// Unique name of the service within its descriptor set.
    pub name: String,
    /// Program to execute.
    pub command: String,
    /// Arguments handed to the program.
    pub args: Vec<String>,
    /// Names of services that must be running before this one is launched.
    pub depends_on: Vec<String>,
    /// Whether failure or unexpected exit of this service ends the session.
    pub critical: bool,
    /// How this service's readiness is judged once spawned.
    pub readiness: ReadinessPolicy,
    /// Milliseconds allotted for a graceful exit before forced termination.
    pub grace_timeout_ms: u64,
}

impl ServiceDescriptor {
    /// A descriptor with no arguments, no dependencies and the default
    /// readiness and grace settings.
    pub fn new(name: String, command: String, critical: bool) -> (d: ServiceDescriptor)
        ensures
            d.name == name,
            d.command == command,
            d.critical == critical,
            d.args@ =~= Seq::<String>::empty(),
            d.depends_on@ =~= Seq::<String>::empty(),
            d.readiness matches ReadinessPolicy::FixedDelay { delay_ms } && delay_ms == 0u64,
            d.grace_timeout_ms == 3000u64,
    {
        ServiceDescriptor {
            name,
            command,
            args: Vec::new(),
            depends_on: Vec::new(),
            critical,
            readiness: ReadinessPolicy::FixedDelay { delay_ms: 0 },
            grace_timeout_ms: 3000,
        }
    }
}

} // verus!
