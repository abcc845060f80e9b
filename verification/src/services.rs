//! Service enumeration: the fixed allow-list of watched services and the
//! classification of a probe's outcome.
//!
//! The caller probes each watched service (typically by asking the init
//! system whether the unit is active) and reports the outcome
//! as a plain value: `None` when the probe itself could not run, otherwise
//! whether the probe reported the service active. Everything mapped from that
//! outcome is verified here.

use vstd::prelude::*;

verus! {

use vstd::string::StringExecFns;

/// What a probe outcome says of a service: `Unknown` only when the probe
/// itself failed, never merely because the service is stopped.
#[derive(PartialEq, Eq, Structural, Clone, Copy, Debug)]
pub enum ServiceState {
    Active,
    Inactive,
    Unknown,
}

/// One watched service with its probed state.
pub struct ServiceStatus {
    pub name: String,
    pub state: ServiceState,
    pub description: String,
}

/// The state owed for a probe outcome.
pub open spec fn classify_spec(probe: Option<bool>) -> ServiceState {
    match probe {
        None => ServiceState::Unknown,
        Some(true) => ServiceState::Active,
        Some(false) => ServiceState::Inactive,
    }
}

/// Classifies a probe outcome: a failed probe is `Unknown`, a probe that ran
/// reports `Active` or `Inactive`.
pub fn classify_service(probe: Option<bool>) -> (r: ServiceState)
    ensures
        r == classify_spec(probe),
{
    match probe {
        None => ServiceState::Unknown,
        Some(true) => ServiceState::Active,
        Some(false) => ServiceState::Inactive,
    }
}

/// Builds the status record for one watched service from its probe outcome.
pub fn service_status(name: String, probe: Option<bool>) -> (r: ServiceStatus)
    ensures
        r.name@ == name@,
        r.state == classify_spec(probe),
        r.description@ == "System service: "@ + name@,
{
    let description = "System service: ".to_owned().concat(name.as_str());
    ServiceStatus { state: classify_service(probe), name, description }
}

/// The fixed allow-list of services the panel watches.
pub fn watched_services() -> (r: Vec<String>)
    ensures
        r@.len() == 5,
        r@[0]@ == "nginx"@,
        r@[1]@ == "mysql"@,
        r@[2]@ == "ssh"@,
        r@[3]@ == "docker"@,
        r@[4]@ == "cron"@,
{
    let mut v: Vec<String> = Vec::new();
    v.push("nginx".to_owned());
    v.push("mysql".to_owned());
    v.push("ssh".to_owned());
    v.push("docker".to_owned());
    v.push("cron".to_owned());
    v
}

} // verus!
