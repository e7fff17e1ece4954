//! The health of an optional background service, from the output of a
//! status probe.
use vstd::prelude::*;

verus! {

/// The text that a byte string decodes to as UTF-8; none when it is not
/// valid UTF-8.
pub uninterp spec fn utf8_text(bytes: Seq<u8>) -> Option<Seq<char>>;

/// Relies on `String::from_utf8`: decodes the bytes as UTF-8, failing on an
/// invalid sequence.
#[verifier::external_body]
fn decode_utf8(bytes: Vec<u8>) -> (r: Option<String>)
    ensures
        match r {
            Some(s) => utf8_text(bytes@) == Some(s@),
            None => utf8_text(bytes@) is None,
        },
{
    String::from_utf8(bytes).ok()
}

/// What a status probe of a service returned.
#[derive(Debug)]
pub struct ProbeOutput {
    /// What the probe printed.
    pub stdout: Vec<u8>,
    /// Whether the probe reported success, that is the service is active.
    pub success: bool,
}

/// A known service status.
#[derive(Debug, PartialEq, Eq)]
pub struct ServiceDetails {
    pub name: String,
    pub active: bool,
    pub status: String,
}

/// The status of a service: known, or unknown when the probe failed.
#[derive(Debug, PartialEq, Eq)]
pub enum ServiceState {
    Unknown(String),
    Details(ServiceDetails),
}

/// A service status as a value.
pub enum StatusModel {
    Unknown(Seq<char>),
    Known { name: Seq<char>, status: Seq<char>, active: bool },
}

impl View for ServiceState {
    type V = StatusModel;

    open spec fn view(&self) -> StatusModel {
        match self {
            ServiceState::Unknown(n) => StatusModel::Unknown(n@),
            ServiceState::Details(d) => StatusModel::Known {
                name: d.name@,
                status: d.status@,
                active: d.active,
            },
        }
    }
}

/// The name of the service a status is about.
pub open spec fn status_name(s: StatusModel) -> Seq<char> {
    match s {
        StatusModel::Unknown(n) => n,
        StatusModel::Known { name, .. } => name,
    }
}

/// The status that the decoded text of a successful probe gives: known and
/// active when the text is there, unknown otherwise.
pub open spec fn status_of(name: Seq<char>, text: Option<Seq<char>>) -> StatusModel {
    match text {
        Some(t) => StatusModel::Known { name, status: t, active: true },
        None => StatusModel::Unknown(name),
    }
}

/// The status that a probe's output gives: unknown when the probe could
/// not run, failed, or printed something that is not UTF-8.
pub open spec fn probe_status(name: Seq<char>, output: Option<ProbeOutput>) -> StatusModel {
    match output {
        Some(o) => if o.success {
            status_of(name, utf8_text(o.stdout@))
        } else {
            StatusModel::Unknown(name)
        },
        None => StatusModel::Unknown(name),
    }
}

impl ServiceState {
    /// The status from the decoded text of a successful probe.
    pub fn from_status(name: &str, text: Option<String>) -> (r: ServiceState)
        ensures
            r@ == status_of(name@, match text {
                Some(t) => Some(t@),
                None => None,
            }),
    {
        match text {
            Some(status) => ServiceState::Details(
                ServiceDetails { name: name.to_string(), active: true, status },
            ),
            None => ServiceState::Unknown(name.to_string()),
        }
    }

    /// The status from a probe's output, if the probe could run: known only
    /// for a successful probe whose output is UTF-8.
    pub fn from(name: &str, maybe_output: Option<ProbeOutput>) -> (r: ServiceState)
        ensures
            r@ == probe_status(name@, maybe_output),
    {
        match maybe_output {
            Some(output) => {
                if output.success {
                    let text = decode_utf8(output.stdout);
                    ServiceState::from_status(name, text)
                } else {
                    ServiceState::Unknown(name.to_string())
                }
            },
            None => ServiceState::Unknown(name.to_string()),
        }
    }

    /// The name of the service.
    pub fn name(&self) -> (r: &str)
        ensures
            r@ == status_name(self@),
    {
        match self {
            ServiceState::Unknown(name) => name.as_str(),
            ServiceState::Details(d) => d.name.as_str(),
        }
    }

    /// Whether the service is active, and its status text; an unknown
    /// status reads as inactive, with a placeholder text.
    pub fn summary(&self) -> (r: (bool, &str))
        ensures
            match self@ {
                StatusModel::Known { status, active, .. } => r.0 == active && r.1@ == status,
                StatusModel::Unknown(_) => !r.0 && r.1@ == seq!['-', '-', '-', '-'],
            },
    {
        match self {
            ServiceState::Details(d) => (d.active, d.status.as_str()),
            ServiceState::Unknown(_) => {
                proof {
                    reveal_strlit("----");
                }
                (false, "----")
            },
        }
    }
}

/// The next status of a monitored service from the output of a probe run
/// for the current status's service; none when no service is monitored.
pub fn update_service_status(current: Option<&ServiceState>, output: Option<ProbeOutput>) -> (r:
    Option<ServiceState>)
    ensures
        match current {
            Some(s) => r is Some && r->0@ == probe_status(status_name(s@), output),
            None => r is None,
        },
{
    match current {
        Some(s) => Some(ServiceState::from(s.name(), output)),
        None => None,
    }
}

} // verus!
