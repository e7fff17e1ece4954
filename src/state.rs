//! What the display loop keeps between ticks.
use vstd::prelude::*;

use crate::filesystem::{reconcile, registry_view, update_file_items, ChangeModel, FileChange, FileGroup};
use crate::service::{probe_status, status_name, update_service_status, ProbeOutput, ServiceState};
use std::sync::mpsc::Receiver;

verus! {

/// The registry and the monitored service's status, if one is monitored.
#[derive(Debug)]
pub struct AppState {
    pub file_groups: Vec<FileGroup>,
    pub service: Option<ServiceState>,
}

/// One tick of the display loop: reconciles the registry with the queued
/// events, and takes the service's status from `probe`, the output of a
/// probe run for the monitored service.
pub fn update_state(rx: &Receiver<FileChange>, state: &mut AppState, probe: Option<ProbeOutput>)
    ensures
        exists|cs: Seq<ChangeModel>, now: u64|
            registry_view(final(state).file_groups@) == #[trigger] reconcile(
                registry_view(old(state).file_groups@),
                cs,
                now,
            ),
        match old(state).service {
            Some(s) => final(state).service is Some && final(state).service->0@ == probe_status(
                status_name(s@),
                probe,
            ),
            None => final(state).service is None,
        },
{
    update_file_items(rx, &mut state.file_groups);
    let status = update_service_status(state.service.as_ref(), probe);
    state.service = status;
}

} // verus!
