//! The metrics recorder, as far as the exporter calls it.
//!
//! The two calls are public so that contracts can say that they were made.

use metrics_exporter_prometheus::PrometheusHandle;
use vstd::prelude::*;

verus! {

/// A handle to a recorder of `metrics_exporter_prometheus`. Nothing is known of
/// what the recorder holds.
#[verifier::external_type_specification]
#[verifier::external_body]
pub struct ExPrometheusHandle(metrics_exporter_prometheus::PrometheusHandle);

/// Calls `PrometheusHandle::render`, which takes a snapshot of the recorder's
/// metrics. Nothing is claimed of the text: it depends on what was recorded
/// before and on when.
#[verifier::external_body]
pub fn render(handle: &PrometheusHandle) -> (rendered: String) {
    handle.render()
}

/// Calls `PrometheusHandle::run_upkeep`, which tidies what the recorder holds
/// and returns nothing.
#[verifier::external_body]
pub fn run_upkeep(handle: &PrometheusHandle) {
    handle.run_upkeep()
}

/// Does something with the recorder, and says that it was done.
pub(crate) fn perform<R, F: Fn(&PrometheusHandle) -> R>(
    f: F,
    handle: &PrometheusHandle,
) -> (result: R)
    requires
        call_requires(f, (handle,)),
    ensures
        call_ensures(f, (handle,), result),
{
    f(handle)
}

} // verus!
