//! The load state of an asynchronously loaded asset, and its text rendering.

use vstd::prelude::*;

verus! {

/// The state of one asynchronous asset load, as the asset registry reports
/// it: never requested, still in flight, resolved, or failed.
#[derive(Clone, Copy, Debug, PartialEq, Eq, Structural)]
pub enum LoadStatus {
    NotLoaded,
    Loading,
    Loaded,
    Failed,
}

/// The exact text the status reporter renders for each load state.
pub open spec fn status_label_spec(s: LoadStatus) -> Seq<char> {
    match s {
        LoadStatus::NotLoaded => "NotLoaded"@,
        LoadStatus::Loading => "Loading"@,
        LoadStatus::Loaded => "Loaded"@,
        LoadStatus::Failed => "Failed"@,
    }
}

/// Renders a load state as the text the reporter displays.
pub fn status_label(s: LoadStatus) -> (r: String)
    ensures
        r@ == status_label_spec(s),
{
    match s {
        LoadStatus::NotLoaded => String::from_str("NotLoaded"),
        LoadStatus::Loading => String::from_str("Loading"),
        LoadStatus::Loaded => String::from_str("Loaded"),
        LoadStatus::Failed => String::from_str("Failed"),
    }
}

} // verus!
