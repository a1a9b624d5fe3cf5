//! The state shared by the web handlers.

use vstd::prelude::*;

verus! {

/// `std::sync::Mutex`, whose contents verified code never reads.
#[verifier::external_type_specification]
#[verifier::external_body]
#[verifier::reject_recursive_types(T)]
pub struct ExMutex<T: ?Sized>(std::sync::Mutex<T>);

/// The state that the server hands to each handler.
pub struct AppState {
    pub health_check_response: String,
    pub vis_count: std::sync::Mutex<u32>,
}

} // verus!
