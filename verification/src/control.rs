//! Progress reports and stop requests of a running scan.
use vstd::prelude::*;
use std::sync::Arc;
use std::sync::atomic::AtomicBool;
use std::sync::atomic::Ordering;
use crate::types::ScanProgress;

verus! {

/// Hands a progress report to the caller's callback. Nothing is stated of
/// what the callback does.
#[verifier::external_body]
pub fn report<P: FnMut(ScanProgress) + ?Sized>(cb: &mut P, p: ScanProgress) {
    cb(p)
}

/// Whether the stop check `stop` never asks for a stop: every answer it may
/// give is "no".
pub open spec fn never_stops<S: Fn() -> bool>(stop: S) -> bool {
    forall|b: bool| #[trigger] call_ensures(stop, (), b) ==> !b
}

/// Whether the stop check `stop` always asks for a stop: every answer it may
/// give is "yes".
pub open spec fn always_stops<S: Fn() -> bool>(stop: S) -> bool {
    forall|b: bool| #[trigger] call_ensures(stop, (), b) ==> b
}

/// Whether a stop of the scan has been asked for. The flag is shared with
/// other threads, so nothing is known of the answer.
pub fn stop_requested(flag: &Arc<AtomicBool>) -> bool {
    flag.load(Ordering::Relaxed)
}

} // verus!
