//! Battery, power and peripheral telemetry for Apple machines: the decoding,
//! bookkeeping and decision logic, verified.
use vstd::prelude::*;

pub mod accessories;
pub mod de;
pub mod device;
pub mod events;
pub mod ffi;
pub mod ioreport;
pub mod json;
pub mod nearby;
pub mod peripheral;
pub mod provider;
pub mod scan;
pub mod smc;
pub mod store;
pub mod text;
pub mod tray_icon;

verus! {

} // verus!
