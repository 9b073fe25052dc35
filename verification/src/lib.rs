use vstd::prelude::*;

pub mod clock;
pub mod core_lib;
pub mod darwin;
pub mod governance;
pub mod holochain;
pub mod nerv;
pub mod network;
pub mod server;
pub mod sharding;
pub mod utils;

verus! {

/// Version of the library.
pub const VERSION: &'static str = "0.1.0";

/// Reports that the library is loaded and able to serve requests.
pub fn health_check() -> (ok: bool)
    ensures
        ok,
{
    true
}

} // verus!
