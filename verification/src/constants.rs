//! The numbers the pipeline is built around, one module per concern.

use vstd::prelude::*;

pub mod audio;
pub mod device;
pub mod encoder;
pub mod monotonicity;
pub mod mux;
pub mod resource_budget;
pub mod ring;
pub mod sync_budget;
pub mod units;
pub mod video;
pub mod watchdog;

verus! {

/// The user-facing product name: tray tooltip, logs, clip file names, config folder.
pub const PRODUCT_NAME: &'static str = "clipd";

/// The binary's name, kept apart from [`PRODUCT_NAME`] so a rename of the product does not
/// rename the file on disk.
pub const BINARY_NAME: &'static str = "clipd";

/// Version number of the config file's layout.
pub const CONFIG_VERSION: u32 = 1;

} // verus!
