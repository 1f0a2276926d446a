//! A predictive, memory-budgeted cache of decoded images, and the scheduling
//! rules that decide what to decode next and what to drop.
//!
//! - `config`: quality tiers and tunable parameters.
//! - `slot`: one image's cell, whose quality only `upgrade` can raise.
//! - `store`: all slots with a shared memory budget; insertion, eviction by
//!   circular distance, and making room.
//! - `state`: key input, the view, and the navigation state read by the preloader.
//! - `preload`: the prioritized decode tasks and each step of the preloader.
//! - `decode`: supported formats and the step from bytes to RGBA pixels.
//! - `render`: frame buffer helpers.
pub mod config;
pub mod decode;
pub mod preload;
pub mod render;
pub mod slot;
pub mod state;
pub mod store;
