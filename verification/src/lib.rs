//! Tap/hold remapping of a single physical key.
//!
//! A brief tap of the source key emits Escape; a sustained hold emits
//! Control for as long as the key stays down. All other keyboard traffic
//! is forwarded unchanged. The crate holds the remap state machine, the
//! registry of synthesized key-downs awaiting their matching key-up, and
//! the shutdown drain that releases every key this process left logically
//! down. Device I/O and the tray UI live outside the library: they feed
//! events in and carry the returned actions out.

pub mod events;
pub mod laws;
pub mod machine;
pub mod registry;
