//! Desktop backdrop assignment library.
//!
//! Maintains wallpaper assignments across display outputs and virtual
//! workspaces, backed by a flat key/value configuration namespace.  The
//! library covers the logic: discovering the monitor/workspace topology
//! from the property namespace, mapping image references onto the
//! (monitor, workspace) slot grid, selecting an existing image at random
//! from a candidate pool, and sequencing a rotation run.  The transport
//! to the configuration service and the filesystem probes stay outside.

mod assign;
mod errors;
mod keys;
mod listfile;
mod rotation;
mod selector;
mod slots;
mod strorder;
mod topology;

pub use assign::SlotWrite;
pub use assign::assign;
pub use assign::split_tokens;
pub use errors::BackdropError;
pub use errors::list_validation;
pub use keys::extract_monitor;
pub use keys::is_last_image_key;
pub use keys::last_image_key;
pub use keys::u64_to_string;
pub use listfile::parse_list;
pub use listfile::trim_str;
pub use rotation::RotationRun;
pub use rotation::SlotFailure;
pub use selector::Selector;
pub use selector::pick_among;
pub use selector::rng_from_entropy;
pub use selector::rng_seeded;
pub use slots::Slot;
pub use slots::active_workspaces;
pub use slots::canonical_slots;
pub use slots::grid_slots;
pub use slots::plan_slots;
pub use slots::workspace_range;
pub use strorder::canonicalize;
pub use strorder::str_le;
pub use topology::BackdropMode;
pub use topology::TopologySnapshot;
pub use topology::mode_from_lookups;
pub use topology::resolve_snapshot;
pub use topology::validate_workspace_request;
