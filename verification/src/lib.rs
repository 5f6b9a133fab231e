//! An input-abstraction layer for real-time interactive applications.
//!
//! Raw hardware input (keyboard keys, mouse buttons and axes, gamepad buttons
//! and axes) is decoupled from named *actions* that application logic
//! consumes. Bindings between physical inputs and action names can be changed
//! at runtime; once per frame the host hands the mapper a snapshot of raw
//! device state, and the mapper aggregates it into per-action values and
//! classifies each action's frame-to-frame transition (started, continuing,
//! finished) beside a level-triggered "active" signal.
//!
//! Physical inputs are identified by plain `u32` codes assigned by the host;
//! action values are fixed-point integers (see [`FULL_VALUE`]), so that a
//! button press reads as `FULL_VALUE` and an axis reading as a signed
//! fraction of it. The host converts its own device enumerations and
//! floating-point axis readings at the boundary.

use vstd::prelude::*;

pub mod assoc;
pub mod binding;
pub mod values;
pub mod aggregate;
pub mod classify;
pub mod laws;
pub mod mapper;

pub use crate::aggregate::AxisReading;
pub use crate::binding::AutoBinder;
pub use crate::binding::BindingTable;
pub use crate::classify::ActionTransition;
pub use crate::classify::Notification;
pub use crate::classify::NotificationKind;
pub use crate::classify::classify;
pub use crate::mapper::DeviceFrame;
pub use crate::mapper::InputMapper;
pub use crate::values::ActionValues;

verus! {

/// The fixed-point action value that stands for a fully pressed button or a
/// fully deflected axis (the value `1.0` in conventional units). Axis
/// readings are signed fractions of this scale.
pub const FULL_VALUE: i32 = 1000;

} // verus!
