//! The verified core of a background download manager: the job registry,
//! the naming rule of the publisher and the decisions of the fetch engine.
//!
//! Nothing here touches the network or the disk. A driver reads from both,
//! hands what it read to these functions as plain values, and carries out
//! what they decide.

pub mod download;
pub mod error;
pub mod item;
pub mod lock_copy;
pub mod progress;
pub mod registry;
pub mod table;
