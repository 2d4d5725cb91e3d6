//! Decision logic of the SERAPOD stratagem wheel: key tables, configuration
//! validation, wheel navigation, input-hook decisions, code entry, game
//! detection, settings migration and the update rules.

pub mod text;
pub mod keys;
pub mod model;
pub mod version;
pub mod paths;
pub mod updater;
pub mod wheel;
pub mod input;
pub mod sequence;
pub mod platform;
pub mod storage;
pub mod commands;
