//! Capability security: claims and tokens, delegation of capabilities and
//! its validation.

pub mod capability;
pub mod delegation;
pub mod validation;
pub mod manager;
pub mod rate_limit;
pub mod key_rotation;
pub mod hierarchy;
pub mod middleware;
pub mod presets;
pub mod rotation_manager;
pub mod revocation;
pub mod rate_storage;
pub mod tokens;
pub mod rotating_validation;
pub mod jwt;
