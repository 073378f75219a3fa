pub mod error;
pub mod events;
pub mod math;
pub mod vault;
pub mod vault_depositor;
