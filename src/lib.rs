pub mod contract;
pub mod error;
pub mod index;
pub mod laws;
pub mod msg;
pub mod page;
pub mod state;
