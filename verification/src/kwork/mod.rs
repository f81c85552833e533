pub mod api;
pub mod inbox;
pub mod json;
pub mod orders;
pub mod stats;
