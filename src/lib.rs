pub mod dispatch;
pub mod dns;
pub mod header;
pub mod registry;
pub mod relay;
pub mod session;
