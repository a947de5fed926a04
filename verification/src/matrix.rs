pub mod event;
pub mod filter;
pub mod format;
pub mod ids;
pub mod json;
pub mod pdu;
