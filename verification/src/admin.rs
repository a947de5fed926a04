pub mod oauth;
pub mod token;
