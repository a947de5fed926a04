pub mod directory;
pub mod events;
pub mod invite;
pub mod membership;
pub mod register;
pub mod relations;
pub mod session;
pub mod sync_v3;
pub mod sync_v5;
