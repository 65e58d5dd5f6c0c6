pub mod append;
pub mod apply;
pub mod files;
pub mod naming;
pub mod plan;
pub mod script;
pub mod stamp;
pub mod state;
