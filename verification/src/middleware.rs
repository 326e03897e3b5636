pub mod mouse;
pub mod ticker;
