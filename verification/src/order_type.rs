pub mod dispatch;
pub mod entry;
pub mod exit;
pub mod origin;
pub mod process;
pub mod simple;
