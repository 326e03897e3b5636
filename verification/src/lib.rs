pub mod dec;
pub mod invoke;
pub mod middleware;
pub mod order_type;
pub mod signal;
pub mod text;
