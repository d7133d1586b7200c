pub mod block;
pub mod scan;
pub mod span;
