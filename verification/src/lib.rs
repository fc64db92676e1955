pub mod commands;
pub mod segment;
pub mod user;

pub use segment::StrExt;
pub use segment::width_split;
pub use segment::width_split_head;
