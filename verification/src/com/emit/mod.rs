pub mod plan;
pub mod builder;

pub use builder::emit;
