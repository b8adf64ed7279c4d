pub mod header;
pub mod label;
pub mod note;
pub mod report;

pub use header::Header;
pub use label::Label;
pub use note::Note;
pub use report::Report;
