pub mod parser;
pub mod interpret;
