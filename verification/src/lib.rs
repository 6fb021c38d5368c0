pub mod date;
pub mod paths;
pub mod parser;
pub mod render;
pub mod text;
