pub mod color;
pub mod colorformat;
pub mod document;
pub mod face;
pub mod iter;
pub mod number;
pub mod parse;
pub mod text;
pub mod vertex;
