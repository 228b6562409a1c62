pub mod document;
pub mod editor;
pub mod position;
pub mod row;
pub mod terminal;
