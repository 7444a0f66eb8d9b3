pub mod boxes;
pub mod datatype;
pub mod expression;
pub mod failure;
pub mod form;
pub mod glyphs;
pub mod interpreter;
pub mod machine;
pub mod math;
pub mod matrix;
pub mod sorter;
pub mod text;
