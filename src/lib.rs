pub mod base;
pub mod text;
pub mod ast;
pub mod builder;
pub mod extension_list;
pub mod ordered_index;
pub mod schema;
pub mod assemble;
pub mod printer;
pub mod command;
