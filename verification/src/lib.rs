//! blisp: a small Lisp front end for columnar finance pipelines.
//!
//! The crate holds the verified core of the interpreter: symbol interning,
//! environments, date and timestamp parsing, the CSV byte scanner, the IR plan
//! validator, row alignment for joins and the expression normalizer.

pub mod text;
pub mod fmt;
pub mod ast;
pub mod value;
pub mod env;
pub mod io;
pub mod io_fast;
pub mod fast_layout;
pub mod ir;
pub mod fusion;
pub mod fusion_cs1;
pub mod align;
pub mod mask;
pub mod rows;
pub mod spread;
pub mod builtins;
pub mod table_builtins;
pub mod csv_table;
pub mod csv_save;
pub mod dic;
pub mod dic_view;
pub mod dic_rows;
pub mod matrix;
pub mod cli;
pub mod pipe;
pub mod normalize;
