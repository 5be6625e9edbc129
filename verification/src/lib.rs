//! Disk usage analysis library: the in-memory directory tree, its aggregate
//! statistics, the import/export formats it is exchanged in, and the command
//! line options.

pub mod cli;
pub mod config;
pub mod export;
pub mod lexer;
pub mod option_table;
pub mod scan;
pub mod text;
pub mod tree;
pub mod ui;
