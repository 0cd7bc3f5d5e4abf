pub mod archive;
pub mod builder;
pub mod cli;
pub mod install;
pub mod text;
