pub mod cargo;
pub mod commands;
pub mod compile;
pub mod sources;
