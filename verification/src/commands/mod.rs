//! Native command implementations.

pub mod basic;
pub mod editing;
pub mod files;
pub mod help;
pub mod movement;
pub mod ring;
pub mod run;
pub mod windows;
