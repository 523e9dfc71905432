//! Symbolic execution of x86-64 assembly for checking memory safety.
pub mod text;
pub mod strmap;
pub mod common;
pub mod arm;
pub mod simd;
pub mod parser;
pub mod computer;
pub mod access;
pub mod relocs;
pub mod numeric;
pub mod data;
pub mod loader;
pub mod layout;
pub mod engine;
pub mod explore;
pub mod run;
pub mod multiversion;
pub mod bad_project;
pub mod good_project;
pub mod harness;
pub mod attr;
pub mod reading;
