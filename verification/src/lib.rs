//! A permissive model of package-manager version strings.
//!
//! The ecosystem this library serves treats a package's version as free-form
//! text: almost any string is a legal version. This crate owns that text
//! losslessly, re-formats it into the separator conventions that manifest
//! authors expect, and decomposes it, best-effort, into a
//! `major.minor.patch.build.pre_release` shape. Every operation is total over
//! arbitrary input and proved against a mathematical model of the string.

pub mod parse_int;
pub mod separators;
pub mod split;
pub mod version;
