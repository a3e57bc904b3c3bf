//! Empirical semver-requirement resolution: given a package whose manifest
//! currently builds against concrete dependency versions, discover for each
//! direct dependency the widest contiguous interval of published versions that
//! still passes a build (and optionally a test run), and express that interval
//! as the narrowest equivalent requirement.
//!
//! The crate is organised around a small semantic-version model
//! ([`version`], [`requirement`], [`render`]), a catalog of published
//! versions ([`crates`], [`cache`]), manifest and lock-file data
//! ([`cargo`]), an abstract validation boundary ([`validator`]), a
//! memoized probe ledger ([`probe`]), the interval searcher ([`search`]),
//! the requirement simplifier ([`simplify`]), and the driver that
//! orchestrates them ([`resolver`]).

pub mod cache;
pub mod cargo;
pub mod crates;
pub mod error;
pub mod probe;
pub mod render;
pub mod requirement;
pub mod resolver;
pub mod search;
pub mod simplify;
pub mod validator;
pub mod version;
