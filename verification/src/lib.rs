//! Verified core of a CPE/CVE identifier pipeline: parsing CPE 2.3
//! identifier strings, collecting identifiers from CVE match-configuration
//! trees, loading dictionary catalog entries, reconciling deduplicated
//! (part, vendor, product) views, and computing grouped frequency counts.
pub mod aggregate;
pub mod config_tree;
pub mod dictionary;
pub mod error;
pub mod identifier;
pub mod reconcile;

pub use error::CpeError;
