//! Builds the "uses" graph of a tree of build-definition files: which
//! definition refers to which name, in the order the files are walked.

pub mod emit;
pub mod extract;
pub mod walk;
