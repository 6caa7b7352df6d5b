//! Weighted option trees for randomizer settings files, with the tools to
//! rewrite their distributions and to carry comments across a rewrite.

pub mod cipher;
pub mod comments;
pub mod compare;
pub mod conservation;
pub mod documents;
pub mod game;
pub mod json;
pub mod name_changes;
pub mod names;
pub mod notes;
pub mod numbers;
pub mod options;
pub mod process;
pub mod remap;
pub mod report;
pub mod roundtrip;
pub mod rules;
pub mod scalar;
pub mod select;
pub mod steps;
pub mod text;
pub mod value;
