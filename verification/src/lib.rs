//! Verified core of a proctored-exam terminal session recorder and viewer:
//! keystroke classification and command reconstruction, paste-burst
//! detection, the encrypted artifact container shared by producer and
//! consumer, the persistent session counter, and the report derivation.

pub mod analyzer;
pub mod artifact;
pub mod crypto;
pub mod detector;
pub mod json;
pub mod keys;
pub mod meta;
pub mod recorder;
pub mod records;
pub mod state;
pub mod text;
pub mod zips;
