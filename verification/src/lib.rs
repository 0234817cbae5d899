//! Verified core of the Droid session format support: the session model,
//! the JSON value model, the text normalisation rules, and the import and
//! export logic of Droid JSONL sessions.

pub mod text;
pub mod json;
pub mod time;
pub mod ids;
pub mod ir;
pub mod droid;
pub mod paths;
pub mod properties;
pub mod roundtrip;
pub mod preserved;
