//! JSON-facing contracts of a policy evaluation engine: how callers hand in
//! policies, and the uniform envelope in which results and errors go back.

pub mod interface_result;
pub mod json_text;
pub mod policy_spec;
