//! Artifact pipeline for recursive-proof workflows: the scalar codec, the
//! artifact naming convention, the input-document readers and the decisions
//! that the setup, prove and verify phases take.

pub mod codec;
pub mod inputs;
pub mod paths;
pub mod pipeline;
