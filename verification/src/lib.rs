//! A registry of autonomous agent identities, their declared skills, and a
//! reputation snapshot owned by an external reputation service.
//!
//! The registry lets an identity register itself exactly once, lets anyone
//! look agents up by identity or by skill, and accepts a reputation update
//! only from the configured reputation-service identity — or through a
//! synchronization ticket that its own orchestrator minted, the internally
//! trusted origin of the second hop of the synchronization chain.  Outbound
//! calls to collaborating services (a balance check, reputation
//! initialization, the synchronization fetch) are described as plain values
//! for the host to carry out.

pub mod laws;
pub mod model;
pub mod registry;
pub mod types;
pub mod wire;
