//! Fast-path lane: certificates over single owned objects, their binding to
//! the main lane, and the slashing of signers that equivocate.

pub mod binding;
pub mod cert;
pub mod equivocation;
pub mod quorum;
pub mod ring;
pub mod slashing;
