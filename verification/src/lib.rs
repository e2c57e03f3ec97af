//! A circuit toolkit for a privacy-preserving resource-transition protocol:
//! hash gadgets, a Merkle membership gadget, a resource-commitment gadget, a
//! validity-predicate circuit abstraction, proof orchestration and a blinding
//! circuit, all built over a small verified constraint system.

pub mod balance;
pub mod blake2s;
pub mod blinding_circuit;
pub mod composer;
pub mod error;
pub mod felt;
pub mod hash;
pub mod merkle_circuit;
pub mod proof_system;
pub mod resource_commitment;
pub mod vp_circuit;
pub mod white_list;
