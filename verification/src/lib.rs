//! A task organizer's document layer: folders of tasks, persisted as one
//! JSON document, mutated by whole-document operations.
//!
//! `types` holds the data model, `model` its mathematical view and lookup
//! specifications, `ops` the catalog of document mutations, `laws` the
//! proofs that relate operations, `codec` the canonical JSON serializer and
//! parser, `roundtrip` the proof that parsing undoes serializing, and
//! `store` the startup seeding decision.

pub mod types;
pub mod model;
pub mod ops;
pub mod laws;
pub mod codec;
pub mod roundtrip;
pub mod store;
