//! Handel-style weighted signature aggregation for a proof-of-stake
//! validator set, and what a validator node needs around it.
//!
//! Validators combine their individual signatures over a message into one
//! aggregate, level by level over a binary partition of the validator set.
//! The heart of the library is in five modules: [`identity`] holds sets of
//! validator indices; [`registry`] gives validators their weight;
//! [`partitioner`] splits them into levels; [`store`] keeps the best
//! aggregate and the individual contributions of each level; and
//! [`evaluator`] scores incoming contributions and checks level updates for
//! well-formedness. [`aggregation`] holds the decisions of the driver that
//! runs one aggregation; [`wire`] and [`reader`] are the format and the
//! framing in which level updates travel.
//!
//! Beside these stand the hashers ([`hash`]), what a WebAuthn authenticator
//! signs ([`signature_proof`]), the checks on a stored chain
//! ([`blockchain`]), the hub of the in-memory test network ([`network`]),
//! and small carriers ([`bls_key_pair`], [`update_message`]).
//!
//! Every function states what it returns in terms of sets, sequences and
//! maps, and is proved to meet that statement. Where another crate does the
//! work, such as hashing, the statement names that crate's result and the
//! documentation of the item says so.

pub mod aggregation;
pub mod blockchain;
pub mod bls_key_pair;
pub mod contribution;
pub mod evaluator;
pub mod hash;
pub mod identity;
pub mod network;
pub mod partitioner;
pub mod reader;
pub mod registry;
pub mod signature_proof;
pub mod store;
pub mod update_message;
pub mod wire;
