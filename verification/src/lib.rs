//! A codec for the versioned binary container in which a game engine's asset
//! pipeline keeps its registry of build artifacts.
//!
//! Every record type has a view, a specification of its encoding as a
//! sequence of bytes, a specification of what decoding a sequence of bytes
//! yields, a proof that decoding an encoding gives the record back, and a
//! proof that an encoding that is cut short is rejected.

pub mod asset_registry;
pub mod asset_registry_export_path;
pub mod asset_registry_header;
pub mod asset_registry_version;
pub mod assets;
pub mod counted;
pub mod error;
pub mod names_batch;
pub mod read;
pub mod serialized_name_header;
pub mod store_data;
pub mod string_pool;
pub mod text;
pub mod unreal_types;
pub mod wire;
pub mod write;
