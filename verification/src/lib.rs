use vstd::prelude::*;

pub mod address;
pub mod codec;
pub mod dkg;
pub mod engine;
pub mod errors;
pub mod fields;
pub mod fleet;
pub mod hrac;
pub mod key_frag;
pub mod keys;
pub mod message_kit;
pub mod metadata;
pub mod node_metadata;
pub mod reencryption;
pub mod retrieval;
pub mod revocation;
pub mod treasure_map;

verus! {

pub use crate::address::Address;
pub use crate::dkg::Conditions;
pub use crate::dkg::Context;
pub use crate::dkg::FerveoVariant;
pub use crate::dkg::ThresholdDecryptionRequest;
pub use crate::dkg::ThresholdDecryptionResponse;
pub use crate::errors::Error;
pub use crate::fleet::FleetStateChecksum;
pub use crate::hrac::HRAC;
pub use crate::key_frag::EncryptedKeyFrag;
pub use crate::keys::PublicKey;
pub use crate::keys::SecretKey;
pub use crate::keys::Signer;
pub use crate::message_kit::MessageKit;
pub use crate::metadata::MetadataRequest;
pub use crate::metadata::MetadataResponse;
pub use crate::metadata::MetadataResponsePayload;
pub use crate::node_metadata::NodeMetadata;
pub use crate::node_metadata::NodeMetadataPayload;
pub use crate::reencryption::ReencryptionRequest;
pub use crate::reencryption::ReencryptionResponse;
pub use crate::retrieval::RetrievalKit;
pub use crate::revocation::RevocationOrder;
pub use crate::treasure_map::EncryptedTreasureMap;
pub use crate::treasure_map::TreasureMap;

} // verus!
