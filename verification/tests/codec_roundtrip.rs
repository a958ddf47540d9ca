use nucypher_core::dkg::{
    BRAND_THRESHOLD_DECRYPTION_REQUEST, BRAND_THRESHOLD_DECRYPTION_RESPONSE,
};
use nucypher_core::key_frag::BRAND_ENCRYPTED_KEY_FRAG;
use nucypher_core::message_kit::BRAND_MESSAGE_KIT;
use nucypher_core::node_metadata::{BRAND_NODE_METADATA, BRAND_NODE_PAYLOAD};
use nucypher_core::reencryption::{BRAND_REENCRYPTION_REQUEST, BRAND_REENCRYPTION_RESPONSE};
use nucypher_core::retrieval::BRAND_RETRIEVAL_KIT;
use nucypher_core::revocation::BRAND_REVOCATION_ORDER;
use nucypher_core::treasure_map::{BRAND_ENCRYPTED_TREASURE_MAP, BRAND_TREASURE_MAP};
use nucypher_core::{
    Address, Conditions, Context, Error, FerveoVariant, MessageKit, NodeMetadata,
    NodeMetadataPayload, PublicKey, SecretKey, Signer, ThresholdDecryptionRequest,
    ThresholdDecryptionResponse, HRAC,
};

fn secret_key(tag: u8) -> SecretKey {
    let seed = [tag; 32];
    SecretKey::from_seed(&seed).unwrap()
}

fn signer(tag: u8) -> Signer {
    Signer::new(secret_key(tag))
}

fn public_key(tag: u8) -> PublicKey {
    secret_key(tag).public_key()
}

#[test]
fn threshold_decryption_request_roundtrip() {
    let conditions = Conditions::new("stake > 0".as_bytes());
    let context = Context::new("{}".as_bytes());
    let request = ThresholdDecryptionRequest::new(
        7,
        &[1, 2, 3, 4],
        Some(&conditions),
        Some(&context),
        &FerveoVariant::PRECOMPUTED,
    );
    let bytes = request.to_bytes();
    let back = ThresholdDecryptionRequest::from_bytes(&bytes).unwrap();
    assert_eq!(back, request);
    assert_eq!(back.ritual_id(), 7);
    assert_eq!(back.variant(), FerveoVariant::PRECOMPUTED);
    assert_eq!(back.conditions().unwrap().as_bytes(), "stake > 0".as_bytes());
}

#[test]
fn threshold_decryption_request_roundtrip_without_options() {
    let request =
        ThresholdDecryptionRequest::new(0, &[], None, None, &FerveoVariant::SIMPLE);
    let bytes = request.to_bytes();
    let back = ThresholdDecryptionRequest::from_bytes(&bytes).unwrap();
    assert_eq!(back, request);
    assert!(back.conditions().is_none());
    assert!(back.context().is_none());
}

#[test]
fn threshold_decryption_response_roundtrip() {
    let response = ThresholdDecryptionResponse::new(&[9, 8, 7]);
    let back = ThresholdDecryptionResponse::from_bytes(&response.to_bytes()).unwrap();
    assert_eq!(back, response);
    // boundary: an empty share still round-trips
    let empty = ThresholdDecryptionResponse::new(&[]);
    let back = ThresholdDecryptionResponse::from_bytes(&empty.to_bytes()).unwrap();
    assert_eq!(back.decryption_share(), Vec::<u8>::new());
}

#[test]
fn message_kit_roundtrip() {
    let kit = MessageKit::new(&public_key(1), "payload".as_bytes());
    let back = MessageKit::from_bytes(&kit.to_bytes()).unwrap();
    assert_eq!(back, kit);
}

#[test]
fn encrypted_key_frag_roundtrip() {
    let hrac = HRAC::new(&public_key(1), &public_key(2), "label".as_bytes());
    let ekf = nucypher_core::EncryptedKeyFrag::new(
        &signer(1),
        &public_key(2),
        &hrac,
        &[5; 40],
    );
    let back = nucypher_core::EncryptedKeyFrag::from_bytes(&ekf.to_bytes()).unwrap();
    assert_eq!(back, ekf);
}

#[test]
fn node_metadata_roundtrip() {
    let payload = NodeMetadataPayload::new(
        &[7u8; 20],
        "mainnet".as_bytes(),
        1_700_000_000,
        &public_key(3),
        &public_key(4),
        &[],
        "example.com".as_bytes(),
        9151,
        None,
    )
    .unwrap();
    let back = NodeMetadataPayload::from_bytes(&payload.to_bytes()).unwrap();
    assert_eq!(back, payload);
    let node = NodeMetadata::new(&signer(3), &payload);
    let back = NodeMetadata::from_bytes(&node.to_bytes()).unwrap();
    assert_eq!(back, node);
}

#[test]
fn wrong_brand_is_format_error() {
    let kit = MessageKit::new(&public_key(1), "x".as_bytes());
    let mut bytes = kit.to_bytes();
    bytes[0] ^= 0x01;
    assert_eq!(MessageKit::from_bytes(&bytes).unwrap_err(), Error::FormatError);
}

#[test]
fn truncated_header_is_format_error() {
    let kit = MessageKit::new(&public_key(1), "x".as_bytes());
    let bytes = kit.to_bytes();
    assert_eq!(MessageKit::from_bytes(&bytes[..4]).unwrap_err(), Error::FormatError);
}

#[test]
fn unknown_major_is_version_error() {
    let kit = MessageKit::new(&public_key(1), "x".as_bytes());
    let mut bytes = kit.to_bytes();
    bytes[4] = 2;
    assert_eq!(MessageKit::from_bytes(&bytes).unwrap_err(), Error::VersionError);
}

#[test]
fn newer_minor_is_version_error() {
    let kit = MessageKit::new(&public_key(1), "x".as_bytes());
    let mut bytes = kit.to_bytes();
    bytes[6] = 1;
    assert_eq!(MessageKit::from_bytes(&bytes).unwrap_err(), Error::VersionError);
}

#[test]
fn malformed_payload_is_field_error() {
    let kit = MessageKit::new(&public_key(1), "x".as_bytes());
    let bytes = kit.to_bytes();
    assert_eq!(MessageKit::from_bytes(&bytes[..8]).unwrap_err(), Error::FieldError);
    assert_eq!(MessageKit::from_bytes(&bytes[..10]).unwrap_err(), Error::FieldError);
}

#[test]
fn wrong_message_type_is_format_error() {
    let response = ThresholdDecryptionResponse::new(&[1]);
    let bytes = response.to_bytes();
    assert_eq!(
        ThresholdDecryptionRequest::from_bytes(&bytes).unwrap_err(),
        Error::FormatError
    );
}

#[test]
fn brands_are_unique() {
    let brands = [
        BRAND_MESSAGE_KIT,
        BRAND_ENCRYPTED_KEY_FRAG,
        BRAND_TREASURE_MAP,
        BRAND_ENCRYPTED_TREASURE_MAP,
        BRAND_REENCRYPTION_REQUEST,
        BRAND_REENCRYPTION_RESPONSE,
        BRAND_RETRIEVAL_KIT,
        BRAND_REVOCATION_ORDER,
        BRAND_NODE_METADATA,
        BRAND_NODE_PAYLOAD,
        BRAND_THRESHOLD_DECRYPTION_REQUEST,
        BRAND_THRESHOLD_DECRYPTION_RESPONSE,
    ];
    for i in 0..brands.len() {
        for j in 0..brands.len() {
            if i != j {
                assert_ne!(brands[i], brands[j]);
            }
        }
    }
}

#[test]
fn address_factory_validates_length() {
    assert!(Address::from_slice(&[0u8; 20]).is_some());
    assert!(Address::from_slice(&[0u8; 19]).is_none());
    assert!(Address::from_slice(&[0u8; 21]).is_none());
}

#[test]
fn secret_key_seed_must_be_32_bytes() {
    match SecretKey::from_seed(&[1u8; 31]) {
        Err(e) => assert_eq!(e, Error::CryptoError),
        Ok(_) => panic!("a 31-byte seed must be rejected"),
    }
    assert!(SecretKey::from_seed(&[1u8; 32]).is_ok());
}
