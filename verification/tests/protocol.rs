use nucypher_core::{
    Address, EncryptedKeyFrag, Error, FleetStateChecksum, MessageKit, MetadataRequest,
    MetadataResponse, MetadataResponsePayload, NodeMetadata, NodeMetadataPayload, PublicKey,
    ReencryptionRequest, ReencryptionResponse, RetrievalKit, RevocationOrder, SecretKey, Signer,
    TreasureMap, HRAC,
};
use umbral_pre::{DefaultDeserialize, DefaultSerialize};

fn secret_key(tag: u8) -> SecretKey {
    SecretKey::from_seed(&[tag; 32]).unwrap()
}

fn signer(tag: u8) -> Signer {
    Signer::new(secret_key(tag))
}

fn public_key(tag: u8) -> PublicKey {
    secret_key(tag).public_key()
}

fn umbral_secret_key(tag: u8) -> umbral_pre::SecretKey {
    umbral_pre::SecretKeyFactory::from_secure_randomness(&[tag; 32])
        .unwrap()
        .make_key(&[])
}

fn umbral_capsule(kit: &MessageKit) -> umbral_pre::Capsule {
    umbral_pre::Capsule::from_bytes(&kit.capsule()).unwrap()
}

#[test]
fn hrac_is_deterministic_and_input_sensitive() {
    let pk1 = public_key(1);
    let pk2 = public_key(2);
    let first = HRAC::new(&pk1, &pk2, "label".as_bytes());
    let second = HRAC::new(&pk1, &pk2, "label".as_bytes());
    assert_eq!(first.to_bytes(), second.to_bytes());
    assert_eq!(first.to_bytes().len(), 16);
    // changing any one input changes the identifier
    let other_label = HRAC::new(&pk1, &pk2, "label2".as_bytes());
    assert_ne!(first.to_bytes(), other_label.to_bytes());
    let other_publisher = HRAC::new(&public_key(3), &pk2, "label".as_bytes());
    assert_ne!(first.to_bytes(), other_publisher.to_bytes());
    let other_bob = HRAC::new(&pk1, &public_key(3), "label".as_bytes());
    assert_ne!(first.to_bytes(), other_bob.to_bytes());
}

fn assignments(n: u8) -> Vec<(Address, (PublicKey, Vec<u8>))> {
    let mut out = Vec::new();
    for i in 0..n {
        // addresses deliberately in descending order, to exercise sorting
        let addr = Address::from_slice(&[0xF0 - i; 20]).unwrap();
        out.push((addr, (public_key(10 + i), vec![i + 1; 30])));
    }
    out
}

#[test]
fn treasure_map_destinations_are_complete_and_sorted() {
    let hrac = HRAC::new(&public_key(1), &public_key(2), "p".as_bytes());
    let map = TreasureMap::new(&signer(1), &hrac, &public_key(1), &assignments(3), 2).unwrap();
    let dests = map.destinations();
    assert_eq!(dests.len(), 3);
    for window in dests.windows(2) {
        assert!(window[0].0.as_bytes() < window[1].0.as_bytes());
    }
    assert_eq!(map.threshold(), 2);
    assert_eq!(map.hrac().to_bytes(), hrac.to_bytes());
}

#[test]
fn treasure_map_threshold_precondition() {
    let hrac = HRAC::new(&public_key(1), &public_key(2), "p".as_bytes());
    let err = TreasureMap::new(&signer(1), &hrac, &public_key(1), &assignments(3), 4).unwrap_err();
    assert_eq!(err, Error::PolicyError);
}

#[test]
fn treasure_map_roundtrip() {
    let hrac = HRAC::new(&public_key(1), &public_key(2), "p".as_bytes());
    let map = TreasureMap::new(&signer(1), &hrac, &public_key(1), &assignments(3), 1).unwrap();
    let back = TreasureMap::from_bytes(&map.to_bytes()).unwrap();
    assert_eq!(back, map);
}

#[test]
fn encrypted_treasure_map_decrypts_for_the_delegate() {
    let publisher = signer(1);
    let bob_sk = secret_key(9);
    let bob_pk = bob_sk.public_key();
    let hrac = HRAC::new(&publisher.verifying_key(), &bob_pk, "p".as_bytes());
    let map = TreasureMap::new(&publisher, &hrac, &public_key(1), &assignments(2), 1).unwrap();
    let sealed = map.encrypt(&publisher, &bob_pk);
    let back = sealed.decrypt(&bob_sk, &publisher.verifying_key()).unwrap();
    assert_eq!(back, map);
    // the wrong publisher key is rejected
    let err = sealed.decrypt(&bob_sk, &public_key(7)).unwrap_err();
    assert_eq!(err, Error::CryptoError);
    // the sealed form itself round-trips
    let again = nucypher_core::EncryptedTreasureMap::from_bytes(&sealed.to_bytes()).unwrap();
    assert_eq!(again, sealed);
}

#[test]
fn encrypted_key_frag_binds_the_policy_context() {
    let publisher = signer(1);
    let recipient_sk = secret_key(5);
    let recipient_pk = recipient_sk.public_key();
    let hrac = HRAC::new(&publisher.verifying_key(), &recipient_pk, "good".as_bytes());
    let kfrag_bytes = vec![0xAB; 64];
    let sealed = EncryptedKeyFrag::new(&publisher, &recipient_pk, &hrac, &kfrag_bytes);
    // the right key, identifier and publisher recover the fragment
    let opened = sealed
        .decrypt(&recipient_sk, &hrac, &publisher.verifying_key())
        .unwrap();
    assert_eq!(opened, kfrag_bytes);
    // a wrong policy identifier is rejected even with the right secret key
    let wrong = HRAC::new(&publisher.verifying_key(), &recipient_pk, "evil".as_bytes());
    let err = sealed
        .decrypt(&recipient_sk, &wrong, &publisher.verifying_key())
        .unwrap_err();
    assert_eq!(err, Error::CryptoError);
    // a wrong publisher key is rejected too
    let err = sealed.decrypt(&recipient_sk, &hrac, &public_key(8)).unwrap_err();
    assert_eq!(err, Error::CryptoError);
}

#[test]
fn reencryption_response_verification_is_all_or_nothing() {
    let alice_umbral = umbral_secret_key(1);
    let alice_pk = public_key(1);
    let bob_umbral = umbral_secret_key(9);
    let bob_pk = public_key(9);
    let signing = signer(2);
    let umbral_signer = umbral_pre::Signer::new(umbral_secret_key(2));
    let ursula = signer(3);

    let kits: Vec<MessageKit> = (0..3)
        .map(|i| MessageKit::new(&alice_pk, format!("m{}", i).as_bytes()))
        .collect();
    let capsules: Vec<Vec<u8>> = kits.iter().map(|k| k.capsule()).collect();
    let kfrags = umbral_pre::generate_kfrags(
        &alice_umbral,
        &bob_umbral.public_key(),
        &umbral_signer,
        2,
        3,
        true,
        true,
    );
    let cfrags: Vec<Vec<u8>> = (0..3)
        .map(|i| {
            let capsule = umbral_capsule(&kits[i]);
            let vcfrag = umbral_pre::reencrypt(&capsule, kfrags[i].clone());
            vcfrag.to_bytes().unwrap().to_vec()
        })
        .collect();

    let response = ReencryptionResponse::new(&ursula, &capsules, &cfrags);
    let verified = response
        .verify(
            &capsules,
            &signing.verifying_key(),
            &ursula.verifying_key(),
            &alice_pk,
            &bob_pk,
        )
        .unwrap();
    assert_eq!(verified.len(), 3);
    assert_eq!(verified, cfrags);

    // replacing a single fragment with one made for a different capsule
    // rejects the whole response
    let other_kit = MessageKit::new(&alice_pk, "other".as_bytes());
    let other_capsule = umbral_capsule(&other_kit);
    let stray = umbral_pre::reencrypt(&other_capsule, kfrags[1].clone());
    let mut tampered = cfrags.clone();
    tampered[1] = stray.to_bytes().unwrap().to_vec();
    let tampered_response = ReencryptionResponse::new(&ursula, &capsules, &tampered);
    let err = tampered_response
        .verify(
            &capsules,
            &signing.verifying_key(),
            &ursula.verifying_key(),
            &alice_pk,
            &bob_pk,
        )
        .unwrap_err();
    assert_eq!(err, Error::CryptoError);

    // a wrong response signer is rejected as well
    let err = response
        .verify(
            &capsules,
            &signing.verifying_key(),
            &public_key(4),
            &alice_pk,
            &bob_pk,
        )
        .unwrap_err();
    assert_eq!(err, Error::CryptoError);
}

#[test]
fn reencryption_request_roundtrip() {
    let publisher = signer(1);
    let bob_pk = public_key(9);
    let hrac = HRAC::new(&publisher.verifying_key(), &bob_pk, "p".as_bytes());
    let sealed = EncryptedKeyFrag::new(&publisher, &bob_pk, &hrac, &[1; 30]);
    let kit = MessageKit::new(&public_key(1), "m".as_bytes());
    let request = ReencryptionRequest::new(
        &vec![kit.capsule()],
        &hrac,
        &sealed,
        &publisher.verifying_key(),
        &bob_pk,
    );
    let back = ReencryptionRequest::from_bytes(&request.to_bytes()).unwrap();
    assert_eq!(back, request);
    assert_eq!(back.capsules(), vec![kit.capsule()]);
    assert_eq!(back.hrac().to_bytes(), hrac.to_bytes());
}

#[test]
fn retrieval_kit_starts_empty_and_roundtrips() {
    let kit = MessageKit::new(&public_key(1), "m".as_bytes());
    let retrieval = RetrievalKit::from_message_kit(&kit);
    assert_eq!(retrieval.capsule(), kit.capsule());
    assert!(retrieval.queried_addresses().is_empty());
    let back = RetrievalKit::from_bytes(&retrieval.to_bytes()).unwrap();
    assert_eq!(back, retrieval);

    let addresses = vec![
        Address::from_slice(&[2u8; 20]).unwrap(),
        Address::from_slice(&[1u8; 20]).unwrap(),
        Address::from_slice(&[2u8; 20]).unwrap(),
    ];
    let retried = RetrievalKit::new(&kit.capsule(), &addresses);
    // set semantics: the repeated address is a no-op, and the stored set
    // is in canonical ascending order
    let stored = retried.queried_addresses();
    assert_eq!(stored.len(), 2);
    assert_eq!(stored[0].as_bytes(), vec![1u8; 20]);
    assert_eq!(stored[1].as_bytes(), vec![2u8; 20]);
    let back = RetrievalKit::from_bytes(&retried.to_bytes()).unwrap();
    assert_eq!(back, retried);
}

#[test]
fn revocation_order_signature_checks() {
    let publisher = signer(1);
    let bob_pk = public_key(9);
    let hrac = HRAC::new(&publisher.verifying_key(), &bob_pk, "p".as_bytes());
    let sealed = EncryptedKeyFrag::new(&publisher, &bob_pk, &hrac, &[1; 30]);
    let order = RevocationOrder::new(&publisher, &[3u8; 20], &sealed).unwrap();
    assert!(order.verify_signature(&publisher.verifying_key()));
    assert!(!order.verify_signature(&public_key(8)));
    // a malformed address is rejected up front
    let err = RevocationOrder::new(&publisher, &[3u8; 19], &sealed).unwrap_err();
    assert_eq!(err, Error::InvalidAddress);
    let back = RevocationOrder::from_bytes(&order.to_bytes()).unwrap();
    assert_eq!(back, order);
}

fn node(tag: u8, port: u16) -> NodeMetadata {
    let s = signer(tag);
    let payload = NodeMetadataPayload::new(
        &[tag; 20],
        "mainnet".as_bytes(),
        1_700_000_000,
        &s.verifying_key(),
        &public_key(tag + 50),
        &[],
        "example.com".as_bytes(),
        port,
        None,
    )
    .unwrap();
    NodeMetadata::new(&s, &payload)
}

#[test]
fn node_metadata_self_signature_verifies() {
    let good = node(1, 9151);
    assert!(good.verify());
    // signing with a key other than the one in the payload fails the check
    let payload = good.payload();
    let mismatched = NodeMetadata::new(&signer(2), &payload);
    assert!(!mismatched.verify());
}

#[test]
fn fleet_state_checksum_is_order_independent_and_content_sensitive() {
    let a = node(1, 9151);
    let b = node(2, 9151);
    let c = node(3, 9151);
    let one = FleetStateChecksum::from_nodes(Some(&a), &vec![b.duplicate(), c.duplicate()]);
    let two = FleetStateChecksum::from_nodes(Some(&a), &vec![c.duplicate(), b.duplicate()]);
    assert_eq!(one.to_bytes(), two.to_bytes());
    assert_eq!(one.to_bytes().len(), 32);
    // changing any field of any node changes the checksum
    let b_changed = node(2, 9152);
    let three = FleetStateChecksum::from_nodes(Some(&a), &vec![b_changed, c.duplicate()]);
    assert_ne!(one.to_bytes(), three.to_bytes());
    // dropping the self-record changes it too
    let four = FleetStateChecksum::from_nodes(None, &vec![b.duplicate(), c.duplicate()]);
    assert_ne!(one.to_bytes(), four.to_bytes());
}

#[test]
fn metadata_exchange_verifies_before_release() {
    let a = node(1, 9151);
    let checksum = FleetStateChecksum::from_nodes(Some(&a), &Vec::new());
    let request = MetadataRequest::new(&checksum, &vec![a.duplicate()]);
    assert_eq!(request.fleet_state_checksum().to_bytes(), checksum.to_bytes());
    assert_eq!(request.announce_nodes().len(), 1);
    let back = MetadataRequest::from_bytes(&request.to_bytes()).unwrap();
    assert_eq!(back, request);

    let responder = signer(4);
    let payload = MetadataResponsePayload::new(1_700_000_001, &vec![a.duplicate()]);
    let response = MetadataResponse::new(&responder, &payload);
    let back = MetadataResponse::from_bytes(&response.to_bytes()).unwrap();
    assert_eq!(back, response);
    let released = response.verify(&responder.verifying_key()).unwrap();
    assert_eq!(released.timestamp_epoch(), 1_700_000_001);
    assert_eq!(released.announce_nodes().len(), 1);
    assert_eq!(released.announce_nodes()[0].to_bytes(), a.to_bytes());
    // the wrong key releases nothing
    let err = response.verify(&public_key(5)).unwrap_err();
    assert_eq!(err, Error::CryptoError);
    // an empty announcement list still round-trips
    let empty = MetadataResponsePayload::new(0, &Vec::new());
    let back = MetadataResponsePayload::from_bytes(&empty.to_bytes()).unwrap();
    assert_eq!(back, empty);
}

#[test]
fn end_to_end_retrieval_scenario() {
    // Alice encrypts for herself and can decrypt directly.
    let alice_sk = secret_key(1);
    let alice_pk = alice_sk.public_key();
    let kit = MessageKit::new(&alice_pk, "Hello, world!".as_bytes());
    assert_eq!(kit.decrypt(&alice_sk).unwrap(), "Hello, world!".as_bytes());
    // a wrong key fails to open it
    assert_eq!(kit.decrypt(&secret_key(6)).unwrap_err(), Error::CryptoError);

    // Key fragments for Bob, two of three required.
    let alice_umbral = umbral_secret_key(1);
    let bob_sk = secret_key(9);
    let bob_umbral = umbral_secret_key(9);
    let umbral_signer = umbral_pre::Signer::new(umbral_secret_key(2));
    let kfrags = umbral_pre::generate_kfrags(
        &alice_umbral,
        &bob_umbral.public_key(),
        &umbral_signer,
        2,
        3,
        true,
        true,
    );

    // Two proxy nodes independently re-encrypt the capsule.
    let capsule = umbral_capsule(&kit);
    let cfrag0 = umbral_pre::reencrypt(&capsule, kfrags[0].clone());
    let cfrag1 = umbral_pre::reencrypt(&capsule, kfrags[1].clone());
    let frags = vec![
        cfrag0.to_bytes().unwrap().to_vec(),
        cfrag1.to_bytes().unwrap().to_vec(),
    ];
    let plaintext = kit.decrypt_reencrypted(&bob_sk, &alice_pk, 2, &frags).unwrap();
    assert_eq!(plaintext, "Hello, world!".as_bytes());

    // No fragments at all is an insufficient supply.
    let err = kit
        .decrypt_reencrypted(&bob_sk, &alice_pk, 2, &Vec::new())
        .unwrap_err();
    assert_eq!(err, Error::InsufficientFragments);
    // One fragment of the two required is an insufficient supply too.
    let one = vec![frags[0].clone()];
    let err = kit.decrypt_reencrypted(&bob_sk, &alice_pk, 2, &one).unwrap_err();
    assert_eq!(err, Error::InsufficientFragments);
}
