use blockstore::protocol;
use blockstore::{
    hex_from_bigi_pair, hex_from_point, Bigi, DeleteInput, Error, Point, SaveInput, Store,
};
use sha2::Digest;

fn keypair() -> (libsecp256k1::SecretKey, Point) {
    let sk = libsecp256k1::SecretKey::parse(&[3u8; 32]).unwrap();
    let pk = libsecp256k1::PublicKey::from_secret_key(&sk);
    let ser = pk.serialize();
    let mut x = [0u8; 32];
    let mut y = [0u8; 32];
    x.copy_from_slice(&ser[1..33]);
    y.copy_from_slice(&ser[33..65]);
    (sk, Point { x: Bigi { bytes: x }, y: Bigi { bytes: y } })
}

fn signature_to_pair(sig: &libsecp256k1::Signature) -> (Bigi, Bigi) {
    let ser = sig.serialize();
    let mut r = [0u8; 32];
    let mut s = [0u8; 32];
    r.copy_from_slice(&ser[0..32]);
    s.copy_from_slice(&ser[32..64]);
    (Bigi { bytes: r }, Bigi { bytes: s })
}

fn content_signature_hex(
    sk: &libsecp256k1::SecretKey,
    group: &str,
    key: &str,
    block: &str,
    version: &str,
) -> String {
    let mut hasher = sha2::Sha256::new();
    hasher.update(group.as_bytes());
    hasher.update(key.as_bytes());
    hasher.update(block.as_bytes());
    hasher.update(version.as_bytes());
    let hash = hasher.finalize();
    let msg = libsecp256k1::Message::parse_slice(&hash).unwrap();
    let (sig, _) = libsecp256k1::sign(&msg, sk);
    hex_from_bigi_pair(&signature_to_pair(&sig))
}

fn secret_signature_hex(sk: &libsecp256k1::SecretKey, secret: &[u8]) -> String {
    let msg = libsecp256k1::Message::parse_slice(secret).unwrap();
    let (sig, _) = libsecp256k1::sign(&msg, sk);
    hex_from_bigi_pair(&signature_to_pair(&sig))
}

fn save_input(
    sk: &libsecp256k1::SecretKey,
    pk: &Point,
    group: &str,
    key: &str,
    block: &str,
    version: &str,
    secret_signature: String,
) -> SaveInput {
    SaveInput {
        public_key: hex_from_point(pk),
        data_group: group.to_string(),
        data_key: key.to_string(),
        data_block: block.to_string(),
        data_version: version.to_string(),
        signature: content_signature_hex(sk, group, key, block, version),
        secret_signature,
    }
}

#[test]
fn test_scenario_full_lifecycle() {
    let (sk, pk) = keypair();
    let pk_hex = hex_from_point(&pk);
    let mut store = Store::new();

    assert_eq!(protocol::check(&store, &pk_hex), Ok(false));

    let input = save_input(&sk, &pk, "g", "k", "hello", "1", String::new());
    let record = protocol::save(&mut store, &input).unwrap();
    let s1 = record.secret.clone();
    assert_eq!(record.data_block, "hello");
    assert_eq!(record.data_version, "1");
    assert_eq!(s1.len(), 32);
    assert_eq!(protocol::check(&store, &pk_hex), Ok(true));

    let input = save_input(&sk, &pk, "g", "k", "world", "2", secret_signature_hex(&sk, &s1));
    let record = protocol::save(&mut store, &input).unwrap();
    let s2 = record.secret.clone();
    assert_eq!(record.data_block, "world");
    assert_eq!(record.data_version, "2");
    assert_ne!(s2, s1);

    let stale = DeleteInput { secret_signature: secret_signature_hex(&sk, &s1) };
    assert_eq!(
        protocol::delete(&mut store, &pk_hex, &"g".to_string(), &"k".to_string(), &stale),
        Err(Error::Forbidden)
    );

    let current = DeleteInput { secret_signature: secret_signature_hex(&sk, &s2) };
    assert_eq!(
        protocol::delete(&mut store, &pk_hex, &"g".to_string(), &"k".to_string(), &current),
        Ok(())
    );

    assert_eq!(
        protocol::get(&store, &pk_hex, &"g".to_string(), &"k".to_string())
            .map(|b| b.id)
            .unwrap_err(),
        Error::NotFound
    );
}

#[test]
fn test_create_then_update_without_secret_is_forbidden() {
    let (sk, pk) = keypair();
    let mut store = Store::new();

    let input = save_input(&sk, &pk, "g", "k", "first", "1", String::new());
    let record = protocol::save(&mut store, &input).unwrap();
    assert_eq!(record.secret.len(), 32);

    let input = save_input(&sk, &pk, "g", "k", "second", "2", String::new());
    assert!(matches!(
        protocol::save(&mut store, &input),
        Err(Error::Forbidden)
    ));

    let fetched = protocol::get(&store, &hex_from_point(&pk), &"g".to_string(), &"k".to_string())
        .unwrap();
    assert_eq!(fetched.data_block, "first");
}

#[test]
fn test_secret_rotation_rejects_old_secret() {
    let (sk, pk) = keypair();
    let mut store = Store::new();

    let input = save_input(&sk, &pk, "g", "k", "a", "1", String::new());
    let s1 = protocol::save(&mut store, &input).unwrap().secret;

    let input = save_input(&sk, &pk, "g", "k", "b", "2", secret_signature_hex(&sk, &s1));
    let s2 = protocol::save(&mut store, &input).unwrap().secret;
    assert_ne!(s1, s2);

    let input = save_input(&sk, &pk, "g", "k", "c", "3", secret_signature_hex(&sk, &s1));
    assert!(matches!(
        protocol::save(&mut store, &input),
        Err(Error::Forbidden)
    ));

    let input = save_input(&sk, &pk, "g", "k", "c", "3", secret_signature_hex(&sk, &s2));
    assert!(protocol::save(&mut store, &input).is_ok());
}

#[test]
fn test_save_with_bad_content_signature_is_forbidden() {
    let (sk, pk) = keypair();
    let mut store = Store::new();

    let mut input = save_input(&sk, &pk, "g", "k", "data", "1", String::new());
    input.signature = content_signature_hex(&sk, "g", "k", "other data", "1");
    assert!(matches!(
        protocol::save(&mut store, &input),
        Err(Error::Forbidden)
    ));
    assert_eq!(protocol::check(&store, &hex_from_point(&pk)), Ok(false));
}

#[test]
fn test_save_oversized_block() {
    let (sk, pk) = keypair();
    let mut store = Store::new();

    let big = String::from_utf8(vec![66; 16777216]).unwrap();
    let input = SaveInput {
        public_key: hex_from_point(&pk),
        data_group: "g".to_string(),
        data_key: "k".to_string(),
        data_block: big,
        data_version: "1".to_string(),
        signature: content_signature_hex(&sk, "g", "k", "small", "1"),
        secret_signature: String::new(),
    };
    assert!(matches!(
        protocol::save(&mut store, &input),
        Err(Error::PayloadTooLarge)
    ));
}

#[test]
fn test_save_block_of_exactly_the_cap_passes_the_size_check() {
    let (sk, pk) = keypair();
    let mut store = Store::new();

    let big = String::from_utf8(vec![66; 16777215]).unwrap();
    let input = save_input(&sk, &pk, "g", "k", &big, "1", String::new());
    let record = protocol::save(&mut store, &input).unwrap();
    assert_eq!(record.data_block.len(), 16777215);
}

#[test]
fn test_malformed_inputs() {
    let (sk, pk) = keypair();
    let mut store = Store::new();

    let mut input = save_input(&sk, &pk, "g", "k", "data", "1", String::new());
    input.public_key = "nothex".to_string();
    assert!(matches!(
        protocol::save(&mut store, &input),
        Err(Error::MalformedInput)
    ));

    let mut input = save_input(&sk, &pk, "g", "k", "data", "1", String::new());
    input.signature = "AB".to_string();
    assert!(matches!(
        protocol::save(&mut store, &input),
        Err(Error::MalformedInput)
    ));

    let mut input = save_input(&sk, &pk, "g", "k", "data", "1", String::new());
    input.secret_signature = "ZZ".to_string();
    assert!(matches!(
        protocol::save(&mut store, &input),
        Err(Error::MalformedInput)
    ));

    assert_eq!(protocol::check(&store, "XY"), Err(Error::MalformedInput));
    let del = DeleteInput { secret_signature: "bad".to_string() };
    assert_eq!(
        protocol::delete(&mut store, &hex_from_point(&pk), &"g".to_string(), &"k".to_string(), &del),
        Err(Error::MalformedInput)
    );
}

#[test]
fn test_delete_missing_record_is_not_found() {
    let (sk, pk) = keypair();
    let mut store = Store::new();
    let del = DeleteInput { secret_signature: secret_signature_hex(&sk, &[1u8; 32]) };
    assert_eq!(
        protocol::delete(&mut store, &hex_from_point(&pk), &"g".to_string(), &"k".to_string(), &del),
        Err(Error::NotFound)
    );
}

#[test]
fn test_listing_operations() {
    let (sk, pk) = keypair();
    let pk_hex = hex_from_point(&pk);
    let mut store = Store::new();

    for (g, k, b) in [("g1", "k1", "a"), ("g1", "k2", "b"), ("g2", "k3", "c")] {
        let input = save_input(&sk, &pk, g, k, b, "1", String::new());
        protocol::save(&mut store, &input).unwrap();
    }

    assert_eq!(protocol::groups(&store, &pk_hex), Ok(vec![
        "g1".to_string(),
        "g2".to_string()
    ]));
    assert_eq!(protocol::keys(&store, &pk_hex, &"g1".to_string()), Ok(vec![
        "k1".to_string(),
        "k2".to_string()
    ]));
    let listed = protocol::list(&store, &pk_hex, &"g1".to_string()).unwrap();
    assert_eq!(listed.len(), 2);
    assert_eq!(listed[0].data_block, "a");
    assert_eq!(listed[1].data_block, "b");
    let got = protocol::get(&store, &pk_hex, &"g2".to_string(), &"k3".to_string()).unwrap();
    assert_eq!(got.data_block, "c");

    let other_hex = "0".repeat(128);
    assert_eq!(protocol::check(&store, &other_hex), Ok(false));
    assert_eq!(protocol::groups(&store, &other_hex), Ok(vec![]));
}
