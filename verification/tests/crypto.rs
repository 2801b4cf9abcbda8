use blockstore::{
    check_data_block_size, check_data_signature, check_secret_signature, generate_secret, Bigi,
    Point,
};
use sha2::Digest;

fn keypair() -> (libsecp256k1::SecretKey, Point) {
    let sk = libsecp256k1::SecretKey::parse(&[7u8; 32]).unwrap();
    let pk = libsecp256k1::PublicKey::from_secret_key(&sk);
    let ser = pk.serialize();
    let mut x = [0u8; 32];
    let mut y = [0u8; 32];
    x.copy_from_slice(&ser[1..33]);
    y.copy_from_slice(&ser[33..65]);
    (sk, Point { x: Bigi { bytes: x }, y: Bigi { bytes: y } })
}

fn signature_to_pair(sig: &libsecp256k1::Signature) -> (Bigi, Bigi) {
    let ser = sig.serialize();
    let mut r = [0u8; 32];
    let mut s = [0u8; 32];
    r.copy_from_slice(&ser[0..32]);
    s.copy_from_slice(&ser[32..64]);
    (Bigi { bytes: r }, Bigi { bytes: s })
}

fn sign_content(
    sk: &libsecp256k1::SecretKey,
    group: &str,
    key: &str,
    block: &str,
    version: &str,
) -> (Bigi, Bigi) {
    let mut hasher = sha2::Sha256::new();
    hasher.update(group.as_bytes());
    hasher.update(key.as_bytes());
    hasher.update(block.as_bytes());
    hasher.update(version.as_bytes());
    let hash = hasher.finalize();
    let msg = libsecp256k1::Message::parse_slice(&hash).unwrap();
    let (sig, _) = libsecp256k1::sign(&msg, sk);
    signature_to_pair(&sig)
}

fn sign_secret(sk: &libsecp256k1::SecretKey, secret: &[u8]) -> (Bigi, Bigi) {
    let msg = libsecp256k1::Message::parse_slice(secret).unwrap();
    let (sig, _) = libsecp256k1::sign(&msg, sk);
    signature_to_pair(&sig)
}

#[test]
fn test_generate_secret() {
    let secret = generate_secret();
    assert_eq!(secret.len(), 256 / 8);
}

#[test]
fn test_check_data_block_size() {
    assert_eq!(
        check_data_block_size(&String::from_utf8(vec![65; 100]).unwrap()),
        true
    );
    assert_eq!(
        check_data_block_size(&String::from_utf8(vec![65; 30000000]).unwrap()),
        false
    );
}

#[test]
fn test_check_data_block_size_boundary() {
    assert_eq!(
        check_data_block_size(&String::from_utf8(vec![65; 16777215]).unwrap()),
        true
    );
    assert_eq!(
        check_data_block_size(&String::from_utf8(vec![65; 16777216]).unwrap()),
        false
    );
}

#[test]
fn test_check_data_signature() {
    let (private_key, public_key) = keypair();

    let data_group: String = "My group".to_string();
    let data_key: String = "My data key".to_string();
    let data_block: String = "My shared data block".to_string();
    let data_version: String = "1".to_string();

    let signature = sign_content(&private_key, &data_group, &data_key, &data_block, &data_version);

    assert_eq!(
        check_data_signature(
            &public_key,
            &data_group,
            &data_key,
            &data_block,
            &data_version,
            &signature
        ),
        true
    );
}

#[test]
fn test_check_secret_signature() {
    let (private_key, public_key) = keypair();

    let secret = generate_secret();

    let secret_signature = sign_secret(&private_key, &secret);

    assert_eq!(
        check_secret_signature(&public_key, &secret, &secret_signature),
        true
    );
}

#[test]
fn test_signature_binding() {
    let (sk, pk) = keypair();
    let signature = sign_content(&sk, "group", "key", "block", "version");
    assert!(check_data_signature(
        &pk,
        &"group".to_string(),
        &"key".to_string(),
        &"block".to_string(),
        &"version".to_string(),
        &signature
    ));
    let cases = [
        ("hroup", "key", "block", "version"),
        ("group", "kez", "block", "version"),
        ("group", "key", "clock", "version"),
        ("group", "key", "block", "versioo"),
    ];
    for (g, k, b, v) in cases {
        assert!(!check_data_signature(
            &pk,
            &g.to_string(),
            &k.to_string(),
            &b.to_string(),
            &v.to_string(),
            &signature
        ));
    }
}

#[test]
fn test_signature_rejects_other_key() {
    let (sk, _) = keypair();
    let other_sk = libsecp256k1::SecretKey::parse(&[9u8; 32]).unwrap();
    let other_pk_ser = libsecp256k1::PublicKey::from_secret_key(&other_sk).serialize();
    let mut x = [0u8; 32];
    let mut y = [0u8; 32];
    x.copy_from_slice(&other_pk_ser[1..33]);
    y.copy_from_slice(&other_pk_ser[33..65]);
    let other_pk = Point { x: Bigi { bytes: x }, y: Bigi { bytes: y } };
    let signature = sign_content(&sk, "g", "k", "b", "v");
    assert!(!check_data_signature(
        &other_pk,
        &"g".to_string(),
        &"k".to_string(),
        &"b".to_string(),
        &"v".to_string(),
        &signature
    ));
}

#[test]
fn test_secret_signature_rejects_other_secret() {
    let (sk, pk) = keypair();
    let secret = vec![5u8; 32];
    let other = vec![6u8; 32];
    let sig = sign_secret(&sk, &secret);
    assert!(check_secret_signature(&pk, &secret, &sig));
    assert!(!check_secret_signature(&pk, &other, &sig));
}
