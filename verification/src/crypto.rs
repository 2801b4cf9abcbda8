use vstd::prelude::*;

use rand::Rng;
use sha2::Digest;

use crate::types::{Bigi, Point};
use vstd::string::StrSliceExecFns;
use vstd::utf8::encode_utf8;

verus! {

/// Bytes in a secret: 256 bits.
pub const SECRET_LENGTH: usize = 32;

/// What SHA-256 returns for a byte string; a function of the bytes alone.
pub uninterp spec fn sha256_of(data: Seq<u8>) -> Seq<u8>;

/// Whether parsing the public key (affine coordinates, 32 bytes each),
/// the 32-byte message and the signature components succeeds and the
/// ECDSA signature over secp256k1 then verifies; a function of those
/// bytes alone.
pub uninterp spec fn secp256k1_verifies(
    pkx: Seq<u8>,
    pky: Seq<u8>,
    msg: Seq<u8>,
    sig_r: Seq<u8>,
    sig_s: Seq<u8>,
) -> bool;

/// Relies on sha2::Sha256::digest: a 32-byte digest that depends on the
/// input bytes alone.
#[verifier::external_body]
fn sha256(data: &[u8]) -> (r: Vec<u8>)
    ensures
        r@ == sha256_of(data@),
        r@.len() == 32,
{
    sha2::Sha256::digest(data).to_vec()
}

/// Relies on libsecp256k1::verify together with PublicKey::parse,
/// Signature::parse_standard and Message::parse_slice: the outcome is a
/// function of the key, message and signature bytes alone, and an
/// off-curve key, an out-of-range signature component or a message that
/// is not 32 bytes long is rejected.
#[verifier::external_body]
fn secp_verify(public_key: &Point, message: &[u8], signature: &(Bigi, Bigi)) -> (r: bool)
    ensures
        r == (message@.len() == 32 && secp256k1_verifies(
            public_key.x@,
            public_key.y@,
            message@,
            signature.0@,
            signature.1@,
        )),
{
    let mut pk_bytes = [4u8; 65];
    pk_bytes[1..33].copy_from_slice(&public_key.x.bytes);
    pk_bytes[33..65].copy_from_slice(&public_key.y.bytes);
    let mut sig_bytes = [0u8; 64];
    sig_bytes[0..32].copy_from_slice(&signature.0.bytes);
    sig_bytes[32..64].copy_from_slice(&signature.1.bytes);
    let parsed = (
        libsecp256k1::PublicKey::parse(&pk_bytes),
        libsecp256k1::Signature::parse_standard(&sig_bytes),
        libsecp256k1::Message::parse_slice(message),
    );
    match parsed {
        (Ok(pk), Ok(sig), Ok(msg)) => libsecp256k1::verify(&msg, &sig, &pk),
        _ => false,
    }
}

/// Relies on rand::thread_rng and Rng::gen: 32 cryptographically random
/// bytes; only the length is promised of the result.
#[verifier::external_body]
pub fn generate_secret() -> (r: Vec<u8>)
    ensures
        r@.len() == 32,
{
    let mut rng = rand::thread_rng();
    (0..32).map(|_| rng.gen::<u8>()).collect()
}

/// The canonical content message: the UTF-8 bytes of group, key, block
/// and version, concatenated in that order. The order is part of the
/// protocol: changing it invalidates every issued signature.
pub open spec fn content_bytes(
    group: Seq<char>,
    key: Seq<char>,
    block: Seq<char>,
    version: Seq<char>,
) -> Seq<u8> {
    encode_utf8(group) + encode_utf8(key) + encode_utf8(block) + encode_utf8(version)
}

/// Whether a signature authorizes the exact (group, key, block, version)
/// tuple under the given owner key: it must verify against the SHA-256
/// digest of the canonical content message.
pub open spec fn content_signature_ok(
    pkx: Seq<u8>,
    pky: Seq<u8>,
    group: Seq<char>,
    key: Seq<char>,
    block: Seq<char>,
    version: Seq<char>,
    sig_r: Seq<u8>,
    sig_s: Seq<u8>,
) -> bool {
    secp256k1_verifies(pkx, pky, sha256_of(content_bytes(group, key, block, version)), sig_r, sig_s)
}

/// Whether a signature proves possession of the given secret under the
/// given owner key: the raw secret bytes are the signed message.
pub open spec fn secret_signature_ok(
    pkx: Seq<u8>,
    pky: Seq<u8>,
    secret: Seq<u8>,
    sig_r: Seq<u8>,
    sig_s: Seq<u8>,
) -> bool {
    secret.len() == 32 && secp256k1_verifies(pkx, pky, secret, sig_r, sig_s)
}

/// Whether a data block is within the maximum payload size.
pub open spec fn block_size_ok(block: Seq<char>) -> bool {
    encode_utf8(block).len() < 16777216
}

/// A data block must stay under 2^24 bytes (16 MB).
pub fn check_data_block_size(data_block: &String) -> (r: bool)
    ensures
        r == block_size_ok(data_block@),
{
    data_block.as_str().as_bytes().len() < 16777216
}

/// Verifies the content signature over the canonical hash of
/// (group, key, block, version) under the owner's public key.
pub fn check_data_signature(
    public_key: &Point,
    data_group: &String,
    data_key: &String,
    data_block: &String,
    data_version: &String,
    signature: &(Bigi, Bigi),
) -> (r: bool)
    ensures
        r == content_signature_ok(
            public_key.x@,
            public_key.y@,
            data_group@,
            data_key@,
            data_block@,
            data_version@,
            signature.0@,
            signature.1@,
        ),
{
    let mut msg: Vec<u8> = Vec::new();
    let mut part = data_group.as_str().as_bytes_vec();
    msg.append(&mut part);
    let mut part = data_key.as_str().as_bytes_vec();
    msg.append(&mut part);
    let mut part = data_block.as_str().as_bytes_vec();
    msg.append(&mut part);
    let mut part = data_version.as_str().as_bytes_vec();
    msg.append(&mut part);
    proof {
        assert(msg@ =~= content_bytes(data_group@, data_key@, data_block@, data_version@));
    }
    let hash = sha256(msg.as_slice());
    secp_verify(public_key, hash.as_slice(), signature)
}

/// Verifies a secret signature: the raw stored secret is the message.
pub fn check_secret_signature(
    public_key: &Point,
    secret: &Vec<u8>,
    secret_signature: &(Bigi, Bigi),
) -> (r: bool)
    ensures
        r == secret_signature_ok(
            public_key.x@,
            public_key.y@,
            secret@,
            secret_signature.0@,
            secret_signature.1@,
        ),
{
    secp_verify(public_key, secret.as_slice(), secret_signature)
}

} // verus!
