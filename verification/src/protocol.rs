use vstd::prelude::*;

use crate::codec::{hex_to_bigi_pair, hex_to_point, pair_of_hex, point_of_hex};
use crate::crypto::{
    block_size_ok, check_data_block_size, check_data_signature, check_secret_signature,
    content_signature_ok, generate_secret, secret_signature_ok,
};
use crate::store::{
    has_block, has_owner, lemma_id_idx_unique, lemma_match_idx_unique,
    lemma_remove_only_match, lemma_update_preserves_wf, match_idx, model_matches, new_block_model,
    store_models_wf, updated_block_model, Block, BlockModel, Store,
};
use crate::types::Error;
use vstd::string::StrSliceExecFns;

verus! {

/// One write request, as it arrives over the wire: every cryptographic
/// value in fixed-width hexadecimal. An empty secret signature stands
/// for none.
pub struct SaveInput {
    pub public_key: String,
    pub data_group: String,
    pub data_key: String,
    pub data_block: String,
    pub data_version: String,
    pub signature: String,
    pub secret_signature: String,
}

/// The mathematical content of a write request.
#[verifier::ext_equal]
pub ghost struct SaveInputModel {
    pub public_key: Seq<char>,
    pub data_group: Seq<char>,
    pub data_key: Seq<char>,
    pub data_block: Seq<char>,
    pub data_version: Seq<char>,
    pub signature: Seq<char>,
    pub secret_signature: Seq<char>,
}

impl View for SaveInput {
    type V = SaveInputModel;

    open spec fn view(&self) -> SaveInputModel {
        SaveInputModel {
            public_key: self.public_key@,
            data_group: self.data_group@,
            data_key: self.data_key@,
            data_block: self.data_block@,
            data_version: self.data_version@,
            signature: self.signature@,
            secret_signature: self.secret_signature@,
        }
    }
}

/// One delete request: the proof of possession of the current secret.
pub struct DeleteInput {
    pub secret_signature: String,
}

impl View for DeleteInput {
    type V = Seq<char>;

    open spec fn view(&self) -> Seq<char> {
        self.secret_signature@
    }
}

/// Whether every hexadecimal field of a write request decodes: the
/// public key, the content signature, and the secret signature when one
/// is given at all.
pub open spec fn save_input_wire_ok(m: SaveInputModel) -> bool {
    &&& point_of_hex(m.public_key) is Some
    &&& pair_of_hex(m.signature) is Some
    &&& (m.secret_signature.len() == 0 || pair_of_hex(m.secret_signature) is Some)
}

/// What a write does, given the minted secret and the next free
/// identifier: the store it leaves behind and the record or error it
/// answers. Checks run in order: decoding, the size cap, the content
/// signature, and, for an existing record, the proof of possession of
/// the current secret; creation asks for no such proof.
pub open spec fn save_spec(
    s: Seq<BlockModel>,
    m: SaveInputModel,
    fresh: Seq<u8>,
    next_id: u32,
) -> (Seq<BlockModel>, Result<BlockModel, Error>) {
    if !save_input_wire_ok(m) {
        (s, Err(Error::MalformedInput))
    } else {
        let pk = point_of_hex(m.public_key).unwrap();
        let sig = pair_of_hex(m.signature).unwrap();
        if !block_size_ok(m.data_block) {
            (s, Err(Error::PayloadTooLarge))
        } else if !content_signature_ok(
            pk.0,
            pk.1,
            m.data_group,
            m.data_key,
            m.data_block,
            m.data_version,
            sig.0,
            sig.1,
        ) {
            (s, Err(Error::Forbidden))
        } else if has_block(s, pk, m.data_group, m.data_key) {
            if m.secret_signature.len() == 0 {
                (s, Err(Error::Forbidden))
            } else {
                let i = match_idx(s, pk, m.data_group, m.data_key);
                let ss = pair_of_hex(m.secret_signature).unwrap();
                if secret_signature_ok(pk.0, pk.1, s[i].secret, ss.0, ss.1) {
                    let b2 = updated_block_model(
                        s[i],
                        m.data_block,
                        m.data_version,
                        sig,
                        fresh,
                    );
                    (s.update(i, b2), Ok(b2))
                } else {
                    (s, Err(Error::Forbidden))
                }
            }
        } else {
            let b2 = new_block_model(
                next_id,
                pk,
                m.data_group,
                m.data_key,
                m.data_block,
                m.data_version,
                sig,
                fresh,
            );
            (s.push(b2), Ok(b2))
        }
    }
}

/// What a delete does: the store it leaves behind and its answer.
/// A record is removed only against a signature over its current secret.
pub open spec fn delete_spec(
    s: Seq<BlockModel>,
    public_key_hex: Seq<char>,
    g: Seq<char>,
    k: Seq<char>,
    secret_signature_hex: Seq<char>,
) -> (Seq<BlockModel>, Result<(), Error>) {
    if point_of_hex(public_key_hex) is None || pair_of_hex(secret_signature_hex) is None {
        (s, Err(Error::MalformedInput))
    } else {
        let pk = point_of_hex(public_key_hex).unwrap();
        let ss = pair_of_hex(secret_signature_hex).unwrap();
        if !has_block(s, pk, g, k) {
            (s, Err(Error::NotFound))
        } else {
            let i = match_idx(s, pk, g, k);
            if secret_signature_ok(pk.0, pk.1, s[i].secret, ss.0, ss.1) {
                (s.remove(i), Ok(()))
            } else {
                (s, Err(Error::Forbidden))
            }
        }
    }
}

/// Whether an answered record carries exactly the given content.
pub open spec fn result_models(r: Result<Block, Error>, m: Result<BlockModel, Error>) -> bool {
    match (r, m) {
        (Ok(b), Ok(bm)) => b@ == bm,
        (Err(e), Err(em)) => e == em,
        _ => false,
    }
}

/// Handles a write with the given freshly minted secret: creates the
/// record when the composite key holds none, else updates it against a
/// valid proof of possession of the current secret. Either success
/// stores and answers the minted secret.
pub fn save_with_secret(store: &mut Store, input: &SaveInput, fresh: Vec<u8>) -> (r: Result<
    Block,
    Error,
>)
    requires
        old(store).wf(),
        old(store).next_id < u32::MAX,
        fresh@.len() == 32,
    ensures
        final(store).wf(),
        final(store)@ == save_spec(old(store)@, input@, fresh@, old(store).next_id).0,
        result_models(r, save_spec(old(store)@, input@, fresh@, old(store).next_id).1),
{
    let public_key = match hex_to_point(input.public_key.as_str()) {
        Ok(p) => p,
        Err(e) => {
            return Err(e);
        },
    };
    let signature = match hex_to_bigi_pair(input.signature.as_str()) {
        Ok(sg) => sg,
        Err(e) => {
            return Err(e);
        },
    };
    let secret_signature_option = if !input.secret_signature.as_str().is_empty() {
        match hex_to_bigi_pair(input.secret_signature.as_str()) {
            Ok(ss) => Some(ss),
            Err(e) => {
                return Err(e);
            },
        }
    } else {
        None
    };
    if check_data_block_size(&input.data_block) {
        if check_data_signature(
            &public_key,
            &input.data_group,
            &input.data_key,
            &input.data_block,
            &input.data_version,
            &signature,
        ) {
            match Block::get(store, &public_key, &input.data_group, &input.data_key) {
                Some(record) => {
                    match secret_signature_option {
                        Some(secret_signature) => {
                            if check_secret_signature(
                                &public_key,
                                &record.secret,
                                &secret_signature,
                            ) {
                                proof {
                                    lemma_id_idx_unique(
                                        store@,
                                        record.id,
                                        match_idx(
                                            store@,
                                            public_key@,
                                            input.data_group@,
                                            input.data_key@,
                                        ),
                                    );
                                }
                                Block::update(
                                    store,
                                    record.id,
                                    &input.data_block,
                                    &input.data_version,
                                    &signature,
                                    &fresh,
                                );
                                proof {
                                    let i = match_idx(
                                        old(store)@,
                                        public_key@,
                                        input.data_group@,
                                        input.data_key@,
                                    );
                                    lemma_match_idx_unique(
                                        store@,
                                        public_key@,
                                        input.data_group@,
                                        input.data_key@,
                                        i,
                                    );
                                }
                                match Block::get(
                                    store,
                                    &public_key,
                                    &input.data_group,
                                    &input.data_key,
                                ) {
                                    Some(new_record) => Ok(new_record),
                                    None => {
                                        proof {
                                            assert(false);
                                        }
                                        Err(Error::NotFound)
                                    },
                                }
                            } else {
                                Err(Error::Forbidden)
                            }
                        },
                        None => Err(Error::Forbidden),
                    }
                },
                None => {
                    Block::insert(
                        store,
                        &public_key,
                        &input.data_group,
                        &input.data_key,
                        &input.data_block,
                        &input.data_version,
                        &signature,
                        &fresh,
                    );
                    proof {
                        let s2 = store@;
                        assert(model_matches(
                            s2[s2.len() - 1],
                            public_key@,
                            input.data_group@,
                            input.data_key@,
                        ));
                        lemma_match_idx_unique(
                            s2,
                            public_key@,
                            input.data_group@,
                            input.data_key@,
                            s2.len() - 1,
                        );
                    }
                    match Block::get(store, &public_key, &input.data_group, &input.data_key) {
                        Some(new_record) => Ok(new_record),
                        None => {
                            proof {
                                assert(false);
                            }
                            Err(Error::NotFound)
                        },
                    }
                },
            }
        } else {
            Err(Error::Forbidden)
        }
    } else {
        Err(Error::PayloadTooLarge)
    }
}

/// Whether a write with some 32-byte minted secret turns the first
/// store into the second and answers as given.
pub open spec fn saves_to(
    s1: Seq<BlockModel>,
    m: SaveInputModel,
    fresh: Seq<u8>,
    next_id: u32,
    s2: Seq<BlockModel>,
    r: Result<Block, Error>,
) -> bool {
    &&& fresh.len() == 32
    &&& save_spec(s1, m, fresh, next_id).0 == s2
    &&& result_models(r, save_spec(s1, m, fresh, next_id).1)
}

/// Handles a write request: mints a fresh random secret and stores it
/// with the record on success. Which secret is minted is left open; all
/// else follows the write rules. The whole read-verify-write sequence
/// runs under the exclusive borrow of the store, so two updates cannot
/// both pass against the same stale secret.
pub fn save(store: &mut Store, input: &SaveInput) -> (r: Result<Block, Error>)
    requires
        old(store).wf(),
        old(store).next_id < u32::MAX,
    ensures
        final(store).wf(),
        exists|fresh: Seq<u8>|
            #[trigger] saves_to(old(store)@, input@, fresh, old(store).next_id, final(store)@, r),
{
    let fresh = generate_secret();
    let ghost fresh_model = fresh@;
    let r = save_with_secret(store, input, fresh);
    proof {
        assert(saves_to(
            old(store)@,
            input@,
            fresh_model,
            old(store).next_id,
            store@,
            r,
        ));
    }
    r
}

/// Handles a delete request: removes the record at the composite key
/// only against a signature over its current secret.
pub fn delete(
    store: &mut Store,
    public_key_hex: &str,
    data_group: &String,
    data_key: &String,
    input: &DeleteInput,
) -> (r: Result<(), Error>)
    requires
        old(store).wf(),
    ensures
        final(store).wf(),
        final(store)@ == delete_spec(
            old(store)@,
            public_key_hex@,
            data_group@,
            data_key@,
            input@,
        ).0,
        r == delete_spec(old(store)@, public_key_hex@, data_group@, data_key@, input@).1,
{
    let public_key = match hex_to_point(public_key_hex) {
        Ok(p) => p,
        Err(e) => {
            return Err(e);
        },
    };
    let secret_signature = match hex_to_bigi_pair(input.secret_signature.as_str()) {
        Ok(ss) => ss,
        Err(e) => {
            return Err(e);
        },
    };
    match Block::get(store, &public_key, data_group, data_key) {
        Some(record) => {
            if check_secret_signature(&public_key, &record.secret, &secret_signature) {
                proof {
                    lemma_id_idx_unique(
                        store@,
                        record.id,
                        match_idx(store@, public_key@, data_group@, data_key@),
                    );
                }
                Block::delete(store, record.id);
                Ok(())
            } else {
                Err(Error::Forbidden)
            }
        },
        None => Err(Error::NotFound),
    }
}

/// Whether the owner named by the hexadecimal key has any record.
pub fn check(store: &Store, public_key_hex: &str) -> (r: Result<bool, Error>)
    ensures
        match r {
            Ok(b) => point_of_hex(public_key_hex@) is Some && b == has_owner(
                store@,
                point_of_hex(public_key_hex@).unwrap(),
            ),
            Err(e) => e == Error::MalformedInput && point_of_hex(public_key_hex@) is None,
        },
{
    let public_key = match hex_to_point(public_key_hex) {
        Ok(p) => p,
        Err(e) => {
            return Err(e);
        },
    };
    Ok(Block::check(store, &public_key))
}

/// The set of groups in which the owner has a record, each named once,
/// ordered by first appearance.
pub fn groups(store: &Store, public_key_hex: &str) -> (r: Result<Vec<String>, Error>)
    ensures
        match r {
            Ok(v) => point_of_hex(public_key_hex@) is Some && v@.map_values(|s: String| s@)
                == crate::store::groups_of(store@, point_of_hex(public_key_hex@).unwrap()),
            Err(e) => e == Error::MalformedInput && point_of_hex(public_key_hex@) is None,
        },
{
    let public_key = match hex_to_point(public_key_hex) {
        Ok(p) => p,
        Err(e) => {
            return Err(e);
        },
    };
    Ok(Block::groups(store, &public_key))
}

/// The keys of the owner's records within one group.
pub fn keys(store: &Store, public_key_hex: &str, data_group: &String) -> (r: Result<
    Vec<String>,
    Error,
>)
    ensures
        match r {
            Ok(v) => point_of_hex(public_key_hex@) is Some && v@.map_values(|s: String| s@)
                == crate::store::keys_of(
                store@,
                point_of_hex(public_key_hex@).unwrap(),
                data_group@,
            ),
            Err(e) => e == Error::MalformedInput && point_of_hex(public_key_hex@) is None,
        },
{
    let public_key = match hex_to_point(public_key_hex) {
        Ok(p) => p,
        Err(e) => {
            return Err(e);
        },
    };
    Ok(Block::keys(store, &public_key, data_group))
}

/// A record as a read answers it: every stored field, with the secret
/// withheld — a secret is disclosed only by the write that set it.
pub open spec fn redacted_model(b: BlockModel) -> BlockModel {
    BlockModel {
        id: b.id,
        public_key: b.public_key,
        data_group: b.data_group,
        data_key: b.data_key,
        data_block: b.data_block,
        data_version: b.data_version,
        signature: b.signature,
        secret: Seq::empty(),
    }
}

/// A copy of a record with the secret withheld.
fn redact(b: &Block) -> (r: Block)
    ensures
        r@ == redacted_model(b@),
{
    let r = Block {
        id: b.id,
        public_key: b.public_key,
        data_group: b.data_group.clone(),
        data_key: b.data_key.clone(),
        data_block: b.data_block.clone(),
        data_version: b.data_version.clone(),
        signature: b.signature,
        secret: Vec::new(),
    };
    proof {
        assert(r@ =~= redacted_model(b@));
    }
    r
}

/// The owner's records within one group, each with its secret withheld.
pub fn list(store: &Store, public_key_hex: &str, data_group: &String) -> (r: Result<
    Vec<Block>,
    Error,
>)
    ensures
        match r {
            Ok(v) => point_of_hex(public_key_hex@) is Some && v@.map_values(|b: Block| b@)
                == crate::store::list_of(
                store@,
                point_of_hex(public_key_hex@).unwrap(),
                data_group@,
            ).map_values(|bm: BlockModel| redacted_model(bm)),
            Err(e) => e == Error::MalformedInput && point_of_hex(public_key_hex@) is None,
        },
{
    let public_key = match hex_to_point(public_key_hex) {
        Ok(p) => p,
        Err(e) => {
            return Err(e);
        },
    };
    let full = Block::list(store, &public_key, data_group);
    let ghost models = crate::store::list_of(store@, public_key@, data_group@);
    let mut r: Vec<Block> = Vec::new();
    let mut i: usize = 0;
    while i < full.len()
        invariant
            full@.map_values(|b: Block| b@) == models,
            0 <= i <= full@.len(),
            r@.len() == i,
            forall|j: int| 0 <= j < i ==> r@[j]@ == redacted_model(models[j]),
        decreases full@.len() - i,
    {
        assert(full@[i as int]@ == models[i as int]);
        r.push(redact(&full[i]));
        i = i + 1;
    }
    proof {
        assert(r@.map_values(|b: Block| b@) =~= models.map_values(
            |bm: BlockModel| redacted_model(bm),
        ));
    }
    Ok(r)
}

/// The record at the composite key named by the hexadecimal owner key,
/// with its secret withheld.
pub fn get(store: &Store, public_key_hex: &str, data_group: &String, data_key: &String) -> (r:
    Result<Block, Error>)
    requires
        store.wf(),
    ensures
        match r {
            Ok(b) => {
                &&& point_of_hex(public_key_hex@) is Some
                &&& has_block(
                    store@,
                    point_of_hex(public_key_hex@).unwrap(),
                    data_group@,
                    data_key@,
                )
                &&& b@ == redacted_model(
                    store@[match_idx(
                        store@,
                        point_of_hex(public_key_hex@).unwrap(),
                        data_group@,
                        data_key@,
                    )],
                )
            },
            Err(e) => (e == Error::MalformedInput && point_of_hex(public_key_hex@) is None) || (e
                == Error::NotFound && point_of_hex(public_key_hex@) is Some && !has_block(
                store@,
                point_of_hex(public_key_hex@).unwrap(),
                data_group@,
                data_key@,
            )),
        },
{
    let public_key = match hex_to_point(public_key_hex) {
        Ok(p) => p,
        Err(e) => {
            return Err(e);
        },
    };
    match Block::get(store, &public_key, data_group, data_key) {
        Some(record) => Ok(redact(&record)),
        None => Err(Error::NotFound),
    }
}

/// Creation is permissionless, update is not: on a store holding no
/// record at the composite key, a write whose fields decode, whose
/// block is within the size cap and whose content signature verifies
/// succeeds with no secret proof and stores the minted secret; a second
/// write to the same key, with a valid content signature of its own but
/// still no secret signature, is refused and leaves the store as the
/// first write made it.
pub proof fn lemma_creation_permissionless_update_not(
    s: Seq<BlockModel>,
    m1: SaveInputModel,
    fresh1: Seq<u8>,
    nid1: u32,
    m2: SaveInputModel,
    fresh2: Seq<u8>,
    nid2: u32,
)
    requires
        save_input_wire_ok(m1),
        m1.secret_signature.len() == 0,
        !has_block(s, point_of_hex(m1.public_key).unwrap(), m1.data_group, m1.data_key),
        block_size_ok(m1.data_block),
        content_signature_ok(
            point_of_hex(m1.public_key).unwrap().0,
            point_of_hex(m1.public_key).unwrap().1,
            m1.data_group,
            m1.data_key,
            m1.data_block,
            m1.data_version,
            pair_of_hex(m1.signature).unwrap().0,
            pair_of_hex(m1.signature).unwrap().1,
        ),
        save_input_wire_ok(m2),
        m2.public_key == m1.public_key,
        m2.data_group == m1.data_group,
        m2.data_key == m1.data_key,
        m2.secret_signature.len() == 0,
        block_size_ok(m2.data_block),
        content_signature_ok(
            point_of_hex(m2.public_key).unwrap().0,
            point_of_hex(m2.public_key).unwrap().1,
            m2.data_group,
            m2.data_key,
            m2.data_block,
            m2.data_version,
            pair_of_hex(m2.signature).unwrap().0,
            pair_of_hex(m2.signature).unwrap().1,
        ),
    ensures
        ({
            let (s2, r1) = save_spec(s, m1, fresh1, nid1);
            &&& r1 == Ok::<BlockModel, Error>(
                new_block_model(
                    nid1,
                    point_of_hex(m1.public_key).unwrap(),
                    m1.data_group,
                    m1.data_key,
                    m1.data_block,
                    m1.data_version,
                    pair_of_hex(m1.signature).unwrap(),
                    fresh1,
                ),
            )
            &&& s2 == s.push(r1.unwrap())
            &&& save_spec(s2, m2, fresh2, nid2) == (s2, Err::<BlockModel, Error>(Error::Forbidden))
        }),
{
    let pk = point_of_hex(m1.public_key).unwrap();
    let (s2, r1) = save_spec(s, m1, fresh1, nid1);
    let b2 = new_block_model(
        nid1,
        pk,
        m1.data_group,
        m1.data_key,
        m1.data_block,
        m1.data_version,
        pair_of_hex(m1.signature).unwrap(),
        fresh1,
    );
    assert(s2 == s.push(b2));
    assert(model_matches(s2[s2.len() - 1], pk, m2.data_group, m2.data_key));
    assert(has_block(s2, pk, m2.data_group, m2.data_key));
}

/// Secret rotation: a successful update stores and answers the minted
/// secret, which differs from the record's prior one whenever the mint
/// does not repeat it; and a later mutation of the same record whose
/// secret signature does not verify against the new secret is refused,
/// leaving the store as the update made it. (A signature built against
/// the superseded secret is exactly one that fails against the new one,
/// short of a forgery.)
pub proof fn lemma_secret_rotation(
    s: Seq<BlockModel>,
    m: SaveInputModel,
    fresh: Seq<u8>,
    nid: u32,
    m3: SaveInputModel,
    fresh3: Seq<u8>,
    nid3: u32,
)
    requires
        store_models_wf(s),
        save_input_wire_ok(m),
        has_block(s, point_of_hex(m.public_key).unwrap(), m.data_group, m.data_key),
        block_size_ok(m.data_block),
        content_signature_ok(
            point_of_hex(m.public_key).unwrap().0,
            point_of_hex(m.public_key).unwrap().1,
            m.data_group,
            m.data_key,
            m.data_block,
            m.data_version,
            pair_of_hex(m.signature).unwrap().0,
            pair_of_hex(m.signature).unwrap().1,
        ),
        m.secret_signature.len() != 0,
        secret_signature_ok(
            point_of_hex(m.public_key).unwrap().0,
            point_of_hex(m.public_key).unwrap().1,
            s[match_idx(s, point_of_hex(m.public_key).unwrap(), m.data_group, m.data_key)].secret,
            pair_of_hex(m.secret_signature).unwrap().0,
            pair_of_hex(m.secret_signature).unwrap().1,
        ),
        fresh.len() == 32,
        fresh != s[match_idx(
            s,
            point_of_hex(m.public_key).unwrap(),
            m.data_group,
            m.data_key,
        )].secret,
        save_input_wire_ok(m3),
        m3.public_key == m.public_key,
        m3.data_group == m.data_group,
        m3.data_key == m.data_key,
        block_size_ok(m3.data_block),
        content_signature_ok(
            point_of_hex(m3.public_key).unwrap().0,
            point_of_hex(m3.public_key).unwrap().1,
            m3.data_group,
            m3.data_key,
            m3.data_block,
            m3.data_version,
            pair_of_hex(m3.signature).unwrap().0,
            pair_of_hex(m3.signature).unwrap().1,
        ),
        m3.secret_signature.len() != 0,
        !crate::crypto::secp256k1_verifies(
            point_of_hex(m.public_key).unwrap().0,
            point_of_hex(m.public_key).unwrap().1,
            fresh,
            pair_of_hex(m3.secret_signature).unwrap().0,
            pair_of_hex(m3.secret_signature).unwrap().1,
        ),
    ensures
        ({
            let pk = point_of_hex(m.public_key).unwrap();
            let i = match_idx(s, pk, m.data_group, m.data_key);
            let (s2, r) = save_spec(s, m, fresh, nid);
            &&& r is Ok
            &&& r.unwrap().secret == fresh
            &&& r.unwrap().secret != s[i].secret
            &&& s2 == s.update(i, r.unwrap())
            &&& save_spec(s2, m3, fresh3, nid3) == (s2, Err::<BlockModel, Error>(Error::Forbidden))
        }),
{
    let pk = point_of_hex(m.public_key).unwrap();
    let i = match_idx(s, pk, m.data_group, m.data_key);
    assert(0 <= i < s.len() && model_matches(s[i], pk, m.data_group, m.data_key));
    let (s2, r) = save_spec(s, m, fresh, nid);
    let b2 = r.unwrap();
    assert(s2 == s.update(i, b2));
    lemma_update_preserves_wf(s, i, b2);
    assert(model_matches(s2[i], pk, m3.data_group, m3.data_key));
    lemma_match_idx_unique(s2, pk, m3.data_group, m3.data_key, i);
    assert(s2[i].secret == fresh);
}

/// Delete requires the current secret: a delete whose signature does
/// not verify against the record's current secret is refused and
/// changes nothing, while one whose signature does succeeds and leaves
/// no record at the composite key. (A signature over a secret from an
/// earlier rotation is exactly one that fails against the current one,
/// short of a forgery.)
pub proof fn lemma_delete_requires_current_secret(
    s: Seq<BlockModel>,
    public_key_hex: Seq<char>,
    g: Seq<char>,
    k: Seq<char>,
    stale_hex: Seq<char>,
    good_hex: Seq<char>,
)
    requires
        store_models_wf(s),
        point_of_hex(public_key_hex) is Some,
        pair_of_hex(stale_hex) is Some,
        pair_of_hex(good_hex) is Some,
        has_block(s, point_of_hex(public_key_hex).unwrap(), g, k),
        !crate::crypto::secp256k1_verifies(
            point_of_hex(public_key_hex).unwrap().0,
            point_of_hex(public_key_hex).unwrap().1,
            s[match_idx(s, point_of_hex(public_key_hex).unwrap(), g, k)].secret,
            pair_of_hex(stale_hex).unwrap().0,
            pair_of_hex(stale_hex).unwrap().1,
        ),
        secret_signature_ok(
            point_of_hex(public_key_hex).unwrap().0,
            point_of_hex(public_key_hex).unwrap().1,
            s[match_idx(s, point_of_hex(public_key_hex).unwrap(), g, k)].secret,
            pair_of_hex(good_hex).unwrap().0,
            pair_of_hex(good_hex).unwrap().1,
        ),
    ensures
        delete_spec(s, public_key_hex, g, k, stale_hex) == (
            s,
            Err::<(), Error>(Error::Forbidden),
        ),
        ({
            let pk = point_of_hex(public_key_hex).unwrap();
            let (s2, r) = delete_spec(s, public_key_hex, g, k, good_hex);
            &&& r == Ok::<(), Error>(())
            &&& s2 == s.remove(match_idx(s, pk, g, k))
            &&& !has_block(s2, pk, g, k)
        }),
{
    let pk = point_of_hex(public_key_hex).unwrap();
    lemma_remove_only_match(s, pk, g, k);
}

/// A failed check never partially mutates storage: any answer but
/// success leaves the store exactly as it was.
pub proof fn lemma_no_partial_mutation(
    s: Seq<BlockModel>,
    m: SaveInputModel,
    fresh: Seq<u8>,
    nid: u32,
    public_key_hex: Seq<char>,
    g: Seq<char>,
    k: Seq<char>,
    secret_signature_hex: Seq<char>,
)
    ensures
        save_spec(s, m, fresh, nid).1 is Err ==> save_spec(s, m, fresh, nid).0 == s,
        delete_spec(s, public_key_hex, g, k, secret_signature_hex).1 is Err ==> delete_spec(
            s,
            public_key_hex,
            g,
            k,
            secret_signature_hex,
        ).0 == s,
{
}

/// Every stored record's content signature verifies against its
/// current (group, key, block, version) under its owner.
pub open spec fn all_signatures_valid(s: Seq<BlockModel>) -> bool {
    forall|i: int|
        0 <= i < s.len() ==> content_signature_ok(
            (#[trigger] s[i]).public_key.0,
            s[i].public_key.1,
            s[i].data_group,
            s[i].data_key,
            s[i].data_block,
            s[i].data_version,
            s[i].signature.0,
            s[i].signature.1,
        )
}

/// The protocol never persists a record whose content signature does
/// not verify at write time: a write and a delete both keep every
/// stored signature valid against the record it sits on.
pub proof fn lemma_writes_preserve_signature_validity(
    s: Seq<BlockModel>,
    m: SaveInputModel,
    fresh: Seq<u8>,
    nid: u32,
    public_key_hex: Seq<char>,
    g: Seq<char>,
    k: Seq<char>,
    secret_signature_hex: Seq<char>,
)
    requires
        all_signatures_valid(s),
    ensures
        all_signatures_valid(save_spec(s, m, fresh, nid).0),
        all_signatures_valid(
            delete_spec(s, public_key_hex, g, k, secret_signature_hex).0,
        ),
{
    let s2 = save_spec(s, m, fresh, nid).0;
    assert forall|i: int| 0 <= i < s2.len() implies content_signature_ok(
        (#[trigger] s2[i]).public_key.0,
        s2[i].public_key.1,
        s2[i].data_group,
        s2[i].data_key,
        s2[i].data_block,
        s2[i].data_version,
        s2[i].signature.0,
        s2[i].signature.1,
    ) by {
        if s2 != s {
            let pk = point_of_hex(m.public_key).unwrap();
            if has_block(s, pk, m.data_group, m.data_key) {
                let w = match_idx(s, pk, m.data_group, m.data_key);
                if i != w {
                    assert(s2[i] == s[i]);
                }
            } else {
                if i < s.len() {
                    assert(s2[i] == s[i]);
                }
            }
        }
    }
    let s3 = delete_spec(s, public_key_hex, g, k, secret_signature_hex).0;
    assert forall|i: int| 0 <= i < s3.len() implies content_signature_ok(
        (#[trigger] s3[i]).public_key.0,
        s3[i].public_key.1,
        s3[i].data_group,
        s3[i].data_key,
        s3[i].data_block,
        s3[i].data_version,
        s3[i].signature.0,
        s3[i].signature.1,
    ) by {
        if s3 != s {
            let pk = point_of_hex(public_key_hex).unwrap();
            let w = match_idx(s, pk, g, k);
            let i1: int = if i < w {
                i
            } else {
                i + 1
            };
            assert(s3[i] == s[i1]);
        }
    }
}

} // verus!
