use vstd::prelude::*;

use crate::types::{point_eq, Bigi, Point};

verus! {

/// The unit of storage: one record, owned by a public key and addressed
/// by (owner, group, key).
#[derive(Debug)]
pub struct Block {
    pub id: u32,
    pub public_key: Point,
    pub data_group: String,
    pub data_key: String,
    pub data_block: String,
    pub data_version: String,
    pub signature: (Bigi, Bigi),
    pub secret: Vec<u8>,
}

/// The mathematical content of a stored record.
#[verifier::ext_equal]
pub ghost struct BlockModel {
    pub id: u32,
    pub public_key: (Seq<u8>, Seq<u8>),
    pub data_group: Seq<char>,
    pub data_key: Seq<char>,
    pub data_block: Seq<char>,
    pub data_version: Seq<char>,
    pub signature: (Seq<u8>, Seq<u8>),
    pub secret: Seq<u8>,
}

impl View for Block {
    type V = BlockModel;

    open spec fn view(&self) -> BlockModel {
        BlockModel {
            id: self.id,
            public_key: self.public_key@,
            data_group: self.data_group@,
            data_key: self.data_key@,
            data_block: self.data_block@,
            data_version: self.data_version@,
            signature: (self.signature.0@, self.signature.1@),
            secret: self.secret@,
        }
    }
}

/// A byte-for-byte copy of a byte vector.
fn copy_bytes(v: &Vec<u8>) -> (r: Vec<u8>)
    ensures
        r@ == v@,
{
    let mut r: Vec<u8> = Vec::new();
    let mut i: usize = 0;
    while i < v.len()
        invariant
            0 <= i <= v@.len(),
            r@ == v@.subrange(0, i as int),
        decreases v@.len() - i,
    {
        r.push(v[i]);
        i = i + 1;
        proof {
            assert(r@ =~= v@.subrange(0, i as int));
        }
    }
    proof {
        assert(v@.subrange(0, v@.len() as int) =~= v@);
    }
    r
}

impl Clone for Block {
    /// A copy with the very same content.
    fn clone(&self) -> (r: Self)
        ensures
            r@ == self@,
    {
        let r = Block {
            id: self.id,
            public_key: self.public_key,
            data_group: self.data_group.clone(),
            data_key: self.data_key.clone(),
            data_block: self.data_block.clone(),
            data_version: self.data_version.clone(),
            signature: self.signature,
            secret: copy_bytes(&self.secret),
        };
        proof {
            assert(r@ =~= self@);
        }
        r
    }
}

/// Whether a record belongs to the given owner.
pub open spec fn model_matches_owner(b: BlockModel, pk: (Seq<u8>, Seq<u8>)) -> bool {
    b.public_key == pk
}

/// Whether a record belongs to the given owner and group.
pub open spec fn model_matches_group(b: BlockModel, pk: (Seq<u8>, Seq<u8>), g: Seq<char>) -> bool {
    b.public_key == pk && b.data_group == g
}

/// Whether a record sits at the given composite key.
pub open spec fn model_matches(
    b: BlockModel,
    pk: (Seq<u8>, Seq<u8>),
    g: Seq<char>,
    k: Seq<char>,
) -> bool {
    b.public_key == pk && b.data_group == g && b.data_key == k
}

/// Whether some record of the store belongs to the given owner.
pub open spec fn has_owner(s: Seq<BlockModel>, pk: (Seq<u8>, Seq<u8>)) -> bool {
    exists|i: int| 0 <= i < s.len() && #[trigger] model_matches_owner(s[i], pk)
}

/// Whether a record sits at the given composite key.
pub open spec fn has_block(
    s: Seq<BlockModel>,
    pk: (Seq<u8>, Seq<u8>),
    g: Seq<char>,
    k: Seq<char>,
) -> bool {
    exists|i: int| 0 <= i < s.len() && #[trigger] model_matches(s[i], pk, g, k)
}

/// The position of the record at the given composite key.
pub open spec fn match_idx(
    s: Seq<BlockModel>,
    pk: (Seq<u8>, Seq<u8>),
    g: Seq<char>,
    k: Seq<char>,
) -> int {
    choose|i: int| 0 <= i < s.len() && #[trigger] model_matches(s[i], pk, g, k)
}

/// Whether some record carries the given internal identifier.
pub open spec fn has_id(s: Seq<BlockModel>, id: u32) -> bool {
    exists|i: int| 0 <= i < s.len() && (#[trigger] s[i]).id == id
}

/// The position of the record with the given internal identifier.
pub open spec fn id_idx(s: Seq<BlockModel>, id: u32) -> int {
    choose|i: int| 0 <= i < s.len() && (#[trigger] s[i]).id == id
}

/// Well-formedness of the stored records: the composite key and the
/// internal identifier each name at most one record, and every secret
/// has its fixed length.
pub open spec fn store_models_wf(s: Seq<BlockModel>) -> bool {
    &&& forall|i: int, j: int|
        0 <= i < j < s.len() ==> !(model_matches(
            #[trigger] s[i],
            (#[trigger] s[j]).public_key,
            s[j].data_group,
            s[j].data_key,
        ))
    &&& forall|i: int, j: int| 0 <= i < j < s.len() ==> s[i].id != s[j].id
    &&& forall|i: int| 0 <= i < s.len() ==> (#[trigger] s[i]).secret.len() == 32
}

/// At most one record matches a composite key in a well-formed store,
/// so a matching position is the chosen one.
pub proof fn lemma_match_idx_unique(
    s: Seq<BlockModel>,
    pk: (Seq<u8>, Seq<u8>),
    g: Seq<char>,
    k: Seq<char>,
    i: int,
)
    requires
        store_models_wf(s),
        0 <= i < s.len(),
        model_matches(s[i], pk, g, k),
    ensures
        has_block(s, pk, g, k),
        match_idx(s, pk, g, k) == i,
{
    assert(has_block(s, pk, g, k));
    let j = match_idx(s, pk, g, k);
    assert(0 <= j < s.len() && model_matches(s[j], pk, g, k));
    if i < j {
        assert(!model_matches(s[i], s[j].public_key, s[j].data_group, s[j].data_key));
    } else if j < i {
        assert(!model_matches(s[j], s[i].public_key, s[i].data_group, s[i].data_key));
    }
}

/// At most one record carries an identifier in a well-formed store.
pub proof fn lemma_id_idx_unique(s: Seq<BlockModel>, id: u32, i: int)
    requires
        store_models_wf(s),
        0 <= i < s.len(),
        s[i].id == id,
    ensures
        has_id(s, id),
        id_idx(s, id) == i,
{
    assert(has_id(s, id));
    let j = id_idx(s, id);
    assert(0 <= j < s.len() && s[j].id == id);
    if i < j {
        assert(s[i].id != s[j].id);
    } else if j < i {
        assert(s[j].id != s[i].id);
    }
}

/// The in-memory record store, keyed by (owner, group, key).
pub struct Store {
    pub blocks: Vec<Block>,
    pub next_id: u32,
}

impl View for Store {
    type V = Seq<BlockModel>;

    open spec fn view(&self) -> Seq<BlockModel> {
        self.blocks@.map_values(|b: Block| b@)
    }
}

impl Store {
    /// Well-formedness: the records are well-formed and every identifier
    /// stays below the next one to be handed out.
    pub open spec fn wf(self) -> bool {
        &&& store_models_wf(self@)
        &&& forall|i: int| 0 <= i < self@.len() ==> (#[trigger] self@[i]).id < self.next_id
    }

    /// An empty store.
    pub fn new() -> (r: Store)
        ensures
            r.wf(),
            r@ == Seq::<BlockModel>::empty(),
            r.next_id == 0,
    {
        let r = Store { blocks: Vec::new(), next_id: 0 };
        proof {
            assert(r@ =~= Seq::<BlockModel>::empty());
        }
        r
    }
}

/// Whether the owner has some record in the given group.
pub open spec fn has_group(s: Seq<BlockModel>, pk: (Seq<u8>, Seq<u8>), g: Seq<char>) -> bool {
    exists|i: int| 0 <= i < s.len() && #[trigger] model_matches_group(s[i], pk, g)
}

/// The set of groups in which the owner has a record, each named once,
/// ordered by first appearance in the store.
pub open spec fn groups_of(s: Seq<BlockModel>, pk: (Seq<u8>, Seq<u8>)) -> Seq<Seq<char>>
    decreases s.len(),
{
    if s.len() == 0 {
        Seq::empty()
    } else {
        let pre = groups_of(s.drop_last(), pk);
        if model_matches_owner(s.last(), pk) && !pre.contains(s.last().data_group) {
            pre.push(s.last().data_group)
        } else {
            pre
        }
    }
}

/// The groups listing is a duplicate-free set: it holds a group name
/// if and only if the owner has a record in that group, and holds no
/// name twice.
pub proof fn lemma_groups_of_is_set(s: Seq<BlockModel>, pk: (Seq<u8>, Seq<u8>))
    ensures
        forall|g: Seq<char>| #[trigger] groups_of(s, pk).contains(g) <==> has_group(s, pk, g),
        forall|p: int, q: int|
            0 <= p < q < groups_of(s, pk).len() ==> groups_of(s, pk)[p] != groups_of(s, pk)[q],
    decreases s.len(),
{
    if s.len() == 0 {
    } else {
        let pre = s.drop_last();
        lemma_groups_of_is_set(pre, pk);
        let gp = groups_of(pre, pk);
        let gs = groups_of(s, pk);
        let last = s.last();
        assert forall|g: Seq<char>| #[trigger] gs.contains(g) implies has_group(s, pk, g) by {
            if gp.contains(g) {
                assert(has_group(pre, pk, g));
                let i = choose|i: int|
                    0 <= i < pre.len() && #[trigger] model_matches_group(pre[i], pk, g);
                assert(s[i] == pre[i]);
                assert(model_matches_group(s[i], pk, g));
            } else {
                let j = choose|j: int| 0 <= j < gs.len() && gs[j] == g;
                assert(gs == gp.push(last.data_group));
                assert(j == gp.len());
                assert(g == last.data_group);
                assert(model_matches_group(s[s.len() - 1], pk, g));
            }
        }
        assert forall|g: Seq<char>| has_group(s, pk, g) implies #[trigger] gs.contains(g) by {
            let i = choose|i: int| 0 <= i < s.len() && #[trigger] model_matches_group(s[i], pk, g);
            if i < s.len() - 1 {
                assert(pre[i] == s[i]);
                assert(model_matches_group(pre[i], pk, g));
                assert(has_group(pre, pk, g));
                assert(gp.contains(g));
                let j = choose|j: int| 0 <= j < gp.len() && gp[j] == g;
                assert(gs[j] == g);
            } else {
                assert(g == last.data_group);
                if gp.contains(g) {
                    let j = choose|j: int| 0 <= j < gp.len() && gp[j] == g;
                    assert(gs[j] == g);
                } else {
                    assert(gs == gp.push(g));
                    assert(gs[gs.len() - 1] == g);
                }
            }
        }
        assert forall|p: int, q: int| 0 <= p < q < gs.len() implies gs[p] != gs[q] by {
            if q < gp.len() {
                assert(gs[p] == gp[p] && gs[q] == gp[q]);
            } else {
                assert(gs == gp.push(last.data_group));
                assert(gs[q] == last.data_group);
                assert(!gp.contains(last.data_group));
                assert(gs[p] == gp[p]);
            }
        }
    }
}

/// The keys of the owner's records within one group, in store order.
pub open spec fn keys_of(s: Seq<BlockModel>, pk: (Seq<u8>, Seq<u8>), g: Seq<char>) -> Seq<
    Seq<char>,
>
    decreases s.len(),
{
    if s.len() == 0 {
        Seq::empty()
    } else {
        let pre = keys_of(s.drop_last(), pk, g);
        if model_matches_group(s.last(), pk, g) {
            pre.push(s.last().data_key)
        } else {
            pre
        }
    }
}

/// Dropping the last record keeps the stored records well-formed.
pub proof fn lemma_wf_drop_last(s: Seq<BlockModel>)
    requires
        store_models_wf(s),
        s.len() > 0,
    ensures
        store_models_wf(s.drop_last()),
{
    let pre = s.drop_last();
    assert forall|i: int, j: int| 0 <= i < j < pre.len() implies !(model_matches(
        #[trigger] pre[i],
        (#[trigger] pre[j]).public_key,
        pre[j].data_group,
        pre[j].data_key,
    )) by {
        assert(pre[i] == s[i] && pre[j] == s[j]);
    }
    assert forall|i: int, j: int| 0 <= i < j < pre.len() implies pre[i].id != pre[j].id by {
        assert(pre[i] == s[i] && pre[j] == s[j]);
    }
    assert forall|i: int| 0 <= i < pre.len() implies (#[trigger] pre[i]).secret.len() == 32 by {
        assert(pre[i] == s[i]);
        assert(s[i].secret.len() == 32);
    }
}

/// In a well-formed store the keys listing within one group is a
/// duplicate-free set: it holds a key if and only if the composite key
/// holds a record, and holds no key twice, since the composite key
/// names at most one record.
pub proof fn lemma_keys_of_is_set(s: Seq<BlockModel>, pk: (Seq<u8>, Seq<u8>), g: Seq<char>)
    requires
        store_models_wf(s),
    ensures
        forall|k: Seq<char>| #[trigger] keys_of(s, pk, g).contains(k) <==> has_block(s, pk, g, k),
        forall|p: int, q: int|
            0 <= p < q < keys_of(s, pk, g).len() ==> keys_of(s, pk, g)[p] != keys_of(s, pk, g)[q],
    decreases s.len(),
{
    if s.len() == 0 {
    } else {
        let pre = s.drop_last();
        lemma_wf_drop_last(s);
        lemma_keys_of_is_set(pre, pk, g);
        let kp = keys_of(pre, pk, g);
        let ks = keys_of(s, pk, g);
        let last = s.last();
        assert forall|k: Seq<char>| #[trigger] ks.contains(k) implies has_block(s, pk, g, k) by {
            let j = choose|j: int| 0 <= j < ks.len() && ks[j] == k;
            if j < kp.len() {
                assert(kp[j] == k);
                assert(kp.contains(k));
                assert(has_block(pre, pk, g, k));
                let i = choose|i: int| 0 <= i < pre.len() && #[trigger] model_matches(
                    pre[i],
                    pk,
                    g,
                    k,
                );
                assert(s[i] == pre[i]);
                assert(model_matches(s[i], pk, g, k));
            } else {
                assert(ks == kp.push(last.data_key));
                assert(k == last.data_key);
                assert(model_matches(s[s.len() - 1], pk, g, k));
            }
        }
        assert forall|k: Seq<char>| has_block(s, pk, g, k) implies #[trigger] ks.contains(k) by {
            let i = choose|i: int| 0 <= i < s.len() && #[trigger] model_matches(s[i], pk, g, k);
            if i < s.len() - 1 {
                assert(pre[i] == s[i]);
                assert(model_matches(pre[i], pk, g, k));
                assert(has_block(pre, pk, g, k));
                assert(kp.contains(k));
                let j = choose|j: int| 0 <= j < kp.len() && kp[j] == k;
                assert(ks[j] == k);
            } else {
                assert(k == last.data_key);
                assert(ks == kp.push(k));
                assert(ks[ks.len() - 1] == k);
            }
        }
        assert forall|p: int, q: int| 0 <= p < q < ks.len() implies ks[p] != ks[q] by {
            if q < kp.len() {
                assert(ks[p] == kp[p] && ks[q] == kp[q]);
            } else {
                assert(ks == kp.push(last.data_key));
                assert(ks[q] == last.data_key);
                assert(ks[p] == kp[p]);
                if ks[p] == last.data_key {
                    assert(kp.contains(last.data_key));
                    assert(has_block(pre, pk, g, last.data_key));
                    let i = choose|i: int| 0 <= i < pre.len() && #[trigger] model_matches(
                        pre[i],
                        pk,
                        g,
                        last.data_key,
                    );
                    assert(model_matches(s[i], pk, g, last.data_key));
                    assert(model_matches_group(last, pk, g));
                    assert(!model_matches(
                        s[i],
                        s[s.len() - 1].public_key,
                        s[s.len() - 1].data_group,
                        s[s.len() - 1].data_key,
                    ));
                }
            }
        }
    }
}

/// The owner's records within one group, in store order.
pub open spec fn list_of(s: Seq<BlockModel>, pk: (Seq<u8>, Seq<u8>), g: Seq<char>) -> Seq<
    BlockModel,
>
    decreases s.len(),
{
    if s.len() == 0 {
        Seq::empty()
    } else {
        let pre = list_of(s.drop_last(), pk, g);
        if model_matches_group(s.last(), pk, g) {
            pre.push(s.last())
        } else {
            pre
        }
    }
}

/// Whether one of the collected strings reads as the given one.
fn contains_string(v: &Vec<String>, s: &String) -> (r: bool)
    ensures
        r == v@.map_values(|t: String| t@).contains(s@),
{
    let n = v.len();
    let mut i: usize = 0;
    while i < n
        invariant
            n == v@.len(),
            0 <= i <= n,
            forall|j: int| 0 <= j < i ==> v@[j]@ != s@,
        decreases n - i,
    {
        if v[i] == *s {
            proof {
                assert(v@.map_values(|t: String| t@)[i as int] == s@);
            }
            return true;
        }
        i = i + 1;
    }
    proof {
        let m = v@.map_values(|t: String| t@);
        assert forall|j: int| 0 <= j < m.len() implies #[trigger] m[j] != s@ by {
            assert(m[j] == v@[j]@);
        }
        assert(!m.contains(s@));
    }
    false
}

impl Block {
    /// Whether the owner has any record at all.
    pub fn check(store: &Store, public_key: &Point) -> (r: bool)
        ensures
            r == has_owner(store@, public_key@),
    {
        let n = store.blocks.len();
        let mut i: usize = 0;
        while i < n
            invariant
                n == store.blocks@.len(),
                0 <= i <= n,
                forall|j: int| 0 <= j < i ==> !model_matches_owner(store@[j], public_key@),
            decreases n - i,
        {
            if point_eq(&store.blocks[i].public_key, public_key) {
                assert(model_matches_owner(store@[i as int], public_key@));
                return true;
            }
            i = i + 1;
        }
        false
    }

    /// The groups in which the owner has a record, each named once,
    /// ordered by first appearance in the store.
    pub fn groups(store: &Store, public_key: &Point) -> (r: Vec<String>)
        ensures
            r@.map_values(|s: String| s@) == groups_of(store@, public_key@),
    {
        let n = store.blocks.len();
        let mut r: Vec<String> = Vec::new();
        let mut i: usize = 0;
        while i < n
            invariant
                n == store.blocks@.len(),
                0 <= i <= n,
                r@.map_values(|s: String| s@) == groups_of(
                    store@.subrange(0, i as int),
                    public_key@,
                ),
            decreases n - i,
        {
            let ghost pre = store@.subrange(0, i as int);
            if point_eq(&store.blocks[i].public_key, public_key)
                && !contains_string(&r, &store.blocks[i].data_group) {
                r.push(store.blocks[i].data_group.clone());
            }
            i = i + 1;
            proof {
                let cur = store@.subrange(0, i as int);
                assert(cur.drop_last() =~= pre);
                assert(cur.last() == store@[i - 1]);
                assert(r@.map_values(|s: String| s@) =~= groups_of(cur, public_key@));
            }
        }
        proof {
            assert(store@.subrange(0, store@.len() as int) =~= store@);
        }
        r
    }

    /// The key of every record of the owner within one group, in store order.
    pub fn keys(store: &Store, public_key: &Point, data_group: &String) -> (r: Vec<String>)
        ensures
            r@.map_values(|s: String| s@) == keys_of(store@, public_key@, data_group@),
    {
        let n = store.blocks.len();
        let mut r: Vec<String> = Vec::new();
        let mut i: usize = 0;
        while i < n
            invariant
                n == store.blocks@.len(),
                0 <= i <= n,
                r@.map_values(|s: String| s@) == keys_of(
                    store@.subrange(0, i as int),
                    public_key@,
                    data_group@,
                ),
            decreases n - i,
        {
            let ghost pre = store@.subrange(0, i as int);
            if point_eq(&store.blocks[i].public_key, public_key) && store.blocks[i].data_group
                == *data_group {
                r.push(store.blocks[i].data_key.clone());
            }
            i = i + 1;
            proof {
                let cur = store@.subrange(0, i as int);
                assert(cur.drop_last() =~= pre);
                assert(cur.last() == store@[i - 1]);
                assert(r@.map_values(|s: String| s@) =~= keys_of(cur, public_key@, data_group@));
            }
        }
        proof {
            assert(store@.subrange(0, store@.len() as int) =~= store@);
        }
        r
    }

    /// Every record of the owner within one group, in store order.
    pub fn list(store: &Store, public_key: &Point, data_group: &String) -> (r: Vec<Block>)
        ensures
            r@.map_values(|b: Block| b@) == list_of(store@, public_key@, data_group@),
    {
        let n = store.blocks.len();
        let mut r: Vec<Block> = Vec::new();
        let mut i: usize = 0;
        while i < n
            invariant
                n == store.blocks@.len(),
                0 <= i <= n,
                r@.map_values(|b: Block| b@) == list_of(
                    store@.subrange(0, i as int),
                    public_key@,
                    data_group@,
                ),
            decreases n - i,
        {
            let ghost pre = store@.subrange(0, i as int);
            if point_eq(&store.blocks[i].public_key, public_key) && store.blocks[i].data_group
                == *data_group {
                r.push(store.blocks[i].clone());
            }
            i = i + 1;
            proof {
                let cur = store@.subrange(0, i as int);
                assert(cur.drop_last() =~= pre);
                assert(cur.last() == store@[i - 1]);
                assert(r@.map_values(|b: Block| b@) =~= list_of(cur, public_key@, data_group@));
            }
        }
        proof {
            assert(store@.subrange(0, store@.len() as int) =~= store@);
        }
        r
    }

    /// The record at the given composite key, if any.
    pub fn get(store: &Store, public_key: &Point, data_group: &String, data_key: &String) -> (r:
        Option<Block>)
        requires
            store.wf(),
        ensures
            match r {
                Some(b) => {
                    &&& has_block(store@, public_key@, data_group@, data_key@)
                    &&& 0 <= match_idx(store@, public_key@, data_group@, data_key@) < store@.len()
                    &&& b@ == store@[match_idx(store@, public_key@, data_group@, data_key@)]
                },
                None => !has_block(store@, public_key@, data_group@, data_key@),
            },
    {
        let n = store.blocks.len();
        let mut i: usize = 0;
        while i < n
            invariant
                store.wf(),
                n == store.blocks@.len(),
                0 <= i <= n,
                forall|j: int|
                    0 <= j < i ==> !model_matches(store@[j], public_key@, data_group@, data_key@),
            decreases n - i,
        {
            if point_eq(&store.blocks[i].public_key, public_key) && store.blocks[i].data_group
                == *data_group && store.blocks[i].data_key == *data_key {
                proof {
                    lemma_match_idx_unique(
                        store@,
                        public_key@,
                        data_group@,
                        data_key@,
                        i as int,
                    );
                }
                return Some(store.blocks[i].clone());
            }
            i = i + 1;
        }
        None
    }

    /// Appends a record for a composite key that holds none yet, under
    /// the next free identifier.
    pub fn insert(
        store: &mut Store,
        public_key: &Point,
        data_group: &String,
        data_key: &String,
        data_block: &String,
        data_version: &String,
        signature: &(Bigi, Bigi),
        secret: &Vec<u8>,
    )
        requires
            old(store).wf(),
            old(store).next_id < u32::MAX,
            secret@.len() == 32,
            !has_block(old(store)@, public_key@, data_group@, data_key@),
        ensures
            final(store).wf(),
            final(store).next_id == old(store).next_id + 1,
            final(store)@ == old(store)@.push(
                new_block_model(
                    old(store).next_id,
                    public_key@,
                    data_group@,
                    data_key@,
                    data_block@,
                    data_version@,
                    (signature.0@, signature.1@),
                    secret@,
                ),
            ),
    {
        let b = Block {
            id: store.next_id,
            public_key: *public_key,
            data_group: data_group.clone(),
            data_key: data_key.clone(),
            data_block: data_block.clone(),
            data_version: data_version.clone(),
            signature: *signature,
            secret: copy_bytes(secret),
        };
        store.blocks.push(b);
        store.next_id = store.next_id + 1;
        proof {
            let m = new_block_model(
                (store.next_id - 1) as u32,
                public_key@,
                data_group@,
                data_key@,
                data_block@,
                data_version@,
                (signature.0@, signature.1@),
                secret@,
            );
            assert(store@[store@.len() - 1] =~= m);
            assert(store@ =~= old(store)@.push(m));
        }
    }

    /// Removes the record with the given identifier; a store without it
    /// stays as it is.
    pub fn delete(store: &mut Store, id: u32)
        requires
            old(store).wf(),
        ensures
            final(store).wf(),
            final(store).next_id == old(store).next_id,
            has_id(old(store)@, id) ==> final(store)@ == old(store)@.remove(
                id_idx(old(store)@, id),
            ),
            !has_id(old(store)@, id) ==> final(store)@ == old(store)@,
    {
        let n = store.blocks.len();
        let mut i: usize = 0;
        while i < n
            invariant
                store.wf(),
                store == old(store),
                n == store.blocks@.len(),
                0 <= i <= n,
                forall|j: int| 0 <= j < i ==> store@[j].id != id,
            decreases n - i,
        {
            if store.blocks[i].id == id {
                proof {
                    lemma_id_idx_unique(store@, id, i as int);
                }
                store.blocks.remove(i);
                proof {
                    assert(store@ =~= old(store)@.remove(i as int));
                    lemma_remove_preserves_wf(old(store)@, i as int);
                    assert forall|p: int| 0 <= p < store@.len() implies (
                    #[trigger] store@[p]).id < store.next_id by {
                        let p1: int = if p < i { p } else { p + 1 };
                        assert(store@[p] == old(store)@[p1]);
                    }
                }
                return ;
            }
            i = i + 1;
        }
        assert(!has_id(store@, id));
    }

    /// Replaces block, version, signature and secret of the record with
    /// the given identifier, keeping its owner, group, key and
    /// identifier; a store without that record stays as it is.
    pub fn update(
        store: &mut Store,
        id: u32,
        data_block: &String,
        data_version: &String,
        signature: &(Bigi, Bigi),
        secret: &Vec<u8>,
    )
        requires
            old(store).wf(),
            secret@.len() == 32,
        ensures
            final(store).wf(),
            final(store).next_id == old(store).next_id,
            has_id(old(store)@, id) ==> final(store)@ == old(store)@.update(
                id_idx(old(store)@, id),
                updated_block_model(
                    old(store)@[id_idx(old(store)@, id)],
                    data_block@,
                    data_version@,
                    (signature.0@, signature.1@),
                    secret@,
                ),
            ),
            !has_id(old(store)@, id) ==> final(store)@ == old(store)@,
    {
        let n = store.blocks.len();
        let mut i: usize = 0;
        while i < n
            invariant
                store.wf(),
                store == old(store),
                secret@.len() == 32,
                n == store.blocks@.len(),
                0 <= i <= n,
                forall|j: int| 0 <= j < i ==> store@[j].id != id,
            decreases n - i,
        {
            if store.blocks[i].id == id {
                proof {
                    lemma_id_idx_unique(store@, id, i as int);
                }
                let cur = &store.blocks[i];
                let b = Block {
                    id: cur.id,
                    public_key: cur.public_key,
                    data_group: cur.data_group.clone(),
                    data_key: cur.data_key.clone(),
                    data_block: data_block.clone(),
                    data_version: data_version.clone(),
                    signature: *signature,
                    secret: copy_bytes(secret),
                };
                store.blocks.set(i, b);
                proof {
                    let m = updated_block_model(
                        old(store)@[i as int],
                        data_block@,
                        data_version@,
                        (signature.0@, signature.1@),
                        secret@,
                    );
                    assert(store@[i as int] =~= m);
                    assert(store@ =~= old(store)@.update(i as int, m));
                    lemma_update_preserves_wf(old(store)@, i as int, m);
                    assert forall|p: int| 0 <= p < store@.len() implies (
                    #[trigger] store@[p]).id < store.next_id by {
                        if p != i {
                            assert(store@[p] == old(store)@[p]);
                        }
                    }
                }
                return ;
            }
            i = i + 1;
        }
        assert(!has_id(store@, id));
    }
}

/// Replacing a record in place, keeping its owner, group, key and
/// identifier, keeps the stored records well-formed.
pub proof fn lemma_update_preserves_wf(s: Seq<BlockModel>, i: int, b2: BlockModel)
    requires
        store_models_wf(s),
        0 <= i < s.len(),
        b2.public_key == s[i].public_key,
        b2.data_group == s[i].data_group,
        b2.data_key == s[i].data_key,
        b2.id == s[i].id,
        b2.secret.len() == 32,
    ensures
        store_models_wf(s.update(i, b2)),
{
    let s2 = s.update(i, b2);
    assert forall|p: int, q: int| 0 <= p < q < s2.len() implies !(model_matches(
        s2[p],
        s2[q].public_key,
        s2[q].data_group,
        s2[q].data_key,
    )) by {
        assert(s2[p].public_key == s[p].public_key && s2[p].data_group == s[p].data_group
            && s2[p].data_key == s[p].data_key);
        assert(s2[q].public_key == s[q].public_key && s2[q].data_group == s[q].data_group
            && s2[q].data_key == s[q].data_key);
        assert(!model_matches(s[p], s[q].public_key, s[q].data_group, s[q].data_key));
    }
    assert forall|p: int| 0 <= p < s2.len() implies s2[p].id == s[p].id by {}
    assert forall|p: int| 0 <= p < s2.len() implies s2[p].secret.len() == 32 by {
        if p != i {
            assert(s2[p] == s[p]);
            assert(s[p].secret.len() == 32);
        }
    }
}

/// Removing a record keeps the stored records well-formed.
pub proof fn lemma_remove_preserves_wf(s: Seq<BlockModel>, i: int)
    requires
        store_models_wf(s),
        0 <= i < s.len(),
    ensures
        store_models_wf(s.remove(i)),
{
    let s2 = s.remove(i);
    assert forall|p: int| 0 <= p < s2.len() implies s2[p] == s[if p < i {
        p
    } else {
        p + 1
    }] by {}
    assert forall|p: int, q: int| 0 <= p < q < s2.len() implies !(model_matches(
        s2[p],
        s2[q].public_key,
        s2[q].data_group,
        s2[q].data_key,
    )) by {
        let p1: int = if p < i { p } else { p + 1 };
        let q1: int = if q < i { q } else { q + 1 };
        assert(s2[p] == s[p1] && s2[q] == s[q1]);
        assert(0 <= p1 < q1 < s.len());
        assert(!model_matches(s[p1], s[q1].public_key, s[q1].data_group, s[q1].data_key));
    }
    assert forall|p: int, q: int| 0 <= p < q < s2.len() implies s2[p].id != s2[q].id by {
        let p1: int = if p < i { p } else { p + 1 };
        let q1: int = if q < i { q } else { q + 1 };
        assert(s2[p] == s[p1] && s2[q] == s[q1]);
        assert(0 <= p1 < q1 < s.len());
    }
    assert forall|p: int| 0 <= p < s2.len() implies s2[p].secret.len() == 32 by {
        let p1: int = if p < i { p } else { p + 1 };
        assert(s2[p] == s[p1]);
        assert(s[p1].secret.len() == 32);
    }
}

/// In a well-formed store, removing the record at a composite key
/// leaves no record at that key.
pub proof fn lemma_remove_only_match(
    s: Seq<BlockModel>,
    pk: (Seq<u8>, Seq<u8>),
    g: Seq<char>,
    k: Seq<char>,
)
    requires
        store_models_wf(s),
        has_block(s, pk, g, k),
    ensures
        !has_block(s.remove(match_idx(s, pk, g, k)), pk, g, k),
{
    let i = match_idx(s, pk, g, k);
    assert(0 <= i < s.len() && model_matches(s[i], pk, g, k));
    let s2 = s.remove(i);
    assert forall|p: int| 0 <= p < s2.len() implies !model_matches(s2[p], pk, g, k) by {
        let p1: int = if p < i { p } else { p + 1 };
        assert(s2[p] == s[p1]);
        if p1 != i {
            lemma_match_idx_unique(s, pk, g, k, i);
            if model_matches(s[p1], pk, g, k) {
                lemma_match_idx_unique(s, pk, g, k, p1);
            }
        }
    }
}

/// A record model built from the given parts.
pub open spec fn new_block_model(
    id: u32,
    pk: (Seq<u8>, Seq<u8>),
    g: Seq<char>,
    k: Seq<char>,
    db: Seq<char>,
    dv: Seq<char>,
    sig: (Seq<u8>, Seq<u8>),
    secret: Seq<u8>,
) -> BlockModel {
    BlockModel {
        id: id,
        public_key: pk,
        data_group: g,
        data_key: k,
        data_block: db,
        data_version: dv,
        signature: sig,
        secret: secret,
    }
}

/// A record model with block, version, signature and secret replaced.
pub open spec fn updated_block_model(
    b: BlockModel,
    db: Seq<char>,
    dv: Seq<char>,
    sig: (Seq<u8>, Seq<u8>),
    secret: Seq<u8>,
) -> BlockModel {
    BlockModel {
        id: b.id,
        public_key: b.public_key,
        data_group: b.data_group,
        data_key: b.data_key,
        data_block: db,
        data_version: dv,
        signature: sig,
        secret: secret,
    }
}

} // verus!
