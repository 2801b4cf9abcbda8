use blockstore::{Bigi, Block, Point, Store};

fn bigi(v: u8) -> Bigi {
    Bigi { bytes: [v; 32] }
}

fn point(v: u8) -> Point {
    Point { x: bigi(v), y: bigi(v.wrapping_add(1)) }
}

#[test]
fn test_store_lifecycle() {
    let mut store = Store::new();
    let owner = point(1);
    assert!(!Block::check(&store, &owner));

    Block::insert(
        &mut store,
        &owner,
        &"g".to_string(),
        &"k".to_string(),
        &"payload".to_string(),
        &"1".to_string(),
        &(bigi(10), bigi(11)),
        &vec![0u8; 32],
    );
    assert!(Block::check(&store, &owner));
    assert!(!Block::check(&store, &point(9)));

    let rec = Block::get(&store, &owner, &"g".to_string(), &"k".to_string()).unwrap();
    assert_eq!(rec.data_block, "payload");
    assert_eq!(rec.secret, vec![0u8; 32]);

    Block::update(
        &mut store,
        rec.id,
        &"payload2".to_string(),
        &"2".to_string(),
        &(bigi(12), bigi(13)),
        &vec![1u8; 32],
    );
    let rec2 = Block::get(&store, &owner, &"g".to_string(), &"k".to_string()).unwrap();
    assert_eq!(rec2.id, rec.id);
    assert_eq!(rec2.data_block, "payload2");
    assert_eq!(rec2.data_version, "2");
    assert_eq!(rec2.secret, vec![1u8; 32]);

    Block::delete(&mut store, rec.id);
    assert!(Block::get(&store, &owner, &"g".to_string(), &"k".to_string()).is_none());
    assert!(!Block::check(&store, &owner));
}

#[test]
fn test_store_listings_by_owner_and_group() {
    let mut store = Store::new();
    let a = point(1);
    let b = point(5);
    let rows = [
        (a, "g1", "k1", "r1"),
        (a, "g1", "k2", "r2"),
        (a, "g2", "k1", "r3"),
        (b, "g1", "k1", "r4"),
    ];
    for (owner, g, k, blockdata) in rows {
        Block::insert(
            &mut store,
            &owner,
            &g.to_string(),
            &k.to_string(),
            &blockdata.to_string(),
            &"1".to_string(),
            &(bigi(20), bigi(21)),
            &vec![2u8; 32],
        );
    }

    assert_eq!(
        Block::groups(&store, &a),
        vec!["g1".to_string(), "g2".to_string()]
    );
    assert_eq!(Block::groups(&store, &b), vec!["g1".to_string()]);
    assert_eq!(
        Block::keys(&store, &a, &"g1".to_string()),
        vec!["k1".to_string(), "k2".to_string()]
    );
    let listed = Block::list(&store, &a, &"g1".to_string());
    assert_eq!(listed.len(), 2);
    assert_eq!(listed[0].data_block, "r1");
    assert_eq!(listed[1].data_block, "r2");

    let gone = Block::get(&store, &a, &"g2".to_string(), &"k9".to_string());
    assert!(gone.is_none());
}
