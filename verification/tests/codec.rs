use blockstore::{
    hex_from_bigi, hex_from_bigi_pair, hex_from_bigi_vec, hex_from_bytes, hex_from_point,
    hex_from_point_vec, hex_to_bigi, hex_to_bigi_pair, hex_to_bigi_vec, hex_to_bytes,
    hex_to_point, hex_to_point_vec, Bigi, Error, Point,
};

fn bigi_from_fn(f: impl Fn(usize) -> u8) -> Bigi {
    let mut bytes = [0u8; 32];
    for (i, b) in bytes.iter_mut().enumerate() {
        *b = f(i);
    }
    Bigi { bytes }
}

#[test]
fn test_hex_from_bytes() {
    assert_eq!(hex_from_bytes(&vec![]), "");
    assert_eq!(hex_from_bytes(&vec![123, 12, 67, 255]), "7B0C43FF");
}

#[test]
fn test_hex_to_bytes() {
    assert_eq!(hex_to_bytes(&"".to_string()).unwrap(), Vec::<u8>::new());
    assert_eq!(
        hex_to_bytes(&"7B0C43FF".to_string()).unwrap(),
        vec![123, 12, 67, 255]
    );
}

#[test]
fn test_hex_is_zero_padded_uppercase() {
    assert_eq!(hex_from_bytes(&[1, 10, 170]), "010AAA");
}

#[test]
fn test_hex_to_bytes_rejects_odd_length() {
    assert_eq!(hex_to_bytes("7B0"), Err(Error::MalformedInput));
}

#[test]
fn test_hex_to_bytes_rejects_non_hex() {
    assert_eq!(hex_to_bytes("7G"), Err(Error::MalformedInput));
    assert_eq!(hex_to_bytes("zz"), Err(Error::MalformedInput));
}

#[test]
fn test_hex_to_bytes_accepts_lowercase() {
    assert_eq!(hex_to_bytes("7b0c43ff").unwrap(), vec![123, 12, 67, 255]);
}

#[test]
fn test_bigi_round_trip() {
    let b = bigi_from_fn(|i| (7 * i + 3) as u8);
    let hex = hex_from_bigi(&b);
    assert_eq!(hex.len(), 64);
    assert_eq!(hex_to_bigi(&hex).unwrap(), b);
}

#[test]
fn test_bigi_known_encoding() {
    let b = bigi_from_fn(|_| 0);
    assert_eq!(hex_from_bigi(&b), "0".repeat(64));
    let b = bigi_from_fn(|_| 255);
    assert_eq!(hex_from_bigi(&b), "F".repeat(64));
}

#[test]
fn test_hex_to_bigi_rejects_wrong_length() {
    assert_eq!(hex_to_bigi("AB"), Err(Error::MalformedInput));
    assert_eq!(hex_to_bigi(&"0".repeat(65)), Err(Error::MalformedInput));
}

#[test]
fn test_point_round_trip() {
    let p = Point {
        x: bigi_from_fn(|i| i as u8),
        y: bigi_from_fn(|i| (255 - i) as u8),
    };
    let hex = hex_from_point(&p);
    assert_eq!(hex.len(), 128);
    assert_eq!(hex_to_point(&hex).unwrap(), p);
}

#[test]
fn test_hex_to_point_rejects_wrong_length() {
    assert_eq!(hex_to_point(&"0".repeat(64)), Err(Error::MalformedInput));
}

#[test]
fn test_bigi_pair_round_trip() {
    let pair = (bigi_from_fn(|i| (i * i) as u8), bigi_from_fn(|i| (i + 9) as u8));
    let hex = hex_from_bigi_pair(&pair);
    assert_eq!(hex.len(), 128);
    assert_eq!(hex_to_bigi_pair(&hex).unwrap(), pair);
}

#[test]
fn test_bigi_vec_round_trip() {
    let v = vec![
        bigi_from_fn(|i| i as u8),
        bigi_from_fn(|i| (2 * i) as u8),
        bigi_from_fn(|i| (3 * i) as u8),
    ];
    let hex = hex_from_bigi_vec(&v);
    assert_eq!(hex.len(), 3 * 64);
    assert_eq!(hex_to_bigi_vec(&hex).unwrap(), v);
    assert_eq!(hex_to_bigi_vec("").unwrap(), Vec::<Bigi>::new());
}

#[test]
fn test_point_vec_round_trip() {
    let v = vec![
        Point {
            x: bigi_from_fn(|i| i as u8),
            y: bigi_from_fn(|i| (i + 1) as u8),
        },
        Point {
            x: bigi_from_fn(|i| (i + 2) as u8),
            y: bigi_from_fn(|i| (i + 3) as u8),
        },
    ];
    let hex = hex_from_point_vec(&v);
    assert_eq!(hex.len(), 2 * 128);
    assert_eq!(hex_to_point_vec(&hex).unwrap(), v);
    assert_eq!(hex_to_bigi_vec(&"0".repeat(63)), Err(Error::MalformedInput));
}
