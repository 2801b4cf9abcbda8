use vstd::prelude::*;

use crate::types::{Bigi, Error, Point};

verus! {

/// Hex characters per encoded 256-bit value.
pub const BIGI_HEX_LENGTH: usize = 64;

/// The uppercase hex digit standing for a value below sixteen.
pub open spec fn hex_char_of_nibble(n: u8) -> char
    recommends
        n < 16,
{
    if n < 10 {
        ((n + 48) as u8) as char
    } else {
        ((n + 55) as u8) as char
    }
}

/// Fixed-width uppercase hexadecimal spelling of a byte string:
/// two digits per byte, high nibble first.
pub open spec fn hex_of_bytes(bs: Seq<u8>) -> Seq<char> {
    Seq::new(
        2 * bs.len(),
        |i: int|
            if i % 2 == 0 {
                hex_char_of_nibble(bs[i / 2] / 16)
            } else {
                hex_char_of_nibble(bs[i / 2] % 16)
            },
    )
}

/// Whether a character is a hexadecimal digit (either case accepted).
pub open spec fn is_hex_digit(c: char) -> bool {
    (48 <= c as u32 && c as u32 <= 57) || (65 <= c as u32 && c as u32 <= 70) || (97 <= c as u32
        && c as u32 <= 102)
}

/// The value of a hexadecimal digit.
pub open spec fn nibble_of_hex_char(c: char) -> u8
    recommends
        is_hex_digit(c),
{
    if c as u32 <= 57 {
        (c as u32 - 48) as u8
    } else if c as u32 <= 70 {
        (c as u32 - 55) as u8
    } else {
        (c as u32 - 87) as u8
    }
}

/// Every character of the string is a hex digit.
pub open spec fn all_hex_digits(s: Seq<char>) -> bool {
    forall|i: int| 0 <= i < s.len() ==> is_hex_digit(s[i])
}

/// The bytes a hexadecimal string spells out, two digits per byte.
/// Meaningful when the string has even length and only hex digits.
pub open spec fn bytes_of_hex(s: Seq<char>) -> Seq<u8> {
    Seq::new(
        s.len() / 2,
        |i: int| (16 * nibble_of_hex_char(s[2 * i]) + nibble_of_hex_char(s[2 * i + 1])) as u8,
    )
}

/// A 256-bit value decoded from exactly 64 hex digits.
pub open spec fn bigi_of_hex(s: Seq<char>) -> Option<Seq<u8>> {
    if s.len() == 64 && all_hex_digits(s) {
        Some(bytes_of_hex(s))
    } else {
        None
    }
}

/// A point decoded from exactly 128 hex digits: x first, then y.
pub open spec fn point_of_hex(s: Seq<char>) -> Option<(Seq<u8>, Seq<u8>)> {
    if s.len() == 128 && all_hex_digits(s) {
        Some((bytes_of_hex(s.subrange(0, 64)), bytes_of_hex(s.subrange(64, 128))))
    } else {
        None
    }
}

/// A signature pair decoded from exactly 128 hex digits: r first, then s.
pub open spec fn pair_of_hex(s: Seq<char>) -> Option<(Seq<u8>, Seq<u8>)> {
    point_of_hex(s)
}

/// Encoding never collides with decoding: reading the hexadecimal
/// spelling of any byte string gives those bytes back.
pub proof fn lemma_hex_round_trip(bs: Seq<u8>)
    ensures
        hex_of_bytes(bs).len() == 2 * bs.len(),
        all_hex_digits(hex_of_bytes(bs)),
        bytes_of_hex(hex_of_bytes(bs)) == bs,
{
    let h = hex_of_bytes(bs);
    assert forall|i: int| 0 <= i < h.len() implies is_hex_digit(h[i]) by {
        let b = bs[i / 2];
        assert(b / 16 < 16 && b % 16 < 16);
    }
    assert forall|i: int| 0 <= i < bs.len() implies bytes_of_hex(h)[i] == bs[i] by {
        let b = bs[i];
        assert(h[2 * i] == hex_char_of_nibble(b / 16));
        assert(h[2 * i + 1] == hex_char_of_nibble(b % 16));
        assert(nibble_of_hex_char(hex_char_of_nibble(b / 16)) == b / 16);
        assert(nibble_of_hex_char(hex_char_of_nibble(b % 16)) == b % 16);
    }
    assert(bytes_of_hex(h) =~= bs);
}

/// Round trip for a 256-bit value: the 64-digit spelling of its 32
/// bytes decodes to exactly those bytes.
pub proof fn lemma_bigi_round_trip(b: Seq<u8>)
    requires
        b.len() == 32,
    ensures
        bigi_of_hex(hex_of_bytes(b)) == Some(b),
{
    lemma_hex_round_trip(b);
}

/// Round trip for a point or a signature pair: the 128-digit spelling
/// of x then y decodes to exactly (x, y).
pub proof fn lemma_point_round_trip(x: Seq<u8>, y: Seq<u8>)
    requires
        x.len() == 32,
        y.len() == 32,
    ensures
        point_of_hex(hex_of_bytes(x) + hex_of_bytes(y)) == Some((x, y)),
        pair_of_hex(hex_of_bytes(x) + hex_of_bytes(y)) == Some((x, y)),
{
    lemma_hex_of_bytes_concat(x, y);
    lemma_hex_round_trip(x + y);
    let s = hex_of_bytes(x + y);
    assert(s == hex_of_bytes(x) + hex_of_bytes(y));
    lemma_bytes_of_hex_subrange(s, 0, 64);
    lemma_bytes_of_hex_subrange(s, 64, 128);
    assert(bytes_of_hex(s).subrange(0, 32) =~= x);
    assert(bytes_of_hex(s).subrange(32, 64) =~= y);
}

/// Fixed 64-digit slices of a longer hex string decode to the
/// corresponding slice of the whole string's bytes.
pub proof fn lemma_bytes_of_hex_subrange(s: Seq<char>, a: int, b: int)
    requires
        0 <= a <= b <= s.len(),
        a % 2 == 0,
        b % 2 == 0,
    ensures
        bytes_of_hex(s.subrange(a, b)) == bytes_of_hex(s).subrange(a / 2, b / 2),
{
    let lhs = bytes_of_hex(s.subrange(a, b));
    let rhs = bytes_of_hex(s).subrange(a / 2, b / 2);
    assert forall|i: int| 0 <= i < lhs.len() implies lhs[i] == rhs[i] by {
        assert(s.subrange(a, b)[2 * i] == s[a + 2 * i]);
        assert(s.subrange(a, b)[2 * i + 1] == s[a + 2 * i + 1]);
    }
    assert(lhs =~= rhs);
}

/// The uppercase hex digit for a value below sixteen.
fn hex_char(n: u8) -> (c: char)
    requires
        n < 16,
    ensures
        c == hex_char_of_nibble(n),
{
    if n < 10 {
        (n + 48) as char
    } else {
        (n + 55) as char
    }
}

/// Relies on String::push: appends the given character at the end.
#[verifier::external_body]
fn push_char(s: &mut String, c: char)
    ensures
        final(s)@ == old(s)@.push(c),
{
    s.push(c);
}

/// Uppercase, fixed-width, zero-padded hexadecimal form of a byte string.
pub fn hex_from_bytes(bytes: &[u8]) -> (r: String)
    ensures
        r@ == hex_of_bytes(bytes@),
{
    let mut r = String::new();
    let mut i: usize = 0;
    while i < bytes.len()
        invariant
            0 <= i <= bytes@.len(),
            r@ == hex_of_bytes(bytes@.subrange(0, i as int)),
        decreases bytes@.len() - i,
    {
        let b = bytes[i];
        push_char(&mut r, hex_char(b / 16));
        push_char(&mut r, hex_char(b % 16));
        i = i + 1;
        proof {
            let pre = bytes@.subrange(0, i - 1);
            let cur = bytes@.subrange(0, i as int);
            assert(cur.len() == pre.len() + 1);
            assert forall|j: int| 0 <= j < r@.len() implies r@[j] == hex_of_bytes(cur)[j] by {
                if j < 2 * pre.len() {
                    assert(hex_of_bytes(pre)[j] == hex_of_bytes(cur)[j]);
                }
            }
            assert(r@ =~= hex_of_bytes(cur));
        }
    }
    proof {
        assert(bytes@.subrange(0, bytes@.len() as int) =~= bytes@);
    }
    r
}

/// The value of one hexadecimal character, or `None` for any other one.
fn hex_digit_value(c: char) -> (r: Option<u8>)
    ensures
        match r {
            Some(n) => is_hex_digit(c) && n == nibble_of_hex_char(c) && n < 16,
            None => !is_hex_digit(c),
        },
{
    let u = c as u32;
    if 48 <= u && u <= 57 {
        Some((u - 48) as u8)
    } else if 65 <= u && u <= 70 {
        Some((u - 55) as u8)
    } else if 97 <= u && u <= 102 {
        Some((u - 87) as u8)
    } else {
        None
    }
}

/// Decodes a hexadecimal string into its bytes: two digits per byte.
/// A string of odd length, or one holding a character that is no hex
/// digit, is refused as malformed.
pub fn hex_to_bytes(hex: &str) -> (r: Result<Vec<u8>, Error>)
    ensures
        match r {
            Ok(v) => hex@.len() % 2 == 0 && all_hex_digits(hex@) && v@ == bytes_of_hex(hex@),
            Err(e) => e == Error::MalformedInput && !(hex@.len() % 2 == 0 && all_hex_digits(
                hex@,
            )),
        },
{
    let n = hex.unicode_len();
    if n % 2 != 0 {
        return Err(Error::MalformedInput);
    }
    let mut v: Vec<u8> = Vec::new();
    let mut i: usize = 0;
    while i < n
        invariant
            hex@.len() == n,
            n % 2 == 0,
            i % 2 == 0,
            0 <= i <= n,
            forall|j: int| 0 <= j < i ==> is_hex_digit(hex@[j]),
            v@.len() == i / 2,
            forall|j: int| 0 <= j < v@.len() ==> v@[j] == bytes_of_hex(hex@)[j],
        decreases n - i,
    {
        let c1 = hex.get_char(i);
        let c2 = hex.get_char(i + 1);
        let n1 = match hex_digit_value(c1) {
            Some(n1) => n1,
            None => {
                return Err(Error::MalformedInput);
            },
        };
        let n2 = match hex_digit_value(c2) {
            Some(n2) => n2,
            None => {
                return Err(Error::MalformedInput);
            },
        };
        let b: u8 = 16 * n1 + n2;
        proof {
            assert(b == bytes_of_hex(hex@)[i as int / 2]);
        }
        v.push(b);
        i = i + 2;
    }
    proof {
        assert(v@ =~= bytes_of_hex(hex@));
    }
    Ok(v)
}

/// Splitting a byte string splits its hexadecimal spelling.
pub proof fn lemma_hex_of_bytes_concat(a: Seq<u8>, b: Seq<u8>)
    ensures
        hex_of_bytes(a + b) == hex_of_bytes(a) + hex_of_bytes(b),
{
    let lhs = hex_of_bytes(a + b);
    let rhs = hex_of_bytes(a) + hex_of_bytes(b);
    assert forall|i: int| 0 <= i < lhs.len() implies lhs[i] == rhs[i] by {
        if i < 2 * a.len() {
            assert((a + b)[i / 2] == a[i / 2]);
        } else {
            let j = i - 2 * a.len();
            assert(i / 2 == a.len() + j / 2);
            assert(i % 2 == j % 2);
            assert((a + b)[i / 2] == b[j / 2]);
            assert(rhs[i] == hex_of_bytes(b)[j]);
        }
    }
    assert(lhs =~= rhs);
}

/// Thirty-two bytes of a vector, starting at the given offset, as an array.
fn bytes32(v: &Vec<u8>, start: usize) -> (r: [u8; 32])
    requires
        start + 32 <= v@.len(),
    ensures
        r@ == v@.subrange(start as int, start + 32),
{
    let mut arr = [0u8; 32];
    let n = v.len();
    let mut j: usize = 0;
    while j < 32
        invariant
            n == v@.len(),
            start + 32 <= v@.len(),
            0 <= j <= 32,
            forall|t: int| 0 <= t < j ==> arr@[t] == v@[start + t],
        decreases 32 - j,
    {
        arr[j] = v[start + j];
        j = j + 1;
    }
    proof {
        assert(arr@ =~= v@.subrange(start as int, start + 32));
    }
    arr
}

/// Decodes a 256-bit value from exactly 64 hex digits.
pub fn hex_to_bigi(hex: &str) -> (r: Result<Bigi, Error>)
    ensures
        match r {
            Ok(b) => bigi_of_hex(hex@) == Some(b@),
            Err(e) => e == Error::MalformedInput && bigi_of_hex(hex@) is None,
        },
{
    if hex.unicode_len() != BIGI_HEX_LENGTH {
        return Err(Error::MalformedInput);
    }
    match hex_to_bytes(hex) {
        Ok(v) => {
            let b = Bigi { bytes: bytes32(&v, 0) };
            proof {
                assert(b@ =~= bytes_of_hex(hex@));
            }
            Ok(b)
        },
        Err(e) => Err(e),
    }
}

/// Encodes a 256-bit value as 64 uppercase hex digits.
pub fn hex_from_bigi(b: &Bigi) -> (r: String)
    ensures
        r@ == hex_of_bytes(b@),
{
    hex_from_bytes(b.bytes.as_slice())
}

/// Decodes a point from exactly 128 hex digits: x first, then y.
pub fn hex_to_point(hex: &str) -> (r: Result<Point, Error>)
    ensures
        match r {
            Ok(p) => point_of_hex(hex@) == Some(p@),
            Err(e) => e == Error::MalformedInput && point_of_hex(hex@) is None,
        },
{
    if hex.unicode_len() != 2 * BIGI_HEX_LENGTH {
        return Err(Error::MalformedInput);
    }
    match hex_to_bytes(hex) {
        Ok(v) => {
            let p = Point { x: Bigi { bytes: bytes32(&v, 0) }, y: Bigi { bytes: bytes32(&v, 32) } };
            proof {
                lemma_bytes_of_hex_subrange(hex@, 0, 64);
                lemma_bytes_of_hex_subrange(hex@, 64, 128);
                assert(p.x@ =~= bytes_of_hex(hex@.subrange(0, 64)));
                assert(p.y@ =~= bytes_of_hex(hex@.subrange(64, 128)));
            }
            Ok(p)
        },
        Err(e) => Err(e),
    }
}

/// Encodes a point as 128 uppercase hex digits: x first, then y.
pub fn hex_from_point(p: &Point) -> (r: String)
    ensures
        r@ == hex_of_bytes(p.x@) + hex_of_bytes(p.y@),
{
    let mut v: Vec<u8> = Vec::new();
    v.extend_from_slice(p.x.bytes.as_slice());
    v.extend_from_slice(p.y.bytes.as_slice());
    proof {
        assert(v@ =~= p.x@ + p.y@);
        lemma_hex_of_bytes_concat(p.x@, p.y@);
    }
    hex_from_bytes(v.as_slice())
}

/// Decodes a signature pair from exactly 128 hex digits: r first, then s.
pub fn hex_to_bigi_pair(hex: &str) -> (r: Result<(Bigi, Bigi), Error>)
    ensures
        match r {
            Ok(p) => pair_of_hex(hex@) == Some((p.0@, p.1@)),
            Err(e) => e == Error::MalformedInput && pair_of_hex(hex@) is None,
        },
{
    match hex_to_point(hex) {
        Ok(p) => Ok((p.x, p.y)),
        Err(e) => Err(e),
    }
}

/// Encodes a signature pair as 128 uppercase hex digits: r first, then s.
pub fn hex_from_bigi_pair(b: &(Bigi, Bigi)) -> (r: String)
    ensures
        r@ == hex_of_bytes(b.0@) + hex_of_bytes(b.1@),
{
    let p = Point { x: b.0, y: b.1 };
    hex_from_point(&p)
}

/// The bytes of a row of 256-bit values, one after the other.
pub open spec fn flat_bigi_bytes(s: Seq<Bigi>) -> Seq<u8>
    decreases s.len(),
{
    if s.len() == 0 {
        Seq::empty()
    } else {
        flat_bigi_bytes(s.drop_last()) + s.last()@
    }
}

/// The bytes of a row of points: x then y of each, one point after the other.
pub open spec fn flat_point_bytes(s: Seq<Point>) -> Seq<u8>
    decreases s.len(),
{
    if s.len() == 0 {
        Seq::empty()
    } else {
        flat_point_bytes(s.drop_last()) + s.last().x@ + s.last().y@
    }
}

/// Decodes a row of 256-bit values, 64 hex digits each, no separators.
pub fn hex_to_bigi_vec(hex: &str) -> (r: Result<Vec<Bigi>, Error>)
    ensures
        match r {
            Ok(res) => {
                &&& hex@.len() % 64 == 0
                &&& all_hex_digits(hex@)
                &&& res@.len() == hex@.len() / 64
                &&& forall|i: int|
                    0 <= i < res@.len() ==> bigi_of_hex(hex@.subrange(64 * i, 64 * i + 64))
                        == Some(res@[i]@)
            },
            Err(e) => e == Error::MalformedInput && !(hex@.len() % 64 == 0 && all_hex_digits(
                hex@,
            )),
        },
{
    let n = hex.unicode_len();
    if n % 64 != 0 {
        return Err(Error::MalformedInput);
    }
    let bytes = match hex_to_bytes(hex) {
        Ok(bytes) => bytes,
        Err(e) => {
            return Err(e);
        },
    };
    let count = n / 64;
    let mut res: Vec<Bigi> = Vec::new();
    let mut i: usize = 0;
    while i < count
        invariant
            hex@.len() == n,
            n % 64 == 0,
            count == n / 64,
            all_hex_digits(hex@),
            bytes@ == bytes_of_hex(hex@),
            bytes@.len() == n / 2,
            0 <= i <= count,
            res@.len() == i,
            forall|j: int|
                0 <= j < i ==> bigi_of_hex(hex@.subrange(64 * j, 64 * j + 64)) == Some(
                    res@[j]@,
                ),
        decreases count - i,
    {
        let b = Bigi { bytes: bytes32(&bytes, 32 * i) };
        proof {
            let j = i as int;
            let chunk = hex@.subrange(64 * j, 64 * j + 64);
            lemma_bytes_of_hex_subrange(hex@, 64 * j, 64 * j + 64);
            assert(b@ =~= bytes_of_hex(chunk));
        }
        res.push(b);
        i = i + 1;
    }
    Ok(res)
}

/// Encodes a row of 256-bit values, 64 uppercase hex digits each.
pub fn hex_from_bigi_vec(v: &Vec<Bigi>) -> (r: String)
    ensures
        r@ == hex_of_bytes(flat_bigi_bytes(v@)),
{
    let mut acc: Vec<u8> = Vec::new();
    let mut i: usize = 0;
    while i < v.len()
        invariant
            0 <= i <= v@.len(),
            acc@ == flat_bigi_bytes(v@.subrange(0, i as int)),
        decreases v@.len() - i,
    {
        acc.extend_from_slice(v[i].bytes.as_slice());
        i = i + 1;
        proof {
            let pre = v@.subrange(0, i - 1);
            let cur = v@.subrange(0, i as int);
            assert(cur.drop_last() =~= pre);
            assert(acc@ =~= flat_bigi_bytes(pre) + cur.last()@);
        }
    }
    proof {
        assert(v@.subrange(0, v@.len() as int) =~= v@);
    }
    hex_from_bytes(acc.as_slice())
}

/// Decodes a row of points, 128 hex digits each, no separators.
pub fn hex_to_point_vec(hex: &str) -> (r: Result<Vec<Point>, Error>)
    ensures
        match r {
            Ok(res) => {
                &&& hex@.len() % 128 == 0
                &&& all_hex_digits(hex@)
                &&& res@.len() == hex@.len() / 128
                &&& forall|i: int|
                    0 <= i < res@.len() ==> point_of_hex(hex@.subrange(128 * i, 128 * i + 128))
                        == Some(res@[i]@)
            },
            Err(e) => e == Error::MalformedInput && !(hex@.len() % 128 == 0 && all_hex_digits(
                hex@,
            )),
        },
{
    let n = hex.unicode_len();
    if n % 128 != 0 {
        return Err(Error::MalformedInput);
    }
    let bytes = match hex_to_bytes(hex) {
        Ok(bytes) => bytes,
        Err(e) => {
            return Err(e);
        },
    };
    let count = n / 128;
    let mut res: Vec<Point> = Vec::new();
    let mut i: usize = 0;
    while i < count
        invariant
            hex@.len() == n,
            n % 128 == 0,
            count == n / 128,
            all_hex_digits(hex@),
            bytes@ == bytes_of_hex(hex@),
            bytes@.len() == n / 2,
            0 <= i <= count,
            res@.len() == i,
            forall|j: int|
                0 <= j < i ==> point_of_hex(hex@.subrange(128 * j, 128 * j + 128)) == Some(
                    res@[j]@,
                ),
        decreases count - i,
    {
        let p = Point {
            x: Bigi { bytes: bytes32(&bytes, 64 * i) },
            y: Bigi { bytes: bytes32(&bytes, 64 * i + 32) },
        };
        proof {
            let j = i as int;
            let chunk = hex@.subrange(128 * j, 128 * j + 128);
            lemma_bytes_of_hex_subrange(hex@, 128 * j, 128 * j + 128);
            lemma_bytes_of_hex_subrange(chunk, 0, 64);
            lemma_bytes_of_hex_subrange(chunk, 64, 128);
            assert(chunk.subrange(0, 64) =~= hex@.subrange(128 * j, 128 * j + 64));
            assert(chunk.subrange(64, 128) =~= hex@.subrange(128 * j + 64, 128 * j + 128));
            lemma_bytes_of_hex_subrange(hex@, 128 * j, 128 * j + 64);
            lemma_bytes_of_hex_subrange(hex@, 128 * j + 64, 128 * j + 128);
            assert(p.x@ =~= bytes_of_hex(chunk).subrange(0, 32));
            assert(p.y@ =~= bytes_of_hex(chunk).subrange(32, 64));
            assert(bytes_of_hex(chunk.subrange(0, 64)) =~= bytes_of_hex(chunk).subrange(0, 32));
            assert(bytes_of_hex(chunk.subrange(64, 128)) =~= bytes_of_hex(chunk).subrange(32, 64));
        }
        res.push(p);
        i = i + 1;
    }
    Ok(res)
}

/// Encodes a row of points, 128 uppercase hex digits each.
pub fn hex_from_point_vec(v: &Vec<Point>) -> (r: String)
    ensures
        r@ == hex_of_bytes(flat_point_bytes(v@)),
{
    let mut acc: Vec<u8> = Vec::new();
    let mut i: usize = 0;
    while i < v.len()
        invariant
            0 <= i <= v@.len(),
            acc@ == flat_point_bytes(v@.subrange(0, i as int)),
        decreases v@.len() - i,
    {
        acc.extend_from_slice(v[i].x.bytes.as_slice());
        acc.extend_from_slice(v[i].y.bytes.as_slice());
        i = i + 1;
        proof {
            let pre = v@.subrange(0, i - 1);
            let cur = v@.subrange(0, i as int);
            assert(cur.drop_last() =~= pre);
            assert(acc@ =~= flat_point_bytes(pre) + cur.last().x@ + cur.last().y@);
        }
    }
    proof {
        assert(v@.subrange(0, v@.len() as int) =~= v@);
    }
    hex_from_bytes(acc.as_slice())
}

} // verus!
