//! The content hash of an entry: the 64-bit FNV-1a hash of the bytes of its
//! file, written as sixteen lowercase hexadecimal digits.

use vstd::prelude::*;
use vstd::utf8::encode_utf8;

verus! {

/// One step of FNV-1a: the byte is mixed in, then the state is multiplied by
/// the FNV prime, modulo 2^64.
pub open spec fn fnv_step(h: u64, b: u8) -> u64 {
    (h ^ (b as u64)).wrapping_mul(0x100000001b3u64)
}

/// The FNV-1a hash of `bytes`, from the offset basis on.
pub open spec fn fnv(bytes: Seq<u8>) -> u64
    decreases bytes.len(),
{
    if bytes.len() == 0 {
        0xcbf29ce484222325u64
    } else {
        fnv_step(fnv(bytes.drop_last()), bytes.last())
    }
}

/// The sixteen hexadecimal digits.
pub open spec fn digits() -> Seq<char> {
    seq!['0', '1', '2', '3', '4', '5', '6', '7', '8', '9', 'a', 'b', 'c', 'd', 'e', 'f']
}

/// The `i`-th group of four bits of `h`, counted from the highest.
pub open spec fn nibble(h: u64, i: int) -> u64 {
    (h >> ((60 - 4 * i) as u64)) & 15
}

/// `h` in sixteen lowercase hexadecimal digits, the highest first.
pub open spec fn hex(h: u64) -> Seq<char> {
    Seq::new(16, |i: int| digits()[nibble(h, i) as int])
}

/// The content hash of a file with the text `text`.
pub open spec fn hash_text(text: Seq<char>) -> Seq<char> {
    hex(fnv(encode_utf8(text)))
}

/// A hash is written in sixteen characters, each a decimal digit or one of
/// the letters `a` to `f`.
pub proof fn lemma_hex_shape(h: u64, i: int)
    requires
        0 <= i < 16,
    ensures
        hex(h).len() == 16,
        ('0' <= hex(h)[i] <= '9') || ('a' <= hex(h)[i] <= 'f'),
{
    let shift = (60 - 4 * i) as u64;
    let n = (h >> shift) & 15;
    assert(n < 16) by (bit_vector)
        requires
            n == (h >> shift) & 15,
    ;
    assert(hex(h)[i] == digits()[n as int]);
    let d = digits();
    assert(d[0] == '0' && d[1] == '1' && d[2] == '2' && d[3] == '3' && d[4] == '4' && d[5] == '5'
        && d[6] == '6' && d[7] == '7' && d[8] == '8' && d[9] == '9' && d[10] == 'a' && d[11] == 'b'
        && d[12] == 'c' && d[13] == 'd' && d[14] == 'e' && d[15] == 'f');
}

/// `h` in sixteen lowercase hexadecimal digits.
pub fn to_hex(h: u64) -> (r: String)
    ensures
        r@ == hex(h),
{
    let table: [char; 16] = [
        '0',
        '1',
        '2',
        '3',
        '4',
        '5',
        '6',
        '7',
        '8',
        '9',
        'a',
        'b',
        'c',
        'd',
        'e',
        'f',
    ];
    assert(table@ =~= digits());
    let mut r = String::new();
    let mut i: u64 = 0;
    while i < 16
        invariant
            i <= 16,
            table@ == digits(),
            r@.len() == i,
            forall|k: int| 0 <= k < i ==> r@[k] == digits()[nibble(h, k) as int],
        decreases 16 - i,
    {
        let shift: u64 = 60 - 4 * i;
        let n: u64 = (h >> shift) & 15;
        assert(n < 16) by (bit_vector)
            requires
                n == (h >> shift) & 15,
        ;
        r.push(table[n as usize]);
        i += 1;
    }
    assert(r@ =~= hex(h));
    r
}

/// The content hash of a file with the text `text`.
pub fn content_hash(text: &str) -> (r: String)
    ensures
        r@ == hash_text(text@),
{
    let bytes = text.as_bytes();
    let mut h: u64 = 0xcbf29ce484222325u64;
    let mut i: usize = 0;
    assert(bytes@.take(0) =~= Seq::<u8>::empty());
    while i < bytes.len()
        invariant
            i <= bytes.len(),
            h == fnv(bytes@.take(i as int)),
        decreases bytes.len() - i,
    {
        assert(bytes@.take(i + 1).drop_last() =~= bytes@.take(i as int));
        assert(bytes@.take(i + 1).last() == bytes@[i as int]);
        h = (h ^ (bytes[i] as u64)).wrapping_mul(0x100000001b3u64);
        i += 1;
    }
    assert(bytes@.take(bytes.len() as int) =~= bytes@);
    to_hex(h)
}

} // verus!
