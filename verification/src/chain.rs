//! How the development chain lays out its blocks in storage: the block
//! number under `SystemNumber`, and per block number `n` the parent hash,
//! state root and extrinsics root under `HeaderParent{n}`, `HeaderState{n}`
//! and `HeaderExt{n}`.
use vstd::prelude::*;
use crate::hex_text::{
    hex_crate_encode, hex_decodable, hex_decode_bytes, hex_decode_spec, hex_decoded, hex_value,
    is_hex_digit, lower_hex, strip_0x,
};
use crate::storage::{system_number_key, DevStorage};
use crate::text::{decimal_ascii, decimal_bytes, push_char};

verus! {

/// The four little-endian bytes of `n`.
pub open spec fn le_bytes(n: u32) -> Seq<u8> {
    seq![(n & 0xff) as u8, ((n >> 8) & 0xff) as u8, ((n >> 16) & 0xff) as u8, ((n >> 24) & 0xff) as u8]
}

/// The number whose little-endian bytes are `b[0..4]`.
pub open spec fn le_value(b: Seq<u8>) -> u32 {
    (b[0] as u32) | ((b[1] as u32) << 8u32) | ((b[2] as u32) << 16u32) | ((b[3] as u32) << 24u32)
}

/// Reading back little-endian bytes gives the number that was written.
pub proof fn lemma_le_roundtrip(n: u32)
    ensures
        le_value(le_bytes(n)) == n,
        le_bytes(n).len() == 4,
{
    let b0: u8 = (n & 0xff) as u8;
    let b1: u8 = ((n >> 8) & 0xff) as u8;
    let b2: u8 = ((n >> 16) & 0xff) as u8;
    let b3: u8 = ((n >> 24) & 0xff) as u8;
    assert(((b0 as u32) | ((b1 as u32) << 8u32) | ((b2 as u32) << 16u32) | ((b3 as u32) << 24u32))
        == n) by (bit_vector)
        requires
            b0 == (n & 0xff) as u8,
            b1 == ((n >> 8) & 0xff) as u8,
            b2 == ((n >> 16) & 0xff) as u8,
            b3 == ((n >> 24) & 0xff) as u8,
    ;
}

/// The block number that the storage `m` records: its four little-endian
/// bytes, or 0 where the entry is missing or not four bytes long.
pub open spec fn stored_block_number(m: Map<Seq<u8>, Seq<u8>>) -> u32 {
    if m.contains_key(system_number_key()) && m[system_number_key()].len() == 4 {
        le_value(m[system_number_key()])
    } else {
        0
    }
}

/// `n` as four little-endian bytes.
pub fn le_bytes_of(n: u32) -> (bytes: Vec<u8>)
    ensures
        bytes@ == le_bytes(n),
{
    let bytes = vec![(n & 0xff) as u8, ((n >> 8) & 0xff) as u8, ((n >> 16) & 0xff) as u8, ((n >> 24) & 0xff) as u8];
    assert(bytes@ =~= le_bytes(n));
    bytes
}

/// The block number in a stored value: its little-endian reading when it
/// is four bytes long, else 0; 0 when there is no value.
pub fn block_number_of(value: Option<&Vec<u8>>) -> (n: u32)
    ensures
        n == (match value {
            Some(v) => if v@.len() == 4 { le_value(v@) } else { 0 },
            None => 0,
        }),
{
    match value {
        Some(v) => {
            if v.len() == 4 {
                (v[0] as u32) | ((v[1] as u32) << 8u32) | ((v[2] as u32) << 16u32) | ((v[3] as u32) << 24u32)
            } else {
                0
            }
        },
        None => 0,
    }
}

/// The four big-endian bytes of `n`.
pub open spec fn be_bytes(n: u32) -> Seq<u8> {
    seq![((n >> 24) & 0xff) as u8, ((n >> 16) & 0xff) as u8, ((n >> 8) & 0xff) as u8, (n & 0xff) as u8]
}

/// The 32-byte hash that the chain derives from the number `n`: `n` as a
/// big-endian 256-bit number.
pub open spec fn number_hash(n: u32) -> Seq<u8> {
    Seq::new(28, |i: int| 0u8) + be_bytes(n)
}

/// The ASCII code of the lower-case hex digit `d`.
pub open spec fn hex_digit_code(d: int) -> u8 {
    if d < 10 {
        (48 + d) as u8
    } else {
        (87 + d) as u8
    }
}

/// `n` in lower-case hex, zero-padded to 64 digits, as ASCII bytes.
pub open spec fn padded_hex(n: u32) -> Seq<u8> {
    Seq::new(
        64,
        |i: int|
            if i < 56 {
                48u8
            } else {
                let b = be_bytes(n)[(i - 56) / 2];
                if (i - 56) % 2 == 0 {
                    hex_digit_code(b as int / 16)
                } else {
                    hex_digit_code(b as int % 16)
                }
            },
    )
}

/// The ASCII code of the hex digit `d`.
fn hex_code(d: u8) -> (code: u8)
    requires
        d < 16,
    ensures
        code == hex_digit_code(d as int),
{
    if d < 10 {
        48 + d
    } else {
        87 + d
    }
}

/// Appends the two hex digits of `b`, the high one first.
fn push_hex_byte(out: &mut Vec<u8>, b: u8)
    ensures
        final(out)@ == old(out)@ + seq![hex_digit_code(b as int / 16), hex_digit_code(b as int % 16)],
{
    let hi = hex_code(b / 16);
    let lo = hex_code(b % 16);
    out.push(hi);
    out.push(lo);
    assert(final(out)@ =~= old(out)@ + seq![hex_digit_code(b as int / 16), hex_digit_code(b as int % 16)]);
}

/// `n` in lower-case hex, zero-padded to 64 digits.
pub fn padded_hex_of(n: u32) -> (text: Vec<u8>)
    ensures
        text@ == padded_hex(n),
{
    let mut text: Vec<u8> = Vec::new();
    let mut i: usize = 0;
    while i < 56
        invariant
            i <= 56,
            text@ == Seq::new(i as nat, |j: int| 48u8),
        decreases 56 - i,
    {
        text.push(48u8);
        i = i + 1;
        assert(text@ =~= Seq::new(i as nat, |j: int| 48u8));
    }
    let ghost zeros = text@;
    let b0: u8 = ((n >> 24) & 0xff) as u8;
    let b1: u8 = ((n >> 16) & 0xff) as u8;
    let b2: u8 = ((n >> 8) & 0xff) as u8;
    let b3: u8 = (n & 0xff) as u8;
    push_hex_byte(&mut text, b0);
    push_hex_byte(&mut text, b1);
    push_hex_byte(&mut text, b2);
    push_hex_byte(&mut text, b3);
    assert(be_bytes(n) =~= seq![b0, b1, b2, b3]);
    assert(text@ =~= padded_hex(n));
    text
}

/// A hex digit's value is the digit it was written for.
proof fn lemma_hex_digit_code(d: int)
    requires
        0 <= d < 16,
    ensures
        is_hex_digit(hex_digit_code(d)),
        hex_value(hex_digit_code(d)) == d,
{
}

/// The zero-padded hex of `n` decodes to `number_hash(n)`.
pub proof fn lemma_padded_hex_decodes(n: u32)
    ensures
        hex_decode_spec(padded_hex(n)) == number_hash(n),
{
    let t = padded_hex(n);
    assert(strip_0x(t) == t);
    assert forall|i: int| 0 <= i < t.len() implies #[trigger] is_hex_digit(t[i]) by {
        if i >= 56 {
            let b = be_bytes(n)[(i - 56) / 2];
            lemma_hex_digit_code(b as int / 16);
            lemma_hex_digit_code(b as int % 16);
        }
    }
    assert(hex_decodable(t));
    assert forall|i: int| 0 <= i < 32 implies #[trigger] hex_decoded(t)[i] == number_hash(n)[i] by {
        if i >= 28 {
            let b = be_bytes(n)[i - 28];
            assert((2 * i - 56) / 2 == i - 28);
            assert((2 * i + 1 - 56) / 2 == i - 28);
            lemma_hex_digit_code(b as int / 16);
            lemma_hex_digit_code(b as int % 16);
            assert(t[2 * i] == hex_digit_code(b as int / 16));
            assert(t[2 * i + 1] == hex_digit_code(b as int % 16));
        }
    }
    assert(hex_decoded(t) =~= number_hash(n));
}

/// The hash bytes for `n`: `n` formatted as 64 hex digits, then decoded.
pub fn number_hash_of(n: u32) -> (hash: Vec<u8>)
    ensures
        hash@ == number_hash(n),
{
    let text = padded_hex_of(n);
    proof {
        lemma_padded_hex_decodes(n);
    }
    hex_decode_bytes(text.as_slice())
}

/// `HeaderParent` in ASCII.
pub open spec fn parent_prefix() -> Seq<u8> {
    seq![72u8, 101, 97, 100, 101, 114, 80, 97, 114, 101, 110, 116]
}

/// `HeaderState` in ASCII.
pub open spec fn state_prefix() -> Seq<u8> {
    seq![72u8, 101, 97, 100, 101, 114, 83, 116, 97, 116, 101]
}

/// `HeaderExt` in ASCII.
pub open spec fn ext_prefix() -> Seq<u8> {
    seq![72u8, 101, 97, 100, 101, 114, 69, 120, 116]
}

/// A prefix followed by the decimal notation of `n`.
pub open spec fn numbered_key(prefix: Seq<u8>, n: nat) -> Seq<u8> {
    prefix + decimal_ascii(n)
}

/// The key of the parent hash of block `n`.
pub open spec fn parent_key(n: nat) -> Seq<u8> {
    numbered_key(parent_prefix(), n)
}

/// The key of the state root of block `n`.
pub open spec fn state_key(n: nat) -> Seq<u8> {
    numbered_key(state_prefix(), n)
}

/// The key of the extrinsics root of block `n`.
pub open spec fn ext_key(n: nat) -> Seq<u8> {
    numbered_key(ext_prefix(), n)
}

/// The key kinds never collide: they differ at their first or seventh byte.
pub proof fn lemma_keys_distinct(n: nat, m: nat)
    ensures
        parent_key(n) != state_key(m),
        parent_key(n) != ext_key(m),
        state_key(n) != ext_key(m),
        parent_key(n) != system_number_key(),
        state_key(n) != system_number_key(),
        ext_key(n) != system_number_key(),
{
    assert(parent_key(n)[6] == 80u8);
    assert(state_key(m)[6] == 83u8);
    assert(state_key(n)[6] == 83u8);
    assert(ext_key(m)[6] == 69u8);
    assert(parent_key(n)[0] == 72u8);
    assert(state_key(n)[0] == 72u8);
    assert(ext_key(n)[0] == 72u8);
    assert(system_number_key()[0] == 83u8);
}

/// `prefix` followed by the decimal notation of `n`.
fn numbered_key_of(prefix: Vec<u8>, n: u32) -> (key: Vec<u8>)
    ensures
        key@ == numbered_key(prefix@, n as nat),
{
    let mut key = prefix;
    let mut digits = decimal_bytes(n);
    key.append(&mut digits);
    key
}

/// The key of the parent hash of block `n`.
pub fn parent_key_of(n: u32) -> (key: Vec<u8>)
    ensures
        key@ == parent_key(n as nat),
{
    let prefix = vec![72u8, 101, 97, 100, 101, 114, 80, 97, 114, 101, 110, 116];
    assert(prefix@ =~= parent_prefix());
    numbered_key_of(prefix, n)
}

/// The key of the state root of block `n`.
pub fn state_key_of(n: u32) -> (key: Vec<u8>)
    ensures
        key@ == state_key(n as nat),
{
    let prefix = vec![72u8, 101, 97, 100, 101, 114, 83, 116, 97, 116, 101];
    assert(prefix@ =~= state_prefix());
    numbered_key_of(prefix, n)
}

/// The key of the extrinsics root of block `n`.
pub fn ext_key_of(n: u32) -> (key: Vec<u8>)
    ensures
        key@ == ext_key(n as nat),
{
    let prefix = vec![72u8, 101, 97, 100, 101, 114, 69, 120, 116];
    assert(prefix@ =~= ext_prefix());
    numbered_key_of(prefix, n)
}

/// The text a header shows for a missing hash: `0x` written 64 times.
pub open spec fn missing_root() -> Seq<char> {
    Seq::new(128, |i: int| if i % 2 == 0 { '0' } else { 'x' })
}

/// The text a header shows for the hash under `key`: its lower-case hex, or
/// `missing_root()` where there is none.
pub open spec fn stored_root(m: Map<Seq<u8>, Seq<u8>>, key: Seq<u8>) -> Seq<char> {
    if m.contains_key(key) {
        lower_hex(m[key])
    } else {
        missing_root()
    }
}

/// The storage after the next block is made: the number goes up by one and
/// the new block's parent hash, state root and (zero) extrinsics root are
/// recorded under its number.
pub open spec fn after_new_block(m: Map<Seq<u8>, Seq<u8>>) -> Map<Seq<u8>, Seq<u8>> {
    let current = stored_block_number(m);
    let next = (current + 1) as u32;
    m.insert(system_number_key(), le_bytes(next)).insert(
        parent_key(next as nat),
        number_hash(current),
    ).insert(state_key(next as nat), number_hash(next)).insert(ext_key(next as nat), number_hash(0))
}

/// `0x` written 64 times.
pub fn missing_root_text() -> (text: String)
    ensures
        text@ == missing_root(),
{
    let mut text = String::new();
    let mut i: usize = 0;
    while i < 64
        invariant
            i <= 64,
            text@ == Seq::new(2 * i as nat, |j: int| if j % 2 == 0 { '0' } else { 'x' }),
        decreases 64 - i,
    {
        push_char(&mut text, '0');
        push_char(&mut text, 'x');
        i = i + 1;
        assert(text@ =~= Seq::new(2 * i as nat, |j: int| if j % 2 == 0 { '0' } else { 'x' }));
    }
    text
}

/// The header text of the hash under `key`.
pub fn stored_root_text(storage: &DevStorage, key: &[u8]) -> (text: String)
    ensures
        text@ == stored_root(storage@, key@),
{
    match storage.get(key) {
        Some(v) => hex_crate_encode(v.as_slice()),
        None => missing_root_text(),
    }
}

} // verus!
