//! The portal's word-level encryption and its byte/word conversions.

use vstd::prelude::*;
use vstd::utf8::encode_utf8;

use crate::base64::{
    base64_encode, base64_spec, encoded_len, lemma_alphabet_valid, lemma_base64_injective,
    lemma_base64_len, ALPHABET,
};

verus! {

/// The byte at index `i` of `b`, or zero past its end.
pub open spec fn byte_or_zero(b: Seq<u8>, i: int) -> u8 {
    if 0 <= i < b.len() {
        b[i]
    } else {
        0u8
    }
}

/// The little-endian word made of four bytes.
pub open spec fn pack_le(b0: u8, b1: u8, b2: u8, b3: u8) -> u32 {
    (b0 + b1 * 0x100 + b2 * 0x1_0000 + b3 * 0x100_0000) as u32
}

/// The four little-endian bytes of a word.
pub open spec fn le_bytes(w: u32) -> Seq<u8> {
    seq![(w % 0x100) as u8, (w / 0x100 % 0x100) as u8, (w / 0x1_0000 % 0x100) as u8, (w / 0x100_0000) as u8]
}

/// Bytes read four at a time as little-endian words; a last short chunk is
/// padded with zero bytes.
pub open spec fn bytes_to_words(b: Seq<u8>) -> Seq<u32> {
    Seq::new(
        ((b.len() + 3) / 4) as nat,
        |i: int|
            pack_le(
                byte_or_zero(b, 4 * i),
                byte_or_zero(b, 4 * i + 1),
                byte_or_zero(b, 4 * i + 2),
                byte_or_zero(b, 4 * i + 3),
            ),
    )
}

/// Words written out as their little-endian bytes, one after the other.
pub open spec fn words_to_bytes(w: Seq<u32>) -> Seq<u8>
    decreases w.len(),
{
    if w.len() == 0 {
        seq![]
    } else {
        words_to_bytes(w.drop_last()) + le_bytes(w.last())
    }
}

/// Reads `content` as little-endian 32-bit words, four bytes to a word,
/// padding the last word with zero bytes.
pub fn u8_array_to_u32_array(content: &[u8]) -> (words: Vec<u32>)
    ensures
        words@ == bytes_to_words(content@),
{
    let len = content.len();
    let count: usize = len / 4 + if len % 4 == 0 { 0 } else { 1 };
    assert(count == (len + 3) / 4);
    let mut words: Vec<u32> = Vec::new();
    let mut k: usize = 0;
    while k < count
        invariant
            len == content@.len(),
            count == (len + 3) / 4,
            k <= count,
            words@.len() == k,
            forall|j: int|
                0 <= j < k ==> #[trigger] words@[j] == bytes_to_words(content@)[j],
        decreases count - k,
    {
        let i = 4 * k;
        let b0 = content[i];
        let b1 = if i + 1 < len { content[i + 1] } else { 0u8 };
        let b2 = if i + 2 < len { content[i + 2] } else { 0u8 };
        let b3 = if i + 3 < len { content[i + 3] } else { 0u8 };
        let w: u32 = b0 as u32 + b1 as u32 * 0x100 + b2 as u32 * 0x1_0000 + b3 as u32 * 0x100_0000;
        words.push(w);
        k = k + 1;
    }
    assert(words@ =~= bytes_to_words(content@));
    words
}

/// Writes every word out as its four little-endian bytes.
pub fn u32_array_to_u8_array(content: &[u32]) -> (bytes: Vec<u8>)
    requires
        content@.len() * 4 <= usize::MAX,
    ensures
        bytes@ == words_to_bytes(content@),
{
    let mut bytes: Vec<u8> = Vec::with_capacity(content.len() * 4);
    let mut k: usize = 0;
    while k < content.len()
        invariant
            k <= content@.len(),
            bytes@ == words_to_bytes(content@.take(k as int)),
        decreases content@.len() - k,
    {
        let w = content[k];
        bytes.push((w % 0x100) as u8);
        bytes.push((w / 0x100 % 0x100) as u8);
        bytes.push((w / 0x1_0000 % 0x100) as u8);
        bytes.push((w / 0x100_0000) as u8);
        assert(content@.take(k + 1).drop_last() =~= content@.take(k as int));
        assert(bytes@ =~= words_to_bytes(content@.take(k + 1)));
        k = k + 1;
    }
    assert(content@.take(content@.len() as int) =~= content@);
    bytes
}

/// The constant added to the running sum at the start of every round.
pub const DELTA: u32 = 0x9e37_79b9;

/// Wrapping (mod 2^32) addition.
pub open spec fn wadd(a: u32, b: u32) -> u32 {
    vstd::wrapping::u32_specs::wrapping_add(a, b)
}

/// The amount added to a word: it mixes its left neighbour `z`, its right
/// neighbour `y`, the running sum `d` and one key word `k`.
pub open spec fn mix(z: u32, y: u32, d: u32, k: u32) -> u32 {
    wadd(wadd((z >> 5u32) ^ (y << 2u32), ((y >> 3u32) ^ (z << 4u32)) ^ (d ^ y)), k ^ z)
}

/// Which of the four key words is used at position `p` with running sum `d`.
pub open spec fn key_slot(p: int, d: u32) -> int {
    (((p as u32) & 3u32) ^ ((d >> 2u32) & 3u32)) as int
}

/// One step of a round: the word at `p` takes in the mix of its current
/// neighbours; the new word becomes the next step's left neighbour.
pub open spec fn step(state: (Seq<u32>, u32), key: Seq<u32>, d: u32, p: int) -> (Seq<u32>, u32) {
    let m = state.0;
    let z = state.1;
    let y = m[(p + 1) % (m.len() as int)];
    let v = wadd(m[p], mix(z, y, d, key[key_slot(p, d)]));
    (m.update(p, v), v)
}

/// The words and the left neighbour after the first `count` steps of a round.
pub open spec fn steps(m: Seq<u32>, z: u32, key: Seq<u32>, d: u32, count: nat) -> (Seq<u32>, u32)
    decreases count,
{
    if count == 0 {
        (m, z)
    } else {
        step(steps(m, z, key, d, (count - 1) as nat), key, d, count - 1)
    }
}

/// The running sum during round `r` (the first round is round 1).
pub open spec fn round_sum(r: nat) -> u32
    decreases r,
{
    if r == 0 {
        0u32
    } else {
        wadd(round_sum((r - 1) as nat), DELTA)
    }
}

/// The words after `r` full rounds; each round steps through every word once,
/// starting with the last word as the left neighbour of the first.
pub open spec fn rounds(m: Seq<u32>, key: Seq<u32>, r: nat) -> Seq<u32>
    decreases r,
{
    if r == 0 {
        m
    } else {
        let prev = rounds(m, key, (r - 1) as nat);
        steps(prev, prev.last(), key, round_sum(r), prev.len()).0
    }
}

/// How many rounds a message of `len` words goes through.
pub open spec fn round_count(len: nat) -> nat {
    6 + 52nat / len
}

/// The encryption of the words `m` under the key words `key`.
pub open spec fn xencode_spec(m: Seq<u32>, key: Seq<u32>) -> Seq<u32> {
    rounds(m, key, round_count(m.len()))
}

proof fn lemma_steps_len(m: Seq<u32>, z: u32, key: Seq<u32>, d: u32, count: nat)
    requires
        count <= m.len(),
    ensures
        steps(m, z, key, d, count).0.len() == m.len(),
    decreases count,
{
    if count > 0 {
        lemma_steps_len(m, z, key, d, (count - 1) as nat);
    }
}

proof fn lemma_rounds_len(m: Seq<u32>, key: Seq<u32>, r: nat)
    ensures
        rounds(m, key, r).len() == m.len(),
    decreases r,
{
    if r > 0 {
        lemma_rounds_len(m, key, (r - 1) as nat);
        let prev = rounds(m, key, (r - 1) as nat);
        lemma_steps_len(prev, prev.last(), key, round_sum(r), prev.len());
    }
}

/// Encryption keeps the number of words.
pub proof fn lemma_xencode_len(m: Seq<u32>, key: Seq<u32>)
    requires
        m.len() > 0,
    ensures
        xencode_spec(m, key).len() == m.len(),
{
    lemma_rounds_len(m, key, round_count(m.len()));
}

/// Encrypts `message` in place with the words of `key`.
pub fn xencode(message: &mut Vec<u32>, key: &[u32])
    requires
        1 <= old(message)@.len() <= u32::MAX,
        key@.len() >= 4,
    ensures
        final(message)@ == xencode_spec(old(message)@, key@),
{
    let ghost orig = message@;
    let n: u32 = (message.len() - 1) as u32;
    let mut z: u32 = message[n as usize];
    let c: u32 = DELTA;
    let mut q: u32 = 6 + 52 / (n + 1);
    let ghost total = q as nat;
    assert(total == round_count(orig.len()));
    let mut d: u32 = 0;
    while 0 < q
        invariant
            orig.len() == n + 1,
            n < u32::MAX,
            key@.len() >= 4,
            q <= total,
            message@.len() == orig.len(),
            message@ == rounds(orig, key@, (total - q) as nat),
            d == round_sum((total - q) as nat),
            z == message@[n as int],
            total == round_count(orig.len()),
            c == DELTA,
        decreases q,
    {
        let ghost r = (total - q + 1) as nat;
        let ghost start = message@;
        let ghost d0 = d;
        d = d.wrapping_add(c);
        assert(d == round_sum(r)) by {
            assert((r - 1) as nat == (total - q) as nat);
        }
        let e: u32 = d >> 2 & 3;
        assert(e <= 3) by (bit_vector)
            requires
                e == d >> 2 & 3,
        ;
        let mut p: u32 = 0;
        while p < n
            invariant
                orig.len() == n + 1,
                start.len() == n + 1,
                key@.len() >= 4,
                e == (d >> 2u32) & 3u32,
                e <= 3,
                p <= n,
                (message@, z) == steps(start, start.last(), key@, d, p as nat),
            decreases n - p,
        {
            proof {
                lemma_steps_len(start, start.last(), key@, d, p as nat);
            }
            let y = message[p as usize + 1];
            let mut m = z >> 5 ^ y << 2;
            m = m.wrapping_add((y >> 3 ^ z << 4) ^ (d ^ y));
            let slot: u32 = (p & 3) ^ e;
            assert(slot <= 3) by (bit_vector)
                requires
                    slot == (p & 3) ^ e,
                    e <= 3,
            ;
            m = m.wrapping_add(key[slot as usize] ^ z);
            let v = message[p as usize].wrapping_add(m);
            message.set(p as usize, v);
            z = v;
            proof {
                vstd::arithmetic::div_mod::lemma_small_mod((p + 1) as nat, start.len());
                assert(key_slot(p as int, d) == slot as int);
            }
            p = p + 1;
        }
        proof {
            lemma_steps_len(start, start.last(), key@, d, n as nat);
        }
        let y = message[0];
        let mut m = z >> 5 ^ y << 2;
        m = m.wrapping_add((y >> 3 ^ z << 4) ^ (d ^ y));
        let slot: u32 = (p & 3) ^ e;
        assert(slot <= 3) by (bit_vector)
            requires
                slot == (p & 3) ^ e,
                e <= 3,
        ;
        m = m.wrapping_add(key[slot as usize] ^ z);
        let v = message[n as usize].wrapping_add(m);
        message.set(n as usize, v);
        z = v;
        proof {
            assert((n as int + 1) % (start.len() as int) == 0);
            assert(key_slot(n as int, d) == slot as int);
            lemma_steps_len(start, start.last(), key@, d, start.len());
        }
        q = q - 1;
    }
}

/// The words that are encrypted for a message: its UTF-8 bytes as words,
/// then the number of bytes (taken mod 2^32) as one more word.
pub open spec fn message_words(text: Seq<char>) -> Seq<u32> {
    let b = encode_utf8(text);
    bytes_to_words(b).push(b.len() as u32)
}

/// The key words made from a key text: its UTF-8 bytes as words, with zero
/// words added until there are at least four.
pub open spec fn key_words(text: Seq<char>) -> Seq<u32> {
    let w = bytes_to_words(encode_utf8(text));
    if w.len() < 4 {
        w + Seq::new((4 - w.len()) as nat, |i: int| 0u32)
    } else {
        w
    }
}

/// The encrypted message, written as base64 over the portal's alphabet.
pub open spec fn xencode_text(message: Seq<char>, key: Seq<char>) -> Seq<char> {
    base64_spec(ALPHABET@, words_to_bytes(xencode_spec(message_words(message), key_words(key))))
}

/// A message of `n` bytes is small enough for the word count to fit a `u32`
/// and for every buffer on the way to fit the address space.
pub open spec fn xencode_fits(n: nat) -> bool {
    let words = (n + 3) / 4 + 1;
    &&& words <= u32::MAX
    &&& words * 4 <= usize::MAX
    &&& encoded_len(words * 4) <= usize::MAX
}

/// Writing words out gives four bytes per word.
pub proof fn lemma_words_to_bytes_len(w: Seq<u32>)
    ensures
        words_to_bytes(w).len() == 4 * w.len(),
    decreases w.len(),
{
    if w.len() > 0 {
        lemma_words_to_bytes_len(w.drop_last());
    }
}

/// Encrypts `message` under `key` and writes the result in the portal's
/// base64.
pub fn get_xencode(message: &str, key: &str) -> (encoded: String)
    requires
        xencode_fits(encode_utf8(message@).len()),
    ensures
        encoded@ == xencode_text(message@, key@),
        encoded@.len() == encoded_len(4 * ((encode_utf8(message@).len() + 3) / 4 + 1)),
{
    let message_bytes = message.as_bytes();
    let key_bytes = key.as_bytes();
    let message_len = message_bytes.len();
    let mut words = u8_array_to_u32_array(message_bytes);
    words.push(message_len as u32);
    assert(words@ == message_words(message@));
    let mut key_block = u8_array_to_u32_array(key_bytes);
    if key_block.len() < 4 {
        key_block.resize(4, 0u32);
    }
    assert(key_block@ =~= key_words(key@));
    xencode(&mut words, key_block.as_slice());
    proof {
        lemma_xencode_len(message_words(message@), key_words(key@));
    }
    let bytes = u32_array_to_u8_array(words.as_slice());
    proof {
        lemma_words_to_bytes_len(words@);
        lemma_base64_len(ALPHABET@, bytes@);
    }
    base64_encode(bytes.as_slice())
}

proof fn lemma_le_bytes_of_pack(b0: u8, b1: u8, b2: u8, b3: u8)
    ensures
        le_bytes(pack_le(b0, b1, b2, b3)) == seq![b0, b1, b2, b3],
{
    let x = b0 + b1 * 0x100 + b2 * 0x1_0000 + b3 * 0x100_0000;
    assert(0 <= x < 0x1_0000_0000);
    assert(x % 0x100 == b0 && x / 0x100 % 0x100 == b1 && x / 0x1_0000 % 0x100 == b2 && x
        / 0x100_0000 == b3) by (nonlinear_arith)
        requires
            x == b0 + b1 * 0x100 + b2 * 0x1_0000 + b3 * 0x100_0000,
            0 <= b0 < 0x100,
            0 <= b1 < 0x100,
            0 <= b2 < 0x100,
            0 <= b3 < 0x100,
    ;
    assert(le_bytes(pack_le(b0, b1, b2, b3)) =~= seq![b0, b1, b2, b3]);
}

proof fn lemma_pack_of_le_bytes(w: u32)
    ensures
        pack_le(le_bytes(w)[0], le_bytes(w)[1], le_bytes(w)[2], le_bytes(w)[3]) == w,
{
    let x = w as int;
    assert(x % 0x100 + (x / 0x100 % 0x100) * 0x100 + (x / 0x1_0000 % 0x100) * 0x1_0000 + (x
        / 0x100_0000) * 0x100_0000 == x) by (nonlinear_arith)
        requires
            0 <= x < 0x1_0000_0000,
    ;
}

proof fn lemma_words_to_bytes_index(w: Seq<u32>, i: int)
    requires
        0 <= i < 4 * w.len(),
    ensures
        words_to_bytes(w).len() == 4 * w.len(),
        words_to_bytes(w)[i] == le_bytes(w[i / 4])[i % 4],
    decreases w.len(),
{
    lemma_words_to_bytes_len(w);
    lemma_words_to_bytes_len(w.drop_last());
    if i < 4 * (w.len() - 1) {
        lemma_words_to_bytes_index(w.drop_last(), i);
    }
}

/// Reading back the bytes of written-out words gives the words again.
pub proof fn lemma_words_bytes_roundtrip(w: Seq<u32>)
    ensures
        bytes_to_words(words_to_bytes(w)) == w,
{
    let b = words_to_bytes(w);
    lemma_words_to_bytes_len(w);
    assert forall|k: int| 0 <= k < w.len() implies #[trigger] bytes_to_words(b)[k] == w[k] by {
        lemma_words_to_bytes_index(w, 4 * k);
        lemma_words_to_bytes_index(w, 4 * k + 1);
        lemma_words_to_bytes_index(w, 4 * k + 2);
        lemma_words_to_bytes_index(w, 4 * k + 3);
        lemma_pack_of_le_bytes(w[k]);
    }
    assert(bytes_to_words(b) =~= w);
}

/// Writing out the words read from some bytes gives those bytes back, with
/// zero bytes added up to the next multiple of four.
pub proof fn lemma_bytes_words_roundtrip(b: Seq<u8>)
    ensures
        words_to_bytes(bytes_to_words(b)) == Seq::new(
            (4 * ((b.len() + 3) / 4)) as nat,
            |i: int| byte_or_zero(b, i),
        ),
{
    let w = bytes_to_words(b);
    lemma_words_to_bytes_len(w);
    assert forall|i: int| 0 <= i < 4 * w.len() implies #[trigger] words_to_bytes(w)[i]
        == byte_or_zero(b, i) by {
        lemma_words_to_bytes_index(w, i);
        let k = i / 4;
        lemma_le_bytes_of_pack(
            byte_or_zero(b, 4 * k),
            byte_or_zero(b, 4 * k + 1),
            byte_or_zero(b, 4 * k + 2),
            byte_or_zero(b, 4 * k + 3),
        );
        assert(i == 4 * k + i % 4);
    }
    assert(words_to_bytes(w) =~= Seq::new(
        (4 * ((b.len() + 3) / 4)) as nat,
        |i: int| byte_or_zero(b, i),
    ));
}

proof fn lemma_key_slot_small(p: int, d: u32)
    ensures
        0 <= key_slot(p, d) < 4,
{
    let pp = p as u32;
    assert((pp & 3u32) ^ ((d >> 2u32) & 3u32) < 4u32) by (bit_vector);
}

proof fn lemma_steps_key_prefix(m: Seq<u32>, z: u32, key: Seq<u32>, d: u32, count: nat)
    requires
        key.len() >= 4,
    ensures
        steps(m, z, key, d, count) == steps(m, z, key.take(4), d, count),
    decreases count,
{
    if count > 0 {
        lemma_steps_key_prefix(m, z, key, d, (count - 1) as nat);
        lemma_key_slot_small(count - 1, d);
    }
}

proof fn lemma_rounds_key_prefix(m: Seq<u32>, key: Seq<u32>, r: nat)
    requires
        key.len() >= 4,
    ensures
        rounds(m, key, r) == rounds(m, key.take(4), r),
    decreases r,
{
    if r > 0 {
        lemma_rounds_key_prefix(m, key, (r - 1) as nat);
        let prev = rounds(m, key, (r - 1) as nat);
        lemma_steps_key_prefix(prev, prev.last(), key, round_sum(r), prev.len());
    }
}

/// Only the first four key words take part in the encryption.
pub proof fn lemma_xencode_key_prefix(m: Seq<u32>, key: Seq<u32>)
    requires
        key.len() >= 4,
    ensures
        xencode_spec(m, key) == xencode_spec(m, key.take(4)),
{
    lemma_rounds_key_prefix(m, key, round_count(m.len()));
}

/// Tells whether a message of `n` bytes is small enough for `get_xencode`.
pub fn message_fits(n: usize) -> (fits: bool)
    ensures
        fits == xencode_fits(n as nat),
{
    let words: u128 = (n as u128 + 3) / 4 + 1;
    words <= u32::MAX as u128 && words * 4 <= usize::MAX as u128 && (words * 4 + 2) / 3 * 4
        <= usize::MAX as u128
}

/// The index of the left neighbour of position `p` in a ring of `len` words.
pub open spec fn left_of(p: int, len: int) -> int {
    if p == 0 {
        len - 1
    } else {
        p - 1
    }
}

proof fn lemma_steps_left(m: Seq<u32>, key: Seq<u32>, d: u32, count: nat)
    requires
        m.len() >= 2,
        count <= m.len(),
    ensures
        steps(m, m.last(), key, d, count).0.len() == m.len(),
        steps(m, m.last(), key, d, count).1 == steps(m, m.last(), key, d, count).0[left_of(
            count as int,
            m.len() as int,
        )],
    decreases count,
{
    lemma_steps_len(m, m.last(), key, d, count);
    if count > 0 {
        lemma_steps_left(m, key, d, (count - 1) as nat);
    }
}

proof fn lemma_wadd_cancel(a: u32, b: u32, x: u32)
    requires
        wadd(a, x) == wadd(b, x),
    ensures
        a == b,
{
}

proof fn lemma_steps_injective(m1: Seq<u32>, m2: Seq<u32>, key: Seq<u32>, d: u32, count: nat)
    requires
        m1.len() == m2.len(),
        m1.len() >= 2,
        count <= m1.len(),
        steps(m1, m1.last(), key, d, count).0 == steps(m2, m2.last(), key, d, count).0,
    ensures
        m1 == m2,
    decreases count,
{
    if count == 0 {
    } else {
        let len = m1.len() as int;
        let p = count - 1;
        let s1 = steps(m1, m1.last(), key, d, p as nat);
        let s2 = steps(m2, m2.last(), key, d, p as nat);
        lemma_steps_left(m1, key, d, p as nat);
        lemma_steps_left(m2, key, d, p as nat);
        let after1 = step(s1, key, d, p);
        let after2 = step(s2, key, d, p);
        assert(after1.0 == after2.0);
        assert forall|j: int| 0 <= j < len && j != p implies s1.0[j] == s2.0[j] by {
            assert(after1.0[j] == s1.0[j]);
            assert(after2.0[j] == s2.0[j]);
        }
        let yi = (p + 1) % len;
        if p + 1 < len {
            vstd::arithmetic::div_mod::lemma_small_mod((p + 1) as nat, len as nat);
        } else {
            vstd::arithmetic::div_mod::lemma_mod_self_0(len);
            assert(p + 1 == len);
            assert(yi == 0);
        }
        assert(yi != p);
        assert(left_of(p, len) != p);
        assert(s1.1 == s2.1);
        assert(s1.0[yi] == s2.0[yi]);
        let x = mix(s1.1, s1.0[yi], d, key[key_slot(p, d)]);
        assert(after1.0[p] == wadd(s1.0[p], x));
        assert(after2.0[p] == wadd(s2.0[p], x));
        lemma_wadd_cancel(s1.0[p], s2.0[p], x);
        assert(s1.0 =~= s2.0);
        lemma_steps_injective(m1, m2, key, d, p as nat);
    }
}

proof fn lemma_rounds_injective(m1: Seq<u32>, m2: Seq<u32>, key: Seq<u32>, r: nat)
    requires
        m1.len() == m2.len(),
        m1.len() >= 2,
        rounds(m1, key, r) == rounds(m2, key, r),
    ensures
        m1 == m2,
    decreases r,
{
    if r > 0 {
        let p1 = rounds(m1, key, (r - 1) as nat);
        let p2 = rounds(m2, key, (r - 1) as nat);
        lemma_rounds_len(m1, key, (r - 1) as nat);
        lemma_rounds_len(m2, key, (r - 1) as nat);
        lemma_steps_injective(p1, p2, key, round_sum(r), p1.len());
        lemma_rounds_injective(m1, m2, key, (r - 1) as nat);
    }
}

/// On two or more words, different messages encrypt to different words:
/// every step adds to one word an amount that does not depend on that word.
pub proof fn lemma_xencode_injective(m1: Seq<u32>, m2: Seq<u32>, key: Seq<u32>)
    requires
        m1.len() >= 2,
        xencode_spec(m1, key) == xencode_spec(m2, key),
    ensures
        m1 == m2,
{
    lemma_rounds_len(m1, key, round_count(m1.len()));
    lemma_rounds_len(m2, key, round_count(m2.len()));
    lemma_rounds_injective(m1, m2, key, round_count(m1.len()));
}

/// The sixteen key bytes that the encryption reads: the first sixteen bytes,
/// with zero bytes after the end.
pub open spec fn key_block(b: Seq<u8>) -> Seq<u8> {
    Seq::new(16, |i: int| byte_or_zero(b, i))
}

proof fn lemma_key_words_front(text: Seq<char>)
    ensures
        key_words(text).len() >= 4,
        forall|i: int|
            0 <= i < 4 ==> #[trigger] key_words(text)[i] == pack_le(
                byte_or_zero(encode_utf8(text), 4 * i),
                byte_or_zero(encode_utf8(text), 4 * i + 1),
                byte_or_zero(encode_utf8(text), 4 * i + 2),
                byte_or_zero(encode_utf8(text), 4 * i + 3),
            ),
{
    let b = encode_utf8(text);
    let w = bytes_to_words(b);
    assert forall|i: int| 0 <= i < 4 implies #[trigger] key_words(text)[i] == pack_le(
        byte_or_zero(b, 4 * i),
        byte_or_zero(b, 4 * i + 1),
        byte_or_zero(b, 4 * i + 2),
        byte_or_zero(b, 4 * i + 3),
    ) by {
        if i >= w.len() {
            assert(4 * i >= b.len());
            assert(pack_le(0, 0, 0, 0) == 0);
        }
    }
}

/// Key texts whose first sixteen bytes agree (with zero bytes after the end)
/// encrypt every message alike: later key bytes are never read.
pub proof fn lemma_xencode_text_key_block(message: Seq<char>, k1: Seq<char>, k2: Seq<char>)
    requires
        key_block(encode_utf8(k1)) == key_block(encode_utf8(k2)),
    ensures
        xencode_text(message, k1) == xencode_text(message, k2),
{
    let b1 = encode_utf8(k1);
    let b2 = encode_utf8(k2);
    lemma_key_words_front(k1);
    lemma_key_words_front(k2);
    assert forall|i: int| 0 <= i < 16 implies byte_or_zero(b1, i) == byte_or_zero(b2, i) by {
        assert(key_block(b1)[i] == key_block(b2)[i]);
    }
    assert forall|i: int| 0 <= i < 4 implies key_words(k1)[i] == key_words(k2)[i] by {
        assert(byte_or_zero(b1, 4 * i) == byte_or_zero(b2, 4 * i));
        assert(byte_or_zero(b1, 4 * i + 1) == byte_or_zero(b2, 4 * i + 1));
        assert(byte_or_zero(b1, 4 * i + 2) == byte_or_zero(b2, 4 * i + 2));
        assert(byte_or_zero(b1, 4 * i + 3) == byte_or_zero(b2, 4 * i + 3));
    }
    assert(key_words(k1).take(4) =~= key_words(k2).take(4));
    lemma_xencode_key_prefix(message_words(message), key_words(k1));
    lemma_xencode_key_prefix(message_words(message), key_words(k2));
}

/// Different messages, each of at most `u32::MAX` bytes, encrypt to
/// different texts under the same key.
pub proof fn lemma_xencode_text_injective(m1: Seq<char>, m2: Seq<char>, key: Seq<char>)
    requires
        encode_utf8(m1).len() <= u32::MAX,
        encode_utf8(m2).len() <= u32::MAX,
        xencode_text(m1, key) == xencode_text(m2, key),
    ensures
        m1 == m2,
{
    let b1 = encode_utf8(m1);
    let b2 = encode_utf8(m2);
    let w1 = message_words(m1);
    let w2 = message_words(m2);
    let kw = key_words(key);
    let x1 = xencode_spec(w1, kw);
    let x2 = xencode_spec(w2, kw);
    lemma_alphabet_valid();
    lemma_base64_injective(ALPHABET@, words_to_bytes(x1), words_to_bytes(x2));
    lemma_words_bytes_roundtrip(x1);
    lemma_words_bytes_roundtrip(x2);
    assert(x1 == x2);
    lemma_xencode_len(w1, kw);
    lemma_xencode_len(w2, kw);
    if w1.len() >= 2 {
        lemma_xencode_injective(w1, w2, kw);
    } else {
        assert(b1.len() == 0 && b2.len() == 0);
        assert(w1 =~= w2);
    }
    assert(w1 == w2);
    assert(bytes_to_words(b1) =~= w1.drop_last());
    assert(bytes_to_words(b2) =~= w2.drop_last());
    assert(w1.last() == b1.len() as u32);
    assert(w2.last() == b2.len() as u32);
    assert(b1.len() as u32 == b1.len());
    assert(b2.len() as u32 == b2.len());
    assert(b1.len() == b2.len());
    lemma_bytes_words_roundtrip(b1);
    lemma_bytes_words_roundtrip(b2);
    assert forall|i: int| 0 <= i < b1.len() implies b1[i] == b2[i] by {
        let p1 = words_to_bytes(bytes_to_words(b1));
        let p2 = words_to_bytes(bytes_to_words(b2));
        assert(p1[i] == byte_or_zero(b1, i));
        assert(p2[i] == byte_or_zero(b2, i));
    }
    assert(b1 =~= b2);
    vstd::utf8::encode_utf8_decode_utf8(m1);
    vstd::utf8::encode_utf8_decode_utf8(m2);
}

/// A message of `len` words goes through exactly `6 + floor(52 / len)`
/// rounds: 58 for one word, 7 for 27 to 34 words, and 6 from 53 words on.
pub proof fn lemma_xencode_round_count(m: Seq<u32>, key: Seq<u32>)
    requires
        m.len() >= 1,
    ensures
        xencode_spec(m, key) == rounds(m, key, (6 + 52int / (m.len() as int)) as nat),
        m.len() == 1 ==> xencode_spec(m, key) == rounds(m, key, 58),
        27 <= m.len() <= 34 ==> xencode_spec(m, key) == rounds(m, key, 7),
        m.len() >= 53 ==> xencode_spec(m, key) == rounds(m, key, 6),
{
    let len = m.len() as int;
    if len == 1 {
        assert(52int / len == 52) by (nonlinear_arith)
            requires
                len == 1,
        ;
    }
    if 27 <= len <= 34 {
        assert(52int / len == 1) by (nonlinear_arith)
            requires
                27 <= len <= 34,
        ;
    }
    if len >= 53 {
        assert(52int / len == 0) by (nonlinear_arith)
            requires
                len >= 53,
        ;
    }
}

} // verus!
