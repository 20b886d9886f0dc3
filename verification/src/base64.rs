//! Base64 with the portal's shuffled alphabet.

use vstd::prelude::*;

use crate::xencode::byte_or_zero;

verus! {

/// The 64 symbols of the portal's alphabet, in order of their 6-bit value.
pub const ALPHABET: &'static str = "LVoJPiCN2R8G90yg+hmFHuacZ1OWMnrsSTXkYpUq/3dlbfKwv6xztjI7DeBE45QA";

/// What the `base64` crate accepts as an alphabet: 64 distinct printable
/// ASCII symbols, none of them the padding symbol `=`.
pub open spec fn valid_alphabet(alphabet: Seq<char>) -> bool {
    &&& alphabet.len() == 64
    &&& forall|i: int| 0 <= i < 64 ==> {
        &&& 32 <= (#[trigger] alphabet[i]) as u32 <= 126
        &&& alphabet[i] != '='
    }
    &&& forall|i: int, j: int| 0 <= i < j < 64 ==> #[trigger] alphabet[i] != #[trigger] alphabet[j]
}

/// Length of the padded base64 encoding of `n` bytes.
pub open spec fn encoded_len(n: nat) -> nat {
    (n + 2) / 3 * 4
}

/// Padded base64 over `alphabet`: every three bytes become four symbols,
/// and a last group of one or two bytes is completed with `=`.
pub open spec fn base64_spec(alphabet: Seq<char>, b: Seq<u8>) -> Seq<char>
    decreases b.len(),
{
    if b.len() == 0 {
        seq![]
    } else {
        let b0 = b[0] as int;
        let b1 = byte_or_zero(b, 1) as int;
        let b2 = byte_or_zero(b, 2) as int;
        let c0 = alphabet[b0 / 4];
        let c1 = alphabet[(b0 % 4) * 16 + b1 / 16];
        let c2 = alphabet[(b1 % 16) * 4 + b2 / 64];
        let c3 = alphabet[b2 % 64];
        if b.len() == 1 {
            seq![c0, c1, '=', '=']
        } else if b.len() == 2 {
            seq![c0, c1, c2, '=']
        } else {
            seq![c0, c1, c2, c3] + base64_spec(alphabet, b.skip(3))
        }
    }
}

/// The portal's alphabet is one that the `base64` crate accepts.
pub proof fn lemma_alphabet_valid()
    ensures
        valid_alphabet(ALPHABET@),
{
    reveal_strlit("LVoJPiCN2R8G90yg+hmFHuacZ1OWMnrsSTXkYpUq/3dlbfKwv6xztjI7DeBE45QA");
}

/// Trusted: `Engine::encode` of the `base64` crate, on a `GeneralPurpose`
/// engine made by `GeneralPurpose::new` from `Alphabet::new(alphabet)` and
/// `GeneralPurposeConfig::new()`, whose padding is on.  The contract claims
/// that the crate encodes as standard padded base64 with the given symbols in
/// place of the standard ones.  `Alphabet::new` fails, and `encode` panics,
/// on exactly the inputs that `requires` leaves out.
#[verifier::external_body]
fn encode_with_alphabet(alphabet: &str, input: &[u8]) -> (encoded: String)
    requires
        valid_alphabet(alphabet@),
        encoded_len(input@.len()) <= usize::MAX,
    ensures
        encoded@ == base64_spec(alphabet@, input@),
{
    let alphabet = ::base64::alphabet::Alphabet::new(alphabet).unwrap();
    let config = ::base64::engine::GeneralPurposeConfig::new();
    let engine = ::base64::engine::GeneralPurpose::new(&alphabet, config);
    ::base64::Engine::encode(&engine, input)
}

/// Encodes `input` as padded base64 over the portal's alphabet.
pub fn base64_encode(input: &[u8]) -> (encoded: String)
    requires
        encoded_len(input@.len()) <= usize::MAX,
    ensures
        encoded@ == base64_spec(ALPHABET@, input@),
{
    proof {
        lemma_alphabet_valid();
    }
    encode_with_alphabet(ALPHABET, input)
}

/// The encoding is four symbols for every started group of three bytes.
pub proof fn lemma_base64_len(alphabet: Seq<char>, b: Seq<u8>)
    ensures
        base64_spec(alphabet, b).len() == encoded_len(b.len()),
    decreases b.len(),
{
    if b.len() > 2 {
        lemma_base64_len(alphabet, b.skip(3));
    }
}

/// Every symbol of the encoding is a symbol of the alphabet or the padding `=`,
/// and padding only ends the encoding.
pub proof fn lemma_base64_symbols(alphabet: Seq<char>, b: Seq<u8>)
    requires
        alphabet.len() == 64,
    ensures
        forall|i: int|
            0 <= i < base64_spec(alphabet, b).len() ==> (alphabet.contains(
                #[trigger] base64_spec(alphabet, b)[i],
            ) || (base64_spec(alphabet, b)[i] == '=' && i >= base64_spec(alphabet, b).len() - 2)),
    decreases b.len(),
{
    lemma_base64_len(alphabet, b);
    if b.len() > 0 {
        let b0 = b[0] as int;
        let b1 = byte_or_zero(b, 1) as int;
        let b2 = byte_or_zero(b, 2) as int;
        assert(alphabet.contains(alphabet[b0 / 4]));
        assert(alphabet.contains(alphabet[(b0 % 4) * 16 + b1 / 16]));
        assert(alphabet.contains(alphabet[(b1 % 16) * 4 + b2 / 64]));
        assert(alphabet.contains(alphabet[b2 % 64]));
        if b.len() > 2 {
            lemma_base64_symbols(alphabet, b.skip(3));
            lemma_base64_len(alphabet, b.skip(3));
            let rest = base64_spec(alphabet, b.skip(3));
            assert forall|i: int| 4 <= i < base64_spec(alphabet, b).len() implies base64_spec(
                alphabet,
                b,
            )[i] == rest[i - 4] by {}
        }
    }
}

proof fn lemma_alphabet_index(alphabet: Seq<char>, i: int, j: int)
    requires
        valid_alphabet(alphabet),
        0 <= i < 64,
        0 <= j < 64,
        alphabet[i] == alphabet[j],
    ensures
        i == j,
{
    if i < j {
        assert(alphabet[i] != alphabet[j]);
    } else if j < i {
        assert(alphabet[j] != alphabet[i]);
    }
}

proof fn lemma_group_injective(x0: u8, x1: u8, x2: u8, y0: u8, y1: u8, y2: u8)
    requires
        x0 / 4 == y0 / 4,
        (x0 % 4) * 16 + x1 / 16 == (y0 % 4) * 16 + y1 / 16,
        (x1 % 16) * 4 + x2 / 64 == (y1 % 16) * 4 + y2 / 64,
        x2 % 64 == y2 % 64,
    ensures
        x0 == y0,
        x1 == y1,
        x2 == y2,
{
    assert(x0 % 4 == y0 % 4 && x1 / 16 == y1 / 16) by (nonlinear_arith)
        requires
            (x0 % 4) * 16 + x1 / 16 == (y0 % 4) * 16 + y1 / 16,
            0 <= x1 < 256,
            0 <= y1 < 256,
            0 <= x0 % 4 < 4,
            0 <= y0 % 4 < 4,
    ;
    assert(x1 % 16 == y1 % 16 && x2 / 64 == y2 / 64) by (nonlinear_arith)
        requires
            (x1 % 16) * 4 + x2 / 64 == (y1 % 16) * 4 + y2 / 64,
            0 <= x2 < 256,
            0 <= y2 < 256,
            0 <= x1 % 16 < 16,
            0 <= y1 % 16 < 16,
    ;
    assert(x0 == y0 && x1 == y1 && x2 == y2) by (nonlinear_arith)
        requires
            x0 / 4 == y0 / 4,
            x0 % 4 == y0 % 4,
            x1 / 16 == y1 / 16,
            x1 % 16 == y1 % 16,
            x2 / 64 == y2 / 64,
            x2 % 64 == y2 % 64,
    ;
}

/// Different byte strings have different encodings over a valid alphabet.
pub proof fn lemma_base64_injective(alphabet: Seq<char>, a: Seq<u8>, b: Seq<u8>)
    requires
        valid_alphabet(alphabet),
        base64_spec(alphabet, a) == base64_spec(alphabet, b),
    ensures
        a == b,
    decreases a.len(),
{
    lemma_base64_len(alphabet, a);
    lemma_base64_len(alphabet, b);
    if a.len() == 0 || b.len() == 0 {
        assert(a.len() == 0 && b.len() == 0);
        assert(a =~= b);
    } else {
        let ea = base64_spec(alphabet, a);
        let x0 = a[0];
        let x1 = byte_or_zero(a, 1);
        let x2 = byte_or_zero(a, 2);
        let y0 = b[0];
        let y1 = byte_or_zero(b, 1);
        let y2 = byte_or_zero(b, 2);
        let ia0 = x0 as int / 4;
        let ia1 = (x0 as int % 4) * 16 + x1 as int / 16;
        let ia2 = (x1 as int % 16) * 4 + x2 as int / 64;
        let ia3 = x2 as int % 64;
        let ib0 = y0 as int / 4;
        let ib1 = (y0 as int % 4) * 16 + y1 as int / 16;
        let ib2 = (y1 as int % 16) * 4 + y2 as int / 64;
        let ib3 = y2 as int % 64;
        assert(0 <= ia0 < 64 && 0 <= ia1 < 64 && 0 <= ia2 < 64 && 0 <= ia3 < 64);
        assert(0 <= ib0 < 64 && 0 <= ib1 < 64 && 0 <= ib2 < 64 && 0 <= ib3 < 64);
        // the padding tells how long the first group is
        assert(alphabet[ia2] != '=' && alphabet[ia3] != '=' && alphabet[ib2] != '='
            && alphabet[ib3] != '=');
        assert((a.len() == 1) == (b.len() == 1)) by {
            if a.len() == 1 && b.len() != 1 {
                assert(ea[2] == '=');
            }
            if b.len() == 1 && a.len() != 1 {
                assert(ea[2] == '=');
            }
        }
        assert((a.len() == 2) == (b.len() == 2)) by {
            if a.len() == 2 && b.len() > 2 {
                assert(ea[3] == '=');
            }
            if b.len() == 2 && a.len() > 2 {
                assert(ea[3] == '=');
            }
        }
        let eb = base64_spec(alphabet, b);
        assert(ea[0] == alphabet[ia0] && ea[1] == alphabet[ia1]);
        assert(eb[0] == alphabet[ib0] && eb[1] == alphabet[ib1]);
        lemma_alphabet_index(alphabet, ia0, ib0);
        lemma_alphabet_index(alphabet, ia1, ib1);
        if a.len() >= 2 {
            assert(ea[2] == alphabet[ia2] && eb[2] == alphabet[ib2]);
            lemma_alphabet_index(alphabet, ia2, ib2);
        }
        if a.len() >= 3 {
            assert(ea[3] == alphabet[ia3] && eb[3] == alphabet[ib3]);
            lemma_alphabet_index(alphabet, ia3, ib3);
        }
        lemma_group_injective(x0, x1, x2, y0, y1, y2);
        if a.len() >= 3 {
            let ra = base64_spec(alphabet, a.skip(3));
            let rb = base64_spec(alphabet, b.skip(3));
            assert(ea.skip(4) =~= ra);
            assert(base64_spec(alphabet, b).skip(4) =~= rb);
            lemma_base64_injective(alphabet, a.skip(3), b.skip(3));
            assert forall|i: int| 0 <= i < a.len() implies a[i] == b[i] by {
                if i >= 3 {
                    assert(a[i] == a.skip(3)[i - 3]);
                    assert(b[i] == b.skip(3)[i - 3]);
                }
            }
        }
        assert(a =~= b);
    }
}

} // verus!
