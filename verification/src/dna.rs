//! Kitty DNA: the random genes of a new kitty, and how two parents' genes mix.
use parity_scale_codec::Encode;
use vstd::prelude::*;

verus! {

/// Bit `k` of a byte, as 0 or 1.
pub open spec fn bit(x: u8, k: u8) -> u8 {
    (x >> k) & 1
}

/// The gene mixed from `dna1` and `dna2` under `selector`.
pub open spec fn combined(dna1: u8, dna2: u8, selector: u8) -> u8 {
    (selector & dna1) | (!selector & dna2)
}

/// Mixes two parent genes: every bit set in `selector` is taken from `dna1`,
/// every bit clear in it from `dna2`.
pub fn combine_dna(dna1: u8, dna2: u8, selector: u8) -> (r: u8)
    ensures
        r == combined(dna1, dna2, selector),
        forall|k: u8|
            k < 8 ==> #[trigger] bit(r, k) == if bit(selector, k) == 1 {
                bit(dna1, k)
            } else {
                bit(dna2, k)
            },
{
    let r = (selector & dna1) | (!selector & dna2);
    assert(forall|k: u8|
        k < 8 ==> #[trigger] ((r >> k) & 1) == if ((selector >> k) & 1) == 1 {
            (dna1 >> k) & 1
        } else {
            (dna2 >> k) & 1
        }) by (bit_vector)
        requires
            r == (selector & dna1) | (!selector & dna2),
    ;
    r
}

/// A selector of all ones takes the first gene, one of all zeros the second,
/// and two equal genes mix to themselves under any selector.
pub proof fn lemma_combined_selects(dna1: u8, dna2: u8, selector: u8)
    ensures
        combined(dna1, dna2, 0xff) == dna1,
        combined(dna1, dna2, 0) == dna2,
        combined(dna1, dna1, selector) == dna1,
{
    assert((0xffu8 & dna1) | (!0xffu8 & dna2) == dna1) by (bit_vector);
    assert((0u8 & dna1) | (!0u8 & dna2) == dna2) by (bit_vector);
    assert((selector & dna1) | (!selector & dna1) == dna1) by (bit_vector);
}

/// The DNA of a child, gene by gene mixed from its parents' DNA.
pub open spec fn mixed_dna(dna1: Seq<u8>, dna2: Seq<u8>, selector: Seq<u8>) -> Seq<u8> {
    Seq::new(16, |i: int| combined(dna1[i], dna2[i], selector[i]))
}

/// The DNA of the child of two kitties, each gene mixed by `combine_dna`
/// under the matching byte of `selector`.
pub fn breed_dna(dna1: &[u8; 16], dna2: &[u8; 16], selector: &[u8; 16]) -> (r: [u8; 16])
    ensures
        r@ == mixed_dna(dna1@, dna2@, selector@),
        // Each bit of each gene comes from the first parent where the
        // selector's bit is set, and from the second where it is clear.
        forall|i: int, k: u8|
            0 <= i < 16 && k < 8 ==> #[trigger] bit(r@[i], k) == if bit(selector@[i], k) == 1 {
                bit(dna1@[i], k)
            } else {
                bit(dna2@[i], k)
            },
{
    let mut new_dna = [0u8;16];
    for i in 0..16
        invariant
            new_dna@.len() == 16,
            forall|j: int| 0 <= j < i ==> new_dna@[j] == combined(dna1@[j], dna2@[j], selector@[j]),
            forall|j: int, k: u8|
                0 <= j < i && k < 8 ==> #[trigger] bit(new_dna@[j], k) == if bit(selector@[j], k) == 1 {
                    bit(dna1@[j], k)
                } else {
                    bit(dna2@[j], k)
                },
    {
        let gene = combine_dna(dna1[i], dna2[i], selector[i]);
        new_dna[i] = gene;
    }
    assert(new_dna@ =~= mixed_dna(dna1@, dna2@, selector@));
    new_dna
}

/// The `n` low bytes of `x`, least significant first.
pub open spec fn le_bytes(x: nat, n: nat) -> Seq<u8>
    decreases n,
{
    if n == 0 {
        Seq::empty()
    } else {
        seq![(x % 256) as u8] + le_bytes(x / 256, (n - 1) as nat)
    }
}

/// The SCALE encoding of an optional `u32`: a 0 byte for none, else a 1 byte
/// and the value's four little-endian bytes.
pub open spec fn option_u32_encoding(o: Option<u32>) -> Seq<u8> {
    match o {
        None => seq![0u8],
        Some(x) => seq![1u8] + le_bytes(x as nat, 4),
    }
}

/// The SCALE encoding of the tuple (random seed, account, extrinsic index):
/// the encodings of its fields one after another, the seed's 32 bytes as they
/// are and the account as eight little-endian bytes.
pub open spec fn payload_encoding(seed: Seq<u8>, sender: u64, extrinsic_index: Option<u32>) -> Seq<
    u8,
> {
    seed + le_bytes(sender as nat, 8) + option_u32_encoding(extrinsic_index)
}

/// The 128-bit Blake2b hash of `data` (computed by `sp_io::hashing::blake2_128`).
pub uninterp spec fn blake2_128_of(data: Seq<u8>) -> Seq<u8>;

/// Calls `parity_scale_codec::Encode::encode` on the tuple
/// `(seed, &sender, extrinsic_index)`. Claimed: the bytes are the SCALE
/// encoding that the codec's documentation gives for these types
/// (`payload_encoding`).
#[verifier::external_body]
fn encode_payload(seed: &[u8; 32], sender: u64, extrinsic_index: Option<u32>) -> (r: Vec<u8>)
    ensures
        r@ == payload_encoding(seed@, sender, extrinsic_index),
{
    (seed, &sender, extrinsic_index).encode()
}

/// Calls `sp_io::hashing::blake2_128`. Claimed: its 16 bytes are
/// `blake2_128_of` the input, a function of the input bytes alone.
#[verifier::external_body]
fn blake2_128(data: &[u8]) -> (r: [u8; 16])
    ensures
        r@ == blake2_128_of(data@),
{
    sp_io::hashing::blake2_128(data)
}

/// The DNA drawn for a kitty: the Blake2-128 hash of the SCALE-encoded
/// (random seed, account, extrinsic index).
pub open spec fn random_dna(seed: Seq<u8>, sender: u64, extrinsic_index: Option<u32>) -> Seq<u8> {
    blake2_128_of(payload_encoding(seed, sender, extrinsic_index))
}

/// Sixteen random bytes for `sender`: the hash of the chain's random seed, the
/// account and the index of the extrinsic being applied.
pub fn random_value(seed: &[u8; 32], sender: u64, extrinsic_index: Option<u32>) -> (r: [u8; 16])
    ensures
        r@ == random_dna(seed@, sender, extrinsic_index),
{
    let payload = encode_payload(seed, sender, extrinsic_index);
    blake2_128(payload.as_slice())
}

} // verus!
