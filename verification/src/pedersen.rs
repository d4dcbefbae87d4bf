use vstd::prelude::*;

use crate::domain::Domain;

verus! {

/// Declares `fil_sapling_crypto::jubjub::JubjubBls12`, the process-wide
/// immutable parameter set of the Pedersen hash: curve constants,
/// generators and their precomputed exponentiation tables. Its fields are
/// private and every constructor derives them from the same fixed
/// constants, the window size being a speed knob that leaves the hash
/// values unchanged, so the digest below is a function of the input bits
/// alone whichever value of this type is at hand.
#[verifier::external_type_specification]
#[verifier::external_body]
pub struct ExJubjubBls12(fil_sapling_crypto::jubjub::JubjubBls12);

/// What the Pedersen hash returns on a given bit string. The digest is a
/// fixed function of the input bits alone; its value is not restated
/// here, only used by name.
pub uninterp spec fn pedersen_digest_of(bits: Seq<bool>) -> Domain;

/// Relies on `fil_sapling_crypto::jubjub::JubjubBls12::new_with_window_size`:
/// builds the fixed Pedersen parameter set. Building it is costly, so it
/// is done once and handed to every hashing call, the closest rendering
/// of a single-initialization guard available here.
#[verifier::external_body]
pub(crate) fn make_pedersen_params() -> fil_sapling_crypto::jubjub::JubjubBls12 {
    fil_sapling_crypto::jubjub::JubjubBls12::new_with_window_size(2)
}

/// The Pedersen parameter set, ready to be handed to the tree and column
/// operations.
pub fn pedersen_params() -> fil_sapling_crypto::jubjub::JubjubBls12 {
    make_pedersen_params()
}

/// Relies on `fil_sapling_crypto::pedersen_hash::pedersen_hash`: the
/// windowed Pedersen hash over the Jubjub curve, called with the empty
/// personalization, so its result is a function of the input bits alone.
/// The x-coordinate of the resulting point is handed back as four
/// little-endian 64-bit limbs. The parameter set holds five generators of
/// 63 three-bit chunks each; an input beyond those 945 bits runs out of
/// generators and panics, and the empty input is left out with them.
#[verifier::external_body]
pub(crate) fn pedersen_hash_bits(
    params: &fil_sapling_crypto::jubjub::JubjubBls12,
    bits: &Vec<bool>,
) -> (r: Domain)
    requires
        0 < bits@.len() <= 945,
    ensures
        r == pedersen_digest_of(bits@),
{
    let point = fil_sapling_crypto::pedersen_hash::pedersen_hash::<paired::bls12_381::Bls12, _>(
        fil_sapling_crypto::pedersen_hash::Personalization::None,
        bits.iter().copied(),
        params,
    );
    let (x, _) = point.into_xy();
    let repr = fff::PrimeField::into_repr(&x);
    let limbs: &[u64] = repr.as_ref();
    Domain { limb0: limbs[0], limb1: limbs[1], limb2: limbs[2], limb3: limbs[3] }
}

/// Bit `i` of a domain element, little-endian within and across limbs.
pub open spec fn domain_bit(d: Domain, i: int) -> bool
    recommends
        0 <= i < 256,
{
    let limb = if i < 64 {
        d.limb0
    } else if i < 128 {
        d.limb1
    } else if i < 192 {
        d.limb2
    } else {
        d.limb3
    };
    ((limb >> ((i % 64) as u64)) & 1) == 1
}

/// The 256 bits of a domain element, least significant first.
pub open spec fn domain_bits(d: Domain) -> Seq<bool> {
    Seq::new(256, |i: int| domain_bit(d, i))
}

pub(crate) fn domain_bits_exec(d: Domain) -> (r: Vec<bool>)
    ensures
        r@ == domain_bits(d),
{
    let mut bits: Vec<bool> = Vec::new();
    let mut i: usize = 0;
    while i < 256
        invariant
            i <= 256,
            bits@.len() == i as nat,
            forall|k: int| 0 <= k < i ==> bits@[k] == domain_bit(d, k),
        decreases 256 - i,
    {
        let limb = if i < 64 {
            d.limb0
        } else if i < 128 {
            d.limb1
        } else if i < 192 {
            d.limb2
        } else {
            d.limb3
        };
        let sh = (i % 64) as u64;
        bits.push(((limb >> sh) & 1) == 1);
        i = i + 1;
    }
    proof {
        assert(bits@ =~= domain_bits(d));
    }
    bits
}

/// Digest of two domain elements: one Pedersen block over their
/// concatenated bits. This is both the node-combining step of the
/// commitment trees and the chaining step of the column digest.
pub open spec fn digest2(a: Domain, b: Domain) -> Domain {
    pedersen_digest_of(domain_bits(a) + domain_bits(b))
}

pub(crate) fn digest2_with(
    params: &fil_sapling_crypto::jubjub::JubjubBls12,
    a: Domain,
    b: Domain,
) -> (r: Domain)
    ensures
        r == digest2(a, b),
{
    let mut bits = domain_bits_exec(a);
    let mut more = domain_bits_exec(b);
    bits.append(&mut more);
    proof {
        assert(bits@ =~= domain_bits(a) + domain_bits(b));
    }
    pedersen_hash_bits(params, &bits)
}

/// Digest of an ordered sequence of at least two domain elements: the
/// first two are hashed as one block, every further element is chained
/// onto the running digest.
pub open spec fn chain_digest(rows: Seq<Domain>) -> Domain
    recommends
        rows.len() >= 2,
    decreases rows.len(),
{
    if rows.len() <= 2 {
        digest2(rows[0], rows[1])
    } else {
        digest2(chain_digest(rows.drop_last()), rows.last())
    }
}

pub(crate) fn chain_digest_exec(rows: &Vec<Domain>) -> (r: Domain)
    requires
        rows@.len() >= 2,
    ensures
        r == chain_digest(rows@),
{
    let params = make_pedersen_params();
    let mut acc = digest2_with(&params, rows[0], rows[1]);
    proof {
        assert(rows@.take(2)[0] == rows@[0]);
        assert(rows@.take(2)[1] == rows@[1]);
    }
    let mut k: usize = 2;
    while k < rows.len()
        invariant
            2 <= k <= rows@.len(),
            acc == chain_digest(rows@.take(k as int)),
        decreases rows@.len() - k,
    {
        acc = digest2_with(&params, acc, rows[k]);
        proof {
            assert(rows@.take(k as int + 1).drop_last() =~= rows@.take(k as int));
            assert(rows@.take(k as int + 1).last() == rows@[k as int]);
        }
        k = k + 1;
    }
    proof {
        assert(rows@.take(rows@.len() as int) =~= rows@);
    }
    acc
}

} // verus!
