use vstd::prelude::*;

verus! {

/// One element of the commitment domain: a 256-bit value stored as four
/// 64-bit little-endian limbs. Replica ids, encoded node values,
/// commitments and public-input scalars are all values of this type.
#[derive(Clone, Copy, Debug, PartialEq, Eq, Structural)]
pub struct Domain {
    pub limb0: u64,
    pub limb1: u64,
    pub limb2: u64,
    pub limb3: u64,
}

impl Domain {
    pub open spec fn zero_spec() -> Domain {
        Domain { limb0: 0, limb1: 0, limb2: 0, limb3: 0 }
    }

    /// The all-zero element.
    pub fn zero() -> (r: Domain)
        ensures
            r == Domain::zero_spec(),
    {
        Domain { limb0: 0, limb1: 0, limb2: 0, limb3: 0 }
    }

    pub open spec fn from_u64_spec(v: u64) -> Domain {
        Domain { limb0: v, limb1: 0, limb2: 0, limb3: 0 }
    }

    /// Embed a 64-bit integer as a domain element.
    pub fn from_u64(v: u64) -> (r: Domain)
        ensures
            r == Domain::from_u64_spec(v),
    {
        Domain { limb0: v, limb1: 0, limb2: 0, limb3: 0 }
    }
}

/// The little-endian 64-bit word at byte offset `o`.
pub open spec fn le_word_at(bytes: Seq<u8>, o: int) -> u64
    recommends
        0 <= o,
        o + 8 <= bytes.len(),
{
    (bytes[o] as u64) | ((bytes[o + 1] as u64) << 8) | ((bytes[o + 2] as u64) << 16) | ((bytes[o
        + 3] as u64) << 24) | ((bytes[o + 4] as u64) << 32) | ((bytes[o + 5] as u64) << 40)
        | ((bytes[o + 6] as u64) << 48) | ((bytes[o + 7] as u64) << 56)
}

/// The domain element stored in the 32 bytes at offset `o`.
pub open spec fn domain_at(bytes: Seq<u8>, o: int) -> Domain
    recommends
        0 <= o,
        o + 32 <= bytes.len(),
{
    Domain {
        limb0: le_word_at(bytes, o),
        limb1: le_word_at(bytes, o + 8),
        limb2: le_word_at(bytes, o + 16),
        limb3: le_word_at(bytes, o + 24),
    }
}

/// The `n` domain elements stored back to back at the start of `bytes`.
pub open spec fn leaf_seq_of(bytes: Seq<u8>, n: int) -> Seq<Domain> {
    Seq::new(n as nat, |i: int| domain_at(bytes, 32 * i))
}

fn read_le_word(data: &Vec<u8>, o: usize) -> (r: u64)
    requires
        o + 8 <= data@.len(),
    ensures
        r == le_word_at(data@, o as int),
{
    let len: usize = data.len();
    assert(o + 8 <= len);
    (data[o] as u64) | ((data[o + 1] as u64) << 8) | ((data[o + 2] as u64) << 16) | ((data[o + 3]
        as u64) << 24) | ((data[o + 4] as u64) << 32) | ((data[o + 5] as u64) << 40) | ((data[o + 6]
        as u64) << 48) | ((data[o + 7] as u64) << 56)
}

/// Read the `n` domain elements stored back to back at the start of the
/// raw data.
pub fn parse_leaves(data: &Vec<u8>, n: usize) -> (r: Vec<Domain>)
    requires
        32 * (n as int) <= data@.len(),
    ensures
        r@ == leaf_seq_of(data@, n as int),
{
    let dlen: usize = data.len();
    let mut out: Vec<Domain> = Vec::new();
    let mut i: usize = 0;
    while i < n
        invariant
            i <= n,
            32 * (n as int) <= data@.len(),
            data@.len() == dlen as int,
            out@.len() == i as nat,
            forall|k: int| 0 <= k < i ==> out@[k] == domain_at(data@, 32 * k),
        decreases n - i,
    {
        let o = 32 * i;
        let d = Domain {
            limb0: read_le_word(data, o),
            limb1: read_le_word(data, o + 8),
            limb2: read_le_word(data, o + 16),
            limb3: read_le_word(data, o + 24),
        };
        out.push(d);
        i = i + 1;
    }
    proof {
        assert(out@ =~= leaf_seq_of(data@, n as int));
    }
    out
}

/// Embedding 64-bit integers into the domain is injective: distinct
/// integers give distinct domain elements.
pub proof fn lemma_from_u64_injective(a: u64, b: u64)
    requires
        Domain::from_u64_spec(a) == Domain::from_u64_spec(b),
    ensures
        a == b,
{
}

} // verus!
