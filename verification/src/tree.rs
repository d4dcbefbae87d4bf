use vstd::prelude::*;

use crate::domain::Domain;
use crate::error::StructuralError;
use crate::pedersen::{digest2, digest2_with};

verus! {

/// Whether `n` is a power of two.
pub open spec fn is_pow2(n: nat) -> bool
    decreases n,
{
    if n == 0 {
        false
    } else if n == 1 {
        true
    } else {
        n % 2 == 0 && is_pow2(n / 2)
    }
}

/// Length of an inclusion path over `n` leaves, padding included: the
/// number of halvings down to a single root.
pub open spec fn path_len_of(n: nat) -> nat
    decreases n,
{
    if n <= 1 {
        0
    } else {
        1 + path_len_of(((n + 1) / 2) as nat)
    }
}

/// The path length never exceeds the leaf count.
pub proof fn lemma_path_len_bound(n: nat)
    ensures
        path_len_of(n) <= n,
    decreases n,
{
    if n > 1 {
        lemma_path_len_bound(((n + 1) / 2) as nat);
    }
}

/// Padding a leaf count up to the nearest power of two leaves the path
/// length unchanged; with `lemma_tree_height`, a tree built over `n`
/// leaves has exactly the height the unpadded count calls for.
pub proof fn lemma_path_len_padded(n: nat, p: nat)
    requires
        1 <= n <= p,
        is_pow2(p),
        p == 1 || p < 2 * n,
    ensures
        path_len_of(p) == path_len_of(n),
    decreases p,
{
    if p > 1 {
        assert(p % 2 == 0 && is_pow2(p / 2));
        let p2 = p / 2;
        let n2 = ((n + 1) / 2) as nat;
        assert(n >= 2);
        assert(1 <= n2 <= p2);
        assert(p2 == 1 || p2 < 2 * n2);
        lemma_path_len_padded(n2, p2);
        assert((p + 1) / 2 == p2);
    }
}

/// One level up: adjacent pairs combined into their digest.
pub open spec fn level_up(v: Seq<Domain>) -> Seq<Domain> {
    Seq::new(v.len() / 2, |i: int| digest2(v[2 * i], v[2 * i + 1]))
}

/// The root over a power-of-two leaf level.
pub open spec fn root_of(leaves: Seq<Domain>) -> Domain
    recommends
        is_pow2(leaves.len()),
    decreases leaves.len(),
{
    if leaves.len() == 0 {
        Domain::zero_spec()
    } else if leaves.len() == 1 {
        leaves[0]
    } else {
        root_of(level_up(leaves))
    }
}

/// Folding a leaf up an inclusion path: each step combines the running
/// digest with the sibling, on the side the direction bit gives (`true`:
/// the node on the path is the right child).
pub open spec fn hash_up(leaf: Domain, path: Seq<(Domain, bool)>) -> Domain
    decreases path.len(),
{
    if path.len() == 0 {
        leaf
    } else {
        let next = if path[0].1 {
            digest2(path[0].0, leaf)
        } else {
            digest2(leaf, path[0].0)
        };
        hash_up(next, path.drop_first())
    }
}

/// Extending a path at the top adds one combining step at the top.
pub proof fn lemma_hash_up_push(leaf: Domain, path: Seq<(Domain, bool)>, sib: Domain, dir: bool)
    ensures
        hash_up(leaf, path.push((sib, dir))) == (if dir {
            digest2(sib, hash_up(leaf, path))
        } else {
            digest2(hash_up(leaf, path), sib)
        }),
    decreases path.len(),
{
    if path.len() == 0 {
        let ext = path.push((sib, dir));
        assert(ext.drop_first() =~= Seq::<(Domain, bool)>::empty());
        assert(ext[0] == (sib, dir));
        let next = if dir {
            digest2(sib, leaf)
        } else {
            digest2(leaf, sib)
        };
        assert(hash_up(leaf, ext) == hash_up(next, ext.drop_first()));
        assert(hash_up(next, ext.drop_first()) == next);
        assert(hash_up(leaf, path) == leaf);
    } else {
        let next = if path[0].1 {
            digest2(path[0].0, leaf)
        } else {
            digest2(leaf, path[0].0)
        };
        assert(path.push((sib, dir)).drop_first() =~= path.drop_first().push((sib, dir)));
        lemma_hash_up_push(next, path.drop_first(), sib, dir);
    }
}

/// A Merkle inclusion path: sibling digests from the leaf level to just
/// below the root, each with its direction bit.
#[derive(Clone, Debug, PartialEq, Eq)]
pub struct MerkleProof {
    pub path: Vec<(Domain, bool)>,
}

/// A binary commitment tree with all levels retained: level 0 holds the
/// leaves, each further level the digests of adjacent pairs, the last
/// level the root alone.
#[derive(Clone, Debug)]
pub struct MerkleTree {
    pub levels: Vec<Vec<Domain>>,
}

impl MerkleTree {
    /// Well-formed: nonempty, a single root, every level nonempty and
    /// exactly the pairwise digest of the level below.
    pub open spec fn wf(&self) -> bool {
        let ls = self.levels@;
        &&& ls.len() >= 1
        &&& ls.last()@.len() == 1
        &&& (forall|l: int| 0 <= l < ls.len() ==> (#[trigger] ls[l]@).len() >= 1)
        &&& (forall|l: int| 0 <= l < ls.len() - 1 ==> (#[trigger] ls[l]@).len() == 2 * ls[l + 1]@.len())
        &&& (forall|l: int| 0 <= l < ls.len() - 1 ==> (#[trigger] ls[l + 1]@) == level_up(ls[l]@))
    }

    pub open spec fn leaves_spec(&self) -> Seq<Domain> {
        self.levels@[0]@
    }

    pub open spec fn leaf_count(&self) -> nat {
        self.levels@[0]@.len()
    }

    pub open spec fn height(&self) -> nat {
        (self.levels@.len() - 1) as nat
    }

    pub open spec fn root_spec(&self) -> Domain {
        self.levels@.last()@[0]
    }

    /// The root commitment.
    pub fn root(&self) -> (r: Domain)
        requires
            self.wf(),
        ensures
            r == self.root_spec(),
    {
        self.levels[self.levels.len() - 1][0]
    }

    /// Number of leaf slots, padding included.
    pub fn leaf_len(&self) -> (r: usize)
        requires
            self.wf(),
        ensures
            r as nat == self.leaf_count(),
    {
        self.levels[0].len()
    }

    /// Build the tree over the given leaves, padded with the zero element
    /// up to a power of two. Fails only on an empty leaf sequence.
    #[verifier::rlimit(30)]
    pub fn build(
        params: &fil_sapling_crypto::jubjub::JubjubBls12,
        leaves: Vec<Domain>,
    ) -> (r: Result<MerkleTree, StructuralError>)
        requires
            leaves@.len() <= usize::MAX / 2,
        ensures
            match r {
                Ok(t) => {
                    &&& leaves@.len() > 0
                    &&& t.wf()
                    &&& is_pow2(t.leaf_count())
                    &&& leaves@.len() <= t.leaf_count()
                    &&& t.leaf_count() == 1 || t.leaf_count() < 2 * leaves@.len()
                    &&& t.leaves_spec() == leaves@ + Seq::new(
                        (t.leaf_count() - leaves@.len()) as nat,
                        |i: int| Domain::zero_spec(),
                    )
                    &&& t.root_spec() == root_of(t.leaves_spec())
                },
                Err(e) => leaves@.len() == 0 && e == StructuralError::EmptyTree,
            },
    {
        if leaves.len() == 0 {
            return Err(StructuralError::EmptyTree);
        }
        let ghost orig = leaves@;
        let mut leaves = leaves;
        let mut p: usize = 1;
        while p < leaves.len()
            invariant
                leaves@ == orig,
                1 <= orig.len() <= usize::MAX / 2,
                is_pow2(p as nat),
                p == 1 || p < 2 * orig.len(),
            decreases 2 * orig.len() - p,
        {
            p = p * 2;
        }
        while leaves.len() < p
            invariant
                orig.len() <= leaves@.len() <= p,
                is_pow2(p as nat),
                p == 1 || p < 2 * orig.len(),
                leaves@ == orig + Seq::new((leaves@.len() - orig.len()) as nat, |i: int| Domain::zero_spec()),
            decreases p - leaves@.len(),
        {
            leaves.push(Domain::zero());
            proof {
                assert(leaves@ =~= orig + Seq::new(
                    (leaves@.len() - orig.len()) as nat,
                    |i: int| Domain::zero_spec(),
                ));
            }
        }
        let ghost padded = leaves@;
        let mut levels: Vec<Vec<Domain>> = Vec::new();
        levels.push(leaves);
        while levels[levels.len() - 1].len() > 1
            invariant
                levels@.len() >= 1,
                levels@[0]@ == padded,
                is_pow2(levels@.last()@.len()),
                forall|l: int| 0 <= l < levels@.len() ==> (#[trigger] levels@[l]@).len() >= 1,
                forall|l: int|
                    0 <= l < levels@.len() - 1 ==> (#[trigger] levels@[l]@).len() == 2 * levels@[l
                        + 1]@.len(),
                forall|l: int|
                    0 <= l < levels@.len() - 1 ==> (#[trigger] levels@[l + 1]@) == level_up(
                        levels@[l]@,
                    ),
            decreases levels@.last()@.len(),
        {
            let ghost pre = levels@;
            let next = level_up_exec(params, &levels[levels.len() - 1]);
            levels.push(next);
            proof {
                let cur = levels@;
                let n = pre.len();
                assert(cur.len() == n + 1);
                assert(cur[n as int] == next);
                assert(next@ == level_up(pre.last()@));
                assert(next@.len() == pre.last()@.len() / 2);
                assert(pre.last()@.len() > 1 && is_pow2(pre.last()@.len()));
                assert(is_pow2(pre.last()@.len() / 2));
                assert forall|l: int| 0 <= l < cur.len() implies (#[trigger] cur[l]@).len() >= 1 by {
                    if l < n {
                        assert(cur[l] == pre[l]);
                    }
                }
                assert forall|l: int|
                    0 <= l < cur.len() - 1 implies (#[trigger] cur[l]@).len() == 2 * cur[l
                    + 1]@.len() by {
                    assert(cur[l] == pre[l]);
                    if l < n - 1 {
                        assert(cur[l + 1] == pre[l + 1]);
                    } else {
                        assert(cur[l + 1] == next);
                    }
                }
                assert forall|l: int|
                    0 <= l < cur.len() - 1 implies (#[trigger] cur[l + 1]@) == level_up(
                    cur[l]@,
                ) by {
                    assert(cur[l] == pre[l]);
                    if l < n - 1 {
                        assert(cur[l + 1] == pre[l + 1]);
                    } else {
                        assert(cur[l + 1] == next);
                    }
                }
            }
        }
        let t = MerkleTree { levels };
        proof {
            lemma_root_from_level(t, 0);
        }
        Ok(t)
    }

    /// The inclusion proof of the leaf at `index`: the path binds that
    /// leaf to the root.
    pub fn gen_proof(&self, index: usize) -> (r: MerkleProof)
        requires
            self.wf(),
            (index as nat) < self.leaf_count(),
        ensures
            r.path@.len() == self.height(),
            hash_up(self.leaves_spec()[index as int], r.path@) == self.root_spec(),
    {
        let ghost leaf = self.leaves_spec()[index as int];
        let mut path: Vec<(Domain, bool)> = Vec::new();
        let mut idx: usize = index;
        let mut l: usize = 0;
        while l < self.levels.len() - 1
            invariant
                self.wf(),
                l < self.levels@.len(),
                path@.len() == l as nat,
                (idx as nat) < self.levels@[l as int]@.len(),
                hash_up(leaf, path@) == self.levels@[l as int]@[idx as int],
            decreases self.levels@.len() - l,
        {
            let cur = &self.levels[l];
            let (sib, dir) = if idx % 2 == 0 {
                (cur[idx + 1], false)
            } else {
                (cur[idx - 1], true)
            };
            proof {
                lemma_hash_up_push(leaf, path@, sib, dir);
                assert(self.levels@[l as int + 1]@ == level_up(self.levels@[l as int]@));
                assert(self.levels@[l as int + 1]@[idx as int / 2] == digest2(
                    self.levels@[l as int]@[2 * (idx as int / 2)],
                    self.levels@[l as int]@[2 * (idx as int / 2) + 1],
                ));
            }
            path.push((sib, dir));
            idx = idx / 2;
            l = l + 1;
        }
        MerkleProof { path }
    }
}

fn level_up_exec(params: &fil_sapling_crypto::jubjub::JubjubBls12, v: &Vec<Domain>) -> (r:
    Vec<Domain>)
    requires
        v@.len() % 2 == 0,
    ensures
        r@ == level_up(v@),
{
    let mut out: Vec<Domain> = Vec::new();
    let mut i: usize = 0;
    while i < v.len() / 2
        invariant
            v@.len() % 2 == 0,
            i <= v@.len() / 2,
            out@.len() == i as nat,
            forall|k: int| 0 <= k < i ==> out@[k] == digest2(v@[2 * k], v@[2 * k + 1]),
        decreases v@.len() / 2 - i,
    {
        out.push(digest2_with(params, v[2 * i], v[2 * i + 1]));
        i = i + 1;
    }
    proof {
        assert(out@ =~= level_up(v@));
    }
    out
}

/// In a well-formed tree the root recomputed from any level equals the
/// stored root; from level 0 this ties the root to the leaves.
proof fn lemma_root_from_level(t: MerkleTree, l: int)
    requires
        t.wf(),
        0 <= l < t.levels@.len(),
    ensures
        root_of(t.levels@[l]@) == t.root_spec(),
    decreases t.levels@.len() - l,
{
    if l == t.levels@.len() - 1 {
        assert(t.levels@[l]@.len() == 1);
    } else {
        assert(t.levels@[l + 1]@ == level_up(t.levels@[l]@));
        assert(t.levels@[l]@.len() == 2 * t.levels@[l + 1]@.len());
        assert(t.levels@[l + 1]@.len() >= 1);
        lemma_root_from_level(t, l + 1);
    }
}

/// The root recomputed from the leaves of a well-formed tree is its
/// stored root.
pub proof fn lemma_tree_root(t: MerkleTree)
    requires
        t.wf(),
    ensures
        root_of(t.leaves_spec()) == t.root_spec(),
{
    lemma_root_from_level(t, 0);
}

proof fn lemma_height_from_level(t: MerkleTree, l: int)
    requires
        t.wf(),
        0 <= l < t.levels@.len(),
    ensures
        path_len_of(t.levels@[l]@.len()) == t.levels@.len() - 1 - l,
    decreases t.levels@.len() - l,
{
    if l == t.levels@.len() - 1 {
        assert(t.levels@[l]@.len() == 1);
    } else {
        let m = t.levels@[l + 1]@.len();
        assert(t.levels@[l]@.len() == 2 * m);
        assert(m >= 1);
        assert((2 * m + 1) / 2 == m as int);
        lemma_height_from_level(t, l + 1);
    }
}

/// The height of a well-formed tree is the path length its leaf count
/// calls for: every inclusion path has exactly that many steps.
pub proof fn lemma_tree_height(t: MerkleTree)
    requires
        t.wf(),
    ensures
        t.height() == path_len_of(t.leaf_count()),
{
    lemma_height_from_level(t, 0);
}

/// Check an inclusion path: fold the leaf up and compare with the root.
pub fn verify_inclusion(
    params: &fil_sapling_crypto::jubjub::JubjubBls12,
    leaf: Domain,
    proof: &MerkleProof,
    root: Domain,
) -> (r: bool)
    ensures
        r == (hash_up(leaf, proof.path@) == root),
{
    let mut acc = leaf;
    let mut l: usize = 0;
    while l < proof.path.len()
        invariant
            l <= proof.path@.len(),
            acc == hash_up(leaf, proof.path@.take(l as int)),
        decreases proof.path@.len() - l,
    {
        let (sib, dir) = proof.path[l];
        proof {
            lemma_hash_up_push(leaf, proof.path@.take(l as int), sib, dir);
            assert(proof.path@.take(l as int + 1) =~= proof.path@.take(l as int).push((sib, dir)));
        }
        acc = if dir {
            digest2_with(params, sib, acc)
        } else {
            digest2_with(params, acc, sib)
        };
        l = l + 1;
    }
    proof {
        assert(proof.path@.take(proof.path@.len() as int) =~= proof.path@);
    }
    acc == root
}

} // verus!
