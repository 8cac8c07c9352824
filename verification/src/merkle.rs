//! The Merkle tree: a root computed by iterative pairwise combination of
//! the leaves, and authentication paths of (sibling value, sibling-is-left)
//! pairs. Odd-length levels are padded by duplicating their last element.

use vstd::prelude::*;
use num_bigint::BigInt;
use crate::hash_functions::HashFunction;
use crate::value::big_clone;
use crate::value::int_of;
use crate::value::ints_of;

verus! {

/// A level padded to even length: an odd-length level repeats its last
/// element, so the last leaf of an odd level is paired with itself.
pub open spec fn pad_level(level: Seq<int>) -> Seq<int> {
    if level.len() % 2 == 1 {
        level.push(level.last())
    } else {
        level
    }
}

/// The next level up: each adjacent pair of an even-length level combined.
pub open spec fn combine_level<H: HashFunction>(level: Seq<int>, h: &H) -> Seq<int> {
    Seq::new(level.len() / 2, |i: int| h.hash_spec(level[2 * i], level[2 * i + 1]))
}

/// The root of a non-empty level: pad, combine pairwise, repeat until one
/// element remains.
pub open spec fn root_spec<H: HashFunction>(level: Seq<int>, h: &H) -> int
    recommends
        level.len() > 0,
    decreases level.len(),
{
    if level.len() <= 1 {
        level[0]
    } else {
        root_spec(combine_level(pad_level(level), h), h)
    }
}

/// The authentication path for position `idx` of a level: one (sibling
/// value, sibling-is-left) pair per round, leaf level first, the root's
/// level excluded. An odd position's sibling sits to its left, an even
/// position's to its right.
pub open spec fn path_spec<H: HashFunction>(level: Seq<int>, idx: int, h: &H) -> Seq<(int, bool)>
    recommends
        0 <= idx < level.len(),
    decreases level.len(),
{
    if level.len() <= 1 {
        Seq::empty()
    } else {
        let padded = pad_level(level);
        let is_left = idx % 2 == 1;
        let sibling = if is_left { idx - 1 } else { idx + 1 };
        seq![(padded[sibling], is_left)] + path_spec(combine_level(padded, h), idx / 2, h)
    }
}

/// Folding a path against a starting value: at each step the recorded
/// sibling is combined on the recorded side.
pub open spec fn fold_path<H: HashFunction>(start: int, path: Seq<(int, bool)>, h: &H) -> int
    decreases path.len(),
{
    if path.len() == 0 {
        start
    } else {
        let step = if path[0].1 {
            h.hash_spec(path[0].0, start)
        } else {
            h.hash_spec(start, path[0].0)
        };
        fold_path(step, path.drop_first(), h)
    }
}

/// The integers a sequence of (sibling, flag) pairs holds.
pub open spec fn path_model(s: Seq<(BigInt, bool)>) -> Seq<(int, bool)> {
    s.map_values(|p: (BigInt, bool)| (int_of(p.0), p.1))
}

/// Law: folding the authentication path for any valid position against the
/// value at that position reproduces the root.
pub proof fn lemma_path_roundtrip<H: HashFunction>(level: Seq<int>, idx: int, h: &H)
    requires
        0 <= idx < level.len(),
    ensures
        fold_path(level[idx], path_spec(level, idx, h), h) == root_spec(level, h),
    decreases level.len(),
{
    if level.len() <= 1 {
        // A single element is its own root and has an empty path.
    } else {
        let padded = pad_level(level);
        let next = combine_level(padded, h);
        let is_left = idx % 2 == 1;
        let sibling = if is_left { idx - 1 } else { idx + 1 };
        assert(padded[idx] == level[idx]);
        assert(next[idx / 2] == h.hash_spec(padded[2 * (idx / 2)], padded[2 * (idx / 2) + 1]));
        if is_left {
            assert(2 * (idx / 2) == idx - 1);
            assert(next[idx / 2] == h.hash_spec(padded[sibling], level[idx]));
        } else {
            assert(2 * (idx / 2) == idx);
            assert(next[idx / 2] == h.hash_spec(level[idx], padded[sibling]));
        }
        let tail = path_spec(next, idx / 2, h);
        let whole = path_spec(level, idx, h);
        assert(whole == seq![(padded[sibling], is_left)] + tail);
        assert(whole[0] == (padded[sibling], is_left));
        assert(whole.drop_first() =~= tail);
        assert(fold_path(level[idx], whole, h) == fold_path(next[idx / 2], tail, h));
        lemma_path_roundtrip(next, idx / 2, h);
    }
}

/// Law: the root is a function of the leaf values and of what the combining
/// function computes alone, so recomputing it with an operation that
/// computes the same values reproduces it exactly.
pub proof fn lemma_root_deterministic<H1: HashFunction, H2: HashFunction>(
    level: Seq<int>,
    h1: &H1,
    h2: &H2,
)
    requires
        level.len() > 0,
        forall|a: int, b: int| #[trigger] h1.hash_spec(a, b) == h2.hash_spec(a, b),
    ensures
        root_spec(level, h1) == root_spec(level, h2),
    decreases level.len(),
{
    if level.len() <= 1 {
    } else {
        assert(combine_level(pad_level(level), h1) =~= combine_level(pad_level(level), h2));
        lemma_root_deterministic(combine_level(pad_level(level), h1), h1, h2);
    }
}

/// A Merkle tree: the leaves it was built from and the root computed once
/// at construction.
pub struct MerkleTree<H: HashFunction> {
    pub root: BigInt,
    pub leaves: Vec<BigInt>,
    pub hash_function: H,
}

impl<H: HashFunction> MerkleTree<H> {
    /// The tree's invariant: leaves are non-empty and the stored root is
    /// the pairwise combination of their values.
    pub open spec fn wf(&self) -> bool {
        &&& self.leaves@.len() > 0
        &&& int_of(self.root) == root_spec(ints_of(self.leaves@), &self.hash_function)
    }

    /// Build a tree over non-empty leaves; the root is computed here, once.
    pub fn new(leaves: Vec<BigInt>, hash_function: H) -> (r: MerkleTree<H>)
        requires
            leaves@.len() > 0,
        ensures
            r.wf(),
            r.leaves@ == leaves@,
            r.hash_function == hash_function,
    {
        let root = Self::compute_root(&leaves, &hash_function);
        MerkleTree { root, leaves, hash_function }
    }

    /// Pairwise-reduce a non-empty leaf sequence to the single root value.
    fn compute_root(leaves: &Vec<BigInt>, hash_function: &H) -> (r: BigInt)
        requires
            leaves@.len() > 0,
        ensures
            int_of(r) == root_spec(ints_of(leaves@), hash_function),
    {
        let mut level: Vec<BigInt> = Vec::new();
        let n = leaves.len();
        for i in 0..n
            invariant
                n == leaves@.len(),
                level@.len() == i,
                forall|k: int| 0 <= k < i ==> int_of(#[trigger] level@[k]) == int_of(leaves@[k]),
        {
            level.push(big_clone(&leaves[i]));
        }
        proof {
            assert(ints_of(level@) =~= ints_of(leaves@));
        }
        while level.len() > 1
            invariant
                level@.len() >= 1,
                root_spec(ints_of(level@), hash_function)
                    == root_spec(ints_of(leaves@), hash_function),
            decreases level@.len(),
        {
            let ghost before = ints_of(level@);
            if level.len() % 2 != 0 {
                let last = big_clone(&level[level.len() - 1]);
                level.push(last);
            }
            proof {
                assert(ints_of(level@) =~= pad_level(before));
            }
            let ghost padded = ints_of(level@);
            let half = level.len() / 2;
            let mut next: Vec<BigInt> = Vec::new();
            for i in 0..half
                invariant
                    half == level@.len() / 2,
                    level@.len() % 2 == 0,
                    level@.len() <= usize::MAX,
                    padded == ints_of(level@),
                    next@.len() == i,
                    forall|k: int| 0 <= k < i ==> int_of(#[trigger] next@[k])
                        == combine_level(padded, hash_function)[k],
            {
                let hv = hash_function.hash(&level[2 * i], &level[2 * i + 1]);
                next.push(hv);
            }
            proof {
                assert(ints_of(next@) =~= combine_level(padded, hash_function));
            }
            level = next;
        }
        proof {
            assert(root_spec(ints_of(level@), hash_function) == int_of(level@[0]));
        }
        big_clone(&level[0])
    }

    /// The authentication path for the leaf at `index`: one (sibling value,
    /// sibling-is-left) pair per level, leaf level first.
    pub fn merkle_path(&self, index: usize) -> (path: Vec<(BigInt, bool)>)
        requires
            index < self.leaves@.len(),
        ensures
            path_model(path@) == path_spec(
                ints_of(self.leaves@),
                index as int,
                &self.hash_function,
            ),
    {
        let mut path: Vec<(BigInt, bool)> = Vec::new();
        let mut idx = index;
        let mut level: Vec<BigInt> = Vec::new();
        let n = self.leaves.len();
        for i in 0..n
            invariant
                n == self.leaves@.len(),
                level@.len() == i,
                forall|k: int| 0 <= k < i ==> int_of(#[trigger] level@[k])
                    == int_of(self.leaves@[k]),
        {
            level.push(big_clone(&self.leaves[i]));
        }
        proof {
            assert(ints_of(level@) =~= ints_of(self.leaves@));
            assert(path_model(path@) =~= Seq::<(int, bool)>::empty());
            assert(Seq::<(int, bool)>::empty()
                + path_spec(ints_of(level@), idx as int, &self.hash_function)
                =~= path_spec(ints_of(self.leaves@), index as int, &self.hash_function));
        }
        while level.len() > 1
            invariant
                level@.len() >= 1,
                idx < level@.len(),
                path_model(path@) + path_spec(ints_of(level@), idx as int, &self.hash_function)
                    == path_spec(ints_of(self.leaves@), index as int, &self.hash_function),
            decreases level@.len(),
        {
            let ghost before = ints_of(level@);
            let ghost idx0 = idx as int;
            if level.len() % 2 != 0 {
                let last = big_clone(&level[level.len() - 1]);
                level.push(last);
            }
            proof {
                assert(ints_of(level@) =~= pad_level(before));
            }
            let ghost padded = ints_of(level@);
            let half = level.len() / 2;
            let mut next: Vec<BigInt> = Vec::new();
            for i in 0..half
                invariant
                    half == level@.len() / 2,
                    level@.len() % 2 == 0,
                    level@.len() <= usize::MAX,
                    padded == ints_of(level@),
                    next@.len() == i,
                    forall|k: int| 0 <= k < i ==> int_of(#[trigger] next@[k])
                        == combine_level(padded, &self.hash_function)[k],
            {
                let hv = self.hash_function.hash(&level[2 * i], &level[2 * i + 1]);
                next.push(hv);
            }
            proof {
                assert(ints_of(next@) =~= combine_level(padded, &self.hash_function));
            }
            let is_left = idx % 2 == 1;
            let sibling_idx = if is_left { idx - 1 } else { idx + 1 };
            let sibling = big_clone(&level[sibling_idx]);
            let ghost path0 = path_model(path@);
            path.push((sibling, is_left));
            idx = idx / 2;
            level = next;
            proof {
                let h = &self.hash_function;
                assert(path_model(path@) =~= path0.push((padded[sibling_idx as int], is_left)));
                assert(path_spec(before, idx0, h)
                    == seq![(padded[sibling_idx as int], is_left)]
                        + path_spec(ints_of(level@), idx as int, h));
                assert(path_model(path@) + path_spec(ints_of(level@), idx as int, h)
                    =~= path0 + path_spec(before, idx0, h));
            }
        }
        proof {
            assert(path_spec(ints_of(level@), idx as int, &self.hash_function)
                =~= Seq::<(int, bool)>::empty());
            assert(path_model(path@)
                =~= path_model(path@)
                + path_spec(ints_of(level@), idx as int, &self.hash_function));
        }
        path
    }
}

/// Law: for a well-formed tree, folding the authentication path of any
/// valid leaf index against that leaf's value reproduces the stored root.
pub proof fn lemma_tree_path_roundtrip<H: HashFunction>(tree: MerkleTree<H>, idx: int)
    requires
        tree.wf(),
        0 <= idx < tree.leaves@.len(),
    ensures
        fold_path(
            ints_of(tree.leaves@)[idx],
            path_spec(ints_of(tree.leaves@), idx, &tree.hash_function),
            &tree.hash_function,
        ) == int_of(tree.root),
{
    lemma_path_roundtrip(ints_of(tree.leaves@), idx, &tree.hash_function);
}

/// Recompute the root from one leaf value and its authentication path, by
/// combining the recorded sibling on the recorded side at every level.
pub fn recompute_root<H: HashFunction>(
    leaf: &BigInt,
    path: &Vec<(BigInt, bool)>,
    hash_function: &H,
) -> (r: BigInt)
    ensures
        int_of(r) == fold_path(int_of(*leaf), path_model(path@), hash_function),
{
    let mut acc = big_clone(leaf);
    proof {
        assert(path_model(path@).skip(0) =~= path_model(path@));
    }
    let n = path.len();
    for i in 0..n
        invariant
            n == path@.len(),
            fold_path(int_of(acc), path_model(path@).skip(i as int), hash_function)
                == fold_path(int_of(*leaf), path_model(path@), hash_function),
    {
        let step = if path[i].1 {
            hash_function.hash(&path[i].0, &acc)
        } else {
            hash_function.hash(&acc, &path[i].0)
        };
        acc = step;
        proof {
            let m = path_model(path@);
            assert(m.skip(i as int).drop_first() =~= m.skip(i + 1));
            assert(m.skip(i as int)[0] == m[i as int]);
        }
    }
    proof {
        assert(path_model(path@).skip(n as int) =~= Seq::<(int, bool)>::empty());
    }
    acc
}

} // verus!
