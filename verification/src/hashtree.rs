use vstd::prelude::*;
use crate::bytes::{
    zero_pad, concat_all, n_chunks, views, lemma_n_chunks_bounds, lemma_n_chunks_decreases,
    lemma_concat_all_push, lemma_concat_all_uniform_len,
};
use crate::digest::{digest32, sha256_digest};

verus! {

/// The digests of a list of blocks, under one salt.
pub open spec fn digests_of(salt: Seq<u8>, blocks: Seq<Seq<u8>>) -> Seq<Seq<u8>> {
    blocks.map_values(|b: Seq<u8>| digest32(salt, b))
}

/// Hash block `b` of a level: up to `per` digests concatenated, the
/// block zero-padded to `hbs` bytes.
pub open spec fn packed_chunk(digs: Seq<Seq<u8>>, per: nat, hbs: nat, b: int) -> Seq<u8> {
    zero_pad(
        concat_all(
            digs.subrange(
                b * per,
                if (b + 1) * per > digs.len() {
                    digs.len() as int
                } else {
                    (b + 1) * per
                },
            ),
        ),
        hbs,
    )
}

/// A level's digests packed into hash blocks at `hbs` granularity,
/// `per` digests to a block, the last block zero-padded.
pub open spec fn packed_level(digs: Seq<Seq<u8>>, per: nat, hbs: nat) -> Seq<Seq<u8>> {
    Seq::new(n_chunks(digs.len(), per), |b: int| packed_chunk(digs, per, hbs, b))
}

/// The root digest of the tree over a level of digests: a level of one
/// digest is its own root; otherwise the level is packed into hash
/// blocks, each block is hashed with the salt, and the tree continues
/// over those digests. Each level therefore holds
/// `n_chunks(count, per)` blocks — the ceiling of the previous level's
/// digest count over the digests a block holds — and the final level
/// holds exactly one block.
pub open spec fn root_from(salt: Seq<u8>, digs: Seq<Seq<u8>>, per: nat, hbs: nat) -> Seq<u8>
    decreases digs.len(),
        when per >= 2 && digs.len() >= 1
        via root_from_decreases
{
    if digs.len() <= 1 {
        digs[0]
    } else {
        root_from(salt, digests_of(salt, packed_level(digs, per, hbs)), per, hbs)
    }
}

#[via_fn]
proof fn root_from_decreases(salt: Seq<u8>, digs: Seq<Seq<u8>>, per: nat, hbs: nat) {
    if digs.len() >= 2 {
        lemma_n_chunks_decreases(digs.len(), per);
    }
}

/// The bytes of all tree levels in leaf-to-root order: each level's
/// packed blocks, then the levels above it.
pub open spec fn levels_bytes(salt: Seq<u8>, digs: Seq<Seq<u8>>, per: nat, hbs: nat) -> Seq<u8>
    decreases digs.len(),
        when per >= 2 && digs.len() >= 1
        via levels_bytes_decreases
{
    concat_all(packed_level(digs, per, hbs)) + if digs.len() <= 1 {
        Seq::<u8>::empty()
    } else {
        levels_bytes(salt, digests_of(salt, packed_level(digs, per, hbs)), per, hbs)
    }
}

#[via_fn]
proof fn levels_bytes_decreases(salt: Seq<u8>, digs: Seq<Seq<u8>>, per: nat, hbs: nat) {
    if digs.len() >= 2 {
        lemma_n_chunks_decreases(digs.len(), per);
    }
}

/// How many hash blocks all levels of a tree over `count` leaf digests
/// hold together.
pub open spec fn total_tree_blocks(count: nat, per: nat) -> nat
    decreases count,
        when per >= 2 && count >= 1
        via total_tree_blocks_decreases
{
    n_chunks(count, per) + if count <= 1 {
        0
    } else {
        total_tree_blocks(n_chunks(count, per), per)
    }
}

#[via_fn]
proof fn total_tree_blocks_decreases(count: nat, per: nat) {
    if count >= 2 {
        lemma_n_chunks_decreases(count, per);
    }
}

/// The tree's final level packs one digest into exactly one block:
/// the root level always has exactly one hash block.
pub proof fn lemma_root_level_single_block(per: nat)
    requires
        per >= 2,
    ensures
        n_chunks(1, per) == 1,
{
    vstd::arithmetic::div_mod::lemma_small_mod(1, per);
    assert(1nat / per == 0) by (nonlinear_arith)
        requires
            per >= 2,
    ;
}

/// Every digest of a level has the digest length.
pub open spec fn uniform_digests(digs: Seq<Seq<u8>>) -> bool {
    forall|i: int| 0 <= i < digs.len() ==> (#[trigger] digs[i]).len() == 32
}

pub proof fn lemma_digests_of_uniform(salt: Seq<u8>, blocks: Seq<Seq<u8>>)
    ensures
        uniform_digests(digests_of(salt, blocks)),
        digests_of(salt, blocks).len() == blocks.len(),
{
    assert forall|i: int| 0 <= i < blocks.len() implies (#[trigger] digests_of(salt, blocks)[i]).len() == 32 by {
        assert(digests_of(salt, blocks)[i] == digest32(salt, blocks[i]));
    }
}

/// Every block of a packed level is exactly `hbs` bytes.
pub proof fn lemma_packed_level_uniform(digs: Seq<Seq<u8>>, per: nat, hbs: nat)
    requires
        uniform_digests(digs),
        per >= 1,
        per * 32 <= hbs,
    ensures
        forall|b: int|
            0 <= b < packed_level(digs, per, hbs).len() ==> (#[trigger] packed_level(
                digs,
                per,
                hbs,
            )[b]).len() == hbs,
{
    assert forall|b: int|
        0 <= b < packed_level(digs, per, hbs).len() implies (#[trigger] packed_level(
        digs,
        per,
        hbs,
    )[b]).len() == hbs by {
        let len = digs.len();
        let end: int = if (b + 1) * per > len {
            len as int
        } else {
            (b + 1) * per
        };
        lemma_n_chunks_bounds(len, per);
        assert(len > 0) by {
            if len == 0 {
                assert(0nat % per == 0 && 0nat / per == 0) by (nonlinear_arith)
                    requires
                        per > 0,
                ;
            }
        }
        assert(0 <= b * per && b * per < len && end - b * per <= per && b * per <= end <= len)
            by (nonlinear_arith)
            requires
                0 <= b <= n_chunks(len, per) - 1,
                per >= 1,
                (n_chunks(len, per) - 1) * per < len,
                end == if (b + 1) * per > len {
                    len as int
                } else {
                    (b + 1) * per
                },
        ;
        let part = digs.subrange(b * per, end);
        assert(end - b * per <= per) by (nonlinear_arith)
            requires
                end == if (b + 1) * per > len {
                    len as int
                } else {
                    (b + 1) * per
                },
                b * per <= len,
                per >= 1,
        ;
        assert forall|i: int| 0 <= i < part.len() implies (#[trigger] part[i]).len() == 32 by {
            assert(part[i] == digs[b * per + i]);
        }
        lemma_concat_all_uniform_len(part, 32);
        assert(concat_all(part).len() <= per * 32) by (nonlinear_arith)
            requires
                concat_all(part).len() == part.len() * 32,
                part.len() <= per,
        ;
    }
}

/// The bytes of all levels amount to the total block count times the
/// hash block size.
pub proof fn lemma_levels_bytes_len(salt: Seq<u8>, digs: Seq<Seq<u8>>, per: nat, hbs: nat)
    requires
        uniform_digests(digs),
        per >= 2,
        per * 32 <= hbs,
        digs.len() >= 1,
    ensures
        levels_bytes(salt, digs, per, hbs).len() == total_tree_blocks(digs.len(), per) * hbs,
    decreases digs.len(),
{
    let packed = packed_level(digs, per, hbs);
    lemma_packed_level_uniform(digs, per, hbs);
    lemma_concat_all_uniform_len(packed, hbs);
    if digs.len() <= 1 {
        assert(levels_bytes(salt, digs, per, hbs) =~= concat_all(packed));
        assert(total_tree_blocks(digs.len(), per) == n_chunks(digs.len(), per));
    } else {
        let next = digests_of(salt, packed);
        lemma_digests_of_uniform(salt, packed);
        lemma_n_chunks_decreases(digs.len(), per);
        lemma_n_chunks_bounds(digs.len(), per);
        lemma_levels_bytes_len(salt, next, per, hbs);
        assert((n_chunks(digs.len(), per) + total_tree_blocks(next.len(), per)) * hbs == n_chunks(
            digs.len(),
            per,
        ) * hbs + total_tree_blocks(next.len(), per) * hbs) by (nonlinear_arith);
    }
}

/// Computes the digest of each block.
pub fn digest_blocks(salt: &Vec<u8>, blocks: &Vec<Vec<u8>>) -> (r: Vec<Vec<u8>>)
    ensures
        views(r@) == digests_of(salt@, views(blocks@)),
        r@.len() == blocks@.len(),
{
    let mut out: Vec<Vec<u8>> = Vec::new();
    let mut i: usize = 0;
    proof {
        assert(views(out@) =~= digests_of(salt@, views(blocks@)).subrange(0, 0));
    }
    #[verifier::loop_isolation(false)]
    while i < blocks.len()
        invariant
            i <= blocks@.len(),
            out@.len() == i,
            views(out@) == digests_of(salt@, views(blocks@)).subrange(0, i as int),
        decreases blocks@.len() - i,
    {
        let d = sha256_digest(salt, &blocks[i]);
        out.push(d);
        proof {
            assert(views(blocks@)[i as int] == blocks@[i as int]@);
            assert(views(out@) =~= digests_of(salt@, views(blocks@)).subrange(0, i + 1));
        }
        i = i + 1;
    }
    proof {
        assert(views(out@) =~= digests_of(salt@, views(blocks@)));
    }
    out
}

/// Packs a level of digests into hash blocks, `per` to a block, the
/// last block zero-padded to `hbs` bytes.
pub fn pack_digests(digs: &Vec<Vec<u8>>, per: usize, hbs: usize) -> (r: Vec<Vec<u8>>)
    requires
        per >= 1,
        per * 32 <= hbs,
        uniform_digests(views(digs@)),
    ensures
        views(r@) == packed_level(views(digs@), per as nat, hbs as nat),
        r@.len() == n_chunks(digs@.len() as nat, per as nat),
{
    let ghost dv = views(digs@);
    let mut out: Vec<Vec<u8>> = Vec::new();
    let mut start: usize = 0;
    proof {
        lemma_n_chunks_bounds(dv.len(), per as nat);
        assert(views(out@) =~= packed_level(dv, per as nat, hbs as nat).subrange(0, 0));
    }
    #[verifier::loop_isolation(false)]
    while start < digs.len()
        invariant
            start <= digs@.len(),
            out@.len() <= n_chunks(dv.len(), per as nat),
            views(out@) == packed_level(dv, per as nat, hbs as nat).subrange(0, out@.len() as int),
            start == out@.len() * per || (start == digs@.len() && out@.len() == n_chunks(
                dv.len(),
                per as nat,
            )),
        decreases digs@.len() - start,
    {
        proof {
            assert(start == out@.len() * per);
            assert(out@.len() < n_chunks(dv.len(), per as nat)) by {
                if out@.len() >= n_chunks(dv.len(), per as nat) {
                    assert(out@.len() * per >= n_chunks(dv.len(), per as nat) * per)
                        by (nonlinear_arith)
                        requires
                            out@.len() >= n_chunks(dv.len(), per as nat),
                            per > 0,
                    ;
                }
            }
        }
        let remaining = digs.len() - start;
        let take = if remaining < per {
            remaining
        } else {
            per
        };
        let end = start + take;
        let mut block: Vec<u8> = Vec::new();
        let mut j = start;
        proof {
            assert(block@ =~= concat_all(dv.subrange(start as int, start as int)));
        }
        while j < end
            invariant
                start <= j <= end,
                end <= digs@.len(),
                end - start <= per,
                per * 32 <= hbs,
                dv == views(digs@),
                uniform_digests(dv),
                block@ == concat_all(dv.subrange(start as int, j as int)),
                block@.len() == (j - start) * 32,
            decreases end - j,
        {
            block.extend_from_slice(digs[j].as_slice());
            proof {
                assert(dv.subrange(start as int, j + 1) =~= dv.subrange(start as int, j as int)
                    .push(dv[j as int]));
                lemma_concat_all_push(dv.subrange(start as int, j as int), dv[j as int]);
                assert(dv[j as int].len() == 32);
                assert((j + 1 - start) * 32 == (j - start) * 32 + 32) by (nonlinear_arith);
            }
            j = j + 1;
        }
        proof {
            assert(block@.len() == take * 32);
            assert(take * 32 <= per * 32) by (nonlinear_arith)
                requires
                    take <= per,
            ;
        }
        let pad = hbs - block.len();
        crate::bytes::push_zeros(&mut block, pad);
        proof {
            let k = out@.len() as int;
            assert((k + 1) * per == k * per + per) by (nonlinear_arith);
            assert(block@ =~= packed_chunk(dv, per as nat, hbs as nat, k));
        }
        out.push(block);
        start = end;
        proof {
            assert(views(out@) =~= packed_level(dv, per as nat, hbs as nat).subrange(
                0,
                out@.len() as int,
            ));
            if start < digs@.len() {
                assert(take == per);
                assert(start == out@.len() * per) by (nonlinear_arith)
                    requires
                        start == (out@.len() - 1) * per + per,
                ;
            } else {
                assert(out@.len() == n_chunks(dv.len(), per as nat)) by {
                    lemma_n_chunks_bounds(dv.len(), per as nat);
                    if out@.len() < n_chunks(dv.len(), per as nat) {
                        assert((out@.len() - 1) * per + per <= (n_chunks(dv.len(), per as nat) - 1)
                            * per) by (nonlinear_arith)
                            requires
                                out@.len() <= n_chunks(dv.len(), per as nat) - 1,
                                per > 0,
                        ;
                    }
                }
            }
        }
    }
    proof {
        assert(start == digs@.len());
        if out@.len() != n_chunks(dv.len(), per as nat) {
            assert(start == out@.len() * per);
            lemma_n_chunks_bounds(dv.len(), per as nat);
            if dv.len() == 0 {
                assert(0nat % (per as nat) == 0 && 0nat / (per as nat) == 0) by (nonlinear_arith)
                    requires
                        per > 0,
                ;
                assert(out@.len() == 0) by (nonlinear_arith)
                    requires
                        out@.len() * per == 0,
                        per > 0,
                ;
            } else {
                assert(false) by (nonlinear_arith)
                    requires
                        out@.len() * per == dv.len(),
                        out@.len() < n_chunks(dv.len(), per as nat),
                        (n_chunks(dv.len(), per as nat) - 1) * per < dv.len(),
                        per > 0,
                        out@.len() >= 0,
                ;
            }
        }
        assert(views(out@) =~= packed_level(dv, per as nat, hbs as nat));
    }
    out
}

/// Builds the whole tree bottom-up from the leaf digests: returns the
/// root digest and the bytes of all levels in leaf-to-root order.
pub fn build_hash_tree(salt: &Vec<u8>, leaf: Vec<Vec<u8>>, per: usize, hbs: usize) -> (r: (
    Vec<u8>,
    Vec<u8>,
))
    requires
        per >= 2,
        per * 32 <= hbs,
        leaf@.len() >= 1,
        uniform_digests(views(leaf@)),
    ensures
        r.0@ == root_from(salt@, views(leaf@), per as nat, hbs as nat),
        r.1@ == levels_bytes(salt@, views(leaf@), per as nat, hbs as nat),
{
    let ghost leaf0 = views(leaf@);
    let mut cur = leaf;
    let mut tree: Vec<u8> = Vec::new();
    #[verifier::loop_isolation(false)]
    loop
        invariant
            per >= 2,
            per * 32 <= hbs,
            cur@.len() >= 1,
            uniform_digests(views(cur@)),
            root_from(salt@, leaf0, per as nat, hbs as nat) == root_from(
                salt@,
                views(cur@),
                per as nat,
                hbs as nat,
            ),
            levels_bytes(salt@, leaf0, per as nat, hbs as nat) == tree@ + levels_bytes(
                salt@,
                views(cur@),
                per as nat,
                hbs as nat,
            ),
        decreases cur@.len(),
    {
        let packed = pack_digests(&cur, per, hbs);
        let ghost tree0 = tree@;
        let mut b: usize = 0;
        proof {
            assert(tree@ =~= tree0 + concat_all(views(packed@).subrange(0, 0)));
        }
        #[verifier::loop_isolation(false)]
        while b < packed.len()
            invariant
                b <= packed@.len(),
                tree@ == tree0 + concat_all(views(packed@).subrange(0, b as int)),
            decreases packed@.len() - b,
        {
            tree.extend_from_slice(packed[b].as_slice());
            proof {
                let pv = views(packed@);
                assert(pv.subrange(0, b + 1) =~= pv.subrange(0, b as int).push(pv[b as int]));
                lemma_concat_all_push(pv.subrange(0, b as int), pv[b as int]);
            }
            b = b + 1;
        }
        proof {
            assert(views(packed@).subrange(0, packed@.len() as int) =~= views(packed@));
            assert(tree@ == tree0 + concat_all(packed_level(views(cur@), per as nat, hbs as nat)));
        }
        if cur.len() == 1 {
            let ghost cv = views(cur@);
            let root = cur.remove(0);
            proof {
                assert(root@ == cv[0]);
                assert(root_from(salt@, cv, per as nat, hbs as nat) == cv[0]);
                assert(levels_bytes(salt@, cv, per as nat, hbs as nat) =~= concat_all(
                    packed_level(cv, per as nat, hbs as nat),
                ));
                assert(levels_bytes(salt@, leaf0, per as nat, hbs as nat) =~= tree@);
            }
            return (root, tree);
        }
        let next = digest_blocks(salt, &packed);
        proof {
            let cv = views(cur@);
            lemma_digests_of_uniform(salt@, views(packed@));
            lemma_n_chunks_decreases(cv.len(), per as nat);
            lemma_n_chunks_bounds(cv.len(), per as nat);
            assert(views(next@) == digests_of(salt@, packed_level(cv, per as nat, hbs as nat)));
            assert(root_from(salt@, cv, per as nat, hbs as nat) == root_from(
                salt@,
                views(next@),
                per as nat,
                hbs as nat,
            ));
            assert(levels_bytes(salt@, cv, per as nat, hbs as nat) == concat_all(
                packed_level(cv, per as nat, hbs as nat),
            ) + levels_bytes(salt@, views(next@), per as nat, hbs as nat));
            assert(levels_bytes(salt@, leaf0, per as nat, hbs as nat) =~= tree@ + levels_bytes(
                salt@,
                views(next@),
                per as nat,
                hbs as nat,
            ));
        }
        cur = next;
    }
}

} // verus!
