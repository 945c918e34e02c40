use vstd::prelude::*;
use crate::bytes::{views, concat_all};

verus! {

/// What the systematic Reed-Solomon code returns as parity for a list
/// of equally sized data shards and a number of parity roots. The value
/// depends on the shards and the count alone.
pub uninterp spec fn fec_parity_of(shards: Seq<Seq<u8>>, roots: nat) -> Seq<Seq<u8>>;

/// Relies on reed-solomon-erasure's GF(256) encoder: with at least one
/// data shard, at least one root, at most 256 shards in all, and all
/// shards of one positive length, `encode_sep` fills exactly `roots`
/// parity shards of that same length, a function of the data alone.
#[verifier::external_body]
fn rs_parity(shards: &Vec<Vec<u8>>, roots: usize) -> (r: Option<Vec<Vec<u8>>>)
    requires
        shards@.len() >= 1,
        roots >= 1,
        shards@.len() + roots <= 256,
        views(shards@)[0].len() >= 1,
        forall|i: int|
            0 <= i < shards@.len() ==> #[trigger] views(shards@)[i].len() == views(
                shards@,
            )[0].len(),
    ensures
        r is Some,
        views(r->Some_0@) == fec_parity_of(views(shards@), roots as nat),
        r->Some_0@.len() == roots,
        forall|i: int|
            0 <= i < r->Some_0@.len() ==> #[trigger] views(r->Some_0@)[i].len() == views(
                shards@,
            )[0].len(),
{
    let shard_len = shards[0].len();
    let rs = match reed_solomon_erasure::galois_8::ReedSolomon::new(shards.len(), roots) {
        Ok(rs) => rs,
        Err(_) => return None,
    };
    let mut parity = vec![vec![0u8; shard_len]; roots];
    match rs.encode_sep(shards.as_slice(), parity.as_mut_slice()) {
        Ok(()) => Some(parity),
        Err(_) => None,
    }
}

/// Computes the parity area: `roots` parity shards over the given data
/// shards, concatenated in order.
pub fn parity_bytes(shards: &Vec<Vec<u8>>, roots: usize) -> (r: Vec<u8>)
    requires
        shards@.len() >= 1,
        roots >= 1,
        shards@.len() + roots <= 256,
        views(shards@)[0].len() >= 1,
        forall|i: int|
            0 <= i < shards@.len() ==> #[trigger] views(shards@)[i].len() == views(
                shards@,
            )[0].len(),
    ensures
        r@ == concat_all(fec_parity_of(views(shards@), roots as nat)),
{
    let parity = match rs_parity(shards, roots) {
        Some(p) => p,
        None => Vec::new(),
    };
    let mut out: Vec<u8> = Vec::new();
    let mut i: usize = 0;
    proof {
        assert(out@ =~= concat_all(views(parity@).subrange(0, 0)));
    }
    #[verifier::loop_isolation(false)]
    while i < parity.len()
        invariant
            i <= parity@.len(),
            out@ == concat_all(views(parity@).subrange(0, i as int)),
        decreases parity@.len() - i,
    {
        out.extend_from_slice(parity[i].as_slice());
        proof {
            let vs = views(parity@);
            assert(vs.subrange(0, i + 1) =~= vs.subrange(0, i as int).push(vs[i as int]));
            crate::bytes::lemma_concat_all_push(vs.subrange(0, i as int), vs[i as int]);
        }
        i = i + 1;
    }
    proof {
        assert(views(parity@).subrange(0, parity@.len() as int) =~= views(parity@));
    }
    out
}

} // verus!
