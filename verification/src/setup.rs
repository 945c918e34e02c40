use vstd::prelude::*;
use crate::bytes::{
    zero_pad, concat_all, n_chunks, chunks_of, views, bytes_eq, push_zeros, lemma_n_chunks_bounds,
    lemma_chunks_of_uniform,
};
use crate::fec::{fec_parity_of, parity_bytes};
use crate::hashtree::{
    digests_of, root_from, levels_bytes, total_tree_blocks, uniform_digests, digest_blocks,
    build_hash_tree, lemma_digests_of_uniform, lemma_levels_bytes_len,
};
use crate::params::{
    CryptParamsVerity, DIGEST_SIZE, supported_hash_name, is_power_of_two, power_of_two,
    hash_name_supported, header_fixed_bytes, header_fixed_len, header_len,
    lemma_header_fixed_bytes_len, append_header_fixed,
};

verus! {

#[derive(Clone, Copy, Debug, PartialEq, Eq, Structural)]
pub enum FormatError {
    InvalidParams,
    IoFailure,
    FecComputationFailed,
}

#[derive(Clone, Copy, Debug, PartialEq, Eq, Structural)]
pub enum VerifyError {
    RootHashMismatch,
    CorruptHashTree,
    IoFailure,
}

/// What formatting yields: the root hash, the full content of the hash
/// device (header, padding, tree levels), and the parity area bytes
/// (empty when no parity was asked for). Writing the two byte images to
/// their devices is the caller's part.
#[derive(Debug, PartialEq, Eq)]
pub struct FormatOutput {
    pub root_hash: Vec<u8>,
    pub hash_image: Vec<u8>,
    pub fec_parity: Vec<u8>,
}

/// How many digests one hash block holds.
pub open spec fn digests_per_block(p: CryptParamsVerity) -> nat {
    p.hash_block_size as nat / 32
}

/// How many data blocks the data device holds, the last possibly
/// partial.
pub open spec fn leaf_count(p: CryptParamsVerity, data_len: nat) -> nat {
    n_chunks(data_len, p.data_block_size as nat)
}

/// What a valid configuration is for a data device of `data_len`
/// bytes: data present, the supported digest algorithm, the salt
/// sized as stated, both block sizes positive powers of two, a hash
/// block holding at least two digests, the block count derived from the
/// data length, and a hash area that leaves room for the header.
pub open spec fn params_valid(p: CryptParamsVerity, data_len: nat) -> bool {
    &&& data_len > 0
    &&& p.hash_name@ == supported_hash_name()
    &&& p.salt@.len() == p.salt_size as nat
    &&& is_power_of_two(p.data_block_size)
    &&& is_power_of_two(p.hash_block_size)
    &&& p.hash_block_size >= 2 * DIGEST_SIZE
    &&& p.data_size as nat == leaf_count(p, data_len)
    &&& p.hash_area_offset as nat >= header_len(p)
}

/// The leaf digests: one salted digest per data block.
pub open spec fn leaf_digests(p: CryptParamsVerity, data: Seq<u8>) -> Seq<Seq<u8>> {
    digests_of(p.salt@, chunks_of(data, p.data_block_size as nat))
}

/// The root hash of the tree over `data`.
pub open spec fn root_of(p: CryptParamsVerity, data: Seq<u8>) -> Seq<u8> {
    root_from(p.salt@, leaf_digests(p, data), digests_per_block(p), p.hash_block_size as nat)
}

/// The bytes of all tree levels, leaf level first.
pub open spec fn tree_bytes_of(p: CryptParamsVerity, data: Seq<u8>) -> Seq<u8> {
    levels_bytes(p.salt@, leaf_digests(p, data), digests_per_block(p), p.hash_block_size as nat)
}

/// The byte length of all tree levels.
pub open spec fn tree_len(p: CryptParamsVerity, data_len: nat) -> nat {
    total_tree_blocks(leaf_count(p, data_len), digests_per_block(p)) * p.hash_block_size as nat
}

/// The byte length of the hash-device image.
pub open spec fn image_len(p: CryptParamsVerity, data_len: nat) -> nat {
    p.hash_area_offset as nat + tree_len(p, data_len)
}

/// The machine limit: the hash-device image, and the data together
/// with the tree, must be addressable.
pub open spec fn format_fits(p: CryptParamsVerity, data_len: nat) -> bool {
    &&& image_len(p, data_len) <= usize::MAX as nat
    &&& data_len + tree_len(p, data_len) <= usize::MAX as nat
}

/// The whole hash-device image: the header (the fixed fields and the
/// root hash) zero-padded up to the hash area offset, then the tree
/// levels in leaf-to-root order.
pub open spec fn image_of(p: CryptParamsVerity, data: Seq<u8>) -> Seq<u8> {
    zero_pad(header_fixed_bytes(p) + root_of(p, data), p.hash_area_offset as nat) + tree_bytes_of(
        p,
        data,
    )
}

/// The parity shards' input: data and tree, cut into hash-block-sized
/// shards.
pub open spec fn fec_shards(p: CryptParamsVerity, data: Seq<u8>) -> Seq<Seq<u8>> {
    chunks_of(data + tree_bytes_of(p, data), p.hash_block_size as nat)
}

pub open spec fn fec_shard_count(p: CryptParamsVerity, data_len: nat) -> nat {
    n_chunks(data_len + tree_len(p, data_len), p.hash_block_size as nat)
}

/// Whether the asked-for parity can be computed: none was asked for, or
/// shards and roots together fit the field of the erasure code.
pub open spec fn fec_ok(p: CryptParamsVerity, data_len: nat) -> bool {
    p.fec_roots == 0 || fec_shard_count(p, data_len) + p.fec_roots as nat <= 256
}

/// The parity area bytes.
pub open spec fn fec_bytes_of(p: CryptParamsVerity, data: Seq<u8>) -> Seq<u8> {
    concat_all(fec_parity_of(fec_shards(p, data), p.fec_roots as nat))
}

/// From a valid configuration: a hash block holds at least two
/// digests, no more than fit, and the data device holds at least one
/// block.
pub proof fn lemma_tree_shape(p: CryptParamsVerity, data_len: nat)
    requires
        params_valid(p, data_len),
    ensures
        digests_per_block(p) >= 2,
        digests_per_block(p) * 32 <= p.hash_block_size as nat,
        leaf_count(p, data_len) >= 1,
{
    let hbs = p.hash_block_size as nat;
    let q = hbs / 32;
    let r = hbs % 32;
    vstd::arithmetic::div_mod::lemma_fundamental_div_mod(hbs as int, 32);
    assert(q >= 2) by (nonlinear_arith)
        requires
            hbs == q * 32 + r,
            0 <= r < 32,
            hbs >= 64,
            q >= 0,
    ;
    lemma_n_chunks_bounds(data_len, p.data_block_size as nat);
}

/// Whether `p` is valid for a data device of `data_len` bytes.
pub fn validate_params(p: &CryptParamsVerity, data_len: usize) -> (r: bool)
    ensures
        r == params_valid(*p, data_len as nat),
{
    if data_len == 0 {
        return false;
    }
    if !hash_name_supported(&p.hash_name) {
        return false;
    }
    if p.salt.len() != p.salt_size as usize {
        return false;
    }
    if !power_of_two(p.data_block_size) {
        return false;
    }
    if !power_of_two(p.hash_block_size) {
        return false;
    }
    if p.hash_block_size < 2 * DIGEST_SIZE {
        return false;
    }
    let bs = p.data_block_size as usize;
    let q = data_len / bs;
    let rem = data_len % bs;
    proof {
        if rem != 0 {
            vstd::arithmetic::div_mod::lemma_fundamental_div_mod(data_len as int, bs as int);
            assert(q < usize::MAX) by (nonlinear_arith)
                requires
                    data_len == q * bs + rem,
                    0 < rem < bs,
                    bs >= 2,
                    q >= 0,
                    data_len <= usize::MAX,
            ;
        }
    }
    let nb = if rem == 0 {
        q
    } else {
        q + 1
    };
    if p.data_size != nb as u64 {
        return false;
    }
    let hdr: u64 = 48 + p.salt_size as u64 + DIGEST_SIZE as u64;
    if p.hash_area_offset < hdr {
        return false;
    }
    true
}

/// Lays the header, the padding and the tree out as the hash device's
/// content.
fn assemble_image(p: &CryptParamsVerity, root: &Vec<u8>, tree: &Vec<u8>) -> (image: Vec<u8>)
    requires
        header_len(*p) <= p.hash_area_offset as nat,
        p.hash_area_offset as nat + tree@.len() <= usize::MAX as nat,
        root@.len() == 32,
    ensures
        image@ == zero_pad(header_fixed_bytes(*p) + root@, p.hash_area_offset as nat) + tree@,
{
    proof {
        lemma_header_fixed_bytes_len(*p);
        assert(p.hash_area_offset <= usize::MAX as u64);
    }
    let mut image: Vec<u8> = Vec::new();
    append_header_fixed(&mut image, p);
    image.extend_from_slice(root.as_slice());
    proof {
        assert(image@ =~= header_fixed_bytes(*p) + root@);
    }
    let offset = p.hash_area_offset as usize;
    let pad = offset - image.len();
    push_zeros(&mut image, pad);
    proof {
        assert(image@ =~= zero_pad(header_fixed_bytes(*p) + root@, p.hash_area_offset as nat));
    }
    image.extend_from_slice(tree.as_slice());
    image
}

/// Computes the parity area over the data and the tree, or reports
/// that the shards and roots together overrun the erasure code's
/// field.
fn compute_fec(p: &CryptParamsVerity, data: &Vec<u8>, tree: &Vec<u8>) -> (r: Option<Vec<u8>>)
    requires
        p.fec_roots >= 1,
        p.hash_block_size >= 64,
        data@.len() > 0,
        data@.len() + tree@.len() <= usize::MAX as nat,
    ensures
        r is Some <==> n_chunks(data@.len() + tree@.len(), p.hash_block_size as nat)
            + p.fec_roots as nat <= 256,
        r is Some ==> r->Some_0@ == concat_all(
            fec_parity_of(
                chunks_of(data@ + tree@, p.hash_block_size as nat),
                p.fec_roots as nat,
            ),
        ),
{
    let hbs = p.hash_block_size as usize;
    let mut content: Vec<u8> = Vec::new();
    content.extend_from_slice(data.as_slice());
    content.extend_from_slice(tree.as_slice());
    proof {
        assert(content@ =~= data@ + tree@);
    }
    let shards = crate::bytes::chunk_blocks(&content, hbs);
    let roots = p.fec_roots as usize;
    if roots > 256 || shards.len() > 256 - roots {
        return None;
    }
    proof {
        lemma_chunks_of_uniform(content@, hbs as nat);
        lemma_n_chunks_bounds(content@.len() as nat, hbs as nat);
        assert(views(shards@)[0].len() == hbs);
    }
    let fec = parity_bytes(&shards, roots);
    Some(fec)
}

/// Computes the salted hash tree over the data device's content and
/// assembles what belongs on the hash device: the header, the tree
/// levels, the root hash, and — where parity roots are asked for — the
/// parity area. An invalid configuration is refused; parity that
/// cannot fit the erasure code's field is refused; nothing else fails.
#[verifier::rlimit(60)]
pub fn format_device(p: &CryptParamsVerity, data: &Vec<u8>) -> (r: Result<
    FormatOutput,
    FormatError,
>)
    requires
        format_fits(*p, data@.len()),
    ensures
        r is Ok <==> params_valid(*p, data@.len()) && fec_ok(*p, data@.len()),
        r == Err::<FormatOutput, FormatError>(FormatError::InvalidParams) <==> !params_valid(
            *p,
            data@.len(),
        ),
        r == Err::<FormatOutput, FormatError>(FormatError::FecComputationFailed) <==> (
        params_valid(*p, data@.len()) && !fec_ok(*p, data@.len())),
        r is Ok ==> {
            let out = r->Ok_0;
            &&& out.root_hash@ == root_of(*p, data@)
            &&& out.hash_image@ == image_of(*p, data@)
            &&& out.fec_parity@ == (if p.fec_roots == 0 {
                Seq::<u8>::empty()
            } else {
                fec_bytes_of(*p, data@)
            })
        },
{
    if !validate_params(p, data.len()) {
        return Err(FormatError::InvalidParams);
    }
    proof {
        lemma_tree_shape(*p, data@.len() as nat);
        lemma_chunks_of_uniform(data@, p.data_block_size as nat);
    }
    let hbs = p.hash_block_size as usize;
    let per = hbs / 32;
    let blocks = crate::bytes::chunk_blocks(data, p.data_block_size as usize);
    let digs = digest_blocks(&p.salt, &blocks);
    proof {
        lemma_digests_of_uniform(p.salt@, views(blocks@));
        assert(views(digs@) == leaf_digests(*p, data@));
    }
    let (root, tree) = build_hash_tree(&p.salt, digs, per, hbs);
    proof {
        lemma_levels_bytes_len(
            p.salt@,
            leaf_digests(*p, data@),
            digests_per_block(*p),
            p.hash_block_size as nat,
        );
        assert(tree@.len() == tree_len(*p, data@.len() as nat));
        lemma_root_len(
            p.salt@,
            leaf_digests(*p, data@),
            digests_per_block(*p),
            p.hash_block_size as nat,
        );
    }
    let image = assemble_image(p, &root, &tree);
    proof {
        assert(image@ == image_of(*p, data@));
    }
    if p.fec_roots == 0 {
        return Ok(FormatOutput { root_hash: root, hash_image: image, fec_parity: Vec::new() });
    }
    let fec = match compute_fec(p, data, &tree) {
        Some(fec) => fec,
        None => {
            proof {
                assert(!fec_ok(*p, data@.len() as nat));
            }
            return Err(FormatError::FecComputationFailed);
        },
    };
    proof {
        assert(fec_ok(*p, data@.len() as nat));
        assert(fec@ == fec_bytes_of(*p, data@));
    }
    Ok(FormatOutput { root_hash: root, hash_image: image, fec_parity: fec })
}

/// Whether the hash-device image is structurally sound for this
/// configuration and this expected root: the configuration itself is
/// valid, the image has the derived length, its header states the
/// configuration and the expected root, and the gap between header and
/// hash area holds zeros. The stored tree content takes no part in the
/// verdict, which rests on a fresh tree over the data device alone.
pub open spec fn structure_ok(
    p: CryptParamsVerity,
    data: Seq<u8>,
    image: Seq<u8>,
    expected: Seq<u8>,
) -> bool {
    &&& params_valid(p, data.len())
    &&& image.len() == image_len(p, data.len())
    &&& image.subrange(0, header_fixed_len(p) as int) == header_fixed_bytes(p)
    &&& image.subrange(header_fixed_len(p) as int, header_len(p) as int) == expected
    &&& forall|i: int| header_len(p) <= i < p.hash_area_offset ==> image[i] == 0u8
}

/// Recomputes the whole tree from the data device and compares its
/// root against the expected root hash: a full offline pass, with no
/// early exit and no trust in the stored tree. A malformed
/// configuration, image or header is refused as corrupt before any
/// comparison; then the verdict is exactly the root comparison.
#[verifier::rlimit(60)]
pub fn verify_device(
    p: &CryptParamsVerity,
    data: &Vec<u8>,
    hash_image: &Vec<u8>,
    expected_root: &Vec<u8>,
) -> (r: Result<(), VerifyError>)
    requires
        format_fits(*p, data@.len()),
    ensures
        r is Ok <==> structure_ok(*p, data@, hash_image@, expected_root@) && root_of(*p, data@)
            == expected_root@,
        r == Err::<(), VerifyError>(VerifyError::CorruptHashTree) <==> !structure_ok(
            *p,
            data@,
            hash_image@,
            expected_root@,
        ),
        r == Err::<(), VerifyError>(VerifyError::RootHashMismatch) <==> (structure_ok(
            *p,
            data@,
            hash_image@,
            expected_root@,
        ) && root_of(*p, data@) != expected_root@),
{
    if !validate_params(p, data.len()) {
        return Err(VerifyError::CorruptHashTree);
    }
    proof {
        lemma_tree_shape(*p, data@.len() as nat);
        lemma_chunks_of_uniform(data@, p.data_block_size as nat);
    }
    let hbs = p.hash_block_size as usize;
    let per = hbs / 32;
    let blocks = crate::bytes::chunk_blocks(data, p.data_block_size as usize);
    let digs = digest_blocks(&p.salt, &blocks);
    proof {
        lemma_digests_of_uniform(p.salt@, views(blocks@));
        assert(views(digs@) == leaf_digests(*p, data@));
    }
    let (root, tree) = build_hash_tree(&p.salt, digs, per, hbs);
    proof {
        lemma_levels_bytes_len(
            p.salt@,
            leaf_digests(*p, data@),
            digests_per_block(*p),
            p.hash_block_size as nat,
        );
        assert(tree@.len() == tree_len(*p, data@.len() as nat));
        lemma_header_fixed_bytes_len(*p);
        assert(p.hash_area_offset <= usize::MAX as u64);
    }
    let offset = p.hash_area_offset as usize;
    if hash_image.len() != offset + tree.len() {
        return Err(VerifyError::CorruptHashTree);
    }
    let mut hdr: Vec<u8> = Vec::new();
    append_header_fixed(&mut hdr, p);
    let fixed_len = hdr.len();
    let mut i: usize = 0;
    #[verifier::loop_isolation(false)]
    while i < fixed_len
        invariant
            i <= fixed_len,
            forall|k: int| 0 <= k < i ==> hash_image@[k] == hdr@[k],
        decreases fixed_len - i,
    {
        if hash_image[i] != hdr[i] {
            proof {
                assert(hash_image@.subrange(0, header_fixed_len(*p) as int) != header_fixed_bytes(
                    *p,
                ));
            }
            return Err(VerifyError::CorruptHashTree);
        }
        i = i + 1;
    }
    proof {
        assert(hash_image@.subrange(0, header_fixed_len(*p) as int) =~= header_fixed_bytes(*p));
    }
    if expected_root.len() != 32 {
        proof {
            assert(hash_image@.subrange(header_fixed_len(*p) as int, header_len(*p) as int).len()
                == 32);
        }
        return Err(VerifyError::CorruptHashTree);
    }
    let mut j: usize = 0;
    #[verifier::loop_isolation(false)]
    while j < 32
        invariant
            j <= 32,
            forall|k: int| 0 <= k < j ==> hash_image@[fixed_len + k] == expected_root@[k],
        decreases 32 - j,
    {
        if hash_image[fixed_len + j] != expected_root[j] {
            proof {
                assert(hash_image@.subrange(header_fixed_len(*p) as int, header_len(*p) as int)[
                    j as int] != expected_root@[j as int]);
            }
            return Err(VerifyError::CorruptHashTree);
        }
        j = j + 1;
    }
    proof {
        assert(hash_image@.subrange(header_fixed_len(*p) as int, header_len(*p) as int)
            =~= expected_root@);
    }
    let header_total = fixed_len + 32;
    let mut z: usize = header_total;
    #[verifier::loop_isolation(false)]
    while z < offset
        invariant
            header_total <= z <= offset,
            forall|k: int| header_total <= k < z ==> hash_image@[k] == 0u8,
        decreases offset - z,
    {
        if hash_image[z] != 0 {
            return Err(VerifyError::CorruptHashTree);
        }
        z = z + 1;
    }
    proof {
        assert(structure_ok(*p, data@, hash_image@, expected_root@));
    }
    if bytes_eq(&root, expected_root) {
        Ok(())
    } else {
        Err(VerifyError::RootHashMismatch)
    }
}

/// The length of the root digest, and of every digest in the tree.
pub proof fn lemma_root_len(salt: Seq<u8>, digs: Seq<Seq<u8>>, per: nat, hbs: nat)
    requires
        uniform_digests(digs),
        per >= 2,
        digs.len() >= 1,
    ensures
        root_from(salt, digs, per, hbs).len() == 32,
    decreases digs.len(),
{
    if digs.len() <= 1 {
    } else {
        let next = digests_of(salt, crate::hashtree::packed_level(digs, per, hbs));
        lemma_digests_of_uniform(salt, crate::hashtree::packed_level(digs, per, hbs));
        crate::bytes::lemma_n_chunks_decreases(digs.len(), per);
        crate::bytes::lemma_n_chunks_bounds(digs.len(), per);
        lemma_root_len(salt, next, per, hbs);
    }
}

/// A formatted image has the shape verification asks of it, for any
/// data of the same length: the header states the configuration and
/// the formatted root, and the lengths derive from the configuration
/// alone.
pub proof fn lemma_image_structure(p: CryptParamsVerity, data: Seq<u8>, other: Seq<u8>)
    requires
        params_valid(p, data.len()),
        other.len() == data.len(),
    ensures
        structure_ok(p, other, image_of(p, data), root_of(p, data)),
{
    lemma_tree_shape(p, data.len());
    lemma_chunks_of_uniform(data, p.data_block_size as nat);
    lemma_digests_of_uniform(p.salt@, chunks_of(data, p.data_block_size as nat));
    lemma_n_chunks_bounds(data.len(), p.data_block_size as nat);
    lemma_levels_bytes_len(
        p.salt@,
        leaf_digests(p, data),
        digests_per_block(p),
        p.hash_block_size as nat,
    );
    lemma_root_len(p.salt@, leaf_digests(p, data), digests_per_block(p), p.hash_block_size as nat);
    lemma_header_fixed_bytes_len(p);
    let header = header_fixed_bytes(p) + root_of(p, data);
    let image = image_of(p, data);
    let offset = p.hash_area_offset as nat;
    assert(header.len() == header_len(p));
    assert(zero_pad(header, offset).len() == offset);
    assert(image.len() == image_len(p, other.len()));
    assert(image.subrange(0, header_fixed_len(p) as int) =~= header_fixed_bytes(p));
    assert(image.subrange(header_fixed_len(p) as int, header_len(p) as int) =~= root_of(p, data));
    assert forall|i: int| header_len(p) <= i < p.hash_area_offset implies image[i] == 0u8 by {
        assert(image[i] == zero_pad(header, offset)[i]);
    }
}

/// Round trip: after formatting any data device with any valid
/// configuration, verifying the same data against the returned image
/// and root hash finds the structure sound and the roots equal — by
/// `verify_device`'s contract, it answers `Ok`.
pub proof fn lemma_format_verify_round_trip(p: CryptParamsVerity, data: Seq<u8>)
    requires
        params_valid(p, data.len()),
    ensures
        structure_ok(p, data, image_of(p, data), root_of(p, data)),
        root_of(p, data) == root_of(p, data),
{
    lemma_image_structure(p, data, data);
}

/// Tamper detection: wherever a change to the data changes the root
/// digest, verifying the changed data against the original image and
/// root hash still finds the structure sound, and the roots differ —
/// by `verify_device`'s contract, it answers `RootHashMismatch`. That
/// flipping any single bit changes the digest is the digest function's
/// collision resistance, which no contract here states; it is borne
/// out by test.
pub proof fn lemma_tamper_detected(p: CryptParamsVerity, data: Seq<u8>, tampered: Seq<u8>)
    requires
        params_valid(p, data.len()),
        tampered.len() == data.len(),
        root_of(p, tampered) != root_of(p, data),
    ensures
        structure_ok(p, tampered, image_of(p, data), root_of(p, data)),
        root_of(p, tampered) != root_of(p, data),
{
    lemma_image_structure(p, data, tampered);
}

} // verus!
