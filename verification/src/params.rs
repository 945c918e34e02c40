use vstd::prelude::*;
use crate::bytes::{u32_le, u64_le, push_u32_le, push_u64_le};

verus! {

/// How many bytes the configured digest yields.
pub const DIGEST_SIZE: u32 = 32;

/// The immutable configuration record shared by formatting and
/// verification, and the payload of the on-device superblock header.
#[derive(Debug, Clone, PartialEq, Eq)]
pub struct CryptParamsVerity {
    pub hash_name: String,
    pub data_device: String,
    pub hash_device: String,
    pub fec_device: String,
    pub salt: Vec<u8>,
    pub salt_size: u32,
    pub hash_type: u32,
    pub data_block_size: u32,
    pub hash_block_size: u32,
    pub data_size: u64,
    pub hash_area_offset: u64,
    pub fec_area_offset: u64,
    pub fec_roots: u32,
    pub flags: u32,
}

impl Default for CryptParamsVerity {
    fn default() -> (r: CryptParamsVerity)
        ensures
            r.hash_name@ == Seq::<char>::empty(),
            r.data_device@ == Seq::<char>::empty(),
            r.hash_device@ == Seq::<char>::empty(),
            r.fec_device@ == Seq::<char>::empty(),
            r.salt@ == Seq::<u8>::empty(),
            r.salt_size == 0 && r.hash_type == 0 && r.data_block_size == 0 && r.hash_block_size
                == 0,
            r.data_size == 0 && r.hash_area_offset == 0 && r.fec_area_offset == 0 && r.fec_roots
                == 0 && r.flags == 0,
    {
        CryptParamsVerity {
            hash_name: String::new(),
            data_device: String::new(),
            hash_device: String::new(),
            fec_device: String::new(),
            salt: Vec::new(),
            salt_size: 0,
            hash_type: 0,
            data_block_size: 0,
            hash_block_size: 0,
            data_size: 0,
            hash_area_offset: 0,
            fec_area_offset: 0,
            fec_roots: 0,
            flags: 0,
        }
    }
}

pub open spec fn is_power_of_two(x: u32) -> bool {
    x > 0 && x & ((x - 1) as u32) == 0
}

/// Whether `x` is a positive power of two.
pub fn power_of_two(x: u32) -> (r: bool)
    ensures
        r == is_power_of_two(x),
{
    x > 0 && x & (x - 1) == 0
}

/// The only digest algorithm this library computes with.
pub open spec fn supported_hash_name() -> Seq<char> {
    "sha256"@
}

/// Whether `name` names the supported digest algorithm.
pub fn hash_name_supported(name: &String) -> (r: bool)
    ensures
        r == (name@ == supported_hash_name()),
{
    let expected: String = "sha256".to_owned();
    name.eq(&expected)
}

/// The fixed leading part of the superblock header: the numeric fields
/// in little-endian order, then the salt. The root hash follows it.
pub open spec fn header_fixed_bytes(p: CryptParamsVerity) -> Seq<u8> {
    u32_le(p.hash_type) + u32_le(p.data_block_size) + u32_le(p.hash_block_size) + u32_le(
        p.fec_roots,
    ) + u32_le(p.flags) + u32_le(p.salt_size) + u64_le(p.data_size) + u64_le(p.hash_area_offset)
        + u64_le(p.fec_area_offset) + p.salt@
}

/// The length of the fixed header part: six 4-byte fields, three 8-byte
/// fields, and the salt.
pub open spec fn header_fixed_len(p: CryptParamsVerity) -> nat {
    48 + p.salt@.len()
}

/// The length of the whole header: the fixed part followed by the root
/// hash.
pub open spec fn header_len(p: CryptParamsVerity) -> nat {
    header_fixed_len(p) + DIGEST_SIZE as nat
}

pub proof fn lemma_header_fixed_bytes_len(p: CryptParamsVerity)
    ensures
        header_fixed_bytes(p).len() == header_fixed_len(p),
{
}

/// Appends the fixed header part to `v`.
pub fn append_header_fixed(v: &mut Vec<u8>, p: &CryptParamsVerity)
    ensures
        final(v)@ == old(v)@ + header_fixed_bytes(*p),
{
    push_u32_le(v, p.hash_type);
    push_u32_le(v, p.data_block_size);
    push_u32_le(v, p.hash_block_size);
    push_u32_le(v, p.fec_roots);
    push_u32_le(v, p.flags);
    push_u32_le(v, p.salt_size);
    push_u64_le(v, p.data_size);
    push_u64_le(v, p.hash_area_offset);
    push_u64_le(v, p.fec_area_offset);
    v.extend_from_slice(p.salt.as_slice());
    assert(final(v)@ =~= old(v)@ + header_fixed_bytes(*p));
}

} // verus!
