use sha2::{Digest, Sha256};
use veritysetup::params::CryptParamsVerity;
use veritysetup::setup::{format_device, verify_device, FormatError, VerifyError};

fn params(
    salt: Vec<u8>,
    data_block_size: u32,
    hash_block_size: u32,
    data_size: u64,
    hash_area_offset: u64,
    fec_roots: u32,
) -> CryptParamsVerity {
    CryptParamsVerity {
        hash_name: "sha256".to_string(),
        data_device: "/dev/test-data".to_string(),
        hash_device: "/dev/test-hash".to_string(),
        fec_device: String::new(),
        salt_size: salt.len() as u32,
        salt,
        hash_type: 1,
        data_block_size,
        hash_block_size,
        data_size,
        hash_area_offset,
        fec_area_offset: 0,
        fec_roots,
        flags: 0,
    }
}

fn digest(salt: &[u8], data: &[u8]) -> Vec<u8> {
    let mut h = Sha256::new();
    h.update(salt);
    h.update(data);
    h.finalize().as_slice().to_vec()
}

#[test]
fn single_zero_block_root() {
    let data = vec![0u8; 4096];
    let p = params(Vec::new(), 4096, 4096, 1, 4096, 0);
    let out = format_device(&p, &data).unwrap();
    let expected = digest(&[], &data);
    assert_eq!(out.root_hash, expected);
    assert_eq!(out.hash_image.len(), 4096 + 4096);
    // header layout: little-endian fields, then the root hash at 48
    assert_eq!(&out.hash_image[0..4], &[1, 0, 0, 0]); // hash_type
    assert_eq!(&out.hash_image[4..8], &[0, 16, 0, 0]); // data_block_size 4096
    assert_eq!(&out.hash_image[24..32], &[1, 0, 0, 0, 0, 0, 0, 0]); // data_size
    assert_eq!(&out.hash_image[48..80], out.root_hash.as_slice());
    assert!(out.hash_image[80..4096].iter().all(|b| *b == 0));
    assert_eq!(&out.hash_image[4096..4128], expected.as_slice());
    assert!(out.fec_parity.is_empty());
    assert_eq!(verify_device(&p, &data, &out.hash_image, &out.root_hash), Ok(()));
}

#[test]
fn verify_detects_flipped_byte() {
    let data = vec![0u8; 4096];
    let p = params(Vec::new(), 4096, 4096, 1, 4096, 0);
    let out = format_device(&p, &data).unwrap();
    let mut tampered = data.clone();
    tampered[0] ^= 0x01;
    assert_eq!(
        verify_device(&p, &tampered, &out.hash_image, &out.root_hash),
        Err(VerifyError::RootHashMismatch)
    );
}

#[test]
fn verify_detects_any_single_bit_flip() {
    let data: Vec<u8> = (0..8192u32).map(|i| (i % 251) as u8).collect();
    let p = params(vec![9, 9], 4096, 4096, 2, 4096, 0);
    let out = format_device(&p, &data).unwrap();
    for pos in [0usize, 1, 4095, 4096, 8191] {
        for bit in 0..8 {
            let mut tampered = data.clone();
            tampered[pos] ^= 1 << bit;
            assert_eq!(
                verify_device(&p, &tampered, &out.hash_image, &out.root_hash),
                Err(VerifyError::RootHashMismatch)
            );
        }
    }
}

#[test]
fn two_blocks_pack_into_one_hash_block() {
    let mut data = vec![1u8; 4096];
    data.extend(vec![2u8; 4096]);
    let salt = vec![1, 2, 3];
    let p = params(salt.clone(), 4096, 4096, 2, 4096, 0);
    let out = format_device(&p, &data).unwrap();
    // level 0: both digests packed into one zero-padded hash block;
    // level 1: one block whose digest is the root
    let d0 = digest(&salt, &data[..4096]);
    let d1 = digest(&salt, &data[4096..]);
    let mut level0 = Vec::new();
    level0.extend_from_slice(&d0);
    level0.extend_from_slice(&d1);
    level0.resize(4096, 0u8);
    let expected_root = digest(&salt, &level0);
    assert_eq!(out.root_hash, expected_root);
    // two levels of one block each, after the hash area offset
    assert_eq!(out.hash_image.len(), 4096 + 2 * 4096);
    assert_eq!(&out.hash_image[4096..8192], level0.as_slice());
    assert_eq!(verify_device(&p, &data, &out.hash_image, &out.root_hash), Ok(()));
}

#[test]
fn round_trip_multi_level() {
    // 64-byte blocks and 64-byte hash blocks (two digests per block)
    // force several levels: 5 -> 3 -> 2 -> 1
    let data: Vec<u8> = (0..5 * 64u32).map(|i| (i * 7 % 256) as u8).collect();
    let p = params(vec![0xAB], 64, 64, 5, 256, 0);
    let out = format_device(&p, &data).unwrap();
    let blocks_total = 3 + 2 + 1 + 1;
    assert_eq!(out.hash_image.len(), 256 + blocks_total * 64);
    assert_eq!(verify_device(&p, &data, &out.hash_image, &out.root_hash), Ok(()));
}

#[test]
fn partial_last_block_is_zero_padded() {
    // 100 bytes with 64-byte blocks: two blocks, the second padded
    let data: Vec<u8> = (0..100u32).map(|i| (i + 1) as u8).collect();
    let salt = vec![5];
    let p = params(salt.clone(), 64, 64, 2, 256, 0);
    let out = format_device(&p, &data).unwrap();
    let mut second = data[64..].to_vec();
    second.resize(64, 0u8);
    let d0 = digest(&salt, &data[..64]);
    let d1 = digest(&salt, &second);
    let mut level0 = Vec::new();
    level0.extend_from_slice(&d0);
    level0.extend_from_slice(&d1);
    let expected_root = digest(&salt, &level0);
    assert_eq!(out.root_hash, expected_root);
    assert_eq!(verify_device(&p, &data, &out.hash_image, &out.root_hash), Ok(()));
}

#[test]
fn rejects_empty_data() {
    let data = Vec::new();
    let p = params(Vec::new(), 4096, 4096, 0, 4096, 0);
    assert_eq!(format_device(&p, &data), Err(FormatError::InvalidParams));
}

#[test]
fn rejects_unknown_hash_name() {
    let data = vec![0u8; 4096];
    let mut p = params(Vec::new(), 4096, 4096, 1, 4096, 0);
    p.hash_name = "md5".to_string();
    assert_eq!(format_device(&p, &data), Err(FormatError::InvalidParams));
}

#[test]
fn rejects_salt_size_mismatch() {
    let data = vec![0u8; 4096];
    let mut p = params(vec![1, 2, 3], 4096, 4096, 1, 4096, 0);
    p.salt_size = 2;
    assert_eq!(format_device(&p, &data), Err(FormatError::InvalidParams));
}

#[test]
fn rejects_non_power_of_two_block_size() {
    let data = vec![0u8; 3000];
    let p = params(Vec::new(), 3000, 4096, 1, 4096, 0);
    assert_eq!(format_device(&p, &data), Err(FormatError::InvalidParams));
}

#[test]
fn rejects_wrong_data_size() {
    let data = vec![0u8; 4096];
    let p = params(Vec::new(), 4096, 4096, 7, 4096, 0);
    assert_eq!(format_device(&p, &data), Err(FormatError::InvalidParams));
}

#[test]
fn rejects_offset_inside_header() {
    let data = vec![0u8; 64];
    // the header needs 80 bytes plus the salt; 64 leaves no room
    let p = params(Vec::new(), 64, 64, 1, 64, 0);
    assert_eq!(format_device(&p, &data), Err(FormatError::InvalidParams));
}

#[test]
fn corrupt_header_is_reported() {
    let data = vec![0u8; 4096];
    let p = params(Vec::new(), 4096, 4096, 1, 4096, 0);
    let out = format_device(&p, &data).unwrap();
    let mut image = out.hash_image.clone();
    image[0] ^= 0xFF;
    assert_eq!(
        verify_device(&p, &data, &image, &out.root_hash),
        Err(VerifyError::CorruptHashTree)
    );
}

#[test]
fn truncated_image_is_reported() {
    let data = vec![0u8; 4096];
    let p = params(Vec::new(), 4096, 4096, 1, 4096, 0);
    let out = format_device(&p, &data).unwrap();
    let image = out.hash_image[..out.hash_image.len() - 1].to_vec();
    assert_eq!(
        verify_device(&p, &data, &image, &out.root_hash),
        Err(VerifyError::CorruptHashTree)
    );
}

#[test]
fn wrong_length_expected_root_is_reported() {
    let data = vec![0u8; 4096];
    let p = params(Vec::new(), 4096, 4096, 1, 4096, 0);
    let out = format_device(&p, &data).unwrap();
    let short_root = out.root_hash[..31].to_vec();
    assert_eq!(
        verify_device(&p, &data, &out.hash_image, &short_root),
        Err(VerifyError::CorruptHashTree)
    );
}

#[test]
fn stored_root_not_matching_expected_is_reported() {
    let data = vec![0u8; 4096];
    let p = params(Vec::new(), 4096, 4096, 1, 4096, 0);
    let out = format_device(&p, &data).unwrap();
    let mut image = out.hash_image.clone();
    // flip a byte inside the header's root field
    image[48] ^= 0xFF;
    assert_eq!(
        verify_device(&p, &data, &image, &out.root_hash),
        Err(VerifyError::CorruptHashTree)
    );
}

#[test]
fn fec_parity_matches_direct_encoding() {
    let data: Vec<u8> = (0..256u32).map(|i| (i * 3 % 256) as u8).collect();
    let p = params(vec![7], 64, 64, 4, 256, 2);
    let out = format_device(&p, &data).unwrap();
    // parity is computed over data and tree, in hash-block-sized shards
    let mut content = data.clone();
    content.extend_from_slice(&out.hash_image[256..]);
    let shards: Vec<Vec<u8>> = content.chunks(64).map(|c| {
        let mut v = c.to_vec();
        v.resize(64, 0u8);
        v
    }).collect();
    let rs = reed_solomon_erasure::galois_8::ReedSolomon::new(shards.len(), 2).unwrap();
    let mut parity = vec![vec![0u8; 64]; 2];
    rs.encode_sep(shards.as_slice(), parity.as_mut_slice()).unwrap();
    let expected: Vec<u8> = parity.concat();
    assert_eq!(out.fec_parity, expected);
    assert_eq!(out.fec_parity.len(), 2 * 64);
    assert!(out.fec_parity.iter().any(|b| *b != 0));
    // verification does not involve the parity area
    assert_eq!(verify_device(&p, &data, &out.hash_image, &out.root_hash), Ok(()));
}

#[test]
fn fec_with_too_many_shards_fails() {
    let data = vec![1u8; 300 * 64];
    let p = params(Vec::new(), 64, 64, 300, 256, 2);
    assert_eq!(format_device(&p, &data), Err(FormatError::FecComputationFailed));
}

#[test]
fn default_params_are_empty() {
    let p = CryptParamsVerity::default();
    assert_eq!(p.hash_name, "");
    assert_eq!(p.salt.len(), 0);
    assert_eq!(p.data_block_size, 0);
    assert_eq!(p.fec_roots, 0);
}
