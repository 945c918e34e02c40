use vstd::prelude::*;

verus! {

/// Little-endian encoding of a `u32`, as contracts state it.
pub open spec fn u32_le(x: u32) -> Seq<u8> {
    seq![
        (x % 256) as u8,
        ((x / 256) % 256) as u8,
        ((x / 65536) % 256) as u8,
        ((x / 16777216) % 256) as u8,
    ]
}

/// Little-endian encoding of a `u64`, as contracts state it.
pub open spec fn u64_le(x: u64) -> Seq<u8> {
    seq![
        (x % 256) as u8,
        ((x / 256) % 256) as u8,
        ((x / 65536) % 256) as u8,
        ((x / 16777216) % 256) as u8,
        ((x / 4294967296) % 256) as u8,
        ((x / 1099511627776) % 256) as u8,
        ((x / 281474976710656) % 256) as u8,
        ((x / 72057594037927936) % 256) as u8,
    ]
}

/// A byte sequence zero-extended on the right to `size` bytes.
pub open spec fn zero_pad(s: Seq<u8>, size: nat) -> Seq<u8>
    recommends
        s.len() <= size,
{
    s + Seq::new((size - s.len()) as nat, |i: int| 0u8)
}

/// All the byte sequences of `bs`, concatenated in order.
pub open spec fn concat_all(bs: Seq<Seq<u8>>) -> Seq<u8>
    decreases bs.len(),
{
    if bs.len() == 0 {
        Seq::empty()
    } else {
        concat_all(bs.drop_last()) + bs.last()
    }
}

pub proof fn lemma_concat_all_push(bs: Seq<Seq<u8>>, b: Seq<u8>)
    ensures
        concat_all(bs.push(b)) == concat_all(bs) + b,
{
    assert(bs.push(b).drop_last() =~= bs);
    assert(bs.push(b).last() == b);
}

/// When every element of `bs` has length `k`, the concatenation has length
/// `bs.len() * k`.
pub proof fn lemma_concat_all_uniform_len(bs: Seq<Seq<u8>>, k: nat)
    requires
        forall|i: int| 0 <= i < bs.len() ==> (#[trigger] bs[i]).len() == k,
    ensures
        concat_all(bs).len() == bs.len() * k,
    decreases bs.len(),
{
    if bs.len() == 0 {
    } else {
        lemma_concat_all_uniform_len(bs.drop_last(), k);
        assert(concat_all(bs).len() == (bs.len() - 1) * k + k);
        assert((bs.len() - 1) * k + k == bs.len() * k) by (nonlinear_arith);
    }
}

pub fn push_u32_le(v: &mut Vec<u8>, x: u32)
    ensures
        final(v)@ == old(v)@ + u32_le(x),
{
    v.push((x % 256) as u8);
    v.push(((x / 256) % 256) as u8);
    v.push(((x / 65536) % 256) as u8);
    v.push(((x / 16777216) % 256) as u8);
    assert(final(v)@ =~= old(v)@ + u32_le(x));
}

pub fn push_u64_le(v: &mut Vec<u8>, x: u64)
    ensures
        final(v)@ == old(v)@ + u64_le(x),
{
    v.push((x % 256) as u8);
    v.push(((x / 256) % 256) as u8);
    v.push(((x / 65536) % 256) as u8);
    v.push(((x / 16777216) % 256) as u8);
    v.push(((x / 4294967296) % 256) as u8);
    v.push(((x / 1099511627776) % 256) as u8);
    v.push(((x / 281474976710656) % 256) as u8);
    v.push(((x / 72057594037927936) % 256) as u8);
    assert(final(v)@ =~= old(v)@ + u64_le(x));
}

/// Appends `count` zero bytes to `v`.
pub fn push_zeros(v: &mut Vec<u8>, count: usize)
    ensures
        final(v)@ == old(v)@ + Seq::new(count as nat, |i: int| 0u8),
{
    let mut k: usize = 0;
    while k < count
        invariant
            k <= count,
            v@ == old(v)@ + Seq::new(k as nat, |i: int| 0u8),
        decreases count - k,
    {
        v.push(0u8);
        k = k + 1;
        assert(v@ =~= old(v)@ + Seq::new(k as nat, |i: int| 0u8));
    }
}

/// How many chunks of `size` bytes cover `len` bytes, the last chunk
/// possibly partial.
pub open spec fn n_chunks(len: nat, size: nat) -> nat
    recommends
        size > 0,
{
    if len % size == 0 {
        len / size
    } else {
        len / size + 1
    }
}

/// Chunk `i` of `data`, zero-padded on the right to `size` bytes.
pub open spec fn chunk_at(data: Seq<u8>, size: nat, i: int) -> Seq<u8>
    recommends
        size > 0,
        0 <= i < n_chunks(data.len(), size),
{
    zero_pad(
        data.subrange(
            i * size,
            if (i + 1) * size > data.len() {
                data.len() as int
            } else {
                (i + 1) * size
            },
        ),
        size,
    )
}

/// `data` cut into chunks of `size` bytes, the last zero-padded.
pub open spec fn chunks_of(data: Seq<u8>, size: nat) -> Seq<Seq<u8>> {
    Seq::new(n_chunks(data.len(), size), |i: int| chunk_at(data, size, i))
}

/// The views of a sequence of byte vectors.
pub open spec fn views(s: Seq<Vec<u8>>) -> Seq<Seq<u8>> {
    s.map_values(|v: Vec<u8>| v@)
}

pub proof fn lemma_n_chunks_bounds(len: nat, size: nat)
    requires
        size > 0,
    ensures
        n_chunks(len, size) * size >= len,
        len > 0 ==> n_chunks(len, size) >= 1,
        len > 0 ==> (n_chunks(len, size) - 1) * size < len,
{
    let q = len / size;
    let r = len % size;
    vstd::arithmetic::div_mod::lemma_fundamental_div_mod(len as int, size as int);
    assert(len == q * size + r);
    if r == 0 {
        assert(q * size >= len);
        if len > 0 {
            assert(q >= 1) by (nonlinear_arith)
                requires
                    len == q * size + r,
                    r == 0,
                    len > 0,
                    size > 0,
                    q >= 0,
            ;
            assert((q - 1) * size < len) by (nonlinear_arith)
                requires
                    len == q * size,
                    size > 0,
            ;
        }
    } else {
        assert((q + 1) * size >= len) by (nonlinear_arith)
            requires
                len == q * size + r,
                0 <= r < size,
        ;
        assert(q * size < len);
    }
}

/// With at least two items to a chunk, chunking more than one item
/// yields strictly fewer chunks.
pub proof fn lemma_n_chunks_decreases(len: nat, size: nat)
    requires
        size >= 2,
        len >= 2,
    ensures
        n_chunks(len, size) < len,
{
    let q = len / size;
    let r = len % size;
    vstd::arithmetic::div_mod::lemma_fundamental_div_mod(len as int, size as int);
    if r == 0 {
        assert(q < len) by (nonlinear_arith)
            requires
                len == q * size,
                size >= 2,
                len >= 2,
                q >= 0,
        ;
    } else {
        assert(q + 1 < len) by (nonlinear_arith)
            requires
                len == q * size + r,
                0 < r < size,
                size >= 2,
                len >= 2,
                q >= 0,
        ;
    }
}

/// Every chunk is exactly `size` bytes.
pub proof fn lemma_chunks_of_uniform(data: Seq<u8>, size: nat)
    requires
        size >= 1,
    ensures
        forall|i: int|
            0 <= i < chunks_of(data, size).len() ==> (#[trigger] chunks_of(data, size)[i]).len()
                == size,
{
    assert forall|i: int|
        0 <= i < chunks_of(data, size).len() implies (#[trigger] chunks_of(data, size)[i]).len()
        == size by {
        let len = data.len();
        let end: int = if (i + 1) * size > len {
            len as int
        } else {
            (i + 1) * size
        };
        lemma_n_chunks_bounds(len, size);
        assert(len > 0) by {
            if len == 0 {
                assert(0nat % size == 0 && 0nat / size == 0) by (nonlinear_arith)
                    requires
                        size > 0,
                ;
            }
        }
        assert(0 <= i * size && i * size < len && end - i * size <= size && i * size <= end <= len)
            by (nonlinear_arith)
            requires
                0 <= i <= n_chunks(len, size) - 1,
                size >= 1,
                (n_chunks(len, size) - 1) * size < len,
                end == if (i + 1) * size > len {
                    len as int
                } else {
                    (i + 1) * size
                },
        ;
        assert(chunks_of(data, size)[i] == chunk_at(data, size, i));
        assert(data.subrange(i * size, end).len() <= size);
    }
}

/// Cuts `data` into chunks of `size` bytes, zero-padding the last.
pub fn chunk_blocks(data: &Vec<u8>, size: usize) -> (r: Vec<Vec<u8>>)
    requires
        size >= 1,
    ensures
        views(r@) == chunks_of(data@, size as nat),
        r@.len() == n_chunks(data@.len() as nat, size as nat),
{
    let mut out: Vec<Vec<u8>> = Vec::new();
    let mut start: usize = 0;
    proof {
        lemma_n_chunks_bounds(data@.len() as nat, size as nat);
        assert(views(out@) =~= chunks_of(data@, size as nat).subrange(0, 0));
    }
    #[verifier::loop_isolation(false)]
    while start < data.len()
        invariant
            start <= data@.len(),
            out@.len() <= n_chunks(data@.len() as nat, size as nat),
            views(out@) == chunks_of(data@, size as nat).subrange(0, out@.len() as int),
            start == out@.len() * size || (start == data@.len() && out@.len() == n_chunks(
                data@.len() as nat,
                size as nat,
            )),
        decreases data@.len() - start,
    {
        proof {
            if start == data@.len() {
                assert(false);
            }
            assert(start == out@.len() * size);
            assert(out@.len() < n_chunks(data@.len() as nat, size as nat)) by {
                if out@.len() >= n_chunks(data@.len() as nat, size as nat) {
                    assert(out@.len() * size >= n_chunks(data@.len() as nat, size as nat) * size)
                        by (nonlinear_arith)
                        requires
                            out@.len() >= n_chunks(data@.len() as nat, size as nat),
                            size > 0,
                    ;
                }
            }
        }
        let remaining = data.len() - start;
        let take = if remaining < size {
            remaining
        } else {
            size
        };
        let end = start + take;
        let mut block: Vec<u8> = Vec::new();
        let mut j = start;
        while j < end
            invariant
                start <= j <= end,
                end <= data@.len(),
                block@ == data@.subrange(start as int, j as int),
            decreases end - j,
        {
            block.push(data[j]);
            proof {
                assert(block@ =~= data@.subrange(start as int, j as int + 1));
            }
            j = j + 1;
        }
        push_zeros(&mut block, size - take);
        proof {
            let k = out@.len() as int;
            assert((k + 1) * size == k * size + size) by (nonlinear_arith);
            assert(block@ =~= chunk_at(data@, size as nat, k));
        }
        out.push(block);
        start = end;
        proof {
            assert(views(out@) =~= chunks_of(data@, size as nat).subrange(0, out@.len() as int));
            if start < data@.len() {
                assert(take == size);
                assert(start == out@.len() * size) by (nonlinear_arith)
                    requires
                        start == (out@.len() - 1) * size + size,
                ;
            } else {
                assert(start == data@.len());
                assert(out@.len() == n_chunks(data@.len() as nat, size as nat)) by {
                    lemma_n_chunks_bounds(data@.len() as nat, size as nat);
                    if out@.len() < n_chunks(data@.len() as nat, size as nat) {
                        assert((out@.len() - 1) * size + size <= (n_chunks(
                            data@.len() as nat,
                            size as nat,
                        ) - 1) * size) by (nonlinear_arith)
                            requires
                                out@.len() <= n_chunks(data@.len() as nat, size as nat) - 1,
                                size > 0,
                        ;
                    }
                }
            }
        }
    }
    proof {
        assert(start == data@.len());
        if out@.len() != n_chunks(data@.len() as nat, size as nat) {
            assert(start == out@.len() * size);
            lemma_n_chunks_bounds(data@.len() as nat, size as nat);
            if data@.len() == 0 {
                assert(0nat % (size as nat) == 0 && 0nat / (size as nat) == 0) by (nonlinear_arith)
                    requires
                        size > 0,
                ;
                assert(n_chunks(0, size as nat) == 0);
                assert(out@.len() == 0) by (nonlinear_arith)
                    requires
                        out@.len() * size == 0,
                        size > 0,
                ;
            } else {
                assert(false) by (nonlinear_arith)
                    requires
                        out@.len() * size == data@.len(),
                        out@.len() < n_chunks(data@.len() as nat, size as nat),
                        (n_chunks(data@.len() as nat, size as nat) - 1) * size < data@.len(),
                        size > 0,
                        out@.len() >= 0,
                ;
            }
        }
        assert(views(out@) =~= chunks_of(data@, size as nat));
    }
    out
}

/// Whether the bytes of `a` equal the bytes of `b`.
pub fn bytes_eq(a: &Vec<u8>, b: &Vec<u8>) -> (r: bool)
    ensures
        r == (a@ == b@),
{
    if a.len() != b.len() {
        assert(a@ != b@);
        return false;
    }
    let mut k: usize = 0;
    while k < a.len()
        invariant
            k <= a.len(),
            a.len() == b.len(),
            forall|i: int| 0 <= i < k ==> a@[i] == b@[i],
        decreases a.len() - k,
    {
        if a[k] != b[k] {
            return false;
        }
        k = k + 1;
    }
    assert(a@ =~= b@);
    true
}

} // verus!
