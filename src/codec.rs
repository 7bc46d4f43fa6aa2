//! Canonical little-endian framing of signed pre-images, and the shares-batch
//! blob format.
use vstd::prelude::*;

verus! {

/// The little-endian byte image of a `u32`.
pub open spec fn u32_le(n: u32) -> Seq<u8> {
    seq![
        (n & 0xff) as u8,
        ((n >> 8u32) & 0xff) as u8,
        ((n >> 16u32) & 0xff) as u8,
        ((n >> 24u32) & 0xff) as u8,
    ]
}

/// The little-endian byte image of a `u64`.
pub open spec fn u64_le(n: u64) -> Seq<u8> {
    seq![
        (n & 0xff) as u8,
        ((n >> 8u64) & 0xff) as u8,
        ((n >> 16u64) & 0xff) as u8,
        ((n >> 24u64) & 0xff) as u8,
        ((n >> 32u64) & 0xff) as u8,
        ((n >> 40u64) & 0xff) as u8,
        ((n >> 48u64) & 0xff) as u8,
        ((n >> 56u64) & 0xff) as u8,
    ]
}

/// One `(c1, d)` pair of a shares batch, each part prefixed by its length.
pub open spec fn pair_blob(c1: Seq<u8>, d: Seq<u8>) -> Seq<u8> {
    u32_le(c1.len() as u32) + c1 + u32_le(d.len() as u32) + d
}

/// The pairs of a shares batch, framed one after the other.
pub open spec fn pairs_blob(s: Seq<(Seq<u8>, Seq<u8>)>) -> Seq<u8>
    decreases s.len(),
{
    if s.len() == 0 {
        Seq::empty()
    } else {
        pairs_blob(s.drop_last()) + pair_blob(s.last().0, s.last().1)
    }
}

/// The stored and signed blob of a shares batch: the pair count, then the pairs.
pub open spec fn shares_blob(s: Seq<(Seq<u8>, Seq<u8>)>) -> Seq<u8> {
    u32_le(s.len() as u32) + pairs_blob(s)
}

/// Every count and length of the batch fits the `u32` framing.
pub open spec fn shares_fit(s: Seq<(Seq<u8>, Seq<u8>)>) -> bool {
    &&& s.len() <= u32::MAX
    &&& forall|i: int| 0 <= i < s.len() ==> (#[trigger] s[i]).0.len() <= u32::MAX && s[i].1.len() <= u32::MAX
}

/// The byte strings of a batch of executable pairs.
pub open spec fn shares_view(v: Seq<(Vec<u8>, Vec<u8>)>) -> Seq<(Seq<u8>, Seq<u8>)> {
    v.map_values(|p: (Vec<u8>, Vec<u8>)| (p.0@, p.1@))
}

/// Appends the little-endian image of `n`.
pub fn push_u32_le(out: &mut Vec<u8>, n: u32)
    ensures
        final(out)@ == old(out)@ + u32_le(n),
{
    out.push((n & 0xff) as u8);
    out.push(((n >> 8u32) & 0xff) as u8);
    out.push(((n >> 16u32) & 0xff) as u8);
    out.push(((n >> 24u32) & 0xff) as u8);
    assert(final(out)@ =~= old(out)@ + u32_le(n));
}

/// Appends the little-endian image of `n`.
pub fn push_u64_le(out: &mut Vec<u8>, n: u64)
    ensures
        final(out)@ == old(out)@ + u64_le(n),
{
    out.push((n & 0xff) as u8);
    out.push(((n >> 8u64) & 0xff) as u8);
    out.push(((n >> 16u64) & 0xff) as u8);
    out.push(((n >> 24u64) & 0xff) as u8);
    out.push(((n >> 32u64) & 0xff) as u8);
    out.push(((n >> 40u64) & 0xff) as u8);
    out.push(((n >> 48u64) & 0xff) as u8);
    out.push(((n >> 56u64) & 0xff) as u8);
    assert(final(out)@ =~= old(out)@ + u64_le(n));
}

/// Appends the bytes of `b`.
pub fn push_bytes(out: &mut Vec<u8>, b: &[u8])
    ensures
        final(out)@ == old(out)@ + b@,
{
    let ghost start = out@;
    let mut i: usize = 0;
    while i < b.len()
        invariant
            i <= b@.len(),
            out@ == start + b@.subrange(0, i as int),
        decreases b@.len() - i,
    {
        out.push(b[i]);
        i = i + 1;
        assert(out@ =~= start + b@.subrange(0, i as int));
    }
    assert(b@.subrange(0, i as int) =~= b@);
}

/// Serialises a shares batch for signing and storage: the pair count, then
/// for each pair the length of `c1`, `c1`, the length of `d`, and `d`, every
/// number as a little-endian `u32`.
pub fn serialise_shares(shares: &Vec<(Vec<u8>, Vec<u8>)>) -> (r: Vec<u8>)
    requires
        shares_fit(shares_view(shares@)),
    ensures
        r@ == shares_blob(shares_view(shares@)),
{
    let ghost s = shares_view(shares@);
    let mut out: Vec<u8> = Vec::new();
    let len = shares.len();
    push_u32_le(&mut out, len as u32);
    let mut i: usize = 0;
    while i < len
        invariant
            len == shares@.len(),
            s == shares_view(shares@),
            shares_fit(s),
            i <= len,
            out@ == u32_le(len as u32) + pairs_blob(s.take(i as int)),
        decreases len - i,
    {
        let c1 = &shares[i].0;
        let d = &shares[i].1;
        assert(s[i as int] == (c1@, d@));
        assert(c1@.len() <= u32::MAX && d@.len() <= u32::MAX);
        push_u32_le(&mut out, c1.len() as u32);
        push_bytes(&mut out, c1.as_slice());
        push_u32_le(&mut out, d.len() as u32);
        push_bytes(&mut out, d.as_slice());
        assert(s.take(i + 1).drop_last() =~= s.take(i as int));
        assert(out@ =~= u32_le(len as u32) + pairs_blob(s.take(i + 1)));
        i = i + 1;
    }
    assert(s.take(len as int) =~= s);
    out
}

} // verus!

verus! {

/// Whether two 32-byte values are equal, compared byte by byte.
pub fn bytes32_eq(a: &[u8; 32], b: &[u8; 32]) -> (r: bool)
    ensures
        r == (*a == *b),
{
    let mut i: usize = 0;
    while i < 32
        invariant
            i <= 32,
            forall|j: int| 0 <= j < i ==> a@[j] == b@[j],
        decreases 32 - i,
    {
        if a[i] != b[i] {
            assert(a@[i as int] != b@[i as int]);
            return false;
        }
        i = i + 1;
    }
    assert(*a =~= *b);
    true
}

} // verus!

verus! {

/// The `u32` whose little-endian image is the four bytes `b`.
pub open spec fn u32_from_le(b: Seq<u8>) -> u32 {
    (b[0] as u32) | ((b[1] as u32) << 8u32) | ((b[2] as u32) << 16u32) | ((b[3] as u32) << 24u32)
}

proof fn lemma_u32_le_decode(n: u32)
    ensures
        u32_from_le(u32_le(n)) == n,
{
    let b = u32_le(n);
    assert(((n & 0xff) as u8) as u32 | ((((n >> 8u32) & 0xff) as u8) as u32) << 8u32
        | ((((n >> 16u32) & 0xff) as u8) as u32) << 16u32 | ((((n >> 24u32) & 0xff) as u8) as u32) << 24u32
        == n) by (bit_vector);
}

proof fn lemma_u32_le_encode(b: Seq<u8>)
    requires
        b.len() == 4,
    ensures
        u32_le(u32_from_le(b)) == b,
{
    let (b0, b1, b2, b3) = (b[0], b[1], b[2], b[3]);
    let n = u32_from_le(b);
    assert((n & 0xff) as u8 == b0 && ((n >> 8u32) & 0xff) as u8 == b1 && ((n >> 16u32) & 0xff) as u8 == b2
        && ((n >> 24u32) & 0xff) as u8 == b3) by (bit_vector)
        requires
            n == (b0 as u32) | ((b1 as u32) << 8u32) | ((b2 as u32) << 16u32) | ((b3 as u32) << 24u32),
    ;
    assert(u32_le(n) =~= b);
}

/// The framing of the first pairs of a batch is a prefix of the framing of
/// the whole batch.
proof fn lemma_pairs_blob_prefix(s: Seq<(Seq<u8>, Seq<u8>)>, j: int)
    requires
        0 <= j <= s.len(),
    ensures
        pairs_blob(s.take(j)).len() <= pairs_blob(s).len(),
        pairs_blob(s).subrange(0, pairs_blob(s.take(j)).len() as int) == pairs_blob(s.take(j)),
    decreases s.len(),
{
    if j == s.len() {
        assert(s.take(j) =~= s);
        assert(pairs_blob(s).subrange(0, pairs_blob(s).len() as int) =~= pairs_blob(s));
    } else {
        assert(s.drop_last().take(j) =~= s.take(j));
        lemma_pairs_blob_prefix(s.drop_last(), j);
        let p = pairs_blob(s.take(j));
        let a = pairs_blob(s.drop_last());
        assert(pairs_blob(s) == a + pair_blob(s.last().0, s.last().1));
        assert(pairs_blob(s).subrange(0, p.len() as int) =~= a.subrange(0, p.len() as int));
    }
}

/// Where the pairs before position `k` end in a blob, the framing of pair
/// `k` follows.
proof fn lemma_pair_at(s: Seq<(Seq<u8>, Seq<u8>)>, k: int, blob: Seq<u8>, pos: int)
    requires
        shares_fit(s),
        shares_blob(s) == blob,
        0 <= k < s.len(),
        pos == 4 + pairs_blob(s.take(k)).len(),
    ensures
        ({
            let x = s[k].0;
            let y = s[k].1;
            &&& pos + 8 + x.len() + y.len() <= blob.len()
            &&& blob.subrange(pos, pos + 4) == u32_le(x.len() as u32)
            &&& blob.subrange(pos, pos + 4 + x.len()) == u32_le(x.len() as u32) + x
            &&& blob.subrange(pos + 4 + x.len(), pos + 8 + x.len()) == u32_le(y.len() as u32)
            &&& blob.subrange(pos + 4 + x.len(), pos + 8 + x.len() + y.len()) == u32_le(y.len() as u32) + y
        }),
{
    let x = s[k].0;
    let y = s[k].1;
    lemma_pairs_blob_prefix(s, k + 1);
    assert(s.take(k + 1).drop_last() =~= s.take(k));
    assert(s.take(k + 1).last() == s[k]);
    let p = pairs_blob(s.take(k));
    let pb = pair_blob(x, y);
    let q = pairs_blob(s.take(k + 1));
    assert(q == p + pb);
    let whole = pairs_blob(s);
    assert(blob == u32_le(s.len() as u32) + whole);
    assert(whole.subrange(0, q.len() as int) == q);
    assert forall|i: int| 0 <= i < pb.len() implies blob[pos + i] == pb[i] by {
        assert(blob[pos + i] == whole[p.len() + i]);
        assert(whole[p.len() + i] == q[p.len() + i]);
    }
    assert(x.len() <= u32::MAX && y.len() <= u32::MAX);
    assert(pb.len() == 8 + x.len() + y.len());
    assert(pb.subrange(0, 4 + x.len() as int) =~= u32_le(x.len() as u32) + x);
    assert(blob.subrange(pos, pos + 4 + x.len()) =~= pb.subrange(0, 4 + x.len() as int));
    assert(blob.subrange(pos, pos + 4) =~= (u32_le(x.len() as u32) + x).subrange(0, 4));
    assert((u32_le(x.len() as u32) + x).subrange(0, 4) =~= u32_le(x.len() as u32));
    assert(pb.subrange(4 + x.len() as int, 8 + x.len() + y.len() as int) =~= u32_le(y.len() as u32) + y);
    assert(blob.subrange(pos + 4 + x.len(), pos + 8 + x.len() + y.len()) =~= pb.subrange(4 + x.len() as int, 8 + x.len() + y.len() as int));
    assert(blob.subrange(pos + 4 + x.len(), pos + 8 + x.len()) =~= (u32_le(y.len() as u32) + y).subrange(0, 4));
    assert((u32_le(y.len() as u32) + y).subrange(0, 4) =~= u32_le(y.len() as u32));
}

/// Two fitting batches with the same blob that agree on their first `k`
/// pairs agree on all of them.
proof fn lemma_same_blob_from(s: Seq<(Seq<u8>, Seq<u8>)>, t: Seq<(Seq<u8>, Seq<u8>)>, k: int)
    requires
        0 <= k <= s.len(),
        s.len() == t.len(),
        shares_fit(s),
        shares_fit(t),
        shares_blob(s) == shares_blob(t),
        s.take(k) == t.take(k),
    ensures
        s == t,
    decreases s.len() - k,
{
    if k == s.len() {
        assert(s.take(k) =~= s);
        assert(t.take(k) =~= t);
    } else {
        let blob = shares_blob(s);
        let pos: int = 4 + pairs_blob(s.take(k)).len() as int;
        lemma_pair_at(s, k, blob, pos);
        lemma_pair_at(t, k, blob, pos);
        let (x, y) = (s[k].0, s[k].1);
        let (x2, y2) = (t[k].0, t[k].1);
        lemma_u32_le_decode(x.len() as u32);
        lemma_u32_le_decode(x2.len() as u32);
        assert(x.len() == x2.len());
        assert(x =~= (u32_le(x.len() as u32) + x).subrange(4, 4 + x.len() as int));
        assert(x2 =~= (u32_le(x2.len() as u32) + x2).subrange(4, 4 + x2.len() as int));
        lemma_u32_le_decode(y.len() as u32);
        lemma_u32_le_decode(y2.len() as u32);
        assert(y.len() == y2.len());
        assert(y =~= (u32_le(y.len() as u32) + y).subrange(4, 4 + y.len() as int));
        assert(y2 =~= (u32_le(y2.len() as u32) + y2).subrange(4, 4 + y2.len() as int));
        assert(s.take(k + 1) =~= s.take(k).push(s[k]));
        assert(t.take(k + 1) =~= t.take(k).push(t[k]));
        lemma_same_blob_from(s, t, k + 1);
    }
}

/// A shares batch is determined by its blob: two batches that fit the framing
/// and serialise to the same bytes are the same batch. With the contracts of
/// [`serialise_shares`] and [`parse_shares`] this makes serialising a parsed
/// blob give the blob back, and parsing a serialised batch give the batch back.
pub proof fn lemma_shares_blob_injective(s: Seq<(Seq<u8>, Seq<u8>)>, t: Seq<(Seq<u8>, Seq<u8>)>)
    requires
        shares_fit(s),
        shares_fit(t),
        shares_blob(s) == shares_blob(t),
    ensures
        s == t,
{
    let blob = shares_blob(s);
    assert(blob.subrange(0, 4) =~= u32_le(s.len() as u32));
    assert(blob.subrange(0, 4) =~= u32_le(t.len() as u32));
    lemma_u32_le_decode(s.len() as u32);
    lemma_u32_le_decode(t.len() as u32);
    assert(s.len() == t.len());
    assert(s.take(0) =~= t.take(0));
    lemma_same_blob_from(s, t, 0);
}

/// Reads a little-endian `u32` at `pos`.
fn read_u32_le(b: &[u8], pos: usize) -> (r: u32)
    requires
        pos + 4 <= b@.len(),
    ensures
        r == u32_from_le(b@.subrange(pos as int, pos + 4)),
{
    (b[pos] as u32) | ((b[pos + 1] as u32) << 8u32) | ((b[pos + 2] as u32) << 16u32) | ((b[pos + 3] as u32) << 24u32)
}

/// A copy of `b[start..end]`.
fn copy_range(b: &[u8], start: usize, end: usize) -> (r: Vec<u8>)
    requires
        start <= end <= b@.len(),
    ensures
        r@ == b@.subrange(start as int, end as int),
{
    let mut out: Vec<u8> = Vec::new();
    let mut i: usize = start;
    while i < end
        invariant
            start <= i <= end,
            end <= b@.len(),
            out@ == b@.subrange(start as int, i as int),
        decreases end - i,
    {
        out.push(b[i]);
        i = i + 1;
        assert(out@ =~= b@.subrange(start as int, i as int));
    }
    out
}

/// Reads a length-prefixed byte string at `pos`: its bytes and the position
/// after it, or `None` when the blob is too short.
fn read_framed(b: &[u8], pos: usize) -> (r: Option<(Vec<u8>, usize)>)
    requires
        pos <= b@.len(),
    ensures
        match r {
            Some((v, next)) => {
                &&& pos + 4 + v@.len() == next <= b@.len()
                &&& b@.subrange(pos as int, next as int) == u32_le(v@.len() as u32) + v@
                &&& v@.len() <= u32::MAX
            },
            None => forall|x: Seq<u8>| x.len() <= u32::MAX && pos + 4 + x.len() <= b@.len()
                ==> #[trigger] b@.subrange(pos as int, pos + 4 + x.len()) != u32_le(x.len() as u32) + x,
        },
{
    if b.len() - pos < 4 {
        return None;
    }
    let n = read_u32_le(b, pos);
    let start = pos + 4;
    if (n as usize) > b.len() - start {
        proof {
            assert forall|x: Seq<u8>| x.len() <= u32::MAX && pos + 4 + x.len() <= b@.len()
                implies #[trigger] b@.subrange(pos as int, pos + 4 + x.len()) != u32_le(x.len() as u32) + x by {
                if b@.subrange(pos as int, pos + 4 + x.len()) == u32_le(x.len() as u32) + x {
                    assert(b@.subrange(pos as int, pos + 4) =~= u32_le(x.len() as u32));
                    lemma_u32_le_decode(x.len() as u32);
                }
            }
        }
        return None;
    }
    let end = start + n as usize;
    let v = copy_range(b, start, end);
    proof {
        lemma_u32_le_encode(b@.subrange(pos as int, pos + 4));
        assert(b@.subrange(pos as int, end as int) =~= b@.subrange(pos as int, pos + 4) + v@);
    }
    Some((v, end))
}

/// Parses a shares blob back into its `(c1, d)` pairs: `None` unless the
/// blob is exactly the serialisation of some batch.
pub fn parse_shares(blob: &[u8]) -> (r: Option<Vec<(Vec<u8>, Vec<u8>)>>)
    ensures
        r is Some ==> shares_fit(shares_view(r->0@)) && shares_blob(shares_view(r->0@)) == blob@,
        forall|s: Seq<(Seq<u8>, Seq<u8>)>| shares_fit(s) && #[trigger] shares_blob(s) == blob@
            ==> r is Some && shares_view(r->0@) == s,
{
    if blob.len() < 4 {
        return None;
    }
    let count = read_u32_le(blob, 0);
    let mut out: Vec<(Vec<u8>, Vec<u8>)> = Vec::new();
    let mut pos: usize = 4;
    let mut k: u32 = 0;
    proof {
        lemma_u32_le_encode(blob@.subrange(0, 4));
        assert forall|s: Seq<(Seq<u8>, Seq<u8>)>| shares_fit(s) && #[trigger] shares_blob(s) == blob@
            implies s.len() == count by {
            assert(blob@.subrange(0, 4) =~= u32_le(s.len() as u32));
            lemma_u32_le_decode(s.len() as u32);
        }
        assert(shares_view(out@).take(0) =~= shares_view(out@));
    }
    while k < count
        invariant
            k <= count,
            4 <= pos <= blob@.len(),
            out@.len() == k,
            u32_from_le(blob@.subrange(0, 4)) == count,
            u32_le(count) == blob@.subrange(0, 4),
            blob@.subrange(0, pos as int) == u32_le(count) + pairs_blob(shares_view(out@)),
            forall|i: int| 0 <= i < out@.len() ==> (#[trigger] out@[i]).0@.len() <= u32::MAX && out@[i].1@.len() <= u32::MAX,
            forall|s: Seq<(Seq<u8>, Seq<u8>)>| shares_fit(s) && #[trigger] shares_blob(s) == blob@
                ==> s.len() == count && shares_view(out@) == s.take(k as int),
        decreases count - k,
    {
        let ghost before = shares_view(out@);
        let first = read_framed(blob, pos);
        let (c1, mid) = match first {
            Some(x) => x,
            None => {
                proof {
                    assert forall|s: Seq<(Seq<u8>, Seq<u8>)>| shares_fit(s) && #[trigger] shares_blob(s) == blob@ implies false by {
                        assert(shares_view(out@) == s.take(k as int));
                        assert(blob@.subrange(0, pos as int).len() == pos);
                        assert(before == s.take(k as int));
                assert(blob@.subrange(0, pos as int).len() == pos);
                lemma_pair_at(s, k as int, blob@, pos as int);
                        let x = s[k as int].0;
                        assert(x.len() <= u32::MAX);
                        assert(blob@.subrange(pos as int, pos + 4 + x.len()) == u32_le(x.len() as u32) + x);
                    }
                }
                return None;
            },
        };
        let second = read_framed(blob, mid);
        let (d, next) = match second {
            Some(x) => x,
            None => {
                proof {
                    assert forall|s: Seq<(Seq<u8>, Seq<u8>)>| shares_fit(s) && #[trigger] shares_blob(s) == blob@ implies false by {
                        assert(shares_view(out@) == s.take(k as int));
                        assert(blob@.subrange(0, pos as int).len() == pos);
                        assert(before == s.take(k as int));
                assert(blob@.subrange(0, pos as int).len() == pos);
                lemma_pair_at(s, k as int, blob@, pos as int);
                        let x = s[k as int].0;
                        let y = s[k as int].1;
                        assert(x.len() <= u32::MAX && y.len() <= u32::MAX);
                        assert(blob@.subrange(pos as int, pos + 4) =~= u32_le(c1@.len() as u32));
                        lemma_u32_le_decode(x.len() as u32);
                        lemma_u32_le_decode(c1@.len() as u32);
                        assert(mid == pos + 4 + x.len());
                        assert(blob@.subrange(mid as int, mid + 4 + y.len()) == u32_le(y.len() as u32) + y);
                    }
                }
                return None;
            },
        };
        let ghost pair = (c1@, d@);
        out.push((c1, d));
        proof {
            assert(shares_view(out@) =~= before.push(pair));
            assert(shares_view(out@).drop_last() =~= before);
            assert(blob@.subrange(0, next as int) =~= blob@.subrange(0, pos as int)
                + blob@.subrange(pos as int, mid as int) + blob@.subrange(mid as int, next as int));
            assert forall|s: Seq<(Seq<u8>, Seq<u8>)>| shares_fit(s) && #[trigger] shares_blob(s) == blob@
                implies s.len() == count && shares_view(out@) == s.take(k + 1) by {
                assert(before == s.take(k as int));
                assert(blob@.subrange(0, pos as int).len() == pos);
                lemma_pair_at(s, k as int, blob@, pos as int);
                assert(s.take(k + 1).drop_last() =~= s.take(k as int));
                assert(s.take(k + 1).last() == s[k as int]);
                let x = s[k as int].0;
                let y = s[k as int].1;
                assert(x.len() <= u32::MAX && y.len() <= u32::MAX);
                assert(blob@.subrange(pos as int, pos + 4) =~= u32_le(c1@.len() as u32));
                lemma_u32_le_decode(x.len() as u32);
                lemma_u32_le_decode(c1@.len() as u32);
                assert(c1@.len() == x.len());
                assert(blob@.subrange(pos as int, mid as int) == u32_le(x.len() as u32) + x);
                assert(c1@ =~= (u32_le(c1@.len() as u32) + c1@).subrange(4, 4 + c1@.len() as int));
                assert(x =~= (u32_le(x.len() as u32) + x).subrange(4, 4 + x.len() as int));
                assert(c1@ =~= x);
                assert(blob@.subrange(mid as int, mid + 4) =~= u32_le(y.len() as u32));
                assert(blob@.subrange(mid as int, mid + 4) =~= u32_le(d@.len() as u32));
                lemma_u32_le_decode(y.len() as u32);
                lemma_u32_le_decode(d@.len() as u32);
                assert(d@.len() == y.len());
                assert(blob@.subrange(mid as int, next as int) == u32_le(y.len() as u32) + y);
                assert(d@ =~= (u32_le(d@.len() as u32) + d@).subrange(4, 4 + d@.len() as int));
                assert(y =~= (u32_le(y.len() as u32) + y).subrange(4, 4 + y.len() as int));
                assert(d@ =~= y);
                assert(s.take(k + 1) =~= s.take(k as int).push((x, y)));
                assert(shares_view(out@) =~= s.take(k + 1));
            }
        }
        pos = next;
        k = k + 1;
    }
    if pos != blob.len() {
        proof {
            assert forall|s: Seq<(Seq<u8>, Seq<u8>)>| shares_fit(s) && #[trigger] shares_blob(s) == blob@ implies false by {
                assert(s.take(count as int) =~= s);
            }
        }
        return None;
    }
    proof {
        assert(blob@.subrange(0, pos as int) =~= blob@);
        assert forall|s: Seq<(Seq<u8>, Seq<u8>)>| shares_fit(s) && #[trigger] shares_blob(s) == blob@
            implies shares_view(out@) == s by {
            assert(s.take(count as int) =~= s);
        }
    }
    Some(out)
}

} // verus!
