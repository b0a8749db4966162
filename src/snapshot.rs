use vstd::prelude::*;

use crate::error::StoreError;

verus! {

/// One saved entry: an identity's bytes and its capsule's encoding.
pub type EntryView = (Seq<u8>, Seq<u8>);

/// `n` as eight bytes, least significant first.
pub open spec fn le_bytes(n: u64) -> Seq<u8> {
    seq![
        (n & 0xff) as u8,
        ((n >> 8u64) & 0xff) as u8,
        ((n >> 16u64) & 0xff) as u8,
        ((n >> 24u64) & 0xff) as u8,
        ((n >> 32u64) & 0xff) as u8,
        ((n >> 40u64) & 0xff) as u8,
        ((n >> 48u64) & 0xff) as u8,
        ((n >> 56u64) & 0xff) as u8,
    ]
}

/// The number whose eight little-endian bytes start `b`.
pub open spec fn read_le(b: Seq<u8>) -> u64
    recommends
        b.len() >= 8,
{
    (b[0] as u64) | ((b[1] as u64) << 8u64) | ((b[2] as u64) << 16u64) | ((b[3] as u64) << 24u64)
        | ((b[4] as u64) << 32u64) | ((b[5] as u64) << 40u64) | ((b[6] as u64) << 48u64) | ((
    b[7] as u64) << 56u64)
}

/// A byte string preceded by its length.
pub open spec fn frame(b: Seq<u8>) -> Seq<u8> {
    le_bytes(b.len() as u64) + b
}

/// The snapshot blob: each entry as its framed key followed by its framed value.
pub open spec fn encode_entries(s: Seq<EntryView>) -> Seq<u8>
    decreases s.len(),
{
    if s.len() == 0 {
        Seq::empty()
    } else {
        frame(s[0].0) + frame(s[0].1) + encode_entries(s.drop_first())
    }
}

/// The entries a blob holds, or `None` where it is truncated or its lengths do
/// not add up.
pub open spec fn decode_entries(b: Seq<u8>) -> Option<Seq<EntryView>>
    decreases b.len(),
{
    if b.len() == 0 {
        Some(Seq::empty())
    } else if b.len() < 8 {
        None
    } else {
        let kn = read_le(b) as int;
        if b.len() < 16 + kn {
            None
        } else {
            let vn = read_le(b.subrange(8 + kn, b.len() as int)) as int;
            if b.len() < 16 + kn + vn {
                None
            } else {
                match decode_entries(b.subrange(16 + kn + vn, b.len() as int)) {
                    None => None,
                    Some(rest) => Some(
                        seq![(b.subrange(8, 8 + kn), b.subrange(16 + kn, 16 + kn + vn))] + rest,
                    ),
                }
            }
        }
    }
}

/// Every key and value is short enough for its length to be written.
pub open spec fn lengths_fit(s: Seq<EntryView>) -> bool {
    forall|i: int| 0 <= i < s.len() ==> (#[trigger] s[i]).0.len() <= u64::MAX && s[i].1.len() <= u64::MAX
}

pub open spec fn entries_view(v: Seq<(Vec<u8>, Vec<u8>)>) -> Seq<EntryView> {
    v.map_values(|e: (Vec<u8>, Vec<u8>)| (e.0@, e.1@))
}

proof fn lemma_read_le(n: u64)
    ensures
        read_le(le_bytes(n)) == n,
{
    let b = le_bytes(n);
    let (b0, b1, b2, b3, b4, b5, b6, b7) = (b[0], b[1], b[2], b[3], b[4], b[5], b[6], b[7]);
    assert(b0 == (n & 0xff) as u8 && b1 == ((n >> 8u64) & 0xff) as u8 && b2 == ((n >> 16u64)
        & 0xff) as u8 && b3 == ((n >> 24u64) & 0xff) as u8 && b4 == ((n >> 32u64) & 0xff) as u8
        && b5 == ((n >> 40u64) & 0xff) as u8 && b6 == ((n >> 48u64) & 0xff) as u8 && b7 == ((n
        >> 56u64) & 0xff) as u8);
    assert((b0 == (n & 0xff) as u8 && b1 == ((n >> 8u64) & 0xff) as u8 && b2 == ((n >> 16u64)
        & 0xff) as u8 && b3 == ((n >> 24u64) & 0xff) as u8 && b4 == ((n >> 32u64) & 0xff) as u8
        && b5 == ((n >> 40u64) & 0xff) as u8 && b6 == ((n >> 48u64) & 0xff) as u8 && b7 == ((n
        >> 56u64) & 0xff) as u8) ==> (b0 as u64) | ((b1 as u64) << 8u64) | ((b2 as u64) << 16u64)
        | ((b3 as u64) << 24u64) | ((b4 as u64) << 32u64) | ((b5 as u64) << 40u64) | ((b6 as u64)
        << 48u64) | ((b7 as u64) << 56u64) == n) by (bit_vector);
}

proof fn lemma_read_prefix(b: Seq<u8>, c: Seq<u8>)
    requires
        b.len() >= 8,
        c.len() >= 8,
        forall|i: int| 0 <= i < 8 ==> b[i] == c[i],
    ensures
        read_le(b) == read_le(c),
{
    assert(b[0] == c[0] && b[1] == c[1] && b[2] == c[2] && b[3] == c[3]);
    assert(b[4] == c[4] && b[5] == c[5] && b[6] == c[6] && b[7] == c[7]);
}

/// A blob that starts with a framed key and a framed value decodes to that entry
/// followed by whatever the remaining bytes decode to.
proof fn lemma_decode_step(k: Seq<u8>, v: Seq<u8>, rest: Seq<u8>)
    requires
        k.len() <= u64::MAX,
        v.len() <= u64::MAX,
    ensures
        decode_entries(frame(k) + frame(v) + rest) == after(seq![(k, v)], decode_entries(rest)),
{
    let b = frame(k) + frame(v) + rest;
    let kn = k.len() as int;
    let vn = v.len() as int;
    lemma_read_le(k.len() as u64);
    lemma_read_le(v.len() as u64);
    assert(b.len() == 16 + kn + vn + rest.len());
    assert forall|i: int| 0 <= i < 8 implies b[i] == le_bytes(k.len() as u64)[i] by {
        assert(b[i] == frame(k)[i]);
    }
    lemma_read_prefix(b, le_bytes(k.len() as u64));
    let after_key = b.subrange(8 + kn, b.len() as int);
    assert forall|i: int| 0 <= i < 8 implies after_key[i] == le_bytes(v.len() as u64)[i] by {
        assert(after_key[i] == b[8 + kn + i]);
        assert(b[8 + kn + i] == frame(v)[i]);
    }
    lemma_read_prefix(after_key, le_bytes(v.len() as u64));
    assert(b.subrange(8, 8 + kn) =~= k);
    assert(b.subrange(16 + kn, 16 + kn + vn) =~= v);
    assert(b.subrange(16 + kn + vn, b.len() as int) =~= rest);
    match decode_entries(rest) {
        None => {},
        Some(r) => {},
    }
}

/// A blob is read back as exactly the entries it was written from.
pub proof fn lemma_snapshot_round_trip(s: Seq<EntryView>)
    requires
        lengths_fit(s),
    ensures
        decode_entries(encode_entries(s)) == Some(s),
    decreases s.len(),
{
    if s.len() > 0 {
        let tail = s.drop_first();
        assert(lengths_fit(tail)) by {
            assert forall|i: int| 0 <= i < tail.len() implies (#[trigger] tail[i]).0.len()
                <= u64::MAX && tail[i].1.len() <= u64::MAX by {
                assert(tail[i] == s[i + 1]);
            }
        }
        lemma_snapshot_round_trip(tail);
        assert(s[0].0.len() <= u64::MAX && s[0].1.len() <= u64::MAX);
        lemma_decode_step(s[0].0, s[0].1, encode_entries(tail));
        assert(seq![(s[0].0, s[0].1)] + tail =~= s);
    } else {
        assert(encode_entries(s) =~= Seq::<u8>::empty());
    }
}

fn push_le(out: &mut Vec<u8>, n: u64)
    ensures
        final(out)@ == old(out)@ + le_bytes(n),
{
    out.push((n & 0xff) as u8);
    out.push(((n >> 8u64) & 0xff) as u8);
    out.push(((n >> 16u64) & 0xff) as u8);
    out.push(((n >> 24u64) & 0xff) as u8);
    out.push(((n >> 32u64) & 0xff) as u8);
    out.push(((n >> 40u64) & 0xff) as u8);
    out.push(((n >> 48u64) & 0xff) as u8);
    out.push(((n >> 56u64) & 0xff) as u8);
    assert(final(out)@ =~= old(out)@ + le_bytes(n));
}

fn push_frame(out: &mut Vec<u8>, b: &Vec<u8>)
    ensures
        final(out)@ == old(out)@ + frame(b@),
{
    push_le(out, b.len() as u64);
    let ghost mid = out@;
    let mut i: usize = 0;
    while i < b.len()
        invariant
            i <= b@.len(),
            out@ == mid + b@.subrange(0, i as int),
        decreases b@.len() - i,
    {
        out.push(b[i]);
        assert(out@ =~= mid + b@.subrange(0, i + 1));
        i += 1;
    }
    assert(out@ =~= old(out)@ + frame(b@));
}

proof fn lemma_encode_take(s: Seq<EntryView>, i: int)
    requires
        0 <= i < s.len(),
    ensures
        encode_entries(s.take(i + 1)) == encode_entries(s.take(i)) + frame(s[i].0) + frame(
            s[i].1,
        ),
    decreases i,
{
    if i == 0 {
        assert(s.take(1).drop_first() =~= Seq::<EntryView>::empty());
        assert(encode_entries(s.take(0)) == Seq::<u8>::empty());
        assert(s.take(1)[0] == s[0]);
        assert(encode_entries(Seq::<EntryView>::empty()) == Seq::<u8>::empty());
        assert(encode_entries(s.take(1)) =~= Seq::<u8>::empty() + frame(s[0].0) + frame(s[0].1));
    } else {
        let t = s.drop_first();
        lemma_encode_take(t, i - 1);
        assert(s.take(i + 1).drop_first() =~= t.take(i));
        assert(s.take(i).drop_first() =~= t.take(i - 1));
        assert(t[i - 1] == s[i]);
        assert(encode_entries(s.take(i + 1)) =~= encode_entries(s.take(i)) + frame(s[i].0)
            + frame(s[i].1));
    }
}

/// Writes the snapshot blob of `entries`.
pub fn encode_snapshot(entries: &Vec<(Vec<u8>, Vec<u8>)>) -> (r: Vec<u8>)
    ensures
        r@ == encode_entries(entries_view(entries@)),
{
    let ghost s = entries_view(entries@);
    let mut out: Vec<u8> = Vec::new();
    let mut i: usize = 0;
    while i < entries.len()
        invariant
            i <= entries@.len(),
            s == entries_view(entries@),
            out@ == encode_entries(s.take(i as int)),
        decreases entries@.len() - i,
    {
        proof {
            lemma_encode_take(s, i as int);
        }
        push_frame(&mut out, &entries[i].0);
        push_frame(&mut out, &entries[i].1);
        i += 1;
    }
    assert(s.take(i as int) =~= s);
    out
}

fn read_le_at(b: &Vec<u8>, pos: usize) -> (r: u64)
    requires
        pos + 8 <= b@.len(),
    ensures
        r == read_le(b@.subrange(pos as int, b@.len() as int)),
{
    let n = b.len();
    let ghost t = b@.subrange(pos as int, n as int);
    assert(t[0] == b@[pos as int] && t[1] == b@[pos + 1] && t[2] == b@[pos + 2] && t[3] == b@[pos
        + 3] && t[4] == b@[pos + 4] && t[5] == b@[pos + 5] && t[6] == b@[pos + 6] && t[7]
        == b@[pos + 7]);
    (b[pos] as u64) | ((b[pos + 1] as u64) << 8u64) | ((b[pos + 2] as u64) << 16u64) | ((b[pos
        + 3] as u64) << 24u64) | ((b[pos + 4] as u64) << 32u64) | ((b[pos + 5] as u64) << 40u64)
        | ((b[pos + 6] as u64) << 48u64) | ((b[pos + 7] as u64) << 56u64)
}

fn copy_range(b: &Vec<u8>, from: usize, to: usize) -> (r: Vec<u8>)
    requires
        from <= to <= b@.len(),
    ensures
        r@ == b@.subrange(from as int, to as int),
{
    let mut r: Vec<u8> = Vec::new();
    let mut i: usize = from;
    while i < to
        invariant
            from <= i <= to <= b@.len(),
            r@ == b@.subrange(from as int, i as int),
        decreases to - i,
    {
        r.push(b[i]);
        assert(r@ =~= b@.subrange(from as int, i + 1));
        i += 1;
    }
    r
}

/// What the whole blob decodes to, given that the entries `done` came before
/// the bytes that `rest` decodes.
pub open spec fn after(done: Seq<EntryView>, rest: Option<Seq<EntryView>>) -> Option<Seq<EntryView>> {
    match rest {
        None => None,
        Some(r) => Some(done + r),
    }
}

/// Reads a snapshot blob back into its entries; a truncated blob, or one whose
/// lengths overrun it, is a corrupt record.
pub fn decode_snapshot(b: &Vec<u8>) -> (r: Result<Vec<(Vec<u8>, Vec<u8>)>, StoreError>)
    ensures
        match decode_entries(b@) {
            Some(s) => r is Ok && entries_view(r->Ok_0@) == s,
            None => r == Err::<Vec<(Vec<u8>, Vec<u8>)>, StoreError>(StoreError::CorruptRecord),
        },
{
    let mut out: Vec<(Vec<u8>, Vec<u8>)> = Vec::new();
    let mut pos: usize = 0;
    let n = b.len();
    proof {
        assert(b@.subrange(0, n as int) =~= b@);
        match decode_entries(b@) {
            None => {},
            Some(r) => {
                assert(Seq::<EntryView>::empty() + r =~= r);
            },
        }
    }
    while pos < n
        invariant
            n == b@.len(),
            pos <= n,
            decode_entries(b@) == after(entries_view(out@), decode_entries(b@.subrange(pos as int, n as int))),
        decreases n - pos,
    {
        let ghost rest = b@.subrange(pos as int, n as int);
        if n - pos < 8 {
            return Err(StoreError::CorruptRecord);
        }
        let kn = read_le_at(b, pos);
        if ((n - pos - 8) as u64) < kn || ((n - pos - 8 - kn as usize) as u64) < 8 {
            return Err(StoreError::CorruptRecord);
        }
        let kend = pos + 8 + kn as usize;
        let vn = read_le_at(b, kend);
        proof {
            assert(rest.subrange(8 + kn, rest.len() as int) =~= b@.subrange(kend as int, n as int));
        }
        if ((n - kend - 8) as u64) < vn {
            return Err(StoreError::CorruptRecord);
        }
        let vend = kend + 8 + vn as usize;
        let key = copy_range(b, pos + 8, kend);
        let value = copy_range(b, kend + 8, vend);
        proof {
            assert(rest.subrange(16 + kn + vn, rest.len() as int) =~= b@.subrange(vend as int, n as int));
            assert(rest.subrange(8, 8 + kn) =~= key@);
            assert(rest.subrange(16 + kn, 16 + kn + vn) =~= value@);
        }
        let ghost before = entries_view(out@);
        out.push((key, value));
        proof {
            assert(entries_view(out@) =~= before.push((key@, value@)));
            match decode_entries(b@.subrange(vend as int, n as int)) {
                None => {},
                Some(r) => {
                    assert(before + (seq![(key@, value@)] + r) =~= before.push((key@, value@)) + r);
                },
            }
        }
        pos = vend;
    }
    proof {
        assert(b@.subrange(pos as int, n as int) =~= Seq::<u8>::empty());
        assert(entries_view(out@) + Seq::<EntryView>::empty() =~= entries_view(out@));
    }
    Ok(out)
}

} // verus!
