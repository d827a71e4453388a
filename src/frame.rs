use vstd::prelude::*;

verus! {

/// `n` as four bytes, most significant first.
#[verifier::opaque]
pub open spec fn be32(n: u32) -> Seq<u8> {
    seq![(n >> 24u32) as u8, (n >> 16u32) as u8, (n >> 8u32) as u8, n as u8]
}

/// The number that four bytes, most significant first, stand for.
#[verifier::opaque]
pub open spec fn read_be32(b0: u8, b1: u8, b2: u8, b3: u8) -> u32 {
    ((b0 as u32) << 24u32) | ((b1 as u32) << 16u32) | ((b2 as u32) << 8u32) | (b3 as u32)
}

/// Each field fits a four-byte length.
pub open spec fn fields_fit(fields: Seq<Seq<u8>>) -> bool {
    forall|i: int| 0 <= i < fields.len() ==> #[trigger] fields[i].len() <= u32::MAX
}

/// The fields one after another, each preceded by its length in four bytes.
pub open spec fn framed(fields: Seq<Seq<u8>>) -> Seq<u8>
    decreases fields.len(),
{
    if fields.len() == 0 {
        seq![]
    } else {
        be32(fields[0].len() as u32) + fields[0] + framed(fields.skip(1))
    }
}

/// The fields that `b` frames, or `None` where it is cut short.
pub open spec fn unframed(b: Seq<u8>) -> Option<Seq<Seq<u8>>>
    decreases b.len(),
{
    if b.len() == 0 {
        Some(seq![])
    } else if b.len() < 4 {
        None
    } else {
        let n = read_be32(b[0], b[1], b[2], b[3]) as int;
        if 4 + n > b.len() {
            None
        } else {
            match unframed(b.skip(4 + n)) {
                Some(rest) => Some(seq![b.subrange(4, 4 + n)] + rest),
                None => None,
            }
        }
    }
}

proof fn lemma_be32_round_trip(n: u32)
    ensures
        be32(n).len() == 4,
        read_be32(be32(n)[0], be32(n)[1], be32(n)[2], be32(n)[3]) == n,
{
    reveal(be32);
    reveal(read_be32);
    let b0 = (n >> 24u32) as u8;
    let b1 = (n >> 16u32) as u8;
    let b2 = (n >> 8u32) as u8;
    let b3 = n as u8;
    assert(((b0 as u32) << 24u32) | ((b1 as u32) << 16u32) | ((b2 as u32) << 8u32) | (b3 as u32)
        == n) by (bit_vector)
        requires
            b0 == (n >> 24u32) as u8,
            b1 == (n >> 16u32) as u8,
            b2 == (n >> 8u32) as u8,
            b3 == n as u8,
    ;
}

/// Framing fields and reading them back gives the same fields.
pub proof fn lemma_frame_round_trip(fields: Seq<Seq<u8>>)
    requires
        fields_fit(fields),
    ensures
        unframed(framed(fields)) == Some(fields),
    decreases fields.len(),
{
    if fields.len() > 0 {
        let f = fields[0];
        let rest = fields.skip(1);
        assert(fields_fit(rest)) by {
            assert forall|i: int| 0 <= i < rest.len() implies #[trigger] rest[i].len()
                <= u32::MAX by {
                assert(rest[i] == fields[i + 1]);
            }
        }
        lemma_frame_round_trip(rest);
        let n = f.len() as u32;
        let head = be32(n);
        let b = framed(fields);
        let tail = framed(rest);
        assert(b == head + f + tail);
        lemma_be32_round_trip(n);
        assert(b[0] == head[0] && b[1] == head[1] && b[2] == head[2] && b[3] == head[3]);
        let k = 4 + f.len() as int;
        assert(b.len() == k + tail.len());
        assert(read_be32(b[0], b[1], b[2], b[3]) as int == f.len());
        assert(b.skip(k) =~= tail);
        assert(b.subrange(4, k) =~= f);
        assert(unframed(b) == Some(seq![b.subrange(4, k)] + unframed(tail).unwrap()));
        assert(seq![f] + rest =~= fields);
    } else {
        assert(fields =~= Seq::<Seq<u8>>::empty());
    }
}

pub open spec fn byte_views(v: Seq<Vec<u8>>) -> Seq<Seq<u8>> {
    v.map_values(|f: Vec<u8>| f@)
}

fn push_be32(out: &mut Vec<u8>, n: u32)
    ensures
        final(out)@ == old(out)@ + be32(n),
{
    reveal(be32);
    out.push((n >> 24u32) as u8);
    out.push((n >> 16u32) as u8);
    out.push((n >> 8u32) as u8);
    out.push(n as u8);
    assert(final(out)@ =~= old(out)@ + be32(n));
}

fn push_bytes(out: &mut Vec<u8>, b: &Vec<u8>, from: usize, to: usize)
    requires
        from <= to <= b@.len(),
    ensures
        final(out)@ == old(out)@ + b@.subrange(from as int, to as int),
{
    let mut i: usize = from;
    while i < to
        invariant
            from <= i <= to <= b@.len(),
            out@ == old(out)@ + b@.subrange(from as int, i as int),
        decreases to - i,
    {
        out.push(b[i]);
        i += 1;
        assert(out@ =~= old(out)@ + b@.subrange(from as int, i as int));
    }
}

/// Writes each field preceded by its length, so that fields of any length and
/// content can be told apart again.
pub fn encode_fields(fields: &Vec<Vec<u8>>) -> (r: Vec<u8>)
    requires
        fields_fit(byte_views(fields@)),
    ensures
        r@ == framed(byte_views(fields@)),
{
    let ghost all = byte_views(fields@);
    let mut out: Vec<u8> = Vec::new();
    let mut i: usize = 0;
    assert(all.skip(0) =~= all);
    while i < fields.len()
        invariant
            i <= fields@.len(),
            all == byte_views(fields@),
            fields_fit(all),
            out@ + framed(all.skip(i as int)) == framed(all),
        decreases fields@.len() - i,
    {
        let f = &fields[i];
        let ghost before = out@;
        assert(all[i as int] == f@);
        assert(f@.len() <= u32::MAX);
        push_be32(&mut out, f.len() as u32);
        push_bytes(&mut out, f, 0, f.len());
        proof {
            let s = all.skip(i as int);
            assert(s[0] == f@);
            assert(s.skip(1) =~= all.skip(i + 1));
            assert(f@.subrange(0, f@.len() as int) =~= f@);
            assert(framed(s) == be32(f@.len() as u32) + f@ + framed(all.skip(i + 1)));
            assert(out@ + framed(all.skip(i + 1)) =~= before + framed(s));
        }
        i += 1;
    }
    assert(all.skip(fields@.len() as int) =~= Seq::<Seq<u8>>::empty());
    assert(out@ + Seq::<u8>::empty() =~= out@);
    out
}

/// Reads back the fields of `bytes`; `None` where the bytes are cut short.
pub fn decode_fields(bytes: &Vec<u8>) -> (r: Option<Vec<Vec<u8>>>)
    ensures
        match r {
            Some(v) => unframed(bytes@) == Some(byte_views(v@)),
            None => unframed(bytes@) is None,
        },
{
    let ghost b = bytes@;
    let mut out: Vec<Vec<u8>> = Vec::new();
    let mut pos: usize = 0;
    assert(b.skip(0) =~= b);
    loop
        invariant
            pos <= b.len(),
            b == bytes@,
            unframed(b) == match unframed(b.skip(pos as int)) {
                Some(rest) => Some(byte_views(out@) + rest),
                None => None,
            },
        decreases b.len() - pos,
    {
        let ghost remaining = b.skip(pos as int);
        let left = bytes.len() - pos;
        if left == 0 {
            assert(byte_views(out@) + Seq::<Seq<u8>>::empty() =~= byte_views(out@));
            return Some(out);
        }
        if left < 4 {
            return None;
        }
        let n = read_len(bytes, pos);
        assert(n == read_be32(remaining[0], remaining[1], remaining[2], remaining[3]));
        if n as usize > left - 4 {
            return None;
        }
        let end = pos + 4 + n as usize;
        let mut field: Vec<u8> = Vec::new();
        push_bytes(&mut field, bytes, pos + 4, end);
        proof {
            assert(remaining.subrange(4, 4 + n as int) =~= field@);
            assert(remaining.skip(4 + n as int) =~= b.skip(end as int));
            let ghost before = out@;
            assert(byte_views(before.push(field)) =~= byte_views(before).push(field@));
            match unframed(b.skip(end as int)) {
                Some(rest) => {
                    assert(byte_views(before) + (seq![field@] + rest) =~= byte_views(before).push(
                        field@,
                    ) + rest);
                },
                None => {},
            }
        }
        out.push(field);
        pos = end;
    }
}

/// The four bytes at `pos`, read most significant first.
fn read_len(bytes: &Vec<u8>, pos: usize) -> (n: u32)
    requires
        pos + 4 <= bytes@.len(),
    ensures
        n == read_be32(bytes@[pos as int], bytes@[pos + 1], bytes@[pos + 2], bytes@[pos + 3]),
{
    reveal(read_be32);
    let len = bytes.len();
    assert(pos + 4 <= len);
    ((bytes[pos] as u32) << 24u32) | ((bytes[pos + 1] as u32) << 16u32) | ((bytes[pos + 2] as u32)
        << 8u32) | (bytes[pos + 3] as u32)
}

} // verus!
