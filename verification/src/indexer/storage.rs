//! The binary format of stored embeddings: for each vector, its dimension as
//! a 4-byte little-endian integer, then each component as 4 little-endian
//! bytes. Components are handled as their 32-bit patterns (`f32::to_bits`).

use vstd::prelude::*;
use vstd::bytes::{
    lemma_auto_spec_u32_to_from_le_bytes, spec_u32_from_le_bytes, spec_u32_to_le_bytes,
    u32_from_le_bytes, u32_to_le_bytes,
};
use vstd::slice::slice_subrange;

verus! {

/// The components of `v`, 4 bytes each.
pub open spec fn encode_words(v: Seq<u32>) -> Seq<u8>
    decreases v.len(),
{
    if v.len() == 0 {
        Seq::empty()
    } else {
        encode_words(v.drop_last()) + spec_u32_to_le_bytes(v.last())
    }
}

/// One stored vector: its dimension, then its components.
pub open spec fn encode_vector(v: Seq<u32>) -> Seq<u8> {
    spec_u32_to_le_bytes(v.len() as u32) + encode_words(v)
}

/// The stored form of the vectors `e`, one after the other.
pub open spec fn encode_all(e: Seq<Seq<u32>>) -> Seq<u8>
    decreases e.len(),
{
    if e.len() == 0 {
        Seq::empty()
    } else {
        encode_vector(e[0]) + encode_all(e.drop_first())
    }
}

/// The 4-byte words of `b`, in order.
pub open spec fn decode_words(b: Seq<u8>) -> Seq<u32> {
    Seq::new(b.len() / 4, |i: int| spec_u32_from_le_bytes(b.subrange(4 * i, 4 * i + 4)))
}

/// The vectors stored in `b`, or None when `b` does not end exactly after a
/// whole vector (a dimension or a component runs past the end).
pub open spec fn decode_all(b: Seq<u8>) -> Option<Seq<Seq<u32>>>
    decreases b.len(),
{
    if b.len() == 0 {
        Some(Seq::empty())
    } else if b.len() < 4 {
        None
    } else {
        let dim = spec_u32_from_le_bytes(b.take(4)) as int;
        let need = 4 + 4 * dim;
        if b.len() < need {
            None
        } else {
            match decode_all(b.skip(need)) {
                Some(rest) => Some(seq![decode_words(b.subrange(4, need))] + rest),
                None => None,
            }
        }
    }
}

/// The components of each vector of `e`.
pub open spec fn vector_views(e: Seq<Vec<u32>>) -> Seq<Seq<u32>> {
    e.map_values(|v: Vec<u32>| v@)
}

/// Every vector's length fits the 4-byte dimension field.
pub open spec fn dims_fit(e: Seq<Seq<u32>>) -> bool {
    forall|i: int| 0 <= i < e.len() ==> #[trigger] e[i].len() <= u32::MAX
}

proof fn lemma_encode_words(v: Seq<u32>)
    ensures
        encode_words(v).len() == 4 * v.len(),
        forall|i: int|
            0 <= i < v.len() ==> #[trigger] encode_words(v).subrange(4 * i, 4 * i + 4)
                == spec_u32_to_le_bytes(v[i]),
    decreases v.len(),
{
    lemma_auto_spec_u32_to_from_le_bytes();
    if v.len() > 0 {
        let p = v.drop_last();
        lemma_encode_words(p);
        let b = encode_words(v);
        assert forall|i: int| 0 <= i < v.len() implies #[trigger] b.subrange(4 * i, 4 * i + 4)
            == spec_u32_to_le_bytes(v[i]) by {
            if i < p.len() {
                assert(b.subrange(4 * i, 4 * i + 4) == encode_words(p).subrange(4 * i, 4 * i + 4));
                assert(p[i] == v[i]);
            } else {
                assert(b.subrange(4 * i, 4 * i + 4) == spec_u32_to_le_bytes(v.last()));
            }
        }
    }
}

proof fn lemma_words_roundtrip(v: Seq<u32>)
    ensures
        decode_words(encode_words(v)) == v,
{
    lemma_auto_spec_u32_to_from_le_bytes();
    lemma_encode_words(v);
    let d = decode_words(encode_words(v));
    assert forall|i: int| 0 <= i < v.len() implies d[i] == v[i] by {
        assert(encode_words(v).subrange(4 * i, 4 * i + 4) == spec_u32_to_le_bytes(v[i]));
    }
    assert(d =~= v);
}

proof fn lemma_bytes_roundtrip(b: Seq<u8>)
    requires
        b.len() % 4 == 0,
    ensures
        encode_words(decode_words(b)) == b,
    decreases b.len(),
{
    lemma_auto_spec_u32_to_from_le_bytes();
    if b.len() > 0 {
        let front = b.take(b.len() - 4);
        lemma_bytes_roundtrip(front);
        let d = decode_words(b);
        assert(d.drop_last() =~= decode_words(front)) by {
            assert forall|i: int| 0 <= i < d.len() - 1 implies d[i] == decode_words(front)[i] by {
                assert(b.subrange(4 * i, 4 * i + 4) == front.subrange(4 * i, 4 * i + 4));
            }
        }
        let last = b.subrange(b.len() - 4, b.len() as int);
        assert(d.last() == spec_u32_from_le_bytes(last));
        assert(spec_u32_to_le_bytes(spec_u32_from_le_bytes(last)) == last);
        assert(b =~= front + last);
    }
}

proof fn lemma_encode_all_push(e: Seq<Seq<u32>>, v: Seq<u32>)
    ensures
        encode_all(e.push(v)) == encode_all(e) + encode_vector(v),
    decreases e.len(),
{
    if e.len() == 0 {
        assert(e.push(v).drop_first() =~= Seq::<Seq<u32>>::empty());
        assert(e.push(v)[0] == v);
        assert(encode_all(e.push(v).drop_first()) == Seq::<u8>::empty());
        assert(encode_all(e.push(v)) =~= encode_vector(v));
    } else {
        lemma_encode_all_push(e.drop_first(), v);
        assert(e.push(v).drop_first() =~= e.drop_first().push(v));
        assert(encode_all(e.push(v)) =~= encode_all(e) + encode_vector(v));
    }
}

/// The stored form, vector by vector: nothing is stored for no vectors, and
/// storing one more vector `v` appends its length as 4 little-endian bytes
/// (the length truncated to 32 bits), then each component as 4 little-endian
/// bytes, in order.
pub proof fn lemma_stored_layout(e: Seq<Seq<u32>>, v: Seq<u32>)
    ensures
        encode_all(Seq::empty()).len() == 0,
        ({
            let b = encode_all(e.push(v));
            let o = encode_all(e).len() as int;
            &&& b.len() == o + 4 + 4 * v.len()
            &&& b.subrange(0, o) == encode_all(e)
            &&& b.subrange(o, o + 4) == spec_u32_to_le_bytes(v.len() as u32)
            &&& forall|i: int|
                0 <= i < v.len() ==> #[trigger] b.subrange(o + 4 + 4 * i, o + 8 + 4 * i)
                    == spec_u32_to_le_bytes(v[i])
        }),
{
    lemma_auto_spec_u32_to_from_le_bytes();
    lemma_encode_all_push(e, v);
    lemma_encode_words(v);
    let b = encode_all(e.push(v));
    let a = encode_all(e);
    let o = a.len() as int;
    let w = encode_words(v);
    let d = spec_u32_to_le_bytes(v.len() as u32);
    assert(b =~= a + d + w);
    assert(b.subrange(0, o) =~= a);
    assert(b.subrange(o, o + 4) =~= d);
    assert forall|i: int| 0 <= i < v.len() implies #[trigger] b.subrange(o + 4 + 4 * i, o + 8 + 4 * i)
        == spec_u32_to_le_bytes(v[i]) by {
        assert(b.subrange(o + 4 + 4 * i, o + 8 + 4 * i) =~= w.subrange(4 * i, 4 * i + 4));
    }
}

/// Reading back what was written gives the same vectors, as long as every
/// vector's length fits the 4-byte dimension field.
#[verifier::rlimit(30)]
pub proof fn lemma_decode_encode(e: Seq<Seq<u32>>)
    requires
        dims_fit(e),
    ensures
        decode_all(encode_all(e)) == Some(e),
    decreases e.len(),
{
    lemma_auto_spec_u32_to_from_le_bytes();
    if e.len() > 0 {
        let v = e[0];
        let rest = e.drop_first();
        assert(dims_fit(rest)) by {
            assert forall|i: int| 0 <= i < rest.len() implies #[trigger] rest[i].len()
                <= u32::MAX by {
                assert(rest[i] == e[i + 1]);
            }
        }
        lemma_decode_encode(rest);
        lemma_encode_words(v);
        lemma_words_roundtrip(v);
        let b = encode_all(e);
        let head = spec_u32_to_le_bytes(v.len() as u32);
        assert(v.len() <= u32::MAX);
        assert((v.len() as u32) as int == v.len());
        assert(b.take(4) =~= head);
        let need = 4 + 4 * v.len() as int;
        assert(b.subrange(4, need) =~= encode_words(v));
        assert(b.skip(need) =~= encode_all(rest));
        assert(seq![v] + rest =~= e);
    }
}

/// Writing out what was read gives the same bytes.
#[verifier::rlimit(30)]
pub proof fn lemma_encode_decode(b: Seq<u8>)
    requires
        decode_all(b) is Some,
    ensures
        encode_all(decode_all(b).unwrap()) == b,
    decreases b.len(),
{
    lemma_auto_spec_u32_to_from_le_bytes();
    if b.len() > 0 {
        let dim = spec_u32_from_le_bytes(b.take(4)) as int;
        let need = 4 + 4 * dim;
        let tail = b.skip(need);
        lemma_encode_decode(tail);
        let e = decode_all(b).unwrap();
        let rest = decode_all(tail).unwrap();
        let words = b.subrange(4, need);
        lemma_bytes_roundtrip(words);
        assert(e[0] == decode_words(words));
        assert(e.drop_first() =~= rest);
        assert(decode_words(words).len() == dim);
        assert((dim as u32) as int == dim);
        assert(spec_u32_to_le_bytes(spec_u32_from_le_bytes(b.take(4))) == b.take(4));
        assert(b =~= b.take(4) + words + tail);
    }
}

/// Whether `b` holds a whole number of stored vectors.
pub open spec fn well_formed_embeddings(b: Seq<u8>) -> bool {
    decode_all(b) is Some
}

/// The stored form of `embeddings`: for each vector, its length as a 4-byte
/// little-endian integer (truncated to 32 bits), then its components.
#[verifier::rlimit(30)]
pub fn encode_embeddings(embeddings: &Vec<Vec<u32>>) -> (r: Vec<u8>)
    ensures
        r@ == encode_all(vector_views(embeddings@)),
{
    let ghost e = vector_views(embeddings@);
    let mut out: Vec<u8> = Vec::new();
    let mut i: usize = 0;
    while i < embeddings.len()
        invariant
            i <= embeddings@.len(),
            e == vector_views(embeddings@),
            out@ == encode_all(e.take(i as int)),
        decreases embeddings@.len() - i,
    {
        let v = &embeddings[i];
        let ghost before = out@;
        let dim = u32_to_le_bytes(v.len() as u32);
        out.extend_from_slice(dim.as_slice());
        let mut j: usize = 0;
        while j < v.len()
            invariant
                j <= v@.len(),
                out@ == before + spec_u32_to_le_bytes(v@.len() as u32) + encode_words(
                    v@.take(j as int),
                ),
            decreases v@.len() - j,
        {
            let w = u32_to_le_bytes(v[j]);
            out.extend_from_slice(w.as_slice());
            proof {
                assert(v@.take(j + 1).drop_last() =~= v@.take(j as int));
            }
            j = j + 1;
        }
        proof {
            assert(v@.take(v@.len() as int) =~= v@);
            lemma_encode_all_push(e.take(i as int), v@);
            assert(e.take(i + 1) =~= e.take(i as int).push(v@));
        }
        i = i + 1;
    }
    assert(e.take(e.len() as int) =~= e);
    out
}

#[verifier::rlimit(30)]
fn parse_embeddings(data: &[u8]) -> (r: Option<Vec<Vec<u32>>>)
    ensures
        match r {
            Some(e) => decode_all(data@) == Some(vector_views(e@)),
            None => decode_all(data@) is None,
        },
{
    let n = data.len();
    let mut out: Vec<Vec<u32>> = Vec::new();
    let mut offset: usize = 0;
    proof {
        assert(data@.skip(0) =~= data@);
        match decode_all(data@) {
            Some(rest) => {
                assert(vector_views(out@) + rest =~= rest);
            },
            None => {},
        }
    }
    while offset < n
        invariant
            n == data@.len(),
            offset <= n,
            decode_all(data@) == match decode_all(data@.skip(offset as int)) {
                Some(rest) => Some(vector_views(out@) + rest),
                None => None::<Seq<Seq<u32>>>,
            },
        decreases n - offset,
    {
        let ghost b = data@.skip(offset as int);
        if n - offset < 4 {
            return None;
        }
        let head = slice_subrange(data, offset, offset + 4);
        assert(head@ == b.take(4));
        let dim = u32_from_le_bytes(head) as usize;
        let room = (n - offset - 4) / 4;
        if dim > room {
            return None;
        }
        let base = offset + 4;
        let mut v: Vec<u32> = Vec::new();
        let mut j: usize = 0;
        while j < dim
            invariant
                j <= dim <= room,
                room == (n - offset - 4) / 4,
                base == offset + 4,
                n == data@.len(),
                offset < n,
                v@.len() == j,
                forall|t: int|
                    0 <= t < j ==> #[trigger] v@[t] == spec_u32_from_le_bytes(
                        data@.subrange(base + 4 * t, base + 4 * t + 4),
                    ),
            decreases dim - j,
        {
            let word = slice_subrange(data, base + 4 * j, base + 4 * j + 4);
            v.push(u32_from_le_bytes(word));
            j = j + 1;
        }
        let next = base + 4 * dim;
        proof {
            let need = 4 + 4 * dim;
            assert(b.subrange(4, need) =~= data@.subrange(base as int, next as int));
            let words = b.subrange(4, need);
            assert forall|t: int| 0 <= t < dim implies #[trigger] decode_words(words)[t]
                == v@[t] by {
                assert(words.subrange(4 * t, 4 * t + 4) =~= data@.subrange(
                    base + 4 * t,
                    base + 4 * t + 4,
                ));
            }
            assert(decode_words(words) =~= v@);
            assert(b.skip(need) =~= data@.skip(next as int));
        }
        let ghost prev = vector_views(out@);
        out.push(v);
        proof {
            assert(vector_views(out@) =~= prev.push(v@));
            match decode_all(data@.skip(next as int)) {
                Some(rest) => {
                    assert(prev + (seq![v@] + rest) =~= prev.push(v@) + rest);
                },
                None => {},
            }
        }
        offset = next;
    }
    proof {
        assert(data@.skip(n as int) =~= Seq::<u8>::empty());
        assert(vector_views(out@) + Seq::<Seq<u32>>::empty() =~= vector_views(out@));
    }
    Some(out)
}

/// Whether `data` holds a whole number of stored vectors.
pub fn embeddings_well_formed(data: &[u8]) -> (r: bool)
    ensures
        r == well_formed_embeddings(data@),
{
    parse_embeddings(data).is_some()
}

/// The vectors stored in `data`, which must hold a whole number of them.
pub fn decode_embeddings(data: &[u8]) -> (r: Vec<Vec<u32>>)
    requires
        well_formed_embeddings(data@),
    ensures
        decode_all(data@) == Some(vector_views(r@)),
{
    match parse_embeddings(data) {
        Some(e) => e,
        None => Vec::new(),
    }
}

} // verus!
