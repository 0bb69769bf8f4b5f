use vstd::prelude::*;

use vstd::bytes::{lemma_auto_spec_u64_to_from_le_bytes, spec_u64_to_le_bytes, u64_to_le_bytes};

verus! {

/// The 32-byte SHA-256 digest of a byte string.  A pure function of the
/// bytes; computed by the sha2 crate.
pub uninterp spec fn sha256_of(b: Seq<u8>) -> Seq<u8>;

/// Relies on sha2::Sha256 (new / update / finalize): the digest is exactly 32
/// bytes and depends on the input bytes alone.
#[verifier::external_body]
pub(crate) fn sha256_digest(bytes: &Vec<u8>) -> (r: [u8; 32])
    ensures
        r@ == sha256_of(bytes@),
{
    let mut hasher: sha2::Sha256 = sha2::Digest::new();
    sha2::Digest::update(&mut hasher, bytes.as_slice());
    sha2::Digest::finalize(hasher).into()
}

/// A length-prefixed frame: eight little-endian length bytes, then the bytes
/// themselves.  Framing is what makes the canonical encoding self-delimiting,
/// and so injective.
pub open spec fn spec_framed(b: Seq<u8>) -> Seq<u8> {
    spec_u64_to_le_bytes(b.len() as u64) + b
}

/// The canonical encoding of a list of byte-string pairs: each part framed,
/// pairs in order.
pub open spec fn spec_encode_pairs(ps: Seq<(Seq<u8>, Seq<u8>)>) -> Seq<u8>
    decreases ps.len(),
{
    if ps.len() == 0 {
        Seq::empty()
    } else {
        spec_framed(ps[0].0) + spec_framed(ps[0].1) + spec_encode_pairs(ps.drop_first())
    }
}

/// Appending one pair extends the encoding at the end.
pub proof fn lemma_encode_pairs_snoc(ps: Seq<(Seq<u8>, Seq<u8>)>, p: (Seq<u8>, Seq<u8>))
    ensures
        spec_encode_pairs(ps.push(p)) == spec_encode_pairs(ps) + spec_framed(p.0) + spec_framed(
            p.1,
        ),
    decreases ps.len(),
{
    lemma_auto_spec_u64_to_from_le_bytes();
    if ps.len() == 0 {
        assert(ps.push(p).drop_first() =~= Seq::<(Seq<u8>, Seq<u8>)>::empty());
        assert(ps.push(p)[0] == p);
        assert(spec_encode_pairs(ps.push(p).drop_first()) == Seq::<u8>::empty());
        assert(spec_encode_pairs(ps) == Seq::<u8>::empty());
        assert(spec_encode_pairs(ps.push(p)) == spec_framed(p.0) + spec_framed(p.1)
            + spec_encode_pairs(ps.push(p).drop_first()));
        assert(spec_encode_pairs(ps.push(p)) =~= spec_encode_pairs(ps) + spec_framed(p.0)
            + spec_framed(p.1));
    } else {
        lemma_encode_pairs_snoc(ps.drop_first(), p);
        assert(ps.push(p).drop_first() =~= ps.drop_first().push(p));
        assert(ps.push(p)[0] == ps[0]);
        assert(spec_encode_pairs(ps.push(p)) =~= spec_encode_pairs(ps) + spec_framed(p.0)
            + spec_framed(p.1));
    }
}

/// Two framed byte strings followed by arbitrary tails can only be equal
/// whole: the length prefix pins the boundary.
pub proof fn lemma_framed_prefix(b1: Seq<u8>, t1: Seq<u8>, b2: Seq<u8>, t2: Seq<u8>)
    requires
        b1.len() <= u64::MAX,
        b2.len() <= u64::MAX,
        spec_framed(b1) + t1 == spec_framed(b2) + t2,
    ensures
        b1 == b2,
        t1 == t2,
{
    lemma_auto_spec_u64_to_from_le_bytes();
    let s = spec_framed(b1) + t1;
    assert(spec_u64_to_le_bytes(b1.len() as u64) =~= s.subrange(0, 8));
    assert(spec_u64_to_le_bytes(b2.len() as u64) =~= s.subrange(0, 8));
    assert(vstd::bytes::spec_u64_from_le_bytes(spec_u64_to_le_bytes(b1.len() as u64)) == b1.len());
    assert(vstd::bytes::spec_u64_from_le_bytes(spec_u64_to_le_bytes(b2.len() as u64)) == b2.len());
    assert(b1.len() == b2.len());
    assert(b1 =~= s.subrange(8, 8 + b1.len() as int));
    assert(b2 =~= s.subrange(8, 8 + b1.len() as int));
    assert(t1 =~= s.subrange(8 + b1.len() as int, s.len() as int));
    assert(t2 =~= s.subrange(8 + b1.len() as int, s.len() as int));
}

/// The pair-list encoding is injective among lists of the same length whose
/// parts fit a frame.
pub proof fn lemma_encode_pairs_injective(ps1: Seq<(Seq<u8>, Seq<u8>)>, ps2: Seq<(Seq<u8>, Seq<u8>)>)
    requires
        ps1.len() == ps2.len(),
        forall|i: int|
            0 <= i < ps1.len() ==> (#[trigger] ps1[i]).0.len() <= u64::MAX && ps1[i].1.len()
                <= u64::MAX,
        forall|i: int|
            0 <= i < ps2.len() ==> (#[trigger] ps2[i]).0.len() <= u64::MAX && ps2[i].1.len()
                <= u64::MAX,
        spec_encode_pairs(ps1) == spec_encode_pairs(ps2),
    ensures
        ps1 == ps2,
    decreases ps1.len(),
{
    if ps1.len() == 0 {
        assert(ps1 =~= ps2);
    } else {
        let tail1 = spec_framed(ps1[0].1) + spec_encode_pairs(ps1.drop_first());
        let tail2 = spec_framed(ps2[0].1) + spec_encode_pairs(ps2.drop_first());
        assert(spec_framed(ps1[0].0) + tail1 =~= spec_encode_pairs(ps1));
        assert(spec_framed(ps2[0].0) + tail2 =~= spec_encode_pairs(ps2));
        lemma_framed_prefix(ps1[0].0, tail1, ps2[0].0, tail2);
        lemma_framed_prefix(
            ps1[0].1,
            spec_encode_pairs(ps1.drop_first()),
            ps2[0].1,
            spec_encode_pairs(ps2.drop_first()),
        );
        assert forall|i: int|
            0 <= i < ps1.drop_first().len() implies (#[trigger] ps1.drop_first()[i]).0.len()
            <= u64::MAX && ps1.drop_first()[i].1.len() <= u64::MAX by {
            assert(ps1.drop_first()[i] == ps1[i + 1]);
        }
        assert forall|i: int|
            0 <= i < ps2.drop_first().len() implies (#[trigger] ps2.drop_first()[i]).0.len()
            <= u64::MAX && ps2.drop_first()[i].1.len() <= u64::MAX by {
            assert(ps2.drop_first()[i] == ps2[i + 1]);
        }
        lemma_encode_pairs_injective(ps1.drop_first(), ps2.drop_first());
        assert(ps1[0] == ps2[0]);
        assert forall|i: int| 0 <= i < ps1.len() implies ps1[i] == ps2[i] by {
            if i > 0 {
                assert(ps1.drop_first()[i - 1] == ps2.drop_first()[i - 1]);
                assert(ps1[i] == ps1.drop_first()[i - 1]);
                assert(ps2[i] == ps2.drop_first()[i - 1]);
            }
        }
        assert(ps1 =~= ps2);
    }
}

/// Appends the frame of `piece` onto `out`.
pub fn append_framed(out: &mut Vec<u8>, piece: Vec<u8>)
    ensures
        final(out)@ == old(out)@ + spec_framed(piece@),
{
    let mut len_bytes = u64_to_le_bytes(piece.len() as u64);
    let mut piece = piece;
    out.append(&mut len_bytes);
    out.append(&mut piece);
}

} // verus!
