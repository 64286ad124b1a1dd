//! The structured wire format that the codec writes and reads.
//!
//! A buffer holds a sequence of items. An item is either a byte string or a
//! list header announcing how many items follow it. Every item starts with a
//! one-byte tag and an 8-byte little-endian length: for a byte string the
//! length counts the payload bytes that follow, for a list it counts the
//! items that follow.

use vstd::prelude::*;
use vstd::bytes::*;

verus! {

/// Tag of a byte-string item.
pub const STR_TAG: u8 = 0;

/// Tag of a list header.
pub const LIST_TAG: u8 = 1;

/// Why a buffer failed to decode.
///
/// Decoding never panics and never yields a partial result: any failure is
/// reported through one of these.
#[derive(Clone, Copy, Debug, PartialEq, Eq, Structural)]
pub enum DecodeError {
    /// The buffer did not decompress under the blocks profile.
    Corrupt,
    /// The buffer ended before the announced end of an item.
    Truncated,
    /// An item had the wrong tag, width or form for its position.
    UnexpectedKind,
    /// A list announced the wrong number of items, or bytes trailed the last item.
    WrongItemCount,
}

/// Bytes of an item header: a tag and an 8-byte little-endian length.
pub open spec fn enc_hdr(tag: u8, len: nat) -> Seq<u8> {
    seq![tag] + spec_u64_to_le_bytes(len as u64)
}

/// Encoding of a byte-string item.
pub open spec fn enc_str(b: Seq<u8>) -> Seq<u8> {
    enc_hdr(STR_TAG, b.len()) + b
}

/// Encoding of a list header for `n` items.
pub open spec fn enc_list_hdr(n: nat) -> Seq<u8> {
    enc_hdr(LIST_TAG, n)
}

/// Reads an item header at `pos`: its tag, its length field and the position
/// just after the header.
pub open spec fn dec_hdr(s: Seq<u8>, pos: int) -> Result<(u8, u64, int), DecodeError> {
    if 0 <= pos && pos + 9 <= s.len() {
        Ok((s[pos], spec_u64_from_le_bytes(s.subrange(pos + 1, pos + 9)), pos + 9))
    } else {
        Err(DecodeError::Truncated)
    }
}

/// Reads a byte-string item at `pos`: its payload and the position after it.
pub open spec fn dec_str(s: Seq<u8>, pos: int) -> Result<(Seq<u8>, int), DecodeError> {
    match dec_hdr(s, pos) {
        Err(e) => Err(e),
        Ok((tag, len, p)) => if tag != STR_TAG {
            Err(DecodeError::UnexpectedKind)
        } else if p + len > s.len() {
            Err(DecodeError::Truncated)
        } else {
            Ok((s.subrange(p, p + len), p + len))
        },
    }
}

/// Reads a list header at `pos`: its item count and the position after it.
pub open spec fn dec_list_hdr(s: Seq<u8>, pos: int) -> Result<(u64, int), DecodeError> {
    match dec_hdr(s, pos) {
        Err(e) => Err(e),
        Ok((tag, len, p)) => if tag != LIST_TAG {
            Err(DecodeError::UnexpectedKind)
        } else {
            Ok((len, p))
        },
    }
}

/// Appends a byte-string item to `out`.
pub fn push_str_item(out: &mut Vec<u8>, b: &[u8])
    ensures
        final(out)@ == old(out)@ + enc_str(b@),
{
    out.push(STR_TAG);
    let lenb = u64_to_le_bytes(b.len() as u64);
    out.extend_from_slice(lenb.as_slice());
    out.extend_from_slice(b);
    proof {
        assert(out@ =~= old(out)@ + enc_str(b@));
    }
}

/// Appends a list header for `n` items to `out`.
pub fn push_list_hdr(out: &mut Vec<u8>, n: usize)
    ensures
        final(out)@ == old(out)@ + enc_list_hdr(n as nat),
{
    out.push(LIST_TAG);
    let lenb = u64_to_le_bytes(n as u64);
    out.extend_from_slice(lenb.as_slice());
    proof {
        assert(out@ =~= old(out)@ + enc_list_hdr(n as nat));
    }
}

/// Reads a byte-string item, returning its payload and the position after it.
pub fn read_str(data: &Vec<u8>, pos: usize) -> (r: Result<(Vec<u8>, usize), DecodeError>)
    ensures
        match r {
            Ok((b, p2)) => {
                &&& dec_str(data@, pos as int) == Ok::<(Seq<u8>, int), DecodeError>((b@, p2 as int))
                &&& pos + 9 <= p2 <= data.len()
            },
            Err(e) => dec_str(data@, pos as int) == Err::<(Seq<u8>, int), DecodeError>(e),
        },
{
    if data.len() < 9 || pos > data.len() - 9 {
        return Err(DecodeError::Truncated);
    }
    let tag = data[pos];
    let lenb = vstd::slice::slice_subrange(data.as_slice(), pos + 1, pos + 9);
    let len = u64_from_le_bytes(lenb);
    if tag != STR_TAG {
        return Err(DecodeError::UnexpectedKind);
    }
    let rem = data.len() - (pos + 9);
    if len > rem as u64 {
        return Err(DecodeError::Truncated);
    }
    proof {
        assert(len as usize as u64 == len) by {
            assert(len <= rem as u64);
        }
    }
    let len_us = len as usize;
    let payload = vstd::slice::slice_to_vec(
        vstd::slice::slice_subrange(data.as_slice(), pos + 9, pos + 9 + len_us),
    );
    Ok((payload, pos + 9 + len_us))
}

/// Reads a list header, returning its item count and the position after it.
pub fn read_list_hdr(data: &Vec<u8>, pos: usize) -> (r: Result<(u64, usize), DecodeError>)
    ensures
        match r {
            Ok((n, p2)) => {
                &&& dec_list_hdr(data@, pos as int) == Ok::<(u64, int), DecodeError>((n, p2 as int))
                &&& pos <= p2 <= data.len()
            },
            Err(e) => dec_list_hdr(data@, pos as int) == Err::<(u64, int), DecodeError>(e),
        },
{
    if data.len() < 9 || pos > data.len() - 9 {
        return Err(DecodeError::Truncated);
    }
    let tag = data[pos];
    let lenb = vstd::slice::slice_subrange(data.as_slice(), pos + 1, pos + 9);
    let len = u64_from_le_bytes(lenb);
    if tag != LIST_TAG {
        return Err(DecodeError::UnexpectedKind);
    }
    Ok((len, pos + 9))
}

/// A list header is always nine bytes.
pub proof fn lemma_enc_list_hdr_len(n: nat)
    ensures
        enc_list_hdr(n).len() == 9,
{
    lemma_auto_spec_u64_to_from_le_bytes();
}

/// Reading a byte-string item at the position where one was written recovers
/// its payload, together with whatever follows it.
pub proof fn lemma_dec_enc_str(s: Seq<u8>, pos: int, b: Seq<u8>, rest: Seq<u8>)
    requires
        0 <= pos,
        b.len() < 0x1_0000_0000_0000_0000,
        pos + enc_str(b).len() + rest.len() <= s.len(),
        s.subrange(pos, pos + enc_str(b).len() + rest.len()) == enc_str(b) + rest,
    ensures
        enc_str(b).len() == 9 + b.len(),
        dec_str(s, pos) == Ok::<(Seq<u8>, int), DecodeError>((b, pos + 9 + b.len())),
        s.subrange(pos + 9 + b.len(), pos + 9 + b.len() + rest.len()) == rest,
{
    lemma_auto_spec_u64_to_from_le_bytes();
    let e = enc_str(b);
    assert(e.len() == 9 + b.len());
    let whole = s.subrange(pos, pos + e.len() + rest.len());
    assert(s[pos] == whole[0]);
    assert(whole[0] == (e + rest)[0]);
    assert(e[0] == STR_TAG);
    assert(s.subrange(pos + 1, pos + 9) =~= spec_u64_to_le_bytes(b.len() as u64)) by {
        assert forall|i: int| 0 <= i < 8 implies #[trigger] s.subrange(pos + 1, pos + 9)[i]
            == spec_u64_to_le_bytes(b.len() as u64)[i] by {
            assert(s.subrange(pos + 1, pos + 9)[i] == whole[i + 1]);
            assert(whole[i + 1] == (e + rest)[i + 1]);
            assert(e[i + 1] == spec_u64_to_le_bytes(b.len() as u64)[i]);
        }
    }
    assert(spec_u64_from_le_bytes(spec_u64_to_le_bytes(b.len() as u64)) == b.len() as u64);
    assert(s.subrange(pos + 9, pos + 9 + b.len()) =~= b) by {
        assert forall|i: int| 0 <= i < b.len() implies #[trigger] s.subrange(pos + 9, pos + 9 + b.len())[i]
            == b[i] by {
            assert(s.subrange(pos + 9, pos + 9 + b.len())[i] == whole[i + 9]);
            assert(whole[i + 9] == (e + rest)[i + 9]);
            assert(e[i + 9] == b[i]);
        }
    }
    assert(s.subrange(pos + 9 + b.len(), pos + 9 + b.len() + rest.len()) =~= rest) by {
        assert forall|i: int| 0 <= i < rest.len() implies #[trigger] s.subrange(
            pos + 9 + b.len(),
            pos + 9 + b.len() + rest.len(),
        )[i] == rest[i] by {
            assert(s.subrange(pos + 9 + b.len(), pos + 9 + b.len() + rest.len())[i]
                == whole[i + 9 + b.len()]);
            assert(whole[i + 9 + b.len()] == (e + rest)[i + 9 + b.len()]);
        }
    }
}

/// Reading a list header at the position where one was written recovers its
/// item count, together with whatever follows it.
pub proof fn lemma_dec_enc_list_hdr(s: Seq<u8>, pos: int, n: nat, rest: Seq<u8>)
    requires
        0 <= pos,
        n < 0x1_0000_0000_0000_0000,
        pos + 9 + rest.len() <= s.len(),
        s.subrange(pos, pos + 9 + rest.len()) == enc_list_hdr(n) + rest,
    ensures
        enc_list_hdr(n).len() == 9,
        dec_list_hdr(s, pos) == Ok::<(u64, int), DecodeError>((n as u64, pos + 9)),
        s.subrange(pos + 9, pos + 9 + rest.len()) == rest,
{
    lemma_auto_spec_u64_to_from_le_bytes();
    let e = enc_list_hdr(n);
    let whole = s.subrange(pos, pos + 9 + rest.len());
    assert(s[pos] == whole[0]);
    assert(whole[0] == (e + rest)[0]);
    assert(e[0] == LIST_TAG);
    assert(s.subrange(pos + 1, pos + 9) =~= spec_u64_to_le_bytes(n as u64)) by {
        assert forall|i: int| 0 <= i < 8 implies #[trigger] s.subrange(pos + 1, pos + 9)[i]
            == spec_u64_to_le_bytes(n as u64)[i] by {
            assert(s.subrange(pos + 1, pos + 9)[i] == whole[i + 1]);
            assert(whole[i + 1] == (e + rest)[i + 1]);
            assert(e[i + 1] == spec_u64_to_le_bytes(n as u64)[i]);
        }
    }
    assert(spec_u64_from_le_bytes(spec_u64_to_le_bytes(n as u64)) == n as u64);
    assert(s.subrange(pos + 9, pos + 9 + rest.len()) =~= rest) by {
        assert forall|i: int| 0 <= i < rest.len() implies #[trigger] s.subrange(pos + 9, pos + 9 + rest.len())[i]
            == rest[i] by {
            assert(s.subrange(pos + 9, pos + 9 + rest.len())[i] == whole[i + 9]);
            assert(whole[i + 9] == (e + rest)[i + 9]);
        }
    }
}

} // verus!
