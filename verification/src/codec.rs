//! The on-blob record format for messages.
//!
//! One message is stored as: the 8-byte little-endian image of its id,
//! the 8-byte image of its creation time, the 4-byte length of the
//! payload and the payload itself, then the 4-byte count of metadata
//! pairs followed by each pair as two length-prefixed byte strings.
//! A frame — the unit a compressed cluster slot holds — is a run of
//! records, each prefixed by its own 4-byte length, so that a reader can
//! skip a record it cannot decode and keep the rest of the frame.

use vstd::prelude::*;
use crate::bytes::le32_val;
use crate::bytes::le64_val;
use crate::bytes::u32_image;
use crate::bytes::u64_image;
use crate::bytes::push_u32_le;
use crate::bytes::push_u64_le;
use crate::bytes::u32_from_le;
use crate::bytes::u64_from_le_parts;
use crate::bytes::lemma_u32_le_round_trip;
use crate::bytes::lemma_u64_image_round_trip;
use crate::msg::MsgHeader;
use crate::msg::MessageToPersist;
use crate::msg::MessageModel;
use crate::msg::wf_message;

verus! {

/// The image of one metadata pair: both strings length-prefixed.
pub open spec fn header_image(h: (Seq<u8>, Seq<u8>)) -> Seq<u8> {
    u32_image(h.0.len() as u32) + h.0 + u32_image(h.1.len() as u32) + h.1
}

/// The image of a run of metadata pairs.
pub open spec fn headers_image(hs: Seq<(Seq<u8>, Seq<u8>)>) -> Seq<u8>
    decreases hs.len(),
{
    if hs.len() == 0 {
        Seq::empty()
    } else {
        header_image(hs.first()) + headers_image(hs.drop_first())
    }
}

/// The full record image of one message.
#[verifier::opaque]
pub open spec fn message_encoding(m: MessageModel) -> Seq<u8> {
    u64_image(m.message_id as u64) + u64_image(m.created as u64) + u32_image(m.data.len() as u32)
        + m.data + u32_image(m.headers.len() as u32) + headers_image(m.headers)
}

/// The `u32` stored at the first four bytes.
pub open spec fn head_u32(b: Seq<u8>) -> u32 {
    le32_val(b[0], b[1], b[2], b[3])
}

/// The `u64` stored at the first eight bytes.
pub open spec fn head_u64(b: Seq<u8>) -> u64 {
    le64_val(le32_val(b[0], b[1], b[2], b[3]), le32_val(b[4], b[5], b[6], b[7]))
}

/// Parses `n` length-prefixed metadata pairs from the front of `b`;
/// yields the pairs and what is left, or nothing when `b` is malformed.
pub open spec fn dec_headers(b: Seq<u8>, n: int) -> Option<(Seq<(Seq<u8>, Seq<u8>)>, Seq<u8>)>
    decreases n,
{
    if n <= 0 {
        Some((Seq::empty(), b))
    } else if b.len() < 4 {
        None
    } else {
        let kl = head_u32(b) as int;
        if 4 + kl + 4 > b.len() {
            None
        } else {
            let key = b.subrange(4, 4 + kl);
            let vl = head_u32(b.skip(4 + kl)) as int;
            if 4 + kl + 4 + vl > b.len() {
                None
            } else {
                let value = b.subrange(4 + kl + 4, 4 + kl + 4 + vl);
                match dec_headers(b.skip(4 + kl + 4 + vl), n - 1) {
                    Some((hs, rest)) => Some((seq![(key, value)] + hs, rest)),
                    None => None,
                }
            }
        }
    }
}

/// Parses one full record; the record must account for every byte of `b`.
pub open spec fn dec_message(b: Seq<u8>) -> Option<MessageModel> {
    if b.len() < 24 {
        None
    } else {
        let id = head_u64(b) as i64;
        let created = head_u64(b.skip(8)) as i64;
        let dl = head_u32(b.skip(16)) as int;
        if 20 + dl + 4 > b.len() {
            None
        } else {
            let data = b.subrange(20, 20 + dl);
            let hc = head_u32(b.skip(20 + dl)) as int;
            match dec_headers(b.skip(20 + dl + 4), hc) {
                Some((hs, rest)) => if rest.len() == 0 {
                    Some(MessageModel { message_id: id, created, data, headers: hs })
                } else {
                    None
                },
                None => None,
            }
        }
    }
}

/// The image of a frame: each record prefixed by its 4-byte length.
pub open spec fn frame_image(ms: Seq<MessageModel>) -> Seq<u8>
    decreases ms.len(),
{
    if ms.len() == 0 {
        Seq::empty()
    } else {
        let rec = message_encoding(ms.first());
        u32_image(rec.len() as u32) + rec + frame_image(ms.drop_first())
    }
}

/// Parses a frame from the front of `b`: length-prefixed records, a
/// record that does not decode being skipped, stopping at a truncated
/// length or record.
pub open spec fn dec_frame(b: Seq<u8>) -> Seq<MessageModel>
    decreases b.len(),
{
    if b.len() < 4 {
        Seq::empty()
    } else {
        let n = head_u32(b) as int;
        if 4 + n > b.len() {
            Seq::empty()
        } else {
            let rest = dec_frame(b.skip(4 + n));
            match dec_message(b.subrange(4, 4 + n)) {
                Some(m) => seq![m] + rest,
                None => rest,
            }
        }
    }
}

/// Encodes one message into its record image.
#[verifier::rlimit(30)]
pub fn encode_message(m: &MessageToPersist) -> (r: Vec<u8>)
    requires
        wf_message(m@),
    ensures
        r@ =~= message_encoding(m@),
{
    let mut out: Vec<u8> = Vec::new();
    push_u64_le(&mut out, m.message_id as u64);
    push_u64_le(&mut out, m.created as u64);
    push_u32_le(&mut out, m.data.len() as u32);
    let mut i: usize = 0;
    while i < m.data.len()
        invariant
            i <= m.data.len(),
            out@ =~= u64_image(m@.message_id as u64) + u64_image(m@.created as u64) + u32_image(
                m@.data.len() as u32,
            ) + m.data@.subrange(0, i as int),
        decreases m.data.len() - i,
    {
        out.push(m.data[i]);
        i = i + 1;
    }
    proof {
        assert(m.data@.subrange(0, m.data@.len() as int) =~= m.data@);
    }
    push_u32_le(&mut out, m.headers.len() as u32);
    let ghost prefix = out@;
    let mut j: usize = 0;
    while j < m.headers.len()
        invariant
            j <= m.headers.len(),
            wf_message(m@),
            prefix == u64_image(m@.message_id as u64) + u64_image(m@.created as u64) + u32_image(
                m@.data.len() as u32,
            ) + m@.data + u32_image(m@.headers.len() as u32),
            out@ =~= prefix + headers_image(m@.headers.take(j as int)),
        decreases m.headers.len() - j,
    {
        let ghost sofar = out@;
        push_u32_le(&mut out, m.headers[j].key.len() as u32);
        let mut a: usize = 0;
        while a < m.headers[j].key.len()
            invariant
                j < m.headers.len(),
                a <= m.headers@[j as int].key.len(),
                out@ =~= sofar + u32_image(m.headers@[j as int].key.len() as u32)
                    + m.headers@[j as int].key@.subrange(0, a as int),
            decreases m.headers[j as int].key.len() - a,
        {
            out.push(m.headers[j].key[a]);
            a = a + 1;
        }
        push_u32_le(&mut out, m.headers[j].value.len() as u32);
        let mut c: usize = 0;
        while c < m.headers[j].value.len()
            invariant
                j < m.headers.len(),
                c <= m.headers@[j as int].value.len(),
                out@ =~= sofar + u32_image(m.headers@[j as int].key.len() as u32)
                    + m.headers@[j as int].key@ + u32_image(m.headers@[j as int].value.len() as u32)
                    + m.headers@[j as int].value@.subrange(0, c as int),
            decreases m.headers[j as int].value.len() - c,
        {
            out.push(m.headers[j].value[c]);
            c = c + 1;
        }
        proof {
            let hs = m@.headers;
            assert(out@ =~= sofar + header_image(hs[j as int]));
            lemma_headers_image_snoc(hs, j as int);
            assert(hs.take(j as int + 1) =~= hs.take(j as int).push(hs[j as int]));
        }
        j = j + 1;
    }
    proof {
        assert(m@.headers.take(m.headers@.len() as int) =~= m@.headers);
        reveal(crate::codec::message_encoding);
        assert(out@ =~= message_encoding(m@));
    }
    out
}

/// The content models of a run of messages.
pub open spec fn models_of(ms: Seq<MessageToPersist>) -> Seq<MessageModel> {
    Seq::new(ms.len(), |i: int| ms[i]@)
}

/// Copies `b[from..to]` into a fresh vector.
pub fn subvec(b: &Vec<u8>, from: usize, to: usize) -> (r: Vec<u8>)
    requires
        from <= to <= b.len(),
    ensures
        r@ =~= b@.subrange(from as int, to as int),
{
    let mut out: Vec<u8> = Vec::new();
    let mut i: usize = from;
    while i < to
        invariant
            from <= i <= to <= b.len(),
            out@ =~= b@.subrange(from as int, i as int),
        decreases to - i,
    {
        out.push(b[i]);
        i = i + 1;
    }
    out
}

/// Appends all of `src` to `out`.
pub fn extend_bytes(out: &mut Vec<u8>, src: &Vec<u8>)
    ensures
        final(out)@ =~= old(out)@ + src@,
{
    let mut i: usize = 0;
    while i < src.len()
        invariant
            i <= src.len(),
            out@ =~= old(out)@ + src@.subrange(0, i as int),
        decreases src.len() - i,
    {
        out.push(src[i]);
        i = i + 1;
    }
}

/// Reads the `u32` stored at `b[pos..pos + 4]`.
fn read_u32_at(b: &Vec<u8>, pos: usize) -> (r: u32)
    requires
        pos + 4 <= b.len(),
    ensures
        r == head_u32(b@.skip(pos as int)),
{
    u32_from_le(b[pos], b[pos + 1], b[pos + 2], b[pos + 3])
}

/// Reads the `u64` stored at `b[pos..pos + 8]`.
fn read_u64_at(b: &Vec<u8>, pos: usize) -> (r: u64)
    requires
        pos + 8 <= b.len(),
    ensures
        r == head_u64(b@.skip(pos as int)),
{
    let lo = u32_from_le(b[pos], b[pos + 1], b[pos + 2], b[pos + 3]);
    let hi = u32_from_le(b[pos + 4], b[pos + 5], b[pos + 6], b[pos + 7]);
    u64_from_le_parts(lo, hi)
}

/// Decodes the record stored as exactly the bytes of `b`.
#[verifier::rlimit(100)]
#[verifier::loop_isolation(false)]
pub fn decode_message(b: &Vec<u8>) -> (r: Option<MessageToPersist>)
    ensures
        match r {
            Some(m) => dec_message(b@) == Some(m@),
            None => dec_message(b@) is None,
        },
{
    if b.len() < 24 {
        return None;
    }
    let id = read_u64_at(b, 0) as i64;
    let created = read_u64_at(b, 8) as i64;
    let dl64 = read_u32_at(b, 16) as u64;
    proof {
        assert(b@.skip(0) =~= b@);
    }
    if 20 + dl64 + 4 > b.len() as u64 {
        return None;
    }
    let dl = dl64 as usize;
    let data = subvec(b, 20, 20 + dl);
    let hc = read_u32_at(b, 20 + dl);
    let cur0: usize = 20 + dl + 4;
    let ghost tail0 = b@.skip(cur0 as int);
    let mut cur: usize = cur0;
    let mut acc: Vec<MsgHeader> = Vec::new();
    let mut k: u32 = 0;
    while k < hc
        invariant
            cur0 <= cur <= b.len(),
            k <= hc,
            cur0 == 20 + dl + 4,
            dl <= b.len(),
            tail0 == b@.skip(cur0 as int),
            acc@.len() == k,
            dec_headers(tail0, hc as int) == (match dec_headers(b@.skip(cur as int), hc - k) {
                Some((hs, rest)) => Some(
                    (Seq::new(acc@.len(), |i: int| (acc@[i].key@, acc@[i].value@)) + hs, rest),
                ),
                None => None::<(Seq<(Seq<u8>, Seq<u8>)>, Seq<u8>)>,
            }),
        decreases hc - k,
    {
        let ghost tail = b@.skip(cur as int);
        let rem = b.len() - cur;
        if rem < 4 {
            return None;
        }
        let kl64 = read_u32_at(b, cur) as u64;
        if 4 + kl64 + 4 > rem as u64 {
            return None;
        }
        let kl = kl64 as usize;
        let key = subvec(b, cur + 4, cur + 4 + kl);
        let vl64 = read_u32_at(b, cur + 4 + kl) as u64;
        proof {
            assert(b@.skip((cur + 4 + kl) as int) =~= tail.skip(4 + kl as int));
            assert(key@ =~= tail.subrange(4, 4 + kl as int));
        }
        if 4 + kl64 + 4 + vl64 > rem as u64 {
            return None;
        }
        let vl = vl64 as usize;
        let value = subvec(b, cur + 4 + kl + 4, cur + 4 + kl + 4 + vl);
        let next = cur + 4 + kl + 4 + vl;
        proof {
            assert(value@ =~= tail.subrange(4 + kl as int + 4, 4 + kl as int + 4 + vl as int));
            assert(b@.skip(next as int) =~= tail.skip(4 + kl as int + 4 + vl as int));
        }
        let ghost accp = acc@;
        acc.push(MsgHeader { key, value });
        proof {
            let pk = Seq::new(accp.len(), |i: int| (accp[i].key@, accp[i].value@));
            let pk1 = Seq::new(acc@.len(), |i: int| (acc@[i].key@, acc@[i].value@));
            assert(pk1 =~= pk + seq![(acc@[accp.len() as int].key@, acc@[accp.len() as int].value@)]);
            assert forall|hs: Seq<(Seq<u8>, Seq<u8>)>| true implies (pk + (seq![
                (key@, value@),
            ] + hs) =~= pk1 + hs) by {}
        }
        cur = next;
        k = k + 1;
    }
    proof {
        assert(dec_headers(b@.skip(cur as int), 0) == Some(
            (Seq::<(Seq<u8>, Seq<u8>)>::empty(), b@.skip(cur as int)),
        ));
        let pk = Seq::new(acc@.len(), |i: int| (acc@[i].key@, acc@[i].value@));
        assert(pk + Seq::<(Seq<u8>, Seq<u8>)>::empty() =~= pk);
    }
    if cur != b.len() {
        return None;
    }
    let m = MessageToPersist { message_id: id, created, data, headers: acc };
    proof {
        assert(b@.skip(cur as int).len() == 0);
        assert(data@ =~= b@.subrange(20, 20 + dl as int));
        assert(dec_message(b@) == Some(m@));
    }
    Some(m)
}

/// Appending one pair to a run appends its image to the run's image.
pub proof fn lemma_headers_image_snoc(hs: Seq<(Seq<u8>, Seq<u8>)>, j: int)
    requires
        0 <= j < hs.len(),
    ensures
        headers_image(hs.take(j + 1)) == headers_image(hs.take(j)) + header_image(hs[j]),
    decreases j,
{
    if j == 0 {
        assert(hs.take(1).drop_first() =~= hs.take(0));
        assert(hs.take(1).first() == hs[0]);
        assert(hs.take(1).len() == 1);
        assert(headers_image(hs.take(0)) =~= Seq::<u8>::empty());
        assert(headers_image(hs.take(1)) =~= header_image(hs[0]));
        assert(headers_image(hs.take(0)) + header_image(hs[0]) =~= header_image(hs[0]));
    } else {
        lemma_headers_image_snoc(hs.drop_first(), j - 1);
        assert(hs.take(j + 1).drop_first() =~= hs.drop_first().take(j));
        assert(hs.take(j).drop_first() =~= hs.drop_first().take(j - 1));
        assert(hs.take(j + 1).first() == hs.first());
        assert(hs.take(j).first() == hs.first());
        assert(hs.drop_first().take(j)[j - 1] == hs[j]);
        assert(headers_image(hs.take(j + 1)) =~= header_image(hs.first()) + headers_image(
            hs.drop_first().take(j),
        ));
        assert(headers_image(hs.take(j)) =~= header_image(hs.first()) + headers_image(
            hs.drop_first().take(j - 1),
        ));
    }
}

/// Bound on the image length of bounded metadata pairs.
pub proof fn lemma_headers_image_len(hs: Seq<(Seq<u8>, Seq<u8>)>)
    requires
        forall|i: int| 0 <= i < hs.len() ==> hs[i].0.len() <= 0x10000 && hs[i].1.len() <= 0x10000,
    ensures
        headers_image(hs).len() <= hs.len() * 0x20008,
    decreases hs.len(),
{
    if hs.len() > 0 {
        assert(forall|i: int|
            0 <= i < hs.drop_first().len() ==> hs.drop_first()[i].0.len() <= 0x10000
                && hs.drop_first()[i].1.len() <= 0x10000);
        lemma_headers_image_len(hs.drop_first());
        assert(header_image(hs.first()).len() <= 0x20008);
    }
}

/// A well-formed message's record image stays within a fixed bound.
pub proof fn lemma_encoding_len(m: MessageModel)
    requires
        wf_message(m),
    ensures
        message_encoding(m).len() <= 0x2800_0000,
{
    reveal(crate::codec::message_encoding);
    lemma_headers_image_len(m.headers);
}

/// Where each field of a message's record image lies.
#[verifier::rlimit(100)]
#[verifier::spinoff_prover]
pub proof fn lemma_encoding_fields(m: MessageModel)
    requires
        wf_message(m),
    ensures
        head_u64(message_encoding(m)) == m.message_id as u64,
        head_u64(message_encoding(m).skip(8)) == m.created as u64,
        head_u32(message_encoding(m).skip(16)) == m.data.len() as u32,
        message_encoding(m).subrange(20, 20 + m.data.len() as int) =~= m.data,
        head_u32(message_encoding(m).skip(20 + m.data.len() as int)) == m.headers.len() as u32,
        message_encoding(m).skip(20 + m.data.len() as int + 4) =~= headers_image(m.headers),
        message_encoding(m).len() == 24 + m.data.len() + headers_image(m.headers).len(),
{
    reveal(crate::codec::message_encoding);
    let b = message_encoding(m);
    lemma_u64_image_round_trip(m.message_id as u64);
    lemma_u64_image_round_trip(m.created as u64);
    lemma_u32_le_round_trip(m.data.len() as u32);
    lemma_u32_le_round_trip(m.headers.len() as u32);
    let dl = m.data.len() as int;
    assert(head_u64(b) == m.message_id as u64) by {
        assert(forall|i: int| 0 <= i < 8 ==> b[i] == u64_image(m.message_id as u64)[i]);
    }
    assert(b.skip(8) =~= u64_image(m.created as u64) + u32_image(m.data.len() as u32) + m.data
        + u32_image(m.headers.len() as u32) + headers_image(m.headers));
    assert(head_u64(b.skip(8)) == m.created as u64) by {
        assert(forall|i: int| 0 <= i < 8 ==> b.skip(8)[i] == u64_image(m.created as u64)[i]);
    }
    assert(b.skip(16) =~= u32_image(m.data.len() as u32) + m.data + u32_image(
        m.headers.len() as u32,
    ) + headers_image(m.headers));
    assert(head_u32(b.skip(16)) == m.data.len() as u32);
    assert(b.subrange(20, 20 + dl) =~= m.data);
    assert(b.skip(20 + dl) =~= u32_image(m.headers.len() as u32) + headers_image(m.headers));
    assert(head_u32(b.skip(20 + dl)) == m.headers.len() as u32);
    assert(b.skip(20 + dl + 4) =~= headers_image(m.headers));
}

/// Casting a non-negative signed value through its unsigned image
/// preserves it.
pub proof fn lemma_signed_image(x: i64)
    requires
        x >= 0,
    ensures
        (x as u64) as i64 == x,
{
    assert((x as u64) as i64 == x) by (bit_vector)
        requires
            x >= 0,
    ;
}

/// A well-formed message decodes from its own image.
#[verifier::rlimit(100)]
#[verifier::spinoff_prover]
pub proof fn lemma_message_round_trip(m: MessageModel)
    requires
        wf_message(m),
    ensures
        dec_message(message_encoding(m)) == Some(m),
{
    let b = message_encoding(m);
    lemma_encoding_fields(m);
    lemma_signed_image(m.message_id);
    lemma_signed_image(m.created);
    let dl = m.data.len() as int;
    let hc = m.headers.len() as int;
    lemma_headers_round_trip(m.headers);
    assert(b.len() == 24 + dl + headers_image(m.headers).len());
    assert(dec_headers(b.skip(20 + dl + 4), hc) == Some((m.headers, Seq::<u8>::empty())));
    assert(dec_message(b) == Some(m));
}

/// A run of bounded metadata pairs parses back from its own image.
#[verifier::rlimit(100)]
#[verifier::spinoff_prover]
pub proof fn lemma_headers_round_trip(hs: Seq<(Seq<u8>, Seq<u8>)>)
    requires
        forall|i: int| 0 <= i < hs.len() ==> hs[i].0.len() <= 0x10000 && hs[i].1.len() <= 0x10000,
    ensures
        dec_headers(headers_image(hs), hs.len() as int) == Some((hs, Seq::<u8>::empty())),
    decreases hs.len(),
{
    if hs.len() == 0 {
        assert(headers_image(hs) =~= Seq::<u8>::empty());
    } else {
        let h = hs.first();
        let b = headers_image(hs);
        lemma_u32_le_round_trip(h.0.len() as u32);
        lemma_u32_le_round_trip(h.1.len() as u32);
        let kl = h.0.len() as int;
        let vl = h.1.len() as int;
        assert(b =~= u32_image(h.0.len() as u32) + h.0 + u32_image(h.1.len() as u32) + h.1
            + headers_image(hs.drop_first()));
        assert(head_u32(b) == h.0.len() as u32);
        assert(b.subrange(4, 4 + kl) =~= h.0);
        assert(b.skip(4 + kl) =~= u32_image(h.1.len() as u32) + h.1 + headers_image(
            hs.drop_first(),
        ));
        assert(head_u32(b.skip(4 + kl)) == h.1.len() as u32);
        assert(b.subrange(4 + kl + 4, 4 + kl + 4 + vl) =~= h.1);
        assert(b.skip(4 + kl + 4 + vl) =~= headers_image(hs.drop_first()));
        assert(forall|i: int|
            0 <= i < hs.drop_first().len() ==> hs.drop_first()[i].0.len() <= 0x10000
                && hs.drop_first()[i].1.len() <= 0x10000);
        lemma_headers_round_trip(hs.drop_first());
        assert(seq![(h.0, h.1)] + hs.drop_first() =~= hs);
    }
}

/// A frame image of well-formed messages parses back to those messages.
#[verifier::rlimit(100)]
#[verifier::spinoff_prover]
pub proof fn lemma_frame_round_trip(ms: Seq<MessageModel>)
    requires
        forall|i: int| 0 <= i < ms.len() ==> wf_message(ms[i]),
    ensures
        dec_frame(frame_image(ms)) == ms,
    decreases ms.len(),
{
    if ms.len() == 0 {
        assert(frame_image(ms) =~= Seq::<u8>::empty());
        assert(dec_frame(frame_image(ms)) =~= ms);
    } else {
        let m = ms.first();
        let rec = message_encoding(m);
        let b = frame_image(ms);
        lemma_encoding_len(m);
        lemma_u32_le_round_trip(rec.len() as u32);
        assert(b =~= u32_image(rec.len() as u32) + rec + frame_image(ms.drop_first()));
        assert(head_u32(b) == rec.len() as u32);
        let n = rec.len() as int;
        assert(b.subrange(4, 4 + n) =~= rec);
        assert(b.skip(4 + n) =~= frame_image(ms.drop_first()));
        lemma_message_round_trip(m);
        assert(forall|i: int| 0 <= i < ms.drop_first().len() ==> wf_message(ms.drop_first()[i]));
        lemma_frame_round_trip(ms.drop_first());
        assert(seq![m] + ms.drop_first() =~= ms);
    }
}

/// Appending one message to a run appends its framed record to the
/// run's frame image.
#[verifier::rlimit(100)]
pub proof fn lemma_frame_image_snoc(ms: Seq<MessageModel>, j: int)
    requires
        0 <= j < ms.len(),
    ensures
        frame_image(ms.take(j + 1)) == frame_image(ms.take(j)) + u32_image(
            message_encoding(ms[j]).len() as u32,
        ) + message_encoding(ms[j]),
    decreases j,
{
    if j == 0 {
        assert(ms.take(1).drop_first() =~= ms.take(0));
        assert(ms.take(1).first() == ms[0]);
        assert(frame_image(ms.take(0)) =~= Seq::<u8>::empty());
        assert(frame_image(ms.take(1)) =~= u32_image(message_encoding(ms[0]).len() as u32)
            + message_encoding(ms[0]) + frame_image(ms.take(0)));
    } else {
        lemma_frame_image_snoc(ms.drop_first(), j - 1);
        assert(ms.take(j + 1).drop_first() =~= ms.drop_first().take(j));
        assert(ms.take(j).drop_first() =~= ms.drop_first().take(j - 1));
        assert(ms.take(j + 1).first() == ms.first());
        assert(ms.take(j).first() == ms.first());
        assert(ms.drop_first()[j - 1] == ms[j]);
    }
}

/// Encodes a run of messages into one frame: each record prefixed by
/// its own length.
#[verifier::loop_isolation(false)]
pub fn encode_frame(ms: &Vec<MessageToPersist>) -> (r: Vec<u8>)
    requires
        forall|i: int| 0 <= i < ms.len() ==> wf_message(ms@[i]@),
    ensures
        r@ =~= frame_image(models_of(ms@)),
{
    let mut out: Vec<u8> = Vec::new();
    let mut j: usize = 0;
    while j < ms.len()
        invariant
            j <= ms.len(),
            out@ =~= frame_image(models_of(ms@).take(j as int)),
        decreases ms.len() - j,
    {
        let rec = encode_message(&ms[j]);
        proof {
            lemma_encoding_len(ms@[j as int]@);
        }
        push_u32_le(&mut out, rec.len() as u32);
        extend_bytes(&mut out, &rec);
        proof {
            lemma_frame_image_snoc(models_of(ms@), j as int);
        }
        j = j + 1;
    }
    proof {
        assert(models_of(ms@).take(ms@.len() as int) =~= models_of(ms@));
    }
    out
}

/// Decodes a frame: yields every record that decodes, in stored order,
/// skipping a record that does not and stopping at a truncated frame.
#[verifier::loop_isolation(false)]
#[verifier::rlimit(50)]
pub fn decode_frame(b: &Vec<u8>) -> (r: Vec<MessageToPersist>)
    ensures
        models_of(r@) =~= dec_frame(b@),
{
    let mut out: Vec<MessageToPersist> = Vec::new();
    let mut pos: usize = 0;
    proof {
        assert(b@.skip(0) =~= b@);
        assert(models_of(out@) + dec_frame(b@) =~= dec_frame(b@));
    }
    while b.len() - pos >= 4
        invariant
            pos <= b.len(),
            dec_frame(b@) =~= models_of(out@) + dec_frame(b@.skip(pos as int)),
        decreases b.len() - pos,
    {
        let ghost tail = b@.skip(pos as int);
        let n64 = read_u32_at(b, pos) as u64;
        let rem = b.len() - pos;
        if 4 + n64 > rem as u64 {
            return out;
        }
        let n = n64 as usize;
        let seg = subvec(b, pos + 4, pos + 4 + n);
        proof {
            assert(seg@ =~= tail.subrange(4, 4 + n as int));
            assert(b@.skip((pos + 4 + n) as int) =~= tail.skip(4 + n as int));
        }
        let ghost outp = out@;
        match decode_message(&seg) {
            Some(m) => {
                let ghost mv = m@;
                out.push(m);
                proof {
                    assert(models_of(out@) =~= models_of(outp) + seq![mv]);
                    assert(models_of(outp) + (seq![mv] + dec_frame(tail.skip(4 + n as int)))
                        =~= models_of(out@) + dec_frame(tail.skip(4 + n as int)));
                }
            },
            None => {
            },
        }
        pos = pos + 4 + n;
    }
    out
}

} // verus!
