use vstd::prelude::*;

use crate::sample::Sample;
use vstd::string::StringSliceAdditionalSpecFns;

verus! {

/// The kind of a frame, its byte on the wire.
#[derive(Clone, Copy, Debug, PartialEq, Eq, Structural)]
pub enum MessageType {
    Metadata,
    NameDictionaryEntry,
    SampleTreeSnapshot,
    ThreadName,
    Disconnect,
}

impl MessageType {
    pub open spec fn spec_byte(self) -> u8 {
        match self {
            MessageType::Metadata => 0,
            MessageType::NameDictionaryEntry => 1,
            MessageType::SampleTreeSnapshot => 2,
            MessageType::ThreadName => 3,
            MessageType::Disconnect => 4,
        }
    }

    pub open spec fn spec_from_byte(b: u8) -> Option<MessageType> {
        if b == 0 {
            Some(MessageType::Metadata)
        } else if b == 1 {
            Some(MessageType::NameDictionaryEntry)
        } else if b == 2 {
            Some(MessageType::SampleTreeSnapshot)
        } else if b == 3 {
            Some(MessageType::ThreadName)
        } else if b == 4 {
            Some(MessageType::Disconnect)
        } else {
            None
        }
    }

    pub fn byte(&self) -> (r: u8)
        ensures
            r == self.spec_byte(),
    {
        match self {
            MessageType::Metadata => 0,
            MessageType::NameDictionaryEntry => 1,
            MessageType::SampleTreeSnapshot => 2,
            MessageType::ThreadName => 3,
            MessageType::Disconnect => 4,
        }
    }

    pub fn from_byte(b: u8) -> (r: Option<MessageType>)
        ensures
            r == Self::spec_from_byte(b),
    {
        if b == 0 {
            Some(MessageType::Metadata)
        } else if b == 1 {
            Some(MessageType::NameDictionaryEntry)
        } else if b == 2 {
            Some(MessageType::SampleTreeSnapshot)
        } else if b == 3 {
            Some(MessageType::ThreadName)
        } else if b == 4 {
            Some(MessageType::Disconnect)
        } else {
            None
        }
    }
}

/// The eight little-endian bytes of `x`.
pub open spec fn le64(x: u64) -> Seq<u8> {
    seq![
        (x & 0xff) as u8,
        ((x >> 8) & 0xff) as u8,
        ((x >> 16) & 0xff) as u8,
        ((x >> 24) & 0xff) as u8,
        ((x >> 32) & 0xff) as u8,
        ((x >> 40) & 0xff) as u8,
        ((x >> 48) & 0xff) as u8,
        ((x >> 56) & 0xff) as u8,
    ]
}

/// The four little-endian bytes of `x`.
pub open spec fn le32(x: u32) -> Seq<u8> {
    seq![
        (x & 0xff) as u8,
        ((x >> 8) & 0xff) as u8,
        ((x >> 16) & 0xff) as u8,
        ((x >> 24) & 0xff) as u8,
    ]
}

/// The little-endian word at byte `i` of `b`.
pub open spec fn read64(b: Seq<u8>, i: int) -> u64 {
    (b[i] as u64) | ((b[i + 1] as u64) << 8u64) | ((b[i + 2] as u64) << 16u64) | ((b[i + 3] as u64)
        << 24u64) | ((b[i + 4] as u64) << 32u64) | ((b[i + 5] as u64) << 40u64) | ((b[i + 6] as u64)
        << 48u64) | ((b[i + 7] as u64) << 56u64)
}

/// The little-endian 32-bit word at byte `i` of `b`.
pub open spec fn read32(b: Seq<u8>, i: int) -> u32 {
    (b[i] as u32) | ((b[i + 1] as u32) << 8u32) | ((b[i + 2] as u32) << 16u32) | ((b[i + 3] as u32)
        << 24u32)
}

pub proof fn lemma_read64(b: Seq<u8>, i: int, x: u64)
    requires
        0 <= i,
        i + 8 <= b.len(),
        forall|k: int| 0 <= k < 8 ==> #[trigger] b[i + k] == le64(x)[k],
    ensures
        read64(b, i) == x,
{
    let b0 = b[i];
    let b1 = b[i + 1];
    let b2 = b[i + 2];
    let b3 = b[i + 3];
    let b4 = b[i + 4];
    let b5 = b[i + 5];
    let b6 = b[i + 6];
    let b7 = b[i + 7];
    assert(b[i + 0] == le64(x)[0]);
    assert(b0 == (x & 0xff) as u8 && b1 == ((x >> 8) & 0xff) as u8 && b2 == ((x >> 16) & 0xff) as u8
        && b3 == ((x >> 24) & 0xff) as u8 && b4 == ((x >> 32) & 0xff) as u8 && b5 == ((x >> 40)
        & 0xff) as u8 && b6 == ((x >> 48) & 0xff) as u8 && b7 == ((x >> 56) & 0xff) as u8);
    assert(b0 == (x & 0xff) as u8 && b1 == ((x >> 8) & 0xff) as u8 && b2 == ((x >> 16) & 0xff) as u8
        && b3 == ((x >> 24) & 0xff) as u8 && b4 == ((x >> 32) & 0xff) as u8 && b5 == ((x >> 40)
        & 0xff) as u8 && b6 == ((x >> 48) & 0xff) as u8 && b7 == ((x >> 56) & 0xff) as u8 ==> (b0 as u64)
        | ((b1 as u64) << 8u64) | ((b2 as u64) << 16u64) | ((b3 as u64) << 24u64) | ((b4 as u64)
        << 32u64) | ((b5 as u64) << 40u64) | ((b6 as u64) << 48u64) | ((b7 as u64) << 56u64) == x)
        by (bit_vector);
}

pub proof fn lemma_read32(b: Seq<u8>, i: int, x: u32)
    requires
        0 <= i,
        i + 4 <= b.len(),
        forall|k: int| 0 <= k < 4 ==> #[trigger] b[i + k] == le32(x)[k],
    ensures
        read32(b, i) == x,
{
    let b0 = b[i];
    let b1 = b[i + 1];
    let b2 = b[i + 2];
    let b3 = b[i + 3];
    assert(b[i + 0] == le32(x)[0]);
    assert(b0 == (x & 0xff) as u8 && b1 == ((x >> 8) & 0xff) as u8 && b2 == ((x >> 16) & 0xff) as u8
        && b3 == ((x >> 24) & 0xff) as u8);
    assert(b0 == (x & 0xff) as u8 && b1 == ((x >> 8) & 0xff) as u8 && b2 == ((x >> 16) & 0xff) as u8
        && b3 == ((x >> 24) & 0xff) as u8 ==> (b0 as u32) | ((b1 as u32) << 8u32) | ((b2 as u32)
        << 16u32) | ((b3 as u32) << 24u32) == x) by (bit_vector);
}

/// Words laid out as bytes, eight little-endian bytes each.
pub open spec fn enc_words(ws: Seq<u64>) -> Seq<u8>
    decreases ws.len(),
{
    if ws.len() == 0 {
        Seq::empty()
    } else {
        enc_words(ws.drop_last()) + le64(ws.last())
    }
}

/// Bytes read back as words, eight at a time.
pub open spec fn dec_words(b: Seq<u8>) -> Seq<u64> {
    Seq::new((b.len() / 8) as nat, |k: int| read64(b, 8 * k))
}

pub proof fn lemma_enc_words(ws: Seq<u64>)
    ensures
        enc_words(ws).len() == 8 * ws.len(),
        forall|k: int, j: int|
            0 <= k < ws.len() && 0 <= j < 8 ==> #[trigger] enc_words(ws)[8 * k + j] == le64(
                ws[k],
            )[j],
    decreases ws.len(),
{
    if ws.len() > 0 {
        let pre = ws.drop_last();
        lemma_enc_words(pre);
        assert forall|k: int, j: int| 0 <= k < ws.len() && 0 <= j < 8 implies #[trigger] enc_words(
            ws,
        )[8 * k + j] == le64(ws[k])[j] by {
            if k < pre.len() {
                assert(8 * k + j < 8 * pre.len()) by (nonlinear_arith)
                    requires
                        k < pre.len(),
                        j < 8,
                ;
                assert(ws[k] == pre[k]);
            } else {
                assert(8 * k + j - 8 * pre.len() == j);
            }
        }
    }
}

/// Decoding the bytes of some words gives the words back.
pub proof fn lemma_words_round_trip(ws: Seq<u64>)
    ensures
        dec_words(enc_words(ws)) == ws,
{
    lemma_enc_words(ws);
    let b = enc_words(ws);
    assert(b.len() / 8 == ws.len()) by (nonlinear_arith)
        requires
            b.len() == 8 * ws.len(),
    ;
    assert forall|k: int| 0 <= k < ws.len() implies #[trigger] dec_words(b)[k] == ws[k] by {
        assert forall|j: int| 0 <= j < 8 implies #[trigger] b[8 * k + j] == le64(ws[k])[j] by {}
        assert(8 * k + 8 <= b.len()) by (nonlinear_arith)
            requires
                k < ws.len(),
                b.len() == 8 * ws.len(),
        ;
        lemma_read64(b, 8 * k, ws[k]);
    }
    assert(dec_words(b) =~= ws);
}

/// The words of one sample record.
pub open spec fn sample_words(s: Sample) -> Seq<u64> {
    seq![s.name, s.depth, s.start, s.end, s.duration, s.call_count, s.flags as u64, s.last_start]
}

pub open spec fn samples_words(rs: Seq<Sample>) -> Seq<u64>
    decreases rs.len(),
{
    if rs.len() == 0 {
        Seq::empty()
    } else {
        samples_words(rs.drop_last()) + sample_words(rs.last())
    }
}

/// The sample record whose words start at `i`.
pub open spec fn sample_at(ws: Seq<u64>, i: int) -> Sample {
    Sample {
        name: ws[i],
        depth: ws[i + 1],
        start: ws[i + 2],
        end: ws[i + 3],
        duration: ws[i + 4],
        call_count: ws[i + 5],
        flags: ws[i + 6] as u32,
        last_start: ws[i + 7],
    }
}

pub open spec fn samples_from(ws: Seq<u64>) -> Seq<Sample> {
    Seq::new((ws.len() / 8) as nat, |k: int| sample_at(ws, 8 * k))
}

pub proof fn lemma_samples_words(rs: Seq<Sample>)
    ensures
        samples_words(rs).len() == 8 * rs.len(),
        forall|k: int, j: int|
            0 <= k < rs.len() && 0 <= j < 8 ==> #[trigger] samples_words(rs)[8 * k + j]
                == sample_words(rs[k])[j],
    decreases rs.len(),
{
    if rs.len() > 0 {
        let pre = rs.drop_last();
        lemma_samples_words(pre);
        assert forall|k: int, j: int| 0 <= k < rs.len() && 0 <= j < 8 implies #[trigger] samples_words(
            rs,
        )[8 * k + j] == sample_words(rs[k])[j] by {
            if k < pre.len() {
                assert(8 * k + j < 8 * pre.len()) by (nonlinear_arith)
                    requires
                        k < pre.len(),
                        j < 8,
                ;
                assert(rs[k] == pre[k]);
            } else {
                assert(8 * k + j - 8 * pre.len() == j);
            }
        }
    }
}

/// Reading records back from their words gives the records.
pub proof fn lemma_samples_round_trip(rs: Seq<Sample>)
    ensures
        samples_from(samples_words(rs)) == rs,
{
    lemma_samples_words(rs);
    let ws = samples_words(rs);
    assert(ws.len() / 8 == rs.len()) by (nonlinear_arith)
        requires
            ws.len() == 8 * rs.len(),
    ;
    assert forall|k: int| 0 <= k < rs.len() implies #[trigger] samples_from(ws)[k] == rs[k] by {
        assert forall|j: int| 0 <= j < 8 implies #[trigger] ws[8 * k + j] == sample_words(rs[k])[j] by {}
        assert(ws[8 * k + 0] == rs[k].name);
        assert(ws[8 * k + 6] == rs[k].flags as u64);
    }
    assert(samples_from(ws) =~= rs);
}

/// The largest number of records one snapshot frame carries.
pub const MAX_FRAME_SAMPLES: usize = 67000000;

/// A frame: payload length (4 bytes), message type (1 byte), payload.
pub open spec fn frame(kind: MessageType, payload: Seq<u8>) -> Seq<u8> {
    le32(payload.len() as u32) + seq![kind.spec_byte()] + payload
}

/// The kind and payload of a frame that fills `b` exactly.
pub open spec fn parse_frame(b: Seq<u8>) -> Option<(MessageType, Seq<u8>)> {
    if b.len() >= 5 && read32(b, 0) as int == b.len() - 5 && MessageType::spec_from_byte(b[4]) is Some {
        Some((MessageType::spec_from_byte(b[4])->0, b.skip(5)))
    } else {
        None
    }
}

/// The payload of a snapshot: thread id, record count, the records.
pub open spec fn snapshot_payload(thread_id: u64, rs: Seq<Sample>) -> Seq<u8> {
    enc_words(seq![thread_id, rs.len() as u64] + samples_words(rs))
}

pub open spec fn parse_snapshot(p: Seq<u8>) -> Option<(u64, Seq<Sample>)> {
    let ws = dec_words(p);
    if p.len() % 8 == 0 && p.len() >= 16 && (ws.len() - 2) % 8 == 0 && ws[1] as int == (ws.len() - 2)
        / 8 {
        Some((ws[0], samples_from(ws.skip(2))))
    } else {
        None
    }
}

pub open spec fn encode_snapshot_spec(thread_id: u64, rs: Seq<Sample>) -> Seq<u8> {
    frame(MessageType::SampleTreeSnapshot, snapshot_payload(thread_id, rs))
}

pub open spec fn decode_snapshot_spec(b: Seq<u8>) -> Option<(u64, Seq<Sample>)> {
    match parse_frame(b) {
        Some((MessageType::SampleTreeSnapshot, p)) => parse_snapshot(p),
        _ => None,
    }
}

/// Parsing a frame gives back the kind and payload it was made of.
pub proof fn lemma_frame_round_trip(kind: MessageType, payload: Seq<u8>)
    requires
        payload.len() <= u32::MAX,
    ensures
        parse_frame(frame(kind, payload)) == Some((kind, payload)),
{
    let b = frame(kind, payload);
    let n = payload.len() as u32;
    assert forall|k: int| 0 <= k < 4 implies #[trigger] b[0 + k] == le32(n)[k] by {}
    lemma_read32(b, 0, n);
    assert(b.skip(5) =~= payload);
}

proof fn lemma_snapshot_payload(thread_id: u64, rs: Seq<Sample>)
    requires
        rs.len() <= MAX_FRAME_SAMPLES,
    ensures
        snapshot_payload(thread_id, rs).len() <= u32::MAX,
        parse_snapshot(snapshot_payload(thread_id, rs)) == Some((thread_id, rs)),
{
    let sw = samples_words(rs);
    let ws = seq![thread_id, rs.len() as u64] + sw;
    lemma_samples_words(rs);
    lemma_enc_words(ws);
    let p = snapshot_payload(thread_id, rs);
    lemma_words_round_trip(ws);
    assert(p.len() % 8 == 0 && p.len() / 8 == ws.len()) by (nonlinear_arith)
        requires
            p.len() == 8 * ws.len(),
    ;
    assert(dec_words(p).len() == ws.len());
    assert((ws.len() - 2) / 8 == rs.len() && (ws.len() - 2) % 8 == 0) by (nonlinear_arith)
        requires
            ws.len() - 2 == 8 * rs.len(),
    ;
    assert(ws.skip(2) =~= sw);
    lemma_samples_round_trip(rs);
}

/// Decoding the encoding of a thread's tree gives the same thread id and
/// the same records: names, depths, times, durations, counts and flags.
pub proof fn lemma_snapshot_round_trip(thread_id: u64, rs: Seq<Sample>)
    requires
        rs.len() <= MAX_FRAME_SAMPLES,
    ensures
        decode_snapshot_spec(encode_snapshot_spec(thread_id, rs)) == Some((thread_id, rs)),
{
    lemma_snapshot_payload(thread_id, rs);
    lemma_frame_round_trip(MessageType::SampleTreeSnapshot, snapshot_payload(thread_id, rs));
}

fn push_word(out: &mut Vec<u8>, x: u64, Ghost(ws): Ghost<Seq<u64>>)
    requires
        old(out)@ == enc_words(ws),
    ensures
        final(out)@ == enc_words(ws.push(x)),
{
    out.push((x & 0xff) as u8);
    out.push(((x >> 8) & 0xff) as u8);
    out.push(((x >> 16) & 0xff) as u8);
    out.push(((x >> 24) & 0xff) as u8);
    out.push(((x >> 32) & 0xff) as u8);
    out.push(((x >> 40) & 0xff) as u8);
    out.push(((x >> 48) & 0xff) as u8);
    out.push(((x >> 56) & 0xff) as u8);
    proof {
        assert(ws.push(x).drop_last() =~= ws);
        assert(out@ =~= enc_words(ws) + le64(x));
    }
}

fn read_word(b: &Vec<u8>, i: usize) -> (r: u64)
    requires
        i + 8 <= b@.len(),
    ensures
        r == read64(b@, i as int),
{
    let n = b.len();
    proof {
        assert(i + 8 <= n);
    }
    (b[i] as u64) | ((b[i + 1] as u64) << 8u64) | ((b[i + 2] as u64) << 16u64) | ((b[i + 3] as u64)
        << 24u64) | ((b[i + 4] as u64) << 32u64) | ((b[i + 5] as u64) << 40u64) | ((b[i + 6] as u64)
        << 48u64) | ((b[i + 7] as u64) << 56u64)
}

/// Frames `payload` as a message of the given kind; `None` when the
/// payload is too long for the 4-byte length.
pub fn encode_frame(kind: MessageType, payload: Vec<u8>) -> (r: Option<Vec<u8>>)
    ensures
        (payload@.len() <= u32::MAX) == (r is Some),
        r is Some ==> r->0@ == frame(kind, payload@),
{
    if payload.len() > u32::MAX as usize {
        return None;
    }
    let mut payload = payload;
    let n = payload.len() as u32;
    let mut out: Vec<u8> = Vec::new();
    out.push((n & 0xff) as u8);
    out.push(((n >> 8) & 0xff) as u8);
    out.push(((n >> 16) & 0xff) as u8);
    out.push(((n >> 24) & 0xff) as u8);
    out.push(kind.byte());
    let ghost p = payload@;
    out.append(&mut payload);
    proof {
        assert(out@ =~= frame(kind, p));
    }
    Some(out)
}

pub open spec fn frame_view(f: (MessageType, Vec<u8>)) -> (MessageType, Seq<u8>) {
    (f.0, f.1@)
}

/// Parses a buffer that holds exactly one frame.
pub fn decode_frame(b: &Vec<u8>) -> (r: Option<(MessageType, Vec<u8>)>)
    ensures
        r is None ==> parse_frame(b@) is None,
        r is Some ==> parse_frame(b@) == Some(frame_view(r->0)),
{
    if b.len() < 5 {
        return None;
    }
    let n = (b[0] as u32) | ((b[1] as u32) << 8u32) | ((b[2] as u32) << 16u32) | ((b[3] as u32)
        << 24u32);
    if n as usize != b.len() - 5 {
        return None;
    }
    let kind = match MessageType::from_byte(b[4]) {
        Some(k) => k,
        None => {
            return None;
        },
    };
    let mut payload: Vec<u8> = Vec::new();
    let mut i: usize = 5;
    while i < b.len()
        invariant
            5 <= i <= b.len(),
            payload@ == b@.subrange(5, i as int),
        decreases b.len() - i,
    {
        payload.push(b[i]);
        i = i + 1;
        proof {
            assert(payload@ =~= b@.subrange(5, i as int));
        }
    }
    proof {
        assert(payload@ =~= b@.skip(5));
    }
    Some((kind, payload))
}

/// Encodes one thread's tree as a snapshot frame; `None` when it holds
/// more than `MAX_FRAME_SAMPLES` records.
pub fn encode_snapshot(thread_id: u64, rs: &Vec<Sample>) -> (r: Option<Vec<u8>>)
    ensures
        (rs@.len() <= MAX_FRAME_SAMPLES) == (r is Some),
        r is Some ==> r->0@ == encode_snapshot_spec(thread_id, rs@),
{
    if rs.len() > MAX_FRAME_SAMPLES {
        return None;
    }
    let mut payload: Vec<u8> = Vec::new();
    let ghost head = seq![thread_id, rs.len() as u64];
    proof {
        assert(Seq::<u64>::empty().push(thread_id).drop_last() =~= Seq::<u64>::empty());
        assert(payload@ =~= enc_words(Seq::<u64>::empty()));
    }
    push_word(&mut payload, thread_id, Ghost(Seq::empty()));
    let ghost one: Seq<u64> = seq![thread_id];
    proof {
        assert(Seq::<u64>::empty().push(thread_id) =~= one);
    }
    push_word(&mut payload, rs.len() as u64, Ghost(one));
    proof {
        assert(seq![thread_id].push(rs.len() as u64) =~= head);
        assert(head + samples_words(rs@.take(0)) =~= head);
    }
    let mut i: usize = 0;
    while i < rs.len()
        invariant
            i <= rs.len(),
            rs.len() <= MAX_FRAME_SAMPLES,
            head == seq![thread_id, rs@.len() as u64],
            payload@ == enc_words(head + samples_words(rs@.take(i as int))),
        decreases rs.len() - i,
    {
        let s = rs[i];
        let ghost w = head + samples_words(rs@.take(i as int));
        push_word(&mut payload, s.name, Ghost(w));
        push_word(&mut payload, s.depth, Ghost(w.push(s.name)));
        push_word(&mut payload, s.start, Ghost(w.push(s.name).push(s.depth)));
        push_word(&mut payload, s.end, Ghost(w.push(s.name).push(s.depth).push(s.start)));
        push_word(&mut payload, s.duration, Ghost(w.push(s.name).push(s.depth).push(s.start).push(s.end)));
        push_word(
            &mut payload,
            s.call_count,
            Ghost(w.push(s.name).push(s.depth).push(s.start).push(s.end).push(s.duration)),
        );
        push_word(
            &mut payload,
            s.flags as u64,
            Ghost(w.push(s.name).push(s.depth).push(s.start).push(s.end).push(s.duration).push(s.call_count)),
        );
        push_word(
            &mut payload,
            s.last_start,
            Ghost(
                w.push(s.name).push(s.depth).push(s.start).push(s.end).push(s.duration).push(s.call_count).push(
                    s.flags as u64,
                ),
            ),
        );
        proof {
            let t = rs@.take(i + 1);
            assert(t.drop_last() =~= rs@.take(i as int));
            assert(t.last() == s);
            assert(head + samples_words(t) =~= w.push(s.name).push(s.depth).push(s.start).push(s.end).push(
                s.duration,
            ).push(s.call_count).push(s.flags as u64).push(s.last_start));
        }
        i = i + 1;
    }
    proof {
        assert(rs@.take(rs@.len() as int) =~= rs@);
        lemma_samples_words(rs@);
        lemma_enc_words(head + samples_words(rs@));
        assert(payload@.len() <= u32::MAX) by (nonlinear_arith)
            requires
                payload@.len() == 8 * (2 + 8 * rs@.len()),
                rs@.len() <= MAX_FRAME_SAMPLES,
        ;
    }
    encode_frame(MessageType::SampleTreeSnapshot, payload)
}

/// The payload of a message that names something: the id, then the
/// name's UTF-8 bytes.
pub open spec fn named_payload(id: u64, name: Seq<u8>) -> Seq<u8> {
    le64(id) + name
}

pub open spec fn parse_named(p: Seq<u8>) -> Option<(u64, Seq<u8>)> {
    if p.len() >= 8 {
        Some((read64(p, 0), p.skip(8)))
    } else {
        None
    }
}

/// Whether frames of this kind carry an id and a name.
pub open spec fn is_named_kind(k: MessageType) -> bool {
    k == MessageType::NameDictionaryEntry || k == MessageType::ThreadName
}

pub open spec fn decode_named_spec(b: Seq<u8>) -> Option<(MessageType, u64, Seq<u8>)> {
    match parse_frame(b) {
        Some((k, p)) => if is_named_kind(k) && p.len() >= 8 {
            Some((k, read64(p, 0), p.skip(8)))
        } else {
            None
        },
        None => None,
    }
}

/// Decoding a name dictionary entry or a thread name frame gives back
/// its kind, id and name bytes.
pub proof fn lemma_named_round_trip(kind: MessageType, id: u64, name: Seq<u8>)
    requires
        is_named_kind(kind),
        name.len() + 8 <= u32::MAX,
    ensures
        decode_named_spec(frame(kind, named_payload(id, name))) == Some((kind, id, name)),
{
    let p = named_payload(id, name);
    lemma_frame_round_trip(kind, p);
    assert forall|k: int| 0 <= k < 8 implies #[trigger] p[0 + k] == le64(id)[k] by {}
    lemma_read64(p, 0, id);
    assert(p.skip(8) =~= name);
}

fn encode_named(kind: MessageType, id: u64, name: &str) -> (r: Option<Vec<u8>>)
    ensures
        (name.spec_bytes().len() + 8 <= u32::MAX) == (r is Some),
        r is Some ==> r->0@ == frame(kind, named_payload(id, name.spec_bytes())),
{
    let bytes = name.as_bytes();
    let mut payload: Vec<u8> = Vec::new();
    proof {
        assert(payload@ =~= enc_words(Seq::<u64>::empty()));
    }
    push_word(&mut payload, id, Ghost(Seq::empty()));
    proof {
        assert(Seq::<u64>::empty().push(id).drop_last() =~= Seq::<u64>::empty());
        assert(payload@ =~= le64(id));
    }
    let mut k: usize = 0;
    while k < bytes.len()
        invariant
            k <= bytes@.len(),
            bytes@ == name.spec_bytes(),
            payload@ == le64(id) + bytes@.take(k as int),
        decreases bytes@.len() - k,
    {
        payload.push(bytes[k]);
        k = k + 1;
        proof {
            assert(payload@ =~= le64(id) + bytes@.take(k as int));
        }
    }
    proof {
        assert(bytes@.take(k as int) =~= bytes@);
    }
    encode_frame(kind, payload)
}

/// A name dictionary entry: the name with index `id` in its thread's
/// table. `None` when the name is too long for a frame.
pub fn encode_name_entry(id: u64, name: &str) -> (r: Option<Vec<u8>>)
    ensures
        (name.spec_bytes().len() + 8 <= u32::MAX) == (r is Some),
        r is Some ==> r->0@ == frame(MessageType::NameDictionaryEntry, named_payload(id, name.spec_bytes())),
{
    encode_named(MessageType::NameDictionaryEntry, id, name)
}

/// The display name of thread `thread_id`. `None` when the name is too
/// long for a frame.
pub fn encode_thread_name(thread_id: u64, name: &str) -> (r: Option<Vec<u8>>)
    ensures
        (name.spec_bytes().len() + 8 <= u32::MAX) == (r is Some),
        r is Some ==> r->0@ == frame(MessageType::ThreadName, named_payload(thread_id, name.spec_bytes())),
{
    encode_named(MessageType::ThreadName, thread_id, name)
}

pub open spec fn named_view(v: (MessageType, u64, Vec<u8>)) -> (MessageType, u64, Seq<u8>) {
    (v.0, v.1, v.2@)
}

/// Decodes a buffer that holds exactly one name dictionary entry or
/// thread name frame.
pub fn decode_named(b: &Vec<u8>) -> (r: Option<(MessageType, u64, Vec<u8>)>)
    ensures
        r is None ==> decode_named_spec(b@) is None,
        r is Some ==> decode_named_spec(b@) == Some(named_view(r->0)),
{
    let (kind, p) = match decode_frame(b) {
        Some(f) => f,
        None => {
            return None;
        },
    };
    if kind != MessageType::NameDictionaryEntry && kind != MessageType::ThreadName {
        return None;
    }
    if p.len() < 8 {
        return None;
    }
    let id = read_word(&p, 0);
    let name = copy_tail(&p, 8);
    Some((kind, id, name))
}

fn copy_tail(b: &Vec<u8>, lo: usize) -> (r: Vec<u8>)
    requires
        lo <= b.len(),
    ensures
        r@ == b@.skip(lo as int),
{
    let mut out: Vec<u8> = Vec::new();
    let mut k: usize = lo;
    while k < b.len()
        invariant
            lo <= k <= b.len(),
            out@ == b@.subrange(lo as int, k as int),
        decreases b.len() - k,
    {
        out.push(b[k]);
        k = k + 1;
        proof {
            assert(out@ =~= b@.subrange(lo as int, k as int));
        }
    }
    proof {
        assert(out@ =~= b@.skip(lo as int));
    }
    out
}

pub open spec fn snapshot_view(v: (u64, Vec<Sample>)) -> (u64, Seq<Sample>) {
    (v.0, v.1@)
}

/// Decodes a buffer that holds exactly one snapshot frame.
pub fn decode_snapshot(b: &Vec<u8>) -> (r: Option<(u64, Vec<Sample>)>)
    ensures
        r is None ==> decode_snapshot_spec(b@) is None,
        r is Some ==> decode_snapshot_spec(b@) == Some(snapshot_view(r->0)),
{
    let (kind, p) = match decode_frame(b) {
        Some(f) => f,
        None => {
            return None;
        },
    };
    if kind != MessageType::SampleTreeSnapshot {
        return None;
    }
    let n = p.len();
    if n % 8 != 0 || n < 16 {
        return None;
    }
    let nw = n / 8;
    if (nw - 2) % 8 != 0 {
        return None;
    }
    let ghost ws = dec_words(p@);
    let thread_id = read_word(&p, 0);
    let count = read_word(&p, 8);
    let m = (nw - 2) / 8;
    proof {
        assert(ws[0] == thread_id);
        assert(ws[1] == count);
    }
    if count != m as u64 {
        return None;
    }
    let ghost tail = ws.skip(2);
    let mut out: Vec<Sample> = Vec::new();
    let mut k: usize = 0;
    while k < m
        invariant
            k <= m,
            m == (nw - 2) / 8,
            nw == n / 8,
            n == p@.len(),
            n % 8 == 0,
            n >= 16,
            (nw - 2) % 8 == 0,
            ws == dec_words(p@),
            tail == ws.skip(2),
            out@ == samples_from(tail).take(k as int),
        decreases m - k,
    {
        assert(16 + 64 * k + 64 <= n) by (nonlinear_arith)
            requires
                k < m,
                m == (nw - 2) / 8,
                nw == n / 8,
                n % 8 == 0,
                (nw - 2) % 8 == 0,
                n >= 16,
        ;
        let base = 16 + 64 * k;
        let s = Sample {
            name: read_word(&p, base),
            depth: read_word(&p, base + 8),
            start: read_word(&p, base + 16),
            end: read_word(&p, base + 24),
            duration: read_word(&p, base + 32),
            call_count: read_word(&p, base + 40),
            flags: read_word(&p, base + 48) as u32,
            last_start: read_word(&p, base + 56),
        };
        proof {
            assert(ws.len() == nw);
            assert(tail.len() == nw - 2);
            assert(samples_from(tail).len() == m);
            assert forall|j: int| 0 <= j < 8 implies #[trigger] tail[8 * k + j] == read64(p@, base + 8 * j) by {
                assert(tail[8 * k + j] == ws[8 * k + j + 2]);
            }
            assert(s == sample_at(tail, 8 * k));
            assert(samples_from(tail).take(k + 1) =~= samples_from(tail).take(k as int).push(s));
        }
        out.push(s);
        k = k + 1;
    }
    proof {
        assert(samples_from(tail).take(m as int) =~= samples_from(tail));
    }
    Some((thread_id, out))
}

} // verus!
