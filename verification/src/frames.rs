//! MTU-aware fragmentation and reassembly of application payloads.
//!
//! A payload that does not fit in one BLE write is cut into fragments. Each
//! fragment starts with a one-byte flags field and a little-endian 16-bit
//! sequence number; the first fragment additionally carries the little-endian
//! 16-bit length of the whole payload. The reassembler consumes fragments in
//! link order and yields the payload once it is complete.

use vstd::prelude::*;
use vstd::slice::{slice_subrange, slice_to_vec};

verus! {

/// Flag marking the first fragment of a multi-fragment message.
pub const FLAG_FIRST: u8 = 1;
/// Flag marking the last fragment of a multi-fragment message.
pub const FLAG_LAST: u8 = 2;
/// Flag marking a message carried whole in one fragment.
pub const FLAG_SINGLE: u8 = 4;
/// A middle fragment carries no flag bits.
pub const FLAG_MIDDLE: u8 = 0;

/// Header bytes on a FIRST or SINGLE fragment: flags, seq, total_len.
pub const HEADER_FIRST: usize = 5;
/// Header bytes on a MIDDLE or LAST fragment: flags, seq.
pub const HEADER_REST: usize = 3;

/// Reassembly buffers are capped at 64 KiB; past that the reassembler resets.
pub const MAX_REASSEMBLY: usize = 65536;

/// Smallest ATT MTU the link can negotiate.
pub const MIN_MTU: usize = 23;

/// Largest payload one message may carry: total_len is a 16-bit field.
pub const MAX_PAYLOAD: usize = 65535;

/// Two bytes, little-endian, of a value below 2^16.
pub open spec fn le16(x: int) -> Seq<u8>
    recommends
        0 <= x < 65536,
{
    seq![(x % 256) as u8, ((x / 256) % 256) as u8]
}

/// The value read back from two little-endian bytes.
pub open spec fn read_le16(lo: u8, hi: u8) -> int {
    lo + 256 * hi
}

pub proof fn lemma_le16_roundtrip(x: int)
    requires
        0 <= x < 65536,
    ensures
        read_le16(le16(x)[0], le16(x)[1]) == x,
{
    assert(x / 256 < 256);
    assert(x % 256 + 256 * (x / 256) == x);
}

/// The one fragment of a message that fits a single BLE write.
pub open spec fn frame_single(body: Seq<u8>) -> Seq<u8>
    recommends
        body.len() < 65536,
{
    seq![FLAG_SINGLE] + le16(0) + le16(body.len() as int) + body
}

/// The first fragment of a multi-fragment message.
pub open spec fn frame_first(total: int, body: Seq<u8>) -> Seq<u8>
    recommends
        0 <= total < 65536,
{
    seq![FLAG_FIRST] + le16(0) + le16(total) + body
}

/// A middle or last fragment.
pub open spec fn frame_rest(flags: u8, seqno: int, body: Seq<u8>) -> Seq<u8>
    recommends
        0 <= seqno < 65536,
{
    seq![flags] + le16(seqno) + body
}

/// The fragments after the first one, covering `p` from `off` on, the next
/// carrying sequence number `seqno`.
pub open spec fn spec_chunk_rest(p: Seq<u8>, mtu: int, off: int, seqno: int) -> Seq<Seq<u8>>
    recommends
        MIN_MTU <= mtu,
        0 <= off < p.len(),
    decreases p.len() - off,
    when 0 <= off < p.len() && MIN_MTU <= mtu
{
    let body = mtu - HEADER_REST;
    if off + body >= p.len() {
        seq![frame_rest(FLAG_LAST, seqno, p.subrange(off, p.len() as int))]
    } else {
        seq![frame_rest(FLAG_MIDDLE, seqno, p.subrange(off, off + body))] + spec_chunk_rest(
            p,
            mtu,
            off + body,
            seqno + 1,
        )
    }
}

/// The fragments of payload `p` at MTU `mtu`, in send order.
pub open spec fn spec_chunk(p: Seq<u8>, mtu: int) -> Seq<Seq<u8>> {
    if p.len() + HEADER_FIRST <= mtu {
        seq![frame_single(p)]
    } else {
        seq![frame_first(p.len() as int, p.subrange(0, mtu - HEADER_FIRST))] + spec_chunk_rest(
            p,
            mtu,
            mtu - HEADER_FIRST,
            1,
        )
    }
}

fn push_le16(v: &mut Vec<u8>, x: u16)
    ensures
        final(v)@ == old(v)@ + le16(x as int),
{
    v.push((x % 256) as u8);
    v.push((x / 256) as u8);
    proof {
        assert(v@ =~= old(v)@ + le16(x as int));
    }
}

/// Cuts `payload` into fragments at the given MTU, in send order.
pub fn chunk_message(payload: &[u8], mtu: usize) -> (frames: Vec<Vec<u8>>)
    requires
        MIN_MTU <= mtu,
        payload@.len() <= MAX_PAYLOAD,
    ensures
        frames.deep_view() == spec_chunk(payload@, mtu as int),
{
    let n = payload.len();
    let mut frames: Vec<Vec<u8>> = Vec::new();
    if n + HEADER_FIRST <= mtu {
        let mut f: Vec<u8> = Vec::new();
        f.push(FLAG_SINGLE);
        push_le16(&mut f, 0);
        push_le16(&mut f, n as u16);
        f.extend_from_slice(payload);
        proof {
            assert(f@ =~= frame_single(payload@));
        }
        frames.push(f);
        proof {
            assert(frames.deep_view() =~~= spec_chunk(payload@, mtu as int));
        }
    } else {
        let chunk_body = mtu - HEADER_REST;
        let body_first = mtu - HEADER_FIRST;
        let mut f: Vec<u8> = Vec::new();
        f.push(FLAG_FIRST);
        push_le16(&mut f, 0);
        push_le16(&mut f, n as u16);
        f.extend_from_slice(slice_subrange(payload, 0, body_first));
        proof {
            assert(f@ =~= frame_first(n as int, payload@.subrange(0, body_first as int)));
        }
        frames.push(f);
        let mut off: usize = body_first;
        let mut seqno: usize = 1;
        proof {
            assert(frames.deep_view() =~~= seq![
                frame_first(n as int, payload@.subrange(0, body_first as int)),
            ]);
        }
        while off + chunk_body < n
            invariant
                MIN_MTU <= mtu,
                n == payload@.len() <= MAX_PAYLOAD,
                chunk_body == mtu - HEADER_REST,
                mtu < n + HEADER_FIRST,
                0 < off < n,
                1 <= seqno,
                20 * (seqno - 1) <= off,
                frames.deep_view() + spec_chunk_rest(payload@, mtu as int, off as int, seqno as int)
                    =~~= spec_chunk(payload@, mtu as int),
            decreases n - off,
        {
            let mut f: Vec<u8> = Vec::new();
            f.push(FLAG_MIDDLE);
            push_le16(&mut f, seqno as u16);
            f.extend_from_slice(slice_subrange(payload, off, off + chunk_body));
            proof {
                assert(f@ =~= frame_rest(
                    FLAG_MIDDLE,
                    seqno as int,
                    payload@.subrange(off as int, (off + chunk_body) as int),
                ));
                assert(frames.deep_view().push(f@) + spec_chunk_rest(
                    payload@,
                    mtu as int,
                    (off + chunk_body) as int,
                    (seqno + 1) as int,
                ) =~~= frames.deep_view() + spec_chunk_rest(
                    payload@,
                    mtu as int,
                    off as int,
                    seqno as int,
                ));
            }
            let ghost old_dv = frames.deep_view();
            frames.push(f);
            proof {
                assert(frames.deep_view() =~~= old_dv.push(f@));
            }
            off = off + chunk_body;
            seqno = seqno + 1;
        }
        let mut f: Vec<u8> = Vec::new();
        f.push(FLAG_LAST);
        push_le16(&mut f, seqno as u16);
        f.extend_from_slice(slice_subrange(payload, off, n));
        proof {
            assert(f@ =~= frame_rest(FLAG_LAST, seqno as int, payload@.subrange(off as int, n as int)));
        }
        let ghost old_dv = frames.deep_view();
        frames.push(f);
        proof {
            assert(frames.deep_view() =~~= old_dv.push(f@));
            assert(frames.deep_view() =~~= spec_chunk(payload@, mtu as int));
        }
    }
    frames
}

/// A fragment as the reassembler reads it off the wire.
pub ghost enum ParsedFrame {
    Single(Seq<u8>),
    First(int, int, Seq<u8>),
    Middle(int, Seq<u8>),
    Last(int, Seq<u8>),
}

/// Reads the header of one fragment. Unknown flag combinations parse to
/// nothing and are dropped.
pub open spec fn spec_parse_frame(d: Seq<u8>) -> Option<ParsedFrame> {
    if d.len() < HEADER_REST {
        None
    } else {
        let flags = d[0];
        let seqno = read_le16(d[1], d[2]);
        if flags == FLAG_SINGLE {
            if d.len() >= HEADER_FIRST {
                Some(ParsedFrame::Single(d.subrange(HEADER_FIRST as int, d.len() as int)))
            } else {
                None
            }
        } else if flags == FLAG_FIRST {
            if d.len() >= HEADER_FIRST {
                Some(
                    ParsedFrame::First(
                        seqno,
                        read_le16(d[3], d[4]),
                        d.subrange(HEADER_FIRST as int, d.len() as int),
                    ),
                )
            } else {
                None
            }
        } else if flags == FLAG_MIDDLE {
            Some(ParsedFrame::Middle(seqno, d.subrange(HEADER_REST as int, d.len() as int)))
        } else if flags == FLAG_LAST {
            Some(ParsedFrame::Last(seqno, d.subrange(HEADER_REST as int, d.len() as int)))
        } else {
            None
        }
    }
}

/// The mathematical state of the reassembler.
#[verifier::ext_equal]
pub ghost struct RState {
    /// A FIRST fragment has been seen and the message is still incomplete.
    pub active: bool,
    /// Length the payload will have, from the FIRST fragment.
    pub total: int,
    /// Sequence number the next fragment must carry.
    pub next_seq: int,
    /// Bytes collected so far.
    pub buf: Seq<u8>,
}

/// The reassembler before any fragment, and after every reset.
pub open spec fn init_rstate() -> RState {
    RState { active: false, total: 0, next_seq: 0, buf: seq![] }
}

/// One step of the reassembler: the state after a fragment, and the payload
/// it completes, if any. Out-of-order fragments and oversized buffers reset
/// the state; fragments with no FIRST before them are dropped silently.
pub open spec fn spec_step(st: RState, d: Seq<u8>) -> (RState, Option<Seq<u8>>) {
    match spec_parse_frame(d) {
        None => (st, None::<Seq<u8>>),
        Some(ParsedFrame::Single(body)) => (init_rstate(), Some(body)),
        Some(ParsedFrame::First(seqno, total, body)) => {
            if seqno != 0 {
                (init_rstate(), None)
            } else if body.len() >= total {
                (init_rstate(), Some(body))
            } else {
                (RState { active: true, total, next_seq: 1, buf: body }, None)
            }
        },
        Some(ParsedFrame::Middle(seqno, body)) => {
            if !st.active {
                (st, None)
            } else if seqno != st.next_seq {
                (init_rstate(), None)
            } else {
                let buf = st.buf + body;
                if buf.len() > MAX_REASSEMBLY {
                    (init_rstate(), None)
                } else if buf.len() >= st.total {
                    (init_rstate(), Some(buf))
                } else {
                    (RState { active: true, total: st.total, next_seq: seqno + 1, buf }, None)
                }
            }
        },
        Some(ParsedFrame::Last(seqno, body)) => {
            if !st.active {
                (st, None)
            } else if seqno != st.next_seq {
                (init_rstate(), None)
            } else {
                let buf = st.buf + body;
                if buf.len() > MAX_REASSEMBLY {
                    (init_rstate(), None)
                } else {
                    (init_rstate(), Some(buf))
                }
            }
        },
    }
}

/// Runs the reassembler over a sequence of fragments, collecting every
/// payload it completes, in order.
pub open spec fn spec_feed(st: RState, frames: Seq<Seq<u8>>) -> (RState, Seq<Seq<u8>>)
    decreases frames.len(),
{
    if frames.len() == 0 {
        (st, seq![])
    } else {
        let (st1, out) = spec_step(st, frames[0]);
        let (st2, outs) = spec_feed(st1, frames.drop_first());
        (
            st2,
            match out {
                Some(p) => seq![p] + outs,
                None => outs,
            },
        )
    }
}

/// Collects fragments written to the Command-RX characteristic back into
/// whole payloads.
pub struct MessageReassembler {
    active: bool,
    expected_total: usize,
    next_seq: usize,
    buffer: Vec<u8>,
}

impl View for MessageReassembler {
    type V = RState;

    closed spec fn view(&self) -> RState {
        RState {
            active: self.active,
            total: self.expected_total as int,
            next_seq: self.next_seq as int,
            buf: self.buffer@,
        }
    }
}

impl MessageReassembler {
    /// A reassembler that has seen no fragment.
    pub fn new() -> (r: Self)
        ensures
            r@ == init_rstate(),
    {
        let r = MessageReassembler { active: false, expected_total: 0, next_seq: 0, buffer: Vec::new() };
        proof {
            assert(r@ =~= init_rstate());
        }
        r
    }

    /// Discards any partial message.
    pub fn reset(&mut self)
        ensures
            final(self)@ == init_rstate(),
    {
        self.active = false;
        self.expected_total = 0;
        self.next_seq = 0;
        self.buffer = Vec::new();
        proof {
            assert(self@ =~= init_rstate());
        }
    }

    /// Consumes one fragment; returns the reassembled payload when the
    /// fragment completes a message.
    pub fn process_packet(&mut self, data: &[u8]) -> (r: Option<Vec<u8>>)
        ensures
            final(self)@ == spec_step(old(self)@, data@).0,
            match r {
                Some(v) => spec_step(old(self)@, data@).1 == Some(v@),
                None => spec_step(old(self)@, data@).1 is None,
            },
    {
        if data.len() < HEADER_REST {
            return None;
        }
        let flags = data[0];
        let seqno: usize = (data[1] as usize) + 256 * (data[2] as usize);
        if flags == FLAG_SINGLE {
            if data.len() >= HEADER_FIRST {
                self.reset();
                let body = slice_to_vec(slice_subrange(data, HEADER_FIRST, data.len()));
                Some(body)
            } else {
                None
            }
        } else if flags == FLAG_FIRST {
            if data.len() >= HEADER_FIRST {
                let total: usize = (data[3] as usize) + 256 * (data[4] as usize);
                if seqno != 0 {
                    self.reset();
                    return None;
                }
                let body = slice_to_vec(slice_subrange(data, HEADER_FIRST, data.len()));
                if body.len() >= total {
                    self.reset();
                    return Some(body);
                }
                self.active = true;
                self.expected_total = total;
                self.next_seq = 1;
                self.buffer = body;
                None
            } else {
                None
            }
        } else if flags == FLAG_MIDDLE || flags == FLAG_LAST {
            if !self.active {
                return None;
            }
            if seqno != self.next_seq {
                self.reset();
                return None;
            }
            self.buffer.extend_from_slice(slice_subrange(data, HEADER_REST, data.len()));
            if self.buffer.len() > MAX_REASSEMBLY {
                self.reset();
                return None;
            }
            if flags == FLAG_LAST || self.buffer.len() >= self.expected_total {
                let mut out: Vec<u8> = Vec::new();
                core::mem::swap(&mut out, &mut self.buffer);
                self.reset();
                return Some(out);
            }
            self.next_seq = self.next_seq + 1;
            proof {
                assert(self@ =~= spec_step(old(self)@, data@).0);
            }
            None
        } else {
            None
        }
    }
}

proof fn lemma_chunk_rest_reassemble(p: Seq<u8>, mtu: int, off: int, seqno: int)
    requires
        MIN_MTU <= mtu,
        p.len() <= MAX_PAYLOAD,
        0 < off < p.len(),
        1 <= seqno,
        20 * (seqno - 1) <= off,
    ensures
        spec_feed(
            RState { active: true, total: p.len() as int, next_seq: seqno, buf: p.subrange(0, off) },
            spec_chunk_rest(p, mtu, off, seqno),
        ).0 == init_rstate(),
        spec_feed(
            RState { active: true, total: p.len() as int, next_seq: seqno, buf: p.subrange(0, off) },
            spec_chunk_rest(p, mtu, off, seqno),
        ).1 == seq![p],
    decreases p.len() - off,
{
    let body = mtu - HEADER_REST;
    let st = RState { active: true, total: p.len() as int, next_seq: seqno, buf: p.subrange(0, off) };
    assert(seqno < 65536);
    lemma_le16_roundtrip(seqno);
    let frames = spec_chunk_rest(p, mtu, off, seqno);
    if off + body >= p.len() {
        let tail = p.subrange(off, p.len() as int);
        let f = frame_rest(FLAG_LAST, seqno, tail);
        assert(f[0] == FLAG_LAST);
        assert(f[1] == le16(seqno)[0] && f[2] == le16(seqno)[1]);
        assert(f.subrange(HEADER_REST as int, f.len() as int) =~= tail);
        assert(spec_parse_frame(f) == Some(ParsedFrame::Last(seqno, tail)));
        assert(st.buf + tail =~= p);
        assert(spec_step(st, f).0 == init_rstate());
        assert(spec_step(st, f).1 == Some(p));
        assert(frames == seq![f]);
        assert(frames[0] == f);
        assert(frames.drop_first() =~= Seq::<Seq<u8>>::empty());
        assert(spec_feed(init_rstate(), frames.drop_first()).0 == init_rstate());
        assert(spec_feed(init_rstate(), frames.drop_first()).1 =~= Seq::<Seq<u8>>::empty());
        assert(spec_feed(st, frames).0 == init_rstate());
        assert(spec_feed(st, frames).1 =~= seq![p]);
    } else {
        let mid = p.subrange(off, off + body);
        let f = frame_rest(FLAG_MIDDLE, seqno, mid);
        assert(f[0] == FLAG_MIDDLE);
        assert(f[1] == le16(seqno)[0] && f[2] == le16(seqno)[1]);
        assert(f.subrange(HEADER_REST as int, f.len() as int) =~= mid);
        assert(spec_parse_frame(f) == Some(ParsedFrame::Middle(seqno, mid)));
        assert(st.buf + mid =~= p.subrange(0, off + body));
        let st2 = RState {
            active: true,
            total: p.len() as int,
            next_seq: seqno + 1,
            buf: p.subrange(0, off + body),
        };
        assert((st.buf + mid).len() == off + body < p.len());
        assert(spec_step(st, f).0 =~= st2);
        assert(spec_step(st, f).1 is None);
        lemma_chunk_rest_reassemble(p, mtu, off + body, seqno + 1);
        assert(frames[0] == f);
        assert(frames.drop_first() =~= spec_chunk_rest(p, mtu, off + body, seqno + 1));
        assert(spec_feed(st2, frames.drop_first()).0 == init_rstate());
        assert(spec_feed(st2, frames.drop_first()).1 == seq![p]);
        assert(frames.len() >= 1);
        assert(spec_feed(st, frames).0 == init_rstate());
        assert(spec_feed(st, frames).1 =~= seq![p]);
    }
}

/// Reassembling the fragments of `chunk_message` yields exactly the original
/// payload: feeding `spec_chunk(p, mtu)` to a fresh reassembler emits `p`,
/// once, and leaves the reassembler fresh again.
pub proof fn lemma_chunk_reassemble(p: Seq<u8>, mtu: int)
    requires
        MIN_MTU <= mtu,
        p.len() <= MAX_PAYLOAD,
    ensures
        spec_feed(init_rstate(), spec_chunk(p, mtu)).0 == init_rstate(),
        spec_feed(init_rstate(), spec_chunk(p, mtu)).1 == seq![p],
{
    lemma_le16_roundtrip(0);
    lemma_le16_roundtrip(p.len() as int);
    let frames = spec_chunk(p, mtu);
    if p.len() + HEADER_FIRST <= mtu {
        let f = frame_single(p);
        assert(f[0] == FLAG_SINGLE);
        assert(f.len() >= HEADER_FIRST);
        assert(f.subrange(HEADER_FIRST as int, f.len() as int) =~= p);
        assert(spec_parse_frame(f) == Some(ParsedFrame::Single(p)));
        assert(spec_step(init_rstate(), f).0 == init_rstate());
        assert(spec_step(init_rstate(), f).1 == Some(p));
        assert(frames[0] == f);
        assert(frames.drop_first() =~= Seq::<Seq<u8>>::empty());
        assert(spec_feed(init_rstate(), frames.drop_first()).0 == init_rstate());
        assert(spec_feed(init_rstate(), frames.drop_first()).1 =~= Seq::<Seq<u8>>::empty());
        assert(spec_feed(init_rstate(), frames).0 == init_rstate());
        assert(spec_feed(init_rstate(), frames).1 =~= seq![p]);
    } else {
        let bf = mtu - HEADER_FIRST;
        let head = p.subrange(0, bf);
        let f = frame_first(p.len() as int, head);
        assert(f[0] == FLAG_FIRST);
        assert(f[1] == le16(0)[0] && f[2] == le16(0)[1]);
        assert(f[3] == le16(p.len() as int)[0] && f[4] == le16(p.len() as int)[1]);
        assert(f.subrange(HEADER_FIRST as int, f.len() as int) =~= head);
        assert(spec_parse_frame(f) == Some(
            ParsedFrame::First(0, p.len() as int, head),
        ));
        assert(head.len() == bf < p.len());
        let st1 = RState { active: true, total: p.len() as int, next_seq: 1, buf: head };
        assert(spec_step(init_rstate(), f).0 =~= st1);
        assert(spec_step(init_rstate(), f).1 is None);
        lemma_chunk_rest_reassemble(p, mtu, bf, 1);
        assert(frames[0] == f);
        assert(frames.drop_first() =~= spec_chunk_rest(p, mtu, bf, 1));
        assert(spec_feed(st1, frames.drop_first()).0 == init_rstate());
        assert(spec_feed(st1, frames.drop_first()).1 == seq![p]);
        assert(frames.len() >= 1);
        assert(spec_feed(init_rstate(), frames).0 == init_rstate());
        assert(spec_feed(init_rstate(), frames).1 =~= seq![p]);
    }
}

/// Feeding two fragment sequences one after the other feeds their
/// concatenation: the state threads through and the outputs concatenate.
pub proof fn lemma_feed_append(st: RState, a: Seq<Seq<u8>>, b: Seq<Seq<u8>>)
    ensures
        spec_feed(st, a + b).0 == spec_feed(spec_feed(st, a).0, b).0,
        spec_feed(st, a + b).1 == spec_feed(st, a).1 + spec_feed(spec_feed(st, a).0, b).1,
    decreases a.len(),
{
    if a.len() == 0 {
        assert(a + b =~= b);
        assert(spec_feed(st, a).1 =~= Seq::<Seq<u8>>::empty());
        assert(spec_feed(st, a).1 + spec_feed(spec_feed(st, a).0, b).1 =~= spec_feed(st, b).1);
    } else {
        assert((a + b)[0] == a[0]);
        assert((a + b).drop_first() =~= a.drop_first() + b);
        let (st1, out) = spec_step(st, a[0]);
        lemma_feed_append(st1, a.drop_first(), b);
        assert(spec_feed(st, a + b).1 =~= spec_feed(st, a).1 + spec_feed(
            spec_feed(st, a).0,
            b,
        ).1);
    }
}

/// The fragments of several payloads, message after message, in send order:
/// fragments of one message are never interleaved with another's.
pub open spec fn spec_chunk_all(payloads: Seq<Seq<u8>>, mtu: int) -> Seq<Seq<u8>>
    decreases payloads.len(),
{
    if payloads.len() == 0 {
        seq![]
    } else {
        spec_chunk(payloads[0], mtu) + spec_chunk_all(payloads.drop_first(), mtu)
    }
}

/// Reassembling a whole stream of chunked payloads, delivered in link order,
/// yields exactly those payloads, in order, and leaves the reassembler
/// fresh.
pub proof fn lemma_chunk_all_reassemble(payloads: Seq<Seq<u8>>, mtu: int)
    requires
        MIN_MTU <= mtu,
        forall|i: int| 0 <= i < payloads.len() ==> (#[trigger] payloads[i]).len() <= MAX_PAYLOAD,
    ensures
        spec_feed(init_rstate(), spec_chunk_all(payloads, mtu)).0 == init_rstate(),
        spec_feed(init_rstate(), spec_chunk_all(payloads, mtu)).1 == payloads,
    decreases payloads.len(),
{
    if payloads.len() == 0 {
        assert(spec_feed(init_rstate(), spec_chunk_all(payloads, mtu)).1 =~= payloads);
    } else {
        lemma_chunk_reassemble(payloads[0], mtu);
        lemma_feed_append(
            init_rstate(),
            spec_chunk(payloads[0], mtu),
            spec_chunk_all(payloads.drop_first(), mtu),
        );
        lemma_chunk_all_reassemble(payloads.drop_first(), mtu);
        assert(spec_feed(init_rstate(), spec_chunk_all(payloads, mtu)).1 =~= payloads);
    }
}

} // verus!
