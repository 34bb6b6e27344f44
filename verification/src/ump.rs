//! UMP frame demultiplexer and the media transform stream.
//!
//! A UMP stream is a concatenation of frames, each a frame-type varint, a
//! payload-length varint, and that many payload bytes.  Frames of type 21
//! carry media: their payload is one header-id byte followed by media bytes.
//! The transform consumes the stream incrementally, in arbitrary chunks, and
//! emits exactly the media bytes of every type-21 frame, in stream order,
//! discarding all other frames.

use vstd::prelude::*;
use crate::varint::{
    read_variable_integer, varint_complete_at, varint_value, varint_width, UmpError,
};

verus! {

/// True when two complete varints (frame type and payload length) are
/// present at the head of `s`.
pub open spec fn header_complete(s: Seq<u8>) -> bool {
    varint_complete_at(s, 0) && varint_complete_at(s, varint_width(s[0]))
}

/// True when the next header cannot ever be read because a varint prefix
/// with more than four leading one bits sits where a varint must start.
pub open spec fn header_invalid(s: Seq<u8>) -> bool {
    if s.len() == 0 {
        false
    } else if varint_width(s[0]) == 0 {
        true
    } else if varint_complete_at(s, 0) {
        let w1 = varint_width(s[0]);
        w1 < s.len() && varint_width(s[w1]) == 0
    } else {
        false
    }
}

/// Frame type of the frame at the head of `s` (`header_complete` assumed).
pub open spec fn frame_type(s: Seq<u8>) -> nat {
    varint_value(s)
}

/// Payload length of the frame at the head of `s`.
pub open spec fn frame_len(s: Seq<u8>) -> nat {
    varint_value(s.skip(varint_width(s[0])))
}

/// Byte size of the two header varints of the frame at the head of `s`.
pub open spec fn header_size(s: Seq<u8>) -> int {
    varint_width(s[0]) + varint_width(s[varint_width(s[0])])
}

/// Everything the transform has emitted after consuming exactly the bytes
/// `s`, however they were partitioned into chunks.  Media bytes of a type-21
/// frame are emitted as soon as they arrive, even before the frame is
/// complete; all other frames are skipped once fully present.
pub open spec fn emitted_of(s: Seq<u8>) -> Seq<u8>
    decreases s.len(),
{
    if !header_complete(s) {
        Seq::empty()
    } else {
        let h = header_size(s);
        let l = frame_len(s) as int;
        if frame_type(s) != 21 {
            if h + l <= s.len() {
                emitted_of(s.skip(h + l))
            } else {
                Seq::empty()
            }
        } else if l == 0 {
            emitted_of(s.skip(h))
        } else if h + l <= s.len() {
            s.subrange(h + 1, h + l) + emitted_of(s.skip(h + l))
        } else if h + 1 <= s.len() {
            s.subrange(h + 1, s.len() as int)
        } else {
            Seq::empty()
        }
    }
}

/// True when consuming `s` runs into an invalid varint, which terminates
/// the stream with an error.
pub open spec fn stream_error_of(s: Seq<u8>) -> bool
    decreases s.len(),
{
    if header_invalid(s) {
        true
    } else if !header_complete(s) {
        false
    } else {
        let h = header_size(s);
        let l = frame_len(s) as int;
        if frame_type(s) != 21 {
            if h + l <= s.len() {
                stream_error_of(s.skip(h + l))
            } else {
                false
            }
        } else if l == 0 {
            stream_error_of(s.skip(h))
        } else if h + l <= s.len() {
            stream_error_of(s.skip(h + l))
        } else {
            false
        }
    }
}

/// State of the transform after consuming exactly the bytes `s`:
/// the unconsumed tail still buffered, whether the scan position is inside
/// a media payload, and how many media bytes of it are still owed.
pub open spec fn spec_state(s: Seq<u8>) -> (Seq<u8>, bool, nat)
    decreases s.len(),
{
    if !header_complete(s) {
        (s, false, 0nat)
    } else {
        let h = header_size(s);
        let l = frame_len(s) as int;
        if frame_type(s) != 21 {
            if h + l <= s.len() {
                spec_state(s.skip(h + l))
            } else {
                (s, false, 0nat)
            }
        } else if l == 0 {
            spec_state(s.skip(h))
        } else if h + l <= s.len() {
            spec_state(s.skip(h + l))
        } else if h + 1 <= s.len() {
            (Seq::empty(), true, (h + l - s.len()) as nat)
        } else {
            (s, false, 0nat)
        }
    }
}

/// In a media payload, the buffer is empty and bytes are still owed;
/// outside one, no bytes are owed and nothing has been emitted from the
/// buffered tail, which is stuck until more input arrives.
pub proof fn lemma_spec_state_shape(s: Seq<u8>)
    ensures
        spec_state(s).1 ==> spec_state(s).0 == Seq::<u8>::empty() && spec_state(s).2 > 0,
        !spec_state(s).1 ==> spec_state(s).2 == 0,
    decreases s.len(),
{
    if header_complete(s) {
        let h = header_size(s);
        let l = frame_len(s) as int;
        if frame_type(s) != 21 {
            if h + l <= s.len() {
                lemma_spec_state_shape(s.skip(h + l));
            }
        } else if l == 0 {
            lemma_spec_state_shape(s.skip(h));
        } else if h + l <= s.len() {
            lemma_spec_state_shape(s.skip(h + l));
        }
    }
}

/// Consuming `c` and then `d` reaches the same state, emits the same bytes
/// and reports the same error as consuming first `c`, then continuing from
/// the state after `c` on `d` alone.
#[verifier::rlimit(100)]
pub proof fn lemma_state_append(c: Seq<u8>, d: Seq<u8>)
    ensures
        ({
            let (b, inside, rem) = spec_state(c);
            if !inside {
                &&& spec_state(c + d) == spec_state(b + d)
                &&& emitted_of(c + d) == emitted_of(c) + emitted_of(b + d)
                &&& stream_error_of(c + d) == stream_error_of(b + d)
            } else if d.len() < rem {
                &&& spec_state(c + d) == (Seq::<u8>::empty(), true, (rem - d.len()) as nat)
                &&& emitted_of(c + d) == emitted_of(c) + d
                &&& stream_error_of(c + d) == false
            } else {
                &&& spec_state(c + d) == spec_state(d.skip(rem as int))
                &&& emitted_of(c + d) == emitted_of(c) + d.take(rem as int) + emitted_of(
                    d.skip(rem as int),
                )
                &&& stream_error_of(c + d) == stream_error_of(d.skip(rem as int))
            }
        }),
    decreases c.len(),
{
    let cd = c + d;
    if !header_complete(c) {
        // nothing of `c` was consumed: the buffered tail is `c` itself
        assert(spec_state(c) == (c, false, 0nat));
        assert(emitted_of(c) =~= Seq::<u8>::empty());
        assert(emitted_of(c) + emitted_of(cd) =~= emitted_of(cd));
    } else {
        let h = header_size(c);
        let l = frame_len(c) as int;
        // the header of `c` is also the header of `c + d`
        assert(cd[0] == c[0]);
        assert(varint_complete_at(cd, 0));
        let w1 = varint_width(c[0]);
        assert(cd[w1] == c[w1]);
        assert(varint_complete_at(cd, w1));
        assert(header_complete(cd));
        lemma_varint_value_prefix(c, cd, 0);
        lemma_varint_value_prefix(c, cd, w1 as int);
        assert(frame_type(cd) == frame_type(c));
        assert(frame_len(cd) == frame_len(c));
        assert(header_size(cd) == h);
        let complete = h + l <= c.len();
        if (frame_type(c) != 21 && complete) || (frame_type(c) == 21 && (l == 0 || complete)) {
            // a whole frame is consumed from the front; recurse on the rest
            let k = if frame_type(c) == 21 && l == 0 {
                h
            } else {
                h + l
            };
            let pre: Seq<u8> = if frame_type(c) == 21 && l >= 1 {
                c.subrange(h + 1, h + l)
            } else {
                Seq::empty()
            };
            let cs = c.skip(k);
            assert(cd.skip(k) =~= cs + d);
            if frame_type(c) == 21 && l >= 1 {
                assert(cd.subrange(h + 1, h + l) =~= c.subrange(h + 1, h + l));
            }
            assert(spec_state(c) == spec_state(cs));
            assert(spec_state(cd) == spec_state(cs + d));
            assert(emitted_of(c) == pre + emitted_of(cs));
            assert(emitted_of(cd) == pre + emitted_of(cs + d));
            assert(stream_error_of(c) == stream_error_of(cs));
            assert(stream_error_of(cd) == stream_error_of(cs + d));
            lemma_state_append(cs, d);
            let (b2, i2, r2) = spec_state(cs);
            if !i2 {
                assert(emitted_of(cd) =~= emitted_of(c) + emitted_of(b2 + d));
            } else if d.len() < r2 {
                assert(emitted_of(cd) =~= emitted_of(c) + d);
            } else {
                assert(emitted_of(cd) =~= emitted_of(c) + d.take(r2 as int) + emitted_of(
                    d.skip(r2 as int),
                ));
            }
        } else if frame_type(c) == 21 && h + 1 <= c.len() {
            // inside a media payload after consuming c
            let rem = (h + l - c.len()) as nat;
            assert(spec_state(c) == (Seq::<u8>::empty(), true, rem));
            if d.len() < rem {
                assert(h + l > cd.len());
                assert(h + 1 <= cd.len());
                assert(spec_state(cd) == (Seq::<u8>::empty(), true, (h + l - cd.len()) as nat));
                assert(h + l - cd.len() == rem - d.len());
                assert(emitted_of(cd) == cd.subrange(h + 1, cd.len() as int));
                assert(emitted_of(c) == c.subrange(h + 1, c.len() as int));
                assert(cd.subrange(h + 1, cd.len() as int) =~= c.subrange(h + 1, c.len() as int)
                    + d);
            } else {
                assert(h + l <= cd.len());
                assert(cd.skip(h + l) =~= d.skip(rem as int));
                assert(emitted_of(cd) == cd.subrange(h + 1, h + l) + emitted_of(cd.skip(h + l)));
                assert(cd.subrange(h + 1, h + l) =~= c.subrange(h + 1, c.len() as int) + d.take(
                    rem as int,
                ));
                assert(emitted_of(c) == c.subrange(h + 1, c.len() as int));
                assert(emitted_of(cd) =~= emitted_of(c) + d.take(rem as int) + emitted_of(
                    d.skip(rem as int),
                ));
            }
        } else {
            // frame incomplete and no media byte consumable: nothing consumed
            assert(spec_state(c) == (c, false, 0nat));
            assert(emitted_of(c) =~= Seq::<u8>::empty());
            assert(emitted_of(c) + emitted_of(cd) =~= emitted_of(cd));
        }
    }
}

/// A varint's value read inside `t` at `off` equals its value inside the
/// prefix `s` of `t`, provided the whole varint lies within `s`.
proof fn lemma_varint_value_prefix(s: Seq<u8>, t: Seq<u8>, off: int)
    requires
        0 <= off,
        varint_complete_at(s, off),
        t.len() >= s.len(),
        forall|i: int| 0 <= i < s.len() ==> t[i] == s[i],
    ensures
        varint_value(t.skip(off)) == varint_value(s.skip(off)),
{
    let a = s.skip(off);
    let b = t.skip(off);
    let w = varint_width(s[off]);
    assert(forall|i: int| 0 <= i < a.len() ==> a[i] == b[i]);
    assert(a[0] == b[0]);
    if w >= 2 {
        assert(a[1] == b[1]);
    }
    if w >= 3 {
        assert(a[2] == b[2]);
    }
    if w >= 4 {
        assert(a[3] == b[3]);
    }
    if w >= 5 {
        assert(a[4] == b[4]);
    }
}

/// What has been emitted only grows as more input is consumed: the output
/// after consuming `c` is a prefix of the output after consuming `c + d`.
/// Together with the contract of [`UmpTransformStream::push_chunk`], whose
/// output delta depends only on the total bytes consumed, this means the
/// concatenated output of the transform is independent of how the input
/// was partitioned into chunks.
pub proof fn lemma_emitted_prefix_monotone(c: Seq<u8>, d: Seq<u8>)
    ensures
        emitted_of(c) == emitted_of(c + d).take(emitted_of(c).len() as int),
{
    lemma_state_append(c, d);
    let (b, inside, rem) = spec_state(c);
    if !inside {
        assert(emitted_of(c) =~= (emitted_of(c) + emitted_of(b + d)).take(
            emitted_of(c).len() as int,
        ));
    } else if d.len() < rem {
        assert(emitted_of(c) =~= (emitted_of(c) + d).take(emitted_of(c).len() as int));
    } else {
        assert(emitted_of(c) =~= (emitted_of(c) + d.take(rem as int) + emitted_of(
            d.skip(rem as int),
        )).take(emitted_of(c).len() as int));
    }
}

/// `s` is a concatenation of complete frames, every media frame carrying
/// at least the header-id byte.
pub open spec fn frames_well_formed(s: Seq<u8>) -> bool
    decreases s.len(),
{
    s.len() == 0 || {
        &&& header_complete(s)
        &&& header_size(s) + frame_len(s) <= s.len()
        &&& (frame_type(s) == 21 ==> frame_len(s) >= 1)
        &&& frames_well_formed(s.skip(header_size(s) + frame_len(s) as int))
    }
}

/// The media bytes of `s`: the concatenation, in stream order, of the
/// payload minus its leading header-id byte of every type-21 frame.
pub open spec fn media_projection(s: Seq<u8>) -> Seq<u8>
    decreases s.len(),
{
    if !header_complete(s) || header_size(s) + frame_len(s) > s.len() {
        Seq::empty()
    } else {
        let h = header_size(s);
        let l = frame_len(s) as int;
        if frame_type(s) == 21 && l >= 1 {
            s.subrange(h + 1, h + l) + media_projection(s.skip(h + l))
        } else {
            media_projection(s.skip(h + l))
        }
    }
}

/// Projection: on a well-formed frame sequence the transform emits exactly
/// the media bytes of the type-21 frames, in order, and no others, and
/// never reports an error.
pub proof fn lemma_transform_projection(s: Seq<u8>)
    requires
        frames_well_formed(s),
    ensures
        emitted_of(s) == media_projection(s),
        !stream_error_of(s),
    decreases s.len(),
{
    if s.len() != 0 {
        let h = header_size(s);
        let l = frame_len(s) as int;
        lemma_transform_projection(s.skip(h + l));
    }
}

/// Pull-based UMP media transform.  Feed it the upstream bytes in any
/// chunking; it returns the media bytes as soon as they can be produced.
pub struct UmpTransformStream {
    buffer: Vec<u8>,
    found_stream: bool,
    remaining: usize,
    consumed: Ghost<Seq<u8>>,
}

impl UmpTransformStream {
    /// All upstream bytes consumed so far.
    pub closed spec fn consumed_bytes(self) -> Seq<u8> {
        self.consumed@
    }

    /// The executable state agrees with the state the specification machine
    /// reaches on the consumed bytes.
    pub closed spec fn inv(self) -> bool {
        spec_state(self.consumed@) == (self.buffer@, self.found_stream, self.remaining as nat)
    }

    /// A fresh transform that has consumed nothing.
    pub fn new() -> (r: UmpTransformStream)
        ensures
            r.inv(),
            r.consumed_bytes() == Seq::<u8>::empty(),
    {
        let r = UmpTransformStream {
            buffer: Vec::new(),
            found_stream: false,
            remaining: 0,
            consumed: Ghost(Seq::empty()),
        };
        proof {
            assert(!header_complete(Seq::<u8>::empty()));
            assert(spec_state(Seq::<u8>::empty()) == (Seq::<u8>::empty(), false, 0nat));
            assert(r.buffer@ =~= Seq::<u8>::empty());
        }
        r
    }

    /// Consumes one upstream chunk.  Returns the newly emitted media bytes
    /// and whether the stream has failed on an invalid varint.  The output
    /// is exactly what the total consumed input determines: everything the
    /// specification machine emits for the new total, minus what was
    /// already emitted for the old one.
    pub fn push_chunk(&mut self, chunk: &[u8]) -> (r: (Vec<u8>, bool))
        requires
            old(self).inv(),
        ensures
            final(self).inv(),
            final(self).consumed_bytes() == old(self).consumed_bytes() + chunk@,
            emitted_of(old(self).consumed_bytes() + chunk@) == emitted_of(
                old(self).consumed_bytes(),
            ) + r.0@,
            r.1 == stream_error_of(old(self).consumed_bytes() + chunk@),
    {
        let ghost c0 = self.consumed@;
        proof {
            lemma_state_append(c0, chunk@);
            lemma_spec_state_shape(c0);
        }
        self.consumed = Ghost(c0 + chunk@);
        let mut out: Vec<u8> = Vec::new();
        if self.found_stream {
            // inside a media payload: the buffer is empty and `remaining`
            // media bytes are owed
            if chunk.len() < self.remaining {
                out.extend_from_slice(chunk);
                self.remaining = self.remaining - chunk.len();
                proof {
                    assert(out@ =~= chunk@);
                }
                (out, false)
            } else {
                let rem = self.remaining;
                out.extend_from_slice(&chunk[0..rem]);
                self.remaining = 0;
                self.found_stream = false;
                let rest = &chunk[rem..chunk.len()];
                let (nb, ins, nrem, err) = scan_buffer(rest, &mut out);
                self.buffer = nb;
                self.found_stream = ins;
                self.remaining = nrem;
                proof {
                    assert(chunk@.subrange(0, rem as int) =~= chunk@.take(rem as int));
                    assert(chunk@.subrange(rem as int, chunk@.len() as int) =~= chunk@.skip(
                        rem as int,
                    ));
                }
                (out, err)
            }
        } else {
            self.buffer.extend_from_slice(chunk);
            let ghost b0 = spec_state(c0).0;
            proof {
                assert(self.buffer@ == b0 + chunk@);
            }
            let mut buf: Vec<u8> = Vec::new();
            core::mem::swap(&mut buf, &mut self.buffer);
            let (nb, ins, nrem, err) = scan_buffer(buf.as_slice(), &mut out);
            self.buffer = nb;
            self.found_stream = ins;
            self.remaining = nrem;
            (out, err)
        }
    }
}

/// Scans `buf` from the front as far as possible, appending every emitted
/// media byte to `out`, and returns the machine state the specification
/// assigns to `buf` along with the error flag.
#[verifier::rlimit(100)]
fn scan_buffer(buf: &[u8], out: &mut Vec<u8>) -> (r: (Vec<u8>, bool, usize, bool))
    ensures
        (r.0@, r.1, r.2 as nat) == spec_state(buf@),
        final(out)@ == old(out)@ + emitted_of(buf@),
        r.3 == stream_error_of(buf@),
{
    let ghost base = out@;
    let buf_len = buf.len();
    let mut pos: usize = 0;
    proof {
        assert(buf@.skip(0) =~= buf@);
        assert(out@.skip(base.len() as int) =~= Seq::<u8>::empty());
        assert(out@.take(base.len() as int) =~= base);
    }
    loop
        invariant
            pos <= buf@.len(),
            buf@.len() == buf_len,
            base == old(out)@,
            spec_state(buf@) == spec_state(buf@.skip(pos as int)),
            stream_error_of(buf@) == stream_error_of(buf@.skip(pos as int)),
            emitted_of(buf@) == out@.skip(base.len() as int) + emitted_of(buf@.skip(pos as int)),
            out@.take(base.len() as int) == base,
            out@.len() >= base.len(),
        decreases buf@.len() - pos,
    {
        let ghost tail = buf@.skip(pos as int);
        let (ft, w1) = match read_variable_integer(buf, pos) {
            Ok(v) => v,
            Err(e) => {
                let stuck = slice_suffix_to_vec(buf, pos);
                proof {
                    if pos < buf@.len() {
                        assert(tail[0] == buf@[pos as int]);
                    }
                    assert(!header_complete(tail));
                    assert(header_invalid(tail) == (e == UmpError::InvalidData));
                    assert(emitted_of(tail) == Seq::<u8>::empty());
                    assert(emitted_of(buf@) =~= out@.skip(base.len() as int));
                    assert(out@ =~= base + emitted_of(buf@));
                }
                return (stuck, false, 0, matches!(e, UmpError::InvalidData));
            },
        };
        proof {
            assert(pos + w1 <= buf@.len());
        }
        let (fl, w2) = match read_variable_integer(buf, pos + w1) {
            Ok(v) => v,
            Err(e) => {
                let stuck = slice_suffix_to_vec(buf, pos);
                proof {
                    assert(tail[0] == buf@[pos as int]);
                    assert(varint_complete_at(tail, 0));
                    if pos + w1 < buf@.len() {
                        assert(tail[w1 as int] == buf@[pos + w1 as int]);
                    }
                    assert(!varint_complete_at(tail, w1 as int));
                    assert(!header_complete(tail));
                    assert(header_invalid(tail) == (e == UmpError::InvalidData));
                    assert(emitted_of(tail) == Seq::<u8>::empty());
                    assert(emitted_of(buf@) =~= out@.skip(base.len() as int));
                    assert(out@ =~= base + emitted_of(buf@));
                }
                return (stuck, false, 0, matches!(e, UmpError::InvalidData));
            },
        };
        proof {
            assert(tail[0] == buf@[pos as int]);
            assert(varint_complete_at(tail, 0));
            assert(tail[w1 as int] == buf@[pos + w1 as int]);
            assert(varint_complete_at(tail, w1 as int));
            assert(header_complete(tail));
            assert(frame_type(tail) == ft);
            assert(tail.skip(w1 as int) =~= buf@.skip(pos + w1 as int));
            assert(frame_len(tail) == fl);
            assert(header_size(tail) == w1 + w2);
        }
        let h = w1 + w2;
        if ft != 21 {
            if (fl as usize) <= buf.len() - (pos + h) {
                let ghost npos = pos + h + fl as int;
                proof {
                    assert(tail.skip(h + fl as int) =~= buf@.skip(npos));
                    assert(emitted_of(tail) == emitted_of(buf@.skip(npos)));
                }
                pos = pos + h + (fl as usize);
            } else {
                let stuck = slice_suffix_to_vec(buf, pos);
                proof {
                    assert(spec_state(tail) == (tail, false, 0nat));
                    assert(emitted_of(tail) == Seq::<u8>::empty());
                    assert(stream_error_of(tail) == false);
                    assert(emitted_of(buf@) =~= out@.skip(base.len() as int));
                    assert(out@ =~= base + emitted_of(buf@));
                }
                return (stuck, false, 0, false);
            }
        } else if fl == 0 {
            proof {
                assert(tail.skip(h as int) =~= buf@.skip(pos + h as int));
            }
            pos = pos + h;
        } else {
            if pos + h < buf.len() {
                let avail = buf.len() - (pos + h + 1);
                let lm1 = (fl - 1) as usize;
                if lm1 <= avail {
                    let ghost out0 = out@;
                    out.extend_from_slice(&buf[pos + h + 1..pos + h + 1 + lm1]);
                    let ghost npos = pos + h + 1 + lm1 as int;
                    proof {
                        assert(tail.subrange(h + 1, h + fl as int) =~= buf@.subrange(
                            pos + h + 1,
                            npos,
                        ));
                        assert(tail.skip(h + fl as int) =~= buf@.skip(npos));
                        assert(emitted_of(tail) == buf@.subrange(pos + h + 1, npos) + emitted_of(
                            buf@.skip(npos),
                        ));
                        assert(out@.take(base.len() as int) =~= base);
                        assert(out@.skip(base.len() as int) =~= out0.skip(base.len() as int)
                            + buf@.subrange(pos + h + 1, npos));
                        assert(emitted_of(buf@) =~= out@.skip(base.len() as int) + emitted_of(
                            buf@.skip(npos),
                        ));
                    }
                    pos = pos + h + 1 + lm1;
                } else {
                    let ghost out0 = out@;
                    out.extend_from_slice(&buf[pos + h + 1..buf.len()]);
                    proof {
                        assert(h + fl as int > tail.len());
                        assert(h + 1 <= tail.len());
                        assert(spec_state(tail) == (
                            Seq::<u8>::empty(),
                            true,
                            (h + fl - tail.len()) as nat,
                        ));
                        assert(emitted_of(tail) == tail.subrange(h + 1, tail.len() as int));
                        assert(tail.subrange(h + 1, tail.len() as int) =~= buf@.subrange(
                            pos + h + 1,
                            buf@.len() as int,
                        ));
                        assert(out@.skip(base.len() as int) =~= out0.skip(base.len() as int)
                            + buf@.subrange(pos + h + 1, buf@.len() as int));
                        assert(emitted_of(buf@) =~= out@.skip(base.len() as int));
                        assert(out@.take(base.len() as int) =~= base);
                        assert(out@ =~= base + emitted_of(buf@));
                        assert(h + fl - tail.len() == lm1 - avail);
                        assert(stream_error_of(tail) == false);
                    }
                    let nrem = lm1 - avail;
                    let empty_buf: Vec<u8> = Vec::new();
                    proof {
                        assert(empty_buf@ =~= Seq::<u8>::empty());
                    }
                    return (empty_buf, true, nrem, false);
                }
            } else {
                let stuck = slice_suffix_to_vec(buf, pos);
                proof {
                    assert(spec_state(tail) == (tail, false, 0nat));
                    assert(emitted_of(tail) == Seq::<u8>::empty());
                    assert(stream_error_of(tail) == false);
                    assert(emitted_of(buf@) =~= out@.skip(base.len() as int));
                    assert(out@ =~= base + emitted_of(buf@));
                }
                return (stuck, false, 0, false);
            }
        }
    }
}

/// Copies `buf[from..]` into a fresh vector.
fn slice_suffix_to_vec(buf: &[u8], from: usize) -> (r: Vec<u8>)
    requires
        from <= buf@.len(),
    ensures
        r@ == buf@.skip(from as int),
{
    let mut r: Vec<u8> = Vec::new();
    let mut i = from;
    while i < buf.len()
        invariant
            from <= i <= buf@.len(),
            r@ == buf@.subrange(from as int, i as int),
        decreases buf@.len() - i,
    {
        r.push(buf[i]);
        proof {
            assert(r@ =~= buf@.subrange(from as int, i + 1 as int));
        }
        i = i + 1;
    }
    proof {
        assert(r@ =~= buf@.skip(from as int));
    }
    r
}

} // verus!
