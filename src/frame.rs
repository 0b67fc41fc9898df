//! Locating verified RTCM3 frames in an untrusted byte buffer.
use vstd::prelude::*;
use vstd::slice::{slice_subrange, slice_to_vec};
use crate::crc::{crc24q, crc24q_new, lemma_corrupted_byte_detected};

verus! {

/// The byte that opens every frame.
pub const PREAMBLE: u8 = 0xD3;

/// Bytes of a frame outside its payload: preamble, two length bytes and the
/// three checksum bytes.
pub const FRAME_OVERHEAD: usize = 6;

/// The payload length announced at `o`: the low 10 bits of the big-endian
/// 16-bit value after the preamble; the 6 reserved bits are ignored.
pub open spec fn length_field(buf: Seq<u8>, o: int) -> nat {
    ((buf[o + 1] as nat * 256 + buf[o + 2] as nat) % 1024) as nat
}

/// Whether a complete frame whose checksum verifies starts at `o`.
pub open spec fn frame_at(buf: Seq<u8>, o: int) -> bool {
    &&& 0 <= o
    &&& o + 3 <= buf.len()
    &&& buf[o] == PREAMBLE
    &&& o + length_field(buf, o) + 6 <= buf.len()
    &&& crc24q(buf.subrange(o, o + length_field(buf, o) + 6)) == 0
}

/// The payloads that the scan finds from offset `o` on. Where no frame starts
/// at `o`, the scan moves on by one byte; after a frame of payload length `L`
/// it moves on by `L + 6` bytes, to the byte just past the frame.
pub open spec fn frames_from(buf: Seq<u8>, o: nat) -> Seq<Seq<u8>>
    decreases buf.len() - o,
    when o <= buf.len()
{
    if o >= buf.len() {
        Seq::empty()
    } else if frame_at(buf, o as int) {
        let len = length_field(buf, o as int);
        seq![buf.subrange(o as int + 3, o as int + 3 + len as int)] + frames_from(buf, (o + len + 6) as nat)
    } else {
        frames_from(buf, (o + 1) as nat)
    }
}

/// The payloads of the frames that a scan of `buf` finds, in order.
pub open spec fn scan_payloads(buf: Seq<u8>) -> Seq<Seq<u8>> {
    frames_from(buf, 0)
}

/// One verified frame: its payload and the payload length from its header.
pub struct Frame {
    payload: Vec<u8>,
    payload_length: u16,
}

impl View for Frame {
    type V = Seq<u8>;

    closed spec fn view(&self) -> Seq<u8> {
        self.payload@
    }
}

impl Frame {
    /// The payload and the length field agree, and the length fits in 10 bits.
    #[verifier::type_invariant]
    spec fn wf(&self) -> bool {
        &&& self.payload@.len() == self.payload_length as nat
        &&& self.payload_length <= 1023
    }

    /// The payload bytes.
    pub fn payload(&self) -> (r: &[u8])
        ensures
            r@ == self@,
    {
        self.payload.as_slice()
    }

    /// The payload length from the frame header.
    pub fn payload_length(&self) -> (r: u16)
        ensures
            r as nat == self@.len(),
            r <= 1023,
    {
        proof {
            use_type_invariant(self);
        }
        self.payload_length
    }
}

proof fn lemma_length_field(b1: u8, b2: u8)
    ensures
        ((((b1 as u16) << 8u16) | (b2 as u16)) & 0x3FFu16) as nat == (b1 as nat * 256
            + b2 as nat) % 1024,
{
    assert((((b1 as u16) << 8u16) | (b2 as u16)) & 0x3FFu16 == (b1 as u16 * 256 + b2 as u16)
        % 1024) by (bit_vector);
}

/// Scans `buffer` for frames. At each offset a frame is accepted when the
/// preamble is there, the announced length fits in what remains, and the
/// checksum over the whole frame is zero; otherwise the scan resynchronises by
/// moving on a single byte. After a frame the scan moves on `L + 6` bytes, to
/// the byte just past the frame.
pub fn scan(buffer: &[u8]) -> (frames: Vec<Frame>)
    ensures
        frames@.len() == scan_payloads(buffer@).len(),
        forall|i: int|
            0 <= i < frames@.len() ==> (#[trigger] frames@[i])@ == scan_payloads(buffer@)[i],
{
    let mut frames: Vec<Frame> = Vec::new();
    let mut offset: usize = 0;
    while offset < buffer.len()
        invariant
            offset <= buffer@.len(),
            frames@.map_values(|f: Frame| f@) + frames_from(buffer@, offset as nat)
                == frames_from(buffer@, 0),
        decreases buffer@.len() - offset,
    {
        let remaining = buffer.len() - offset;
        let mut accepted = false;
        if buffer[offset] == PREAMBLE && remaining >= FRAME_OVERHEAD {
            let field = (((buffer[offset + 1] as u16) << 8u16) | (buffer[offset + 2] as u16))
                & 0x3FF;
            proof {
                lemma_length_field(buffer@[offset + 1], buffer@[offset + 2]);
            }
            let length = field as usize;
            if remaining >= length + FRAME_OVERHEAD {
                let whole = slice_subrange(buffer, offset, offset + length + FRAME_OVERHEAD);
                if crc24q_new(whole) == 0 {
                    let payload = slice_to_vec(slice_subrange(buffer, offset + 3, offset + 3 + length));
                    let frame = Frame { payload, payload_length: field };
                    let ghost prev = frames@.map_values(|f: Frame| f@);
                    frames.push(frame);
                    assert(frames@.map_values(|f: Frame| f@) =~= prev.push(payload@));
                    assert(frames_from(buffer@, offset as nat) == seq![payload@] + frames_from(
                        buffer@,
                        (offset + length + 6) as nat,
                    ));
                    assert(prev + frames_from(buffer@, offset as nat) =~= prev.push(payload@)
                        + frames_from(buffer@, (offset + length + 6) as nat));
                    offset = offset + length + FRAME_OVERHEAD;
                    accepted = true;
                }
            }
        }
        if !accepted {
            assert(!frame_at(buffer@, offset as int));
            offset = offset + 1;
        }
    }
    let ghost payloads = frames@.map_values(|f: Frame| f@);
    assert(payloads + Seq::<Seq<u8>>::empty() =~= payloads);
    assert forall|i: int| 0 <= i < frames@.len() implies (#[trigger] frames@[i])@
        == scan_payloads(buffer@)[i] by {
        assert(payloads[i] == frames@[i]@);
    }
    frames
}

/// The three header bytes of a frame with payload length `len`: the preamble,
/// then the length as a big-endian 16-bit value with the reserved bits zero.
pub open spec fn frame_header(len: nat) -> Seq<u8> {
    seq![PREAMBLE, (len / 256) as u8, (len % 256) as u8]
}

proof fn lemma_no_preamble_from(buf: Seq<u8>, o: nat)
    requires
        o <= buf.len(),
        forall|j: int| 0 <= j < buf.len() ==> buf[j] != PREAMBLE,
    ensures
        frames_from(buf, o) == Seq::<Seq<u8>>::empty(),
    decreases buf.len() - o,
{
    if o < buf.len() {
        lemma_no_preamble_from(buf, o + 1);
    }
}

/// A buffer that holds no preamble byte yields no frame.
pub proof fn lemma_no_preamble_no_frames(buf: Seq<u8>)
    requires
        forall|j: int| 0 <= j < buf.len() ==> buf[j] != PREAMBLE,
    ensures
        scan_payloads(buf) == Seq::<Seq<u8>>::empty(),
{
    lemma_no_preamble_from(buf, 0);
}

/// The scan yields the payloads of frames that start at increasing offsets of
/// the buffer and do not overlap: the returned offsets are where they start,
/// each frame's checksum over all its bytes is zero, and each frame begins at
/// or after the byte just past the one before it.
pub proof fn lemma_frames_in_order(buf: Seq<u8>, o: nat) -> (offsets: Seq<int>)
    requires
        o <= buf.len(),
    ensures
        offsets.len() == frames_from(buf, o).len(),
        forall|j: int|
            0 <= j < offsets.len() ==> {
                &&& o <= #[trigger] offsets[j]
                &&& frame_at(buf, offsets[j])
                &&& frames_from(buf, o)[j] == buf.subrange(
                    offsets[j] + 3,
                    offsets[j] + 3 + length_field(buf, offsets[j]),
                )
            },
        forall|j: int|
            0 <= j && j + 1 < offsets.len() ==> #[trigger] offsets[j] + length_field(
                buf,
                offsets[j],
            ) + 6 <= offsets[j + 1],
    decreases buf.len() - o,
{
    if o >= buf.len() {
        Seq::empty()
    } else if frame_at(buf, o as int) {
        let len = length_field(buf, o as int);
        let rest = lemma_frames_in_order(buf, o + len + 6);
        let offsets = seq![o as int] + rest;
        assert forall|j: int| 0 <= j && j + 1 < offsets.len() implies #[trigger] offsets[j]
            + length_field(buf, offsets[j]) + 6 <= offsets[j + 1] by {
            if j > 0 {
                assert(offsets[j] == rest[j - 1]);
                assert(offsets[j + 1] == rest[j]);
            } else {
                assert(offsets[1] == rest[0]);
            }
        }
        assert forall|j: int| 0 <= j < offsets.len() implies {
            &&& o <= #[trigger] offsets[j]
            &&& frame_at(buf, offsets[j])
            &&& frames_from(buf, o)[j] == buf.subrange(
                offsets[j] + 3,
                offsets[j] + 3 + length_field(buf, offsets[j]),
            )
        } by {
            if j > 0 {
                assert(offsets[j] == rest[j - 1]);
            }
        }
        offsets
    } else {
        lemma_frames_in_order(buf, o + 1)
    }
}

/// A buffer that holds exactly one valid frame, built from a payload of length
/// `L` at most 1023, yields exactly that payload.
pub proof fn lemma_single_frame_round_trip(payload: Seq<u8>, trailer: Seq<u8>)
    requires
        payload.len() <= 1023,
        trailer.len() == 3,
        crc24q(frame_header(payload.len()) + payload + trailer) == 0,
    ensures
        scan_payloads(frame_header(payload.len()) + payload + trailer) == seq![payload],
{
    let len = payload.len();
    let buf = frame_header(len) + payload + trailer;
    assert(length_field(buf, 0) == len);
    assert(buf.subrange(0, len as int + 6) =~= buf);
    assert(buf.subrange(3, 3 + len as int) =~= payload);
    assert(frame_at(buf, 0));
    assert(frames_from(buf, len + 6) == Seq::<Seq<u8>>::empty());
    assert(seq![payload] + Seq::<Seq<u8>>::empty() =~= seq![payload]);
}

/// A valid frame followed directly by any bytes `rest` yields the frame's
/// payload, then what `rest` alone yields: no frame that starts right after
/// another is passed over.
pub proof fn lemma_frame_then_rest(payload: Seq<u8>, trailer: Seq<u8>, rest: Seq<u8>)
    requires
        payload.len() <= 1023,
        trailer.len() == 3,
        crc24q(frame_header(payload.len()) + payload + trailer) == 0,
    ensures
        scan_payloads(frame_header(payload.len()) + payload + trailer + rest) == seq![payload]
            + scan_payloads(rest),
{
    let len = payload.len();
    let first = frame_header(len) + payload + trailer;
    let buf = first + rest;
    assert(buf[0] == PREAMBLE && buf[1] == first[1] && buf[2] == first[2]);
    assert(length_field(buf, 0) == len);
    assert(buf.subrange(0, len as int + 6) =~= first);
    assert(buf.subrange(3, 3 + len as int) =~= payload);
    assert(frame_at(buf, 0));
    lemma_frames_shift(first, rest, 0);
}

/// Where no frame starts at any offset of `o .. p`, scanning from `o` finds what
/// scanning from `p` finds.
pub proof fn lemma_skip_no_frame(buf: Seq<u8>, o: nat, p: nat)
    requires
        o <= p <= buf.len(),
        forall|j: int| o <= j < p ==> !#[trigger] frame_at(buf, j),
    ensures
        frames_from(buf, o) == frames_from(buf, p),
    decreases p - o,
{
    if o < p {
        lemma_skip_no_frame(buf, o + 1, p);
    }
}

proof fn lemma_frame_at_shift(prefix: Seq<u8>, rest: Seq<u8>, o: int)
    requires
        0 <= o < rest.len(),
    ensures
        frame_at(prefix + rest, prefix.len() + o) == frame_at(rest, o),
        frame_at(rest, o) ==> (prefix + rest).subrange(
            prefix.len() + o + 3,
            prefix.len() + o + 3 + length_field(rest, o),
        ) == rest.subrange(o + 3, o + 3 + length_field(rest, o)),
{
    let buf = prefix + rest;
    let k = prefix.len() as int;
    if o + 3 <= rest.len() {
        assert(buf[k + o] == rest[o]);
        assert(buf[k + o + 1] == rest[o + 1]);
        assert(buf[k + o + 2] == rest[o + 2]);
        let len = length_field(rest, o);
        assert(length_field(buf, k + o) == len);
        if o + len + 6 <= rest.len() {
            assert(buf.subrange(k + o, k + o + len + 6) =~= rest.subrange(o, o + len + 6));
            assert(buf.subrange(k + o + 3, k + o + 3 + len) =~= rest.subrange(o + 3, o + 3 + len));
        }
    }
}

/// Scanning `prefix + rest` from just past `prefix` finds what scanning `rest`
/// finds.
pub proof fn lemma_frames_shift(prefix: Seq<u8>, rest: Seq<u8>, o: nat)
    requires
        o <= rest.len(),
    ensures
        frames_from(prefix + rest, prefix.len() + o) == frames_from(rest, o),
    decreases rest.len() - o,
{
    let buf = prefix + rest;
    if o < rest.len() {
        lemma_frame_at_shift(prefix, rest, o as int);
        if frame_at(rest, o as int) {
            let len = length_field(rest, o as int);
            lemma_frames_shift(prefix, rest, o + len + 6);
            assert(length_field(buf, prefix.len() + o as int) == len);
        } else {
            lemma_frames_shift(prefix, rest, o + 1);
        }
    }
}

/// A valid frame with one byte after its preamble and length field changed,
/// followed by any bytes `rest`, yields what `rest` alone yields, provided no
/// frame starts inside the corrupted frame after its first byte.
pub proof fn lemma_resync_after_corrupted_frame(good: Seq<u8>, i: int, b: u8, rest: Seq<u8>)
    requires
        good.len() >= 6,
        good[0] == PREAMBLE,
        length_field(good, 0) + 6 == good.len(),
        crc24q(good) == 0,
        3 <= i < good.len(),
        b != good[i],
        forall|j: int|
            1 <= j < good.len() ==> !#[trigger] frame_at(good.update(i, b) + rest, j),
    ensures
        scan_payloads(good.update(i, b) + rest) == scan_payloads(rest),
{
    let bad = good.update(i, b);
    let buf = bad + rest;
    let len = length_field(good, 0);
    lemma_corrupted_byte_detected(good, i, b);
    assert(buf[0] == PREAMBLE);
    assert(buf[1] == good[1] && buf[2] == good[2]);
    assert(length_field(buf, 0) == len);
    assert(buf.subrange(0, len as int + 6) =~= bad);
    assert(!frame_at(buf, 0));
    lemma_skip_no_frame(buf, 0, bad.len());
    lemma_frames_shift(bad, rest, 0);
}

} // verus!
