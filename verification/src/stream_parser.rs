//! Random access to the frames of an `.mfl` byte stream and decoding of the
//! per-channel samples of a frame.

use vstd::prelude::*;

use crate::mfl_format::{
    decode_signed_sample, file_header_of, frame_header_of, spec_decode, spec_sample_bytes, valid_file_header, FileHeader, FrameHeader, FILE_HEADER_SIZE,
    FRAME_HEADER_SIZE,
};

verus! {

#[verifier::external_type_specification]
#[verifier::external_body]
pub struct ExIoError(std::io::Error);

/// Why a byte stream could not be opened as an MFL stream.
#[derive(Debug)]
pub enum ParseError {
    /// Reading the underlying file failed.
    Io(std::io::Error),
    /// The stream does not start with `MFL_MAGIC`.
    BadMagic,
    /// The stream is shorter than a file header.
    Truncated { got: usize, need: usize },
    /// A frame could not be read.
    BadFrame { index: usize, offset: usize, reason: String },
}

/// An opened MFL stream: its bytes and its parsed file header.
pub struct MflStream {
    data: Vec<u8>,
    header: FileHeader,
}

/// One frame of a stream: its header and the raw bytes of its samples.
pub struct Frame<'a> {
    pub hdr: FrameHeader,
    pub samples: &'a [u8],
    pub header: &'a FileHeader,
}

/// Byte offset of frame `idx` in a stream whose frames are `frame_bytes` long.
pub open spec fn frame_offset(idx: int, frame_bytes: int) -> int {
    FILE_HEADER_SIZE + idx * frame_bytes
}

/// For a positive frame size `t` and `d` bytes of frames, frame `idx` fits
/// completely exactly when `idx` is below the number of complete frames.
proof fn lemma_frame_fits(idx: int, t: int, d: int)
    requires
        t > 0,
        d >= 0,
        idx >= 0,
    ensures
        (idx + 1) * t <= d <==> idx < d / t,
{
    let q = d / t;
    vstd::arithmetic::div_mod::lemma_fundamental_div_mod(d, t);
    vstd::arithmetic::div_mod::lemma_mod_bound(d, t);
    if idx < q {
        assert((idx + 1) * t <= q * t) by (nonlinear_arith)
            requires
                idx + 1 <= q,
                t > 0,
        ;
        assert(q * t <= d) by (nonlinear_arith)
            requires
                d == t * q + d % t,
                d % t >= 0,
        ;
    } else {
        assert((idx + 1) * t >= (q + 1) * t) by (nonlinear_arith)
            requires
                idx >= q,
                t > 0,
        ;
        assert((q + 1) * t > d) by (nonlinear_arith)
            requires
                d == t * q + d % t,
                d % t < t,
        ;
    }
}

/// Byte offset, within a frame's samples, of axis `a` of `channel`.
pub open spec fn axis_offset(h: FileHeader, channel: int, a: int) -> int {
    let sb = spec_sample_bytes(h.sample_resolution_bits);
    channel * h.num_axes * sb + a * sb
}

/// Axis `a` of `channel` lies completely within `samples`.
pub open spec fn axis_fits(h: FileHeader, samples: Seq<u8>, channel: int, a: int) -> bool {
    axis_offset(h, channel, a) + spec_sample_bytes(h.sample_resolution_bits) <= samples.len()
}

/// The decoded value of axis `a` of `channel` in `samples`.
pub open spec fn axis_value(h: FileHeader, samples: Seq<u8>, channel: int, a: int) -> int {
    let off = axis_offset(h, channel, a);
    spec_decode(
        samples.subrange(off, off + spec_sample_bytes(h.sample_resolution_bits)),
        h.sample_resolution_bits,
    )
}

impl MflStream {
    #[verifier::type_invariant]
    spec fn wf(self) -> bool {
        &&& valid_file_header(self.data@)
        &&& file_header_of(self.header, self.data@)
        &&& self.data@.len() <= usize::MAX
    }

    /// The bytes of the stream.
    pub closed spec fn bytes(&self) -> Seq<u8> {
        self.data@
    }

    /// The parsed file header of the stream.
    pub closed spec fn spec_header(&self) -> FileHeader {
        self.header
    }

    /// Number of complete frames that follow the file header.
    pub open spec fn spec_num_frames(&self) -> int {
        (self.bytes().len() - FILE_HEADER_SIZE) / self.spec_header().spec_frame_total_bytes()
    }

    /// Opens a stream over `data`. Fails with `Truncated` when `data` is
    /// shorter than a file header and with `BadMagic` when it does not start
    /// with the magic bytes.
    pub fn from_bytes(data: Vec<u8>) -> (res: Result<MflStream, ParseError>)
        ensures
            data@.len() < FILE_HEADER_SIZE <==> (res matches Err(ParseError::Truncated { got, need })
                && got == data@.len() && need == FILE_HEADER_SIZE),
            (data@.len() >= FILE_HEADER_SIZE && !valid_file_header(data@)) <==> (res matches Err(
                ParseError::BadMagic,
            )),
            res is Ok <==> valid_file_header(data@),
            res matches Ok(s) ==> s.bytes() == data@ && file_header_of(s.spec_header(), data@),
    {
        if data.len() < FILE_HEADER_SIZE {
            return Err(ParseError::Truncated { got: data.len(), need: FILE_HEADER_SIZE });
        }
        let header = match FileHeader::parse(data.as_slice()) {
            Some(h) => h,
            None => {
                return Err(ParseError::BadMagic);
            },
        };
        Ok(MflStream { data, header })
    }

    /// The parsed file header.
    pub fn header(&self) -> (h: &FileHeader)
        ensures
            *h == self.spec_header(),
            valid_file_header(self.bytes()),
            file_header_of(*h, self.bytes()),
            self.bytes().len() <= usize::MAX,
    {
        proof {
            use_type_invariant(self);
        }
        &self.header
    }

    /// Number of complete frames in the stream.
    pub fn num_frames(&self) -> (n: usize)
        ensures
            n == self.spec_num_frames(),
    {
        proof {
            use_type_invariant(self);
        }
        let data_len = self.data.len() - FILE_HEADER_SIZE;
        data_len / self.header.frame_total_bytes()
    }

    /// `f` is frame `idx` of this stream: its header is parsed from the
    /// frame's first `FRAME_HEADER_SIZE` bytes, its samples are the rest of
    /// the frame, and it refers to the stream's file header.
    pub open spec fn is_frame(&self, idx: int, f: Frame) -> bool {
        let t = self.spec_header().spec_frame_total_bytes();
        let off = frame_offset(idx, t);
        &&& frame_header_of(f.hdr, self.bytes().subrange(off, off + FRAME_HEADER_SIZE))
        &&& f.samples@ == self.bytes().subrange(off + FRAME_HEADER_SIZE, off + t)
        &&& *f.header == self.spec_header()
    }

    /// Frame `idx`: `None` unless the whole frame lies within the stream,
    /// that is unless `idx < num_frames()`.
    pub fn frame(&self, idx: usize) -> (res: Option<Frame<'_>>)
        requires
            frame_offset(idx + 1, self.spec_header().spec_frame_total_bytes()) <= usize::MAX,
        ensures
            res is Some <==> frame_offset(idx + 1, self.spec_header().spec_frame_total_bytes())
                <= self.bytes().len(),
            res is Some <==> idx < self.spec_num_frames(),
            res matches Some(f) ==> self.is_frame(idx as int, f),
    {
        proof {
            use_type_invariant(self);
        }
        let t = self.header.frame_total_bytes();
        proof {
            lemma_frame_fits(idx as int, t as int, self.data@.len() - FILE_HEADER_SIZE);
            assert((idx + 1) * t == idx * t + t) by (nonlinear_arith);
        }
        let offset = FILE_HEADER_SIZE + idx * t;
        let end = offset + t;
        if end > self.data.len() {
            return None;
        }
        let bytes = self.data.as_slice();
        let hdr_buf = &bytes[offset..offset + FRAME_HEADER_SIZE];
        let hdr = match FrameHeader::parse(hdr_buf) {
            Some(h) => h,
            None => {
                return None;
            },
        };
        let data_start = offset + FRAME_HEADER_SIZE;
        let data_end = data_start + self.header.frame_data_bytes();
        let samples = &bytes[data_start..data_end];
        Some(Frame { hdr, samples, header: &self.header })
    }

    /// Decodes the axes of `channel` in `frame`: the longest prefix of its
    /// `num_axes` samples that lies within the frame's sample bytes. For a
    /// frame of this stream and a channel below `num_channels`, that is all
    /// of them.
    pub fn decode_channel_axes(&self, frame: &Frame<'_>, channel: u16) -> (res: Vec<i32>)
        requires
            self.spec_header().num_axes == 0 || !axis_fits(
                self.spec_header(),
                frame.samples@,
                channel as int,
                0,
            ) || (1 <= self.spec_header().sample_resolution_bits <= 32),
        ensures
            res@.len() <= self.spec_header().num_axes,
            forall|j: int|
                0 <= j < res@.len() ==> #[trigger] axis_fits(
                    self.spec_header(),
                    frame.samples@,
                    channel as int,
                    j,
                ),
            forall|j: int|
                0 <= j < res@.len() ==> (#[trigger] res@[j]) as int == axis_value(
                    self.spec_header(),
                    frame.samples@,
                    channel as int,
                    j,
                ),
            res@.len() < self.spec_header().num_axes ==> !axis_fits(
                self.spec_header(),
                frame.samples@,
                channel as int,
                res@.len() as int,
            ),
            frame.samples@.len() == self.spec_header().spec_frame_data_bytes() && channel
                < self.spec_header().num_channels ==> res@.len() == self.spec_header().num_axes,
    {
        let ghost h = self.header;
        let n_axes = self.header.num_axes as usize;
        let sbytes = self.header.sample_bytes();
        let bits = self.header.sample_resolution_bits;
        proof {
            assert(channel * n_axes <= 65535 * 255) by (nonlinear_arith)
                requires
                    channel <= 65535,
                    n_axes <= 255,
            ;
            assert(channel * n_axes * sbytes <= 65535 * 255 * 32) by (nonlinear_arith)
                requires
                    channel * n_axes <= 65535 * 255,
                    sbytes <= 32,
            ;
        }
        let base = channel as usize * n_axes * sbytes;
        let mut out: Vec<i32> = Vec::with_capacity(n_axes);
        let mut a: usize = 0;
        while a < n_axes
            invariant
                h == self.spec_header(),
                n_axes == h.num_axes,
                sbytes == spec_sample_bytes(h.sample_resolution_bits),
                3 <= sbytes <= 32,
                bits == h.sample_resolution_bits,
                base == channel * n_axes * sbytes,
                base <= 65535 * 255 * 32,
                h.num_axes == 0 || !axis_fits(h, frame.samples@, channel as int, 0) || (1 <= bits
                    <= 32),
                a <= n_axes,
                out@.len() <= a,
                forall|j: int|
                    0 <= j < out@.len() ==> #[trigger] axis_fits(h, frame.samples@, channel as int, j),
                forall|j: int|
                    0 <= j < out@.len() ==> (#[trigger] out@[j]) as int == axis_value(
                        h,
                        frame.samples@,
                        channel as int,
                        j,
                    ),
                out@.len() < a ==> !axis_fits(h, frame.samples@, channel as int, out@.len() as int),
            decreases n_axes - a,
        {
            proof {
                assert(a * sbytes <= 255 * 32) by (nonlinear_arith)
                    requires
                        a <= 255,
                        sbytes <= 32,
                ;
            }
            let off = base + a * sbytes;
            proof {
                assert(axis_offset(h, channel as int, a as int) == off);
            }
            if off + sbytes <= frame.samples.len() {
                proof {
                    if out@.len() < a {
                        let k = out@.len() as int;
                        assert(k * sbytes <= a * sbytes) by (nonlinear_arith)
                            requires
                                k <= a,
                                sbytes >= 0,
                        ;
                        assert(axis_offset(h, channel as int, k) == base + k * sbytes);
                    }
                    assert(0 * sbytes == 0);
                    assert(axis_offset(h, channel as int, 0) == base);
                    assert(axis_fits(h, frame.samples@, channel as int, 0)) by {
                        assert(0 <= a * sbytes) by (nonlinear_arith)
                            requires
                                sbytes >= 0,
                        ;
                    }
                }
                let raw = &frame.samples[off..off + sbytes];
                let v = decode_signed_sample(raw, bits);
                proof {
                    assert(out@.len() == a);
                    assert(raw@ == frame.samples@.subrange(off as int, off + sbytes));
                    assert(v as int == axis_value(h, frame.samples@, channel as int, a as int));
                }
                let ghost prev = out@;
                out.push(v);
                proof {
                    assert(forall|j: int| 0 <= j < prev.len() ==> out@[j] == prev[j]);
                    assert(out@[a as int] == v);
                    assert(axis_fits(h, frame.samples@, channel as int, a as int));

                }
            }
            a = a + 1;
        }
        proof {
            if frame.samples@.len() == h.spec_frame_data_bytes() && channel < h.num_channels
                && out@.len() < n_axes {
                let k = out@.len() as int;
                assert(base + (k + 1) * sbytes <= (channel + 1) * n_axes * sbytes) by (nonlinear_arith)
                    requires
                        base == channel * n_axes * sbytes,
                        k + 1 <= n_axes,
                        sbytes >= 0,
                ;
                assert((channel + 1) * n_axes * sbytes <= h.num_channels * n_axes * sbytes)
                    by (nonlinear_arith)
                    requires
                        channel + 1 <= h.num_channels,
                        n_axes >= 0,
                        sbytes >= 0,
                ;
                assert(axis_offset(h, channel as int, k) + sbytes == base + (k + 1) * sbytes)
                    by (nonlinear_arith)
                    requires
                        axis_offset(h, channel as int, k) == base + k * sbytes,
                ;
            }
        }
        out
    }
}

impl MflStream {
    /// An iterator over the frames of the stream, from the first.
    pub fn iter_frames(&self) -> (it: FrameIter<'_>)
        ensures
            it.stream() == self,
            it.pos() == 0,
    {
        FrameIter { stream: self, pos: 0 }
    }
}

/// Walks the frames of a stream in order.
pub struct FrameIter<'a> {
    stream: &'a MflStream,
    pos: usize,
}

impl<'a> FrameIter<'a> {
    /// The stream being walked.
    pub closed spec fn stream(&self) -> &'a MflStream {
        self.stream
    }

    /// Index of the next frame to yield.
    pub closed spec fn pos(&self) -> int {
        self.pos as int
    }

    /// Yields the next frame, or `None` once every frame has been yielded.
    pub fn next(&mut self) -> (res: Option<Frame<'a>>)
        ensures
            final(self).stream() == old(self).stream(),
            old(self).pos() < old(self).stream().spec_num_frames() ==> {
                &&& res matches Some(f)
                &&& old(self).stream().is_frame(old(self).pos(), f)
                &&& final(self).pos() == old(self).pos() + 1
            },
            old(self).pos() >= old(self).stream().spec_num_frames() ==> {
                &&& res is None
                &&& final(self).pos() == old(self).pos()
            },
    {
        let n = self.stream.num_frames();
        let _ = self.stream.header();
        if self.pos >= n {
            return None;
        }
        proof {
            let s = self.stream;
            let h = s.spec_header();
            let t = h.spec_frame_total_bytes();
            assert(t >= FRAME_HEADER_SIZE);
            lemma_frame_fits(self.pos as int, t, s.bytes().len() - FILE_HEADER_SIZE);
        }
        let f = match self.stream.frame(self.pos) {
            Some(f) => f,
            None => {
                return None;
            },
        };
        self.pos = self.pos + 1;
        Some(f)
    }

    /// Number of frames still to be yielded, as an exact lower and upper bound.
    pub fn size_hint(&self) -> (r: (usize, Option<usize>))
        ensures
            r.0 == if self.pos() < self.stream().spec_num_frames() {
                self.stream().spec_num_frames() - self.pos()
            } else {
                0
            },
            r.1 == Some(r.0),
    {
        let rem = self.stream.num_frames().saturating_sub(self.pos);
        (rem, Some(rem))
    }
}

} // verus!
