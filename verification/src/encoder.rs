//! The pipe protocol of the H.264 encoder helper: its configuration, framed
//! headers, planes of pixels and encoded packets.

use vstd::prelude::*;

verus! {

pub const VERSION: u32 = 1;

/// The largest header.
pub const MAX_HEADER: usize = 4096;

/// The largest encoded packet.
pub const MAX_PACKET: usize = 2_097_152;

/// Why a message, a plane or a packet was refused.
#[derive(Debug, Clone, Copy, PartialEq, Eq, Structural)]
pub enum Error {
    VersionMismatch,
    InvalidDimensions,
    InvalidRate,
    HeaderTooLarge,
    InvalidHeaderSize,
    PlaneTooSmall,
    UnexpectedEnd,
    ChromaDoesNotFit,
    InvalidPacketSize,
    NotAnnexB,
    EmptyNal,
    WrongProfile,
    NoPicture,
    MissingParameterSets,
    InvalidRequest,
    IgnoredKeyframe,
}

impl Error {
    /// The words shown for the error.
    pub open spec fn text(self) -> Seq<char> {
        match self {
            Error::VersionMismatch => "encoder helper version mismatch"@,
            Error::InvalidDimensions => "invalid H.264 dimensions"@,
            Error::InvalidRate => "invalid H.264 rate"@,
            Error::HeaderTooLarge => "encoder header too large"@,
            Error::InvalidHeaderSize => "invalid encoder header size"@,
            Error::PlaneTooSmall => "plane is smaller than its rows"@,
            Error::UnexpectedEnd => "unexpected end of file"@,
            Error::ChromaDoesNotFit => "chroma does not fit its plane"@,
            Error::InvalidPacketSize => "invalid H.264 packet size"@,
            Error::NotAnnexB => "encoder did not produce Annex B H.264"@,
            Error::EmptyNal => "empty H.264 NAL"@,
            Error::WrongProfile =>
                "hardware encoder did not produce constrained-baseline H.264"@,
            Error::NoPicture => "encoder packet contains no picture"@,
            Error::MissingParameterSets => "IDR is missing H.264 parameter sets"@,
            Error::InvalidRequest => "invalid frame request"@,
            Error::IgnoredKeyframe => "hardware did not honor the IDR request"@,
        }
    }

    pub fn message(&self) -> (r: String)
        ensures
            r@ == self.text(),
    {
        let words = match *self {
            Error::VersionMismatch => "encoder helper version mismatch",
            Error::InvalidDimensions => "invalid H.264 dimensions",
            Error::InvalidRate => "invalid H.264 rate",
            Error::HeaderTooLarge => "encoder header too large",
            Error::InvalidHeaderSize => "invalid encoder header size",
            Error::PlaneTooSmall => "plane is smaller than its rows",
            Error::UnexpectedEnd => "unexpected end of file",
            Error::ChromaDoesNotFit => "chroma does not fit its plane",
            Error::InvalidPacketSize => "invalid H.264 packet size",
            Error::NotAnnexB => "encoder did not produce Annex B H.264",
            Error::EmptyNal => "empty H.264 NAL",
            Error::WrongProfile => "hardware encoder did not produce constrained-baseline H.264",
            Error::NoPicture => "encoder packet contains no picture",
            Error::MissingParameterSets => "IDR is missing H.264 parameter sets",
            Error::InvalidRequest => "invalid frame request",
            Error::IgnoredKeyframe => "hardware did not honor the IDR request",
        };
        words.to_owned()
    }
}

/// What to encode.
#[derive(Debug, Clone, Copy, PartialEq, Eq, Structural)]
pub struct Config {
    pub version: u32,
    pub width: u32,
    pub height: u32,
    pub fps: u32,
    pub bitrate: u32,
    /// Frames between IDRs. Zero keeps the two-second interval. A positive
    /// value is an explicit interval; Cast uses one minute so a keyframe is
    /// not spent on a clock.
    pub gop_frames: u32,
}

impl Config {
    /// Even sides from 16 on, within 3840 by 2160 in either orientation.
    pub open spec fn fits(self) -> bool {
        let longer = if self.width >= self.height { self.width } else { self.height };
        let shorter = if self.width >= self.height { self.height } else { self.width };
        &&& shorter >= 16
        &&& longer <= 3840
        &&& shorter <= 2160
        &&& self.width % 2 == 0
        &&& self.height % 2 == 0
    }

    /// The bytes of an I420 frame, or why there is none.
    pub open spec fn frame_size(self) -> Result<usize, Error> {
        if self.version != VERSION {
            Err(Error::VersionMismatch)
        } else if !self.fits() {
            Err(Error::InvalidDimensions)
        } else if !(1 <= self.fps <= 60 && 100_000 <= self.bitrate <= 50_000_000) {
            Err(Error::InvalidRate)
        } else {
            Ok((self.width * self.height * 3 / 2) as usize)
        }
    }

    pub fn frame_len(&self) -> (r: Result<usize, Error>)
        ensures
            r == self.frame_size(),
    {
        if self.version != VERSION {
            return Err(Error::VersionMismatch);
        }
        let longer: u32 = if self.width >= self.height { self.width } else { self.height };
        let shorter: u32 = if self.width >= self.height { self.height } else { self.width };
        if !(shorter >= 16 && longer <= 3840 && shorter <= 2160 && self.width % 2 == 0
            && self.height % 2 == 0) {
            return Err(Error::InvalidDimensions);
        }
        if !(1 <= self.fps && self.fps <= 60 && 100_000 <= self.bitrate && self.bitrate
            <= 50_000_000) {
            return Err(Error::InvalidRate);
        }
        proof {
            assert(0 <= self.width * self.height <= 3840 * 3840) by (nonlinear_arith)
                requires
                    0 <= self.width <= 3840,
                    0 <= self.height <= 3840,
            ;
        }
        Ok(self.width as usize * self.height as usize * 3 / 2)
    }

    pub fn gop_frames(&self) -> (r: u32)
        ensures
            r == if self.gop_frames != 0 {
                self.gop_frames as int
            } else if self.fps == 0 {
                1
            } else if 2 * self.fps <= u32::MAX {
                2 * self.fps
            } else {
                u32::MAX as int
            },
    {
        if self.gop_frames != 0 {
            return self.gop_frames;
        }
        if self.fps == 0 {
            1
        } else if self.fps <= 0x7fff_ffff {
            2 * self.fps
        } else {
            0xffff_ffff
        }
    }
}

/// The header of an encoded packet.
#[derive(Debug, Clone, PartialEq, Eq)]
pub struct Reply {
    pub encoder: String,
    pub bytes: usize,
}

/// Four bytes, the lowest first.
pub open spec fn little_endian(n: int) -> Seq<u8> {
    seq![
        (n % 256) as u8,
        (n / 256 % 256) as u8,
        (n / 65536 % 256) as u8,
        (n / 16777216 % 256) as u8,
    ]
}

/// The number that four bytes, the lowest first, stand for.
pub open spec fn from_little_endian(b: Seq<u8>) -> int {
    b[0] + 256 * b[1] + 65536 * b[2] + 16777216 * b[3]
}

/// A header on the wire: its length, then its bytes.
pub fn frame_header(header: &[u8]) -> (r: Result<Vec<u8>, Error>)
    ensures
        match r {
            Ok(wire) => header@.len() <= MAX_HEADER && wire@ == framed(header@),
            Err(error) => header@.len() > MAX_HEADER && error == Error::HeaderTooLarge,
        },
{
    if header.len() > MAX_HEADER {
        return Err(Error::HeaderTooLarge);
    }
    let n: usize = header.len();
    let mut wire: Vec<u8> = Vec::new();
    wire.push((n % 256) as u8);
    wire.push((n / 256 % 256) as u8);
    wire.push((n / 65536 % 256) as u8);
    wire.push((n / 16777216 % 256) as u8);
    wire.extend_from_slice(header);
    assert(wire@ =~= little_endian(n as int) + header@);
    Ok(wire)
}

/// The length of the header that follows its four length bytes.
pub fn header_len(size: [u8; 4]) -> (r: Result<usize, Error>)
    ensures
        match r {
            Ok(n) => n == from_little_endian(size@) && 1 <= n <= MAX_HEADER,
            Err(error) => !(1 <= from_little_endian(size@) <= MAX_HEADER) && error
                == Error::InvalidHeaderSize,
        },
{
    let n: u32 = size[0] as u32 + 256 * size[1] as u32 + 65536 * size[2] as u32 + 16777216
        * size[3] as u32;
    if 1 <= n && n <= 4096 {
        Ok(n as usize)
    } else {
        Err(Error::InvalidHeaderSize)
    }
}

/// The bytes of a header on the wire.
pub open spec fn framed(header: Seq<u8>) -> Seq<u8> {
    little_endian(header.len() as int) + header
}

/// The header at the start of what arrived, and where what follows it starts;
/// or why there is none.
pub open spec fn unframed(wire: Seq<u8>) -> Result<(Seq<u8>, int), Error> {
    let size = from_little_endian(wire.subrange(0, 4));
    if wire.len() < 4 {
        Err(Error::UnexpectedEnd)
    } else if !(1 <= size <= MAX_HEADER) {
        Err(Error::InvalidHeaderSize)
    } else if wire.len() < 4 + size {
        Err(Error::UnexpectedEnd)
    } else {
        Ok((wire.subrange(4, 4 + size), 4 + size))
    }
}

/// Takes the header off the start of what arrived.
pub fn take_header(wire: &[u8]) -> (r: Result<(Vec<u8>, usize), Error>)
    ensures
        match r {
            Ok((header, end)) => unframed(wire@) == Ok::<(Seq<u8>, int), Error>(
                (header@, end as int),
            ),
            Err(error) => unframed(wire@) == Err::<(Seq<u8>, int), Error>(error),
        },
{
    if wire.len() < 4 {
        return Err(Error::UnexpectedEnd);
    }
    let size: [u8; 4] = [wire[0], wire[1], wire[2], wire[3]];
    assert(size@ =~= wire@.subrange(0, 4));
    let n: usize = match header_len(size) {
        Ok(n) => n,
        Err(error) => return Err(error),
    };
    if wire.len() - 4 < n {
        return Err(Error::UnexpectedEnd);
    }
    let mut header: Vec<u8> = Vec::new();
    let mut i: usize = 0;
    while i < n
        invariant
            i <= n,
            4 + n <= wire@.len(),
            wire.len() == wire@.len(),
            header@ == wire@.subrange(4, 4 + i),
        decreases n - i,
    {
        header.push(wire[4 + i]);
        i = i + 1;
        assert(header@ =~= wire@.subrange(4, 4 + i));
    }
    Ok((header, 4 + n))
}

/// What is written is read back: for every message that is not empty and not
/// too long, the length bytes give the length of the text, and reading hands
/// out exactly the text, whatever follows it.
pub proof fn framed_headers_are_read_back(header: Seq<u8>, rest: Seq<u8>)
    requires
        1 <= header.len() <= MAX_HEADER,
    ensures
        framed(header).len() == 4 + header.len(),
        from_little_endian(framed(header).subrange(0, 4)) == header.len(),
        unframed(framed(header) + rest) == Ok::<(Seq<u8>, int), Error>(
            (header, 4 + header.len() as int),
        ),
{
    let wire = framed(header) + rest;
    assert(framed(header).subrange(0, 4) =~= little_endian(header.len() as int));
    assert(wire.subrange(0, 4) =~= little_endian(header.len() as int));
    assert(from_little_endian(wire.subrange(0, 4)) == header.len());
    assert(wire.subrange(4, 4 + header.len() as int) =~= header);
}

/// Where byte `k` of rows sent back to back lands in a plane whose rows start
/// `stride` bytes apart.
pub open spec fn place(k: int, width: int, stride: int) -> int {
    k / width * stride + k % width
}

/// Filling a plane row by row, however the input arrives.
#[derive(Debug, Clone, Copy, PartialEq, Eq, Structural)]
pub struct PlaneFill {
    pub width: usize,
    pub stride: usize,
    pub rows: usize,
    /// Bytes filled so far.
    pub filled: usize,
}

/// The rows fit a plane of `len` bytes; the last one needs no padding.
pub open spec fn rows_fit(width: int, stride: int, rows: int, len: int) -> bool {
    width <= stride && stride * (rows - 1) + width <= len
}

impl PlaneFill {
    pub open spec fn wf(self, len: int) -> bool {
        &&& 0 < self.width
        &&& 0 < self.rows
        &&& rows_fit(self.width as int, self.stride as int, self.rows as int, len)
        &&& self.filled <= self.width * self.rows
    }

    /// Starts on a plane of `len` bytes: nothing to do without rows.
    pub fn new(width: usize, stride: usize, rows: usize, len: usize) -> (r: Result<
        Option<PlaneFill>,
        Error,
    >)
        ensures
            match r {
                Ok(None) => rows == 0 || width == 0,
                Ok(Some(fill)) => {
                    &&& rows > 0 && width > 0
                    &&& fill == PlaneFill { width, stride, rows, filled: 0 }
                    &&& fill.wf(len as int)
                },
                Err(error) => {
                    &&& rows > 0 && width > 0
                    &&& !rows_fit(width as int, stride as int, rows as int, len as int)
                    &&& error == Error::PlaneTooSmall
                },
            },
    {
        if rows == 0 || width == 0 {
            return Ok(None);
        }
        if width > stride {
            return Err(Error::PlaneTooSmall);
        }
        let last: usize = match stride.checked_mul(rows - 1) {
            Some(last) => last,
            None => return Err(Error::PlaneTooSmall),
        };
        if last > len || width > len - last {
            return Err(Error::PlaneTooSmall);
        }
        proof {
            assert(0 <= width * rows) by (nonlinear_arith)
                requires
                    0 <= width,
                    0 <= rows,
            ;
        }
        Ok(Some(PlaneFill { width, stride, rows, filled: 0 }))
    }

    /// The part of the plane to fill next: the rest of the current row. Empty
    /// once all rows are filled.
    pub fn next(&self, len: usize) -> (r: (usize, usize))
        requires
            self.wf(len as int),
        ensures
            r.0 <= r.1 <= len,
            self.filled == self.width * self.rows ==> r.0 == r.1,
            self.filled < self.width * self.rows ==> {
                &&& r.0 == place(self.filled as int, self.width as int, self.stride as int)
                &&& r.1 - r.0 == self.width - self.filled as int % self.width as int
                &&& r.1 > r.0
                &&& self.filled + (r.1 - r.0) <= self.width * self.rows
            },
    {
        let row: usize = self.filled / self.width;
        let column: usize = self.filled % self.width;
        if row >= self.rows {
            proof {
                let w = self.width as int;
                let f = self.filled as int;
                let n = self.rows as int;
                assert(f >= w * n) by (nonlinear_arith)
                    requires
                        0 < w,
                        f / w >= n,
                ;
            }
            return (0, 0);
        }
        proof {
            let w = self.width as int;
            let s = self.stride as int;
            let n = self.rows as int;
            let r = row as int;
            let f = self.filled as int;
            assert(r * s <= s * (n - 1)) by (nonlinear_arith)
                requires
                    r <= n - 1,
                    0 <= s,
            ;
            assert(0 <= r * s) by (nonlinear_arith)
                requires
                    0 <= r,
                    0 <= s,
            ;
            assert(f == w * r + f % w && w * r + w <= w * n) by (nonlinear_arith)
                requires
                    r == f / w,
                    0 < w,
                    r < n,
            ;
        }
        let start: usize = row * self.stride;
        (start + column, start + self.width)
    }

    /// `n` more bytes were filled.
    pub fn advance(&mut self, n: usize)
        requires
            old(self).filled + n <= usize::MAX,
        ensures
            *final(self) == (PlaneFill {
                filled: (old(self).filled + n) as usize,
                ..*old(self)
            }),
    {
        self.filled = self.filled + n;
    }
}

/// The plane with the first `count` bytes of `data` in place.
pub open spec fn placed(
    plane: Seq<u8>,
    data: Seq<u8>,
    width: int,
    stride: int,
    count: int,
) -> Seq<u8> {
    Seq::new(
        plane.len(),
        |i: int|
            if i % stride < width && i / stride * width + i % stride < count {
                data[i / stride * width + i % stride]
            } else {
                plane[i]
            },
    )
}

/// Takes `rows` rows of `width` bytes, sent back to back, from `data` into
/// `plane`, whose rows start `stride` bytes apart. Padding is left alone.
/// Gives the number of bytes taken. Where the data ends early, padded rows
/// have taken what there was; rows without padding are taken together or not
/// at all.
pub fn read_plane(data: &[u8], plane: &mut Vec<u8>, width: usize, stride: usize, rows: usize) -> (r: Result<
    usize,
    Error,
>)
    ensures
        match r {
            Ok(n) => if rows == 0 || width == 0 {
                n == 0 && final(plane)@ == old(plane)@
            } else {
                &&& rows_fit(width as int, stride as int, rows as int, old(plane)@.len() as int)
                &&& n == width * rows <= data@.len()
                &&& final(plane)@ == placed(
                    old(plane)@,
                    data@,
                    width as int,
                    stride as int,
                    width * rows,
                )
            },
            Err(error) => {
                &&& rows > 0 && width > 0
                &&& if !rows_fit(
                    width as int,
                    stride as int,
                    rows as int,
                    old(plane)@.len() as int,
                ) {
                    error == Error::PlaneTooSmall && final(plane)@ == old(plane)@
                } else {
                    &&& error == Error::UnexpectedEnd
                    &&& data@.len() < width * rows
                    &&& final(plane)@ == if width == stride {
                        old(plane)@
                    } else {
                        placed(
                            old(plane)@,
                            data@,
                            width as int,
                            stride as int,
                            data@.len() as int,
                        )
                    }
                }
            },
        },
{
    let mut fill = match PlaneFill::new(width, stride, rows, plane.len()) {
        Ok(Some(fill)) => fill,
        Ok(None) => return Ok(0),
        Err(error) => return Err(error),
    };
    let ghost before = plane@;
    let ghost w = width as int;
    let ghost s = stride as int;
    let whole: bool = match width.checked_mul(rows) {
        Some(total) => total <= data.len(),
        None => false,
    };
    assert(data.len() == data@.len());
    assert(whole <==> width * rows <= data@.len());
    if !whole && width == stride {
        return Err(Error::UnexpectedEnd);
    }
    let total: usize = if whole { width * rows } else { data.len() };
    assert(plane@ =~= placed(before, data@, w, s, 0));
    while fill.filled < total
        invariant
            fill.wf(before.len() as int),
            fill.width == width,
            fill.stride == stride,
            fill.rows == rows,
            total <= width * rows,
            total <= data@.len(),
            fill.filled <= total,
            w == width,
            s == stride,
            plane@.len() == before.len(),
            plane@ == placed(before, data@, w, s, fill.filled as int),
        decreases total - fill.filled,
    {
        let span: (usize, usize) = fill.next(plane.len());
        let base: usize = fill.filled;
        let rest: usize = span.1 - span.0;
        let count: usize = if rest <= total - base { rest } else { total - base };
        let ghost now = plane@;
        let mut k: usize = 0;
        while k < count
            invariant
                k <= count,
                span.0 + count <= span.1,
                span.1 <= before.len(),
                plane@.len() == before.len(),
                base + count <= total <= data@.len(),
                forall|i: int|
                    0 <= i < before.len() ==> #[trigger] plane@[i] == if span.0 <= i < span.0 + k {
                        data@[base + (i - span.0)]
                    } else {
                        now[i]
                    },
            decreases count - k,
        {
            plane.set(span.0 + k, data[base + k]);
            k = k + 1;
        }
        proof {
            lemma_row_placed(before, data@, w, s, base as int, count as int);
            assert forall|i: int| 0 <= i < before.len() implies plane@[i] == placed(
                before,
                data@,
                w,
                s,
                base + count,
            )[i] by {
                assert(now[i] == placed(before, data@, w, s, base as int)[i]);
            }
            assert(plane@ =~= placed(before, data@, w, s, base + count));
        }
        fill.advance(count);
    }
    if !whole {
        return Err(Error::UnexpectedEnd);
    }
    Ok(total)
}

/// Placing the rest of a row's bytes extends the placed data by them.
proof fn lemma_row_placed(plane: Seq<u8>, data: Seq<u8>, w: int, s: int, base: int, count: int)
    requires
        0 < w <= s,
        0 <= base,
        0 < count <= w - base % w,
    ensures
        forall|i: int|
            0 <= i < plane.len() ==> #[trigger] placed(plane, data, w, s, base + count)[i] == if place(
                base,
                w,
                s,
            ) <= i < place(base, w, s) + count {
                data[base + (i - place(base, w, s))]
            } else {
                placed(plane, data, w, s, base)[i]
            },
{
    let q = base / w;
    let c = base % w;
    assert(base == w * q + c && 0 <= c < w && 0 <= q) by (nonlinear_arith)
        requires
            q == base / w,
            c == base % w,
            0 < w,
            0 <= base,
    ;
    assert forall|i: int| 0 <= i < plane.len() implies #[trigger] placed(
        plane,
        data,
        w,
        s,
        base + count,
    )[i] == (if place(base, w, s) <= i < place(base, w, s) + count {
        data[base + (i - place(base, w, s))]
    } else {
        placed(plane, data, w, s, base)[i]
    }) by {
        let y = i / s;
        let x = i % s;
        assert(i == s * y + x && 0 <= x < s && 0 <= y) by (nonlinear_arith)
            requires
                y == i / s,
                x == i % s,
                0 < s,
                0 <= i,
        ;
        assert(q * s == s * q) by (nonlinear_arith);
        assert(y * w == w * y) by (nonlinear_arith);
        if place(base, w, s) <= i < place(base, w, s) + count {
            assert(y == q) by (nonlinear_arith)
                requires
                    s * q + c <= s * y + x < s * q + w,
                    0 <= x < s,
                    0 <= c,
                    w <= s,
            ;
        } else if x < w {
            if y < q {
                assert(w * y + w <= w * q) by (nonlinear_arith)
                    requires
                        y + 1 <= q,
                        0 < w,
                ;
            } else if y > q {
                assert(w * y >= w * q + w) by (nonlinear_arith)
                    requires
                        y >= q + 1,
                        0 < w,
                ;
            }
            assert(w * y + x < base + count <==> w * y + x < base);
        }
    }
}

/// The chroma fits its plane.
pub open spec fn chroma_fits(
    u: int,
    v: int,
    plane: int,
    width: int,
    stride: int,
    rows: int,
) -> bool {
    u >= width * rows && v >= width * rows && rows_fit(2 * width, stride, rows, plane)
}

/// The plane with the samples of `u` and `v` alternating in its rows.
pub open spec fn interleaved(
    u: Seq<u8>,
    v: Seq<u8>,
    plane: Seq<u8>,
    width: int,
    stride: int,
    rows: int,
) -> Seq<u8> {
    Seq::new(
        plane.len(),
        |i: int|
            if i / stride < rows && i % stride < 2 * width {
                let k = i / stride * width + i % stride / 2;
                if i % stride % 2 == 0 {
                    u[k]
                } else {
                    v[k]
                }
            } else {
                plane[i]
            },
    )
}

/// Interleaves planar chroma (`width` samples per row, rows back to back) into
/// an NV12 UV plane whose rows start `stride` bytes apart.
pub fn interleave_uv(
    u: &[u8],
    v: &[u8],
    plane: &mut Vec<u8>,
    width: usize,
    stride: usize,
    rows: usize,
) -> (r: Result<(), Error>)
    ensures
        match r {
            Ok(()) => if rows == 0 || width == 0 {
                final(plane)@ == old(plane)@
            } else {
                &&& chroma_fits(
                    u@.len() as int,
                    v@.len() as int,
                    old(plane)@.len() as int,
                    width as int,
                    stride as int,
                    rows as int,
                )
                &&& final(plane)@ == interleaved(
                    u@,
                    v@,
                    old(plane)@,
                    width as int,
                    stride as int,
                    rows as int,
                )
            },
            Err(error) => {
                &&& rows > 0 && width > 0
                &&& error == Error::ChromaDoesNotFit
                &&& final(plane)@ == old(plane)@
                &&& !chroma_fits(
                    u@.len() as int,
                    v@.len() as int,
                    old(plane)@.len() as int,
                    width as int,
                    stride as int,
                    rows as int,
                )
            },
        },
{
    if rows == 0 || width == 0 {
        return Ok(());
    }
    assert(u.len() == u@.len() && v.len() == v@.len() && plane.len() == plane@.len());
    let samples: usize = match width.checked_mul(rows) {
        Some(samples) => samples,
        None => return Err(Error::ChromaDoesNotFit),
    };
    if u.len() < samples || v.len() < samples {
        return Err(Error::ChromaDoesNotFit);
    }
    if width > stride || width > stride - width {
        return Err(Error::ChromaDoesNotFit);
    }
    let last: usize = match stride.checked_mul(rows - 1) {
        Some(last) => last,
        None => return Err(Error::ChromaDoesNotFit),
    };
    if last > plane.len() || 2 * width > plane.len() - last {
        return Err(Error::ChromaDoesNotFit);
    }
    let ghost before = plane@;
    let ghost w = width as int;
    let ghost s = stride as int;
    let mut y: usize = 0;
    assert(plane@ =~= interleaved(u@, v@, before, w, s, 0));
    while y < rows
        invariant
            y <= rows,
            w == width,
            s == stride,
            0 < w,
            2 * w <= s,
            samples == width * rows,
            u.len() == u@.len(),
            samples <= u@.len(),
            samples <= v@.len(),
            last == s * (rows - 1),
            last + 2 * w <= before.len(),
            plane@.len() == before.len(),
            plane.len() == plane@.len(),
            plane@ == interleaved(u@, v@, before, w, s, y as int),
        decreases rows - y,
    {
        proof {
            let r = rows as int;
            let yy = y as int;
            assert(yy * s <= s * (r - 1) && 0 <= yy * s && 0 <= yy * w && yy * w + w <= w * r)
                by (nonlinear_arith)
                requires
                    0 <= yy < r,
                    0 < s,
                    0 < w,
            ;
        }
        let start: usize = y * stride;
        let base: usize = y * width;
        let ghost now = plane@;
        let mut x: usize = 0;
        while x < width
            invariant
                x <= width,
                w == width,
                start + 2 * w <= before.len(),
                u.len() == u@.len(),
                base + w <= u@.len(),
                base + w <= v@.len(),
                plane@.len() == before.len(),
                plane.len() == plane@.len(),
                forall|i: int|
                    0 <= i < before.len() ==> #[trigger] plane@[i] == if start <= i < start + 2
                        * x {
                        if (i - start) % 2 == 0 {
                            u@[base + (i - start) / 2]
                        } else {
                            v@[base + (i - start) / 2]
                        }
                    } else {
                        now[i]
                    },
            decreases width - x,
        {
            plane.set(start + 2 * x, u[base + x]);
            plane.set(start + 2 * x + 1, v[base + x]);
            x = x + 1;
        }
        proof {
            let yy = y as int;
            let whole = interleaved(u@, v@, before, w, s, yy + 1);
            assert forall|i: int| 0 <= i < before.len() implies plane@[i] == whole[i] by {
                let q = i / s;
                let c = i % s;
                assert(i == s * q + c && 0 <= c < s) by (nonlinear_arith)
                    requires
                        q == i / s,
                        c == i % s,
                        0 < s,
                ;
                assert(yy * s == s * yy) by (nonlinear_arith);
                if start <= i < start + 2 * w {
                    assert(q == yy) by (nonlinear_arith)
                        requires
                            s * yy <= s * q + c < s * yy + 2 * w,
                            0 <= c < s,
                            2 * w <= s,
                    ;
                } else if c < 2 * w {
                    assert(q != yy);
                    assert(now[i] == interleaved(u@, v@, before, w, s, yy)[i]);
                }
            }
            assert(plane@ =~= whole);
        }
        y = y + 1;
    }
    Ok(())
}

/// A NAL unit starts at `q`, behind a start code. One at the very end counts
/// only behind the long start code.
pub open spec fn is_start(bytes: Seq<u8>, q: int) -> bool {
    &&& 3 <= q <= bytes.len()
    &&& bytes[q - 3] == 0 && bytes[q - 2] == 0 && bytes[q - 1] == 1
    &&& q < bytes.len() || (q >= 4 && bytes[q - 4] == 0)
}

/// A NAL unit of a type starts at `q`.
pub open spec fn is_nal(bytes: Seq<u8>, q: int, kind: int) -> bool {
    is_start(bytes, q) && q < bytes.len() && bytes[q] % 32 == kind
}

/// The packet has a NAL unit of a type.
pub open spec fn has_nal(bytes: Seq<u8>, kind: int) -> bool {
    exists|q: int| is_nal(bytes, q, kind)
}

/// The sequence parameters at `q` are those of the constrained-baseline
/// profile.
pub open spec fn baseline(bytes: Seq<u8>, q: int) -> bool {
    q + 2 < bytes.len() && bytes[q + 1] == 66 && bytes[q + 2] / 64 % 2 == 1
}

/// The packet starts with a start code, behind zeros alone.
pub open spec fn annex_b(bytes: Seq<u8>) -> bool {
    exists|q: int|
        #[trigger] is_start(bytes, q) && forall|i: int| 0 <= i < q - 1 ==> bytes[i] == 0
}

/// Whether a packet is a keyframe, or why it cannot be sent.
pub open spec fn inspected(bytes: Seq<u8>) -> Result<bool, Error> {
    if !(0 < bytes.len() <= MAX_PACKET) {
        Err(Error::InvalidPacketSize)
    } else if !annex_b(bytes) {
        Err(Error::NotAnnexB)
    } else if exists|q: int| #[trigger] is_nal(bytes, q, 7) && !baseline(bytes, q) {
        Err(Error::WrongProfile)
    } else if is_start(bytes, bytes.len() as int) {
        Err(Error::EmptyNal)
    } else if !has_nal(bytes, 1) && !has_nal(bytes, 5) {
        Err(Error::NoPicture)
    } else if has_nal(bytes, 5) && !(has_nal(bytes, 7) && has_nal(bytes, 8)) {
        Err(Error::MissingParameterSets)
    } else {
        Ok(has_nal(bytes, 5))
    }
}

fn starts_at(bytes: &[u8], q: usize) -> (r: bool)
    requires
        q <= bytes@.len(),
    ensures
        r == is_start(bytes@, q as int),
{
    q >= 3 && bytes[q - 3] == 0 && bytes[q - 2] == 0 && bytes[q - 1] == 1 && (q < bytes.len()
        || (q >= 4 && bytes[q - 4] == 0))
}

/// Inspects the actual Annex B payload, not an encoder's packet flag. New
/// peers and recovery require an independently decodable IDR with parameter
/// sets.
pub fn inspect_h264(bytes: &[u8]) -> (r: Result<bool, Error>)
    ensures
        r == inspected(bytes@),
{
    if bytes.len() == 0 || bytes.len() > MAX_PACKET {
        return Err(Error::InvalidPacketSize);
    }
    let n: usize = bytes.len();
    // The first start code, and only zeros before it.
    let mut first: usize = 3;
    while first <= n && !starts_at(bytes, first)
        invariant
            n == bytes@.len(),
            n <= MAX_PACKET,
            3 <= first <= n + 3,
            forall|q: int| q < first ==> !is_start(bytes@, q),
        decreases n + 3 - first,
    {
        first = first + 1;
    }
    if first > n {
        return Err(Error::NotAnnexB);
    }
    let mut i: usize = 0;
    while i < first - 1
        invariant
            n == bytes@.len(),
            i < first <= n <= MAX_PACKET,
            is_start(bytes@, first as int),
            forall|q: int| q < first ==> !is_start(bytes@, q),
            forall|k: int| 0 <= k < i ==> bytes@[k] == 0,
        decreases first - i,
    {
        if bytes[i] != 0 {
            assert forall|q: int| #[trigger] is_start(bytes@, q) implies !(forall|k: int|
                0 <= k < q - 1 ==> bytes@[k] == 0) by {
                assert(q >= first);
                assert(bytes@[i as int] != 0);
            }
            return Err(Error::NotAnnexB);
        }
        i = i + 1;
    }
    assert(annex_b(bytes@));
    let mut idr = false;
    let mut sps = false;
    let mut pps = false;
    let mut slice = false;
    let mut at: usize = 0;
    while at < n
        invariant
            n == bytes@.len(),
            at <= n <= MAX_PACKET,
            annex_b(bytes@),
            idr == exists|q: int| q < at && is_nal(bytes@, q, 5),
            sps == exists|q: int| q < at && is_nal(bytes@, q, 7),
            pps == exists|q: int| q < at && is_nal(bytes@, q, 8),
            slice == exists|q: int| q < at && is_nal(bytes@, q, 1),
            forall|q: int| q < at && #[trigger] is_nal(bytes@, q, 7) ==> baseline(bytes@, q),
        decreases n - at,
    {
        if starts_at(bytes, at) {
            let nal: u8 = bytes[at] % 32;
            assert(is_nal(bytes@, at as int, nal as int));
            if nal == 1 {
                slice = true;
            } else if nal == 5 {
                idr = true;
            } else if nal == 7 {
                if !(n - at > 2 && bytes[at + 1] == 66 && bytes[at + 2] / 64 % 2 == 1) {
                    assert(!baseline(bytes@, at as int));
                    return Err(Error::WrongProfile);
                }
                sps = true;
            } else if nal == 8 {
                pps = true;
            }
        }
        at = at + 1;
    }
    if starts_at(bytes, n) {
        return Err(Error::EmptyNal);
    }
    if !slice && !idr {
        return Err(Error::NoPicture);
    }
    if idr && !(sps && pps) {
        return Err(Error::MissingParameterSets);
    }
    Ok(idr)
}

/// A packet that passes as a keyframe can be decoded on its own: it has both
/// parameter sets, and every sequence parameter set is constrained baseline.
pub proof fn keyframes_decode_on_their_own(bytes: Seq<u8>)
    requires
        inspected(bytes) == Ok::<bool, Error>(true),
    ensures
        has_nal(bytes, 5),
        has_nal(bytes, 7),
        has_nal(bytes, 8),
        forall|q: int| #[trigger] is_nal(bytes, q, 7) ==> baseline(bytes, q),
{
}

/// The start of a frame request: whether a keyframe is forced.
pub fn frame_request(force: u8) -> (r: Result<bool, Error>)
    ensures
        r == if force == 0 {
            Ok::<bool, Error>(false)
        } else if force == 1 {
            Ok(true)
        } else {
            Err(Error::InvalidRequest)
        },
{
    if force > 1 {
        Err(Error::InvalidRequest)
    } else {
        Ok(force == 1)
    }
}

/// Checks what the hardware made of a frame: a forced keyframe must be one.
pub fn check_packet(packet: &[u8], force: bool) -> (r: Result<bool, Error>)
    ensures
        r == match inspected(packet@) {
            Err(error) => Err::<bool, Error>(error),
            Ok(idr) => if force && !idr {
                Err(Error::IgnoredKeyframe)
            } else {
                Ok(idr)
            },
        },
{
    match inspect_h264(packet) {
        Err(error) => Err(error),
        Ok(idr) => if force && !idr {
            Err(Error::IgnoredKeyframe)
        } else {
            Ok(idr)
        },
    }
}

proof fn lemma_at(x: int, y: int, stride: int)
    requires
        0 <= x < stride,
        0 <= y,
    ensures
        (y * stride + x) / stride == y,
        (y * stride + x) % stride == x,
{
    assert(y * stride + x == stride * y + x) by (nonlinear_arith);
    vstd::arithmetic::div_mod::lemma_fundamental_div_mod_converse(y * stride + x, stride, y, x);
}

/// Rows that were sent back to back land as the rows of the plane: each sample
/// keeps its row and its column, and padding stays as it was.
pub proof fn planes_keep_rows_and_columns(
    plane: Seq<u8>,
    data: Seq<u8>,
    width: int,
    stride: int,
    rows: int,
    x: int,
    y: int,
)
    requires
        0 < width <= stride,
        0 <= y < rows,
        0 <= x < stride,
        y * stride + x < plane.len(),
    ensures
        placed(plane, data, width, stride, width * rows)[y * stride + x] == if x < width {
            data[y * width + x]
        } else {
            plane[y * stride + x]
        },
        placed(plane, data, width, stride, width * rows).len() == plane.len(),
{
    lemma_at(x, y, stride);
    assert(0 <= y * stride) by (nonlinear_arith)
        requires
            0 <= y,
            0 < stride,
    ;
    if x < width {
        assert(y * width + x < width * rows) by (nonlinear_arith)
            requires
                x < width,
                y < rows,
                0 < width,
        ;
    }
}

/// Interleaved chroma alternates the two planes, the first of them first: each
/// pair keeps its row and its column.
pub proof fn interleaved_chroma_alternates(
    u: Seq<u8>,
    v: Seq<u8>,
    plane: Seq<u8>,
    width: int,
    stride: int,
    rows: int,
    x: int,
    y: int,
)
    requires
        0 <= x < width,
        2 * width <= stride,
        0 <= y < rows,
        y * stride + 2 * x + 1 < plane.len(),
    ensures
        ({
            let mixed = interleaved(u, v, plane, width, stride, rows);
            &&& mixed[y * stride + 2 * x] == u[y * width + x]
            &&& mixed[y * stride + 2 * x + 1] == v[y * width + x]
            &&& mixed.len() == plane.len()
        }),
{
    lemma_at(2 * x, y, stride);
    lemma_at(2 * x + 1, y, stride);
    assert(0 <= y * stride) by (nonlinear_arith)
        requires
            0 <= y,
            0 < stride,
    ;
}

/// A frame holds a brightness for each pixel and two colors for each square of
/// four.
pub proof fn frames_hold_three_planes(config: Config)
    requires
        config.frame_size() is Ok,
    ensures
        config.frame_size()->Ok_0 == config.width * config.height + 2 * ((config.width / 2) * (
        config.height / 2)),
        config.width % 2 == 0 && config.height % 2 == 0,
{
    let (w, h) = (config.width as int, config.height as int);
    let (a, b) = (w / 2, h / 2);
    assert(w == 2 * a && h == 2 * b);
    assert(w * h == 4 * (a * b)) by (nonlinear_arith)
        requires
            w == 2 * a,
            h == 2 * b,
    ;
    assert(0 <= w * h <= 3840 * 3840) by (nonlinear_arith)
        requires
            0 <= w <= 3840,
            0 <= h <= 3840,
    ;
    assert(w * h * 3 / 2 == 6 * (a * b));
}

/// What passes holds a picture, and passes as a keyframe exactly when that
/// picture starts anew.
pub proof fn packets_hold_a_picture(bytes: Seq<u8>, key: bool)
    requires
        inspected(bytes) == Ok::<bool, Error>(key),
    ensures
        has_nal(bytes, 1) || has_nal(bytes, 5),
        key <==> has_nal(bytes, 5),
        0 < bytes.len(),
        bytes[0] == 0,
{
    let q = choose|q: int|
        #[trigger] is_start(bytes, q) && forall|i: int| 0 <= i < q - 1 ==> bytes[i] == 0;
    assert(bytes[0] == 0);
}

} // verus!
