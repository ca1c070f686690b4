//! Turning captured buffers into upright images, whole or in part.

use core::ops::Range;
use vstd::prelude::*;

use crate::pixels;
use crate::pixels::{AlphaMode, BufferSpec, Error, Transform};
use crate::raster::{Rgba, RgbaImage};

verus! {

/// Where buffer rows land in the output image. Undoing the rotation of an
/// output (the protocol counts angles counter-clockwise) and then its
/// reflection sends each buffer row to an output row or column, in either
/// direction.
#[derive(Clone, Copy, PartialEq, Eq, Structural)]
pub struct Layout {
    /// Rows become columns (90° and 270°).
    pub columns: bool,
    /// The last buffer row lands first, before Y inversion.
    pub mirror: bool,
    /// A row's last pixel lands first.
    pub reverse: bool,
}

impl Layout {
    /// The layout that undoes each transform.
    pub open spec fn undoing(transform: Transform) -> Layout {
        match transform {
            Transform::_90 => Layout { columns: true, mirror: true, reverse: false },
            Transform::_180 => Layout { columns: false, mirror: true, reverse: true },
            Transform::_270 => Layout { columns: true, mirror: false, reverse: true },
            Transform::Flipped => Layout { columns: false, mirror: false, reverse: true },
            Transform::Flipped90 => Layout { columns: true, mirror: false, reverse: false },
            Transform::Flipped180 => Layout { columns: false, mirror: true, reverse: false },
            Transform::Flipped270 => Layout { columns: true, mirror: true, reverse: true },
            _ => Layout { columns: false, mirror: false, reverse: false },
        }
    }

    pub fn of(transform: Transform) -> (r: Result<Layout, Error>)
        ensures
            match r {
                Ok(layout) => !(transform is Other) && layout == Layout::undoing(transform),
                Err(error) => transform is Other && error == Error::UnsupportedTransform,
            },
    {
        match transform {
            Transform::Normal => Ok(Layout { columns: false, mirror: false, reverse: false }),
            Transform::_90 => Ok(Layout { columns: true, mirror: true, reverse: false }),
            Transform::_180 => Ok(Layout { columns: false, mirror: true, reverse: true }),
            Transform::_270 => Ok(Layout { columns: true, mirror: false, reverse: true }),
            Transform::Flipped => Ok(Layout { columns: false, mirror: false, reverse: true }),
            Transform::Flipped90 => Ok(Layout { columns: true, mirror: false, reverse: false }),
            Transform::Flipped180 => Ok(Layout { columns: false, mirror: true, reverse: false }),
            Transform::Flipped270 => Ok(Layout { columns: true, mirror: true, reverse: true }),
            Transform::Other(_) => Err(Error::UnsupportedTransform),
        }
    }

    /// The column and row of a `width` by `height` buffer whose pixel lands at
    /// (`x`, `y`) of the output.
    pub open spec fn origin(self, width: int, height: int, inverted: bool, x: int, y: int) -> (
        int,
        int,
    ) {
        let line = if self.columns { x } else { y };
        let along = if self.columns { y } else { x };
        (
            if self.reverse { width - 1 - along } else { along },
            if self.mirror != inverted { height - 1 - line } else { line },
        )
    }
}

/// The output's width: rows that become columns swap the dimensions.
pub open spec fn output_width(spec: BufferSpec, transform: Transform) -> u32 {
    if Layout::undoing(transform).columns {
        spec.height
    } else {
        spec.width
    }
}

/// The output's height.
pub open spec fn output_height(spec: BufferSpec, transform: Transform) -> u32 {
    if Layout::undoing(transform).columns {
        spec.width
    } else {
        spec.height
    }
}

/// The buffer column and row that output pixel (`x`, `y`) comes from.
pub open spec fn origin(spec: BufferSpec, inverted: bool, transform: Transform, x: int, y: int) -> (
    int,
    int,
) {
    Layout::undoing(transform).origin(spec.width as int, spec.height as int, inverted, x, y)
}

/// Output pixel (`x`, `y`) of a buffer.
pub open spec fn decoded(
    bytes: Seq<u8>,
    spec: BufferSpec,
    inverted: bool,
    transform: Transform,
    alpha: AlphaMode,
    x: int,
    y: int,
) -> Rgba {
    let from = origin(spec, inverted, transform, x, y);
    pixels::converted(spec.format, alpha, spec.stored_pixel(bytes, from.0, from.1))
}

/// Why a buffer cannot be decoded, if it cannot.
pub open spec fn refused(len: nat, spec: BufferSpec, transform: Transform) -> Option<Error> {
    match spec.size() {
        Err(error) => Some(error),
        Ok(size) => if len < size {
            Some(Error::Truncated)
        } else if transform is Other {
            Some(Error::UnsupportedTransform)
        } else {
            None
        },
    }
}

/// The image holds the decoded buffer, pixel for pixel.
pub open spec fn holds(
    image: RgbaImage,
    bytes: Seq<u8>,
    spec: BufferSpec,
    inverted: bool,
    transform: Transform,
    alpha: AlphaMode,
) -> bool {
    &&& image.wf()
    &&& image.width == output_width(spec, transform)
    &&& image.height == output_height(spec, transform)
    &&& forall|x: int, y: int|
        image.has(x, y) ==> #[trigger] image.pixel(x, y) == decoded(
            bytes,
            spec,
            inverted,
            transform,
            alpha,
            x,
            y,
        )
}

/// Decodes native shared-memory pixels to straight-alpha RGBA. Padding is
/// ignored and Y inversion is applied before the output transform.
pub fn decode(bytes: &[u8], spec: BufferSpec, inverted: bool, transform: Transform) -> (r: Result<
    RgbaImage,
    Error,
>)
    ensures
        match r {
            Ok(image) => refused(bytes@.len(), spec, transform) is None && holds(
                image,
                bytes@,
                spec,
                inverted,
                transform,
                AlphaMode::Straight,
            ),
            Err(error) => refused(bytes@.len(), spec, transform) == Some(error),
        },
{
    let mut image = RgbaImage::new(0, 0);
    match decode_into(bytes, spec, inverted, transform, AlphaMode::Straight, &mut image) {
        Ok(()) => Ok(image),
        Err(error) => Err(error),
    }
}

/// `decode` into a caller-owned image that is reallocated only when the output
/// dimensions change, so steady capture reuses one allocation. Every pixel is
/// replaced; on error `dst` is untouched.
pub fn decode_into(
    bytes: &[u8],
    spec: BufferSpec,
    inverted: bool,
    transform: Transform,
    alpha: AlphaMode,
    dst: &mut RgbaImage,
) -> (r: Result<(), Error>)
    requires
        old(dst).wf(),
    ensures
        match r {
            Ok(()) => refused(bytes@.len(), spec, transform) is None && holds(
                *final(dst),
                bytes@,
                spec,
                inverted,
                transform,
                alpha,
            ),
            Err(error) => refused(bytes@.len(), spec, transform) == Some(error) && *final(dst)
                == *old(dst),
        },
{
    let packed = match Packed::new(bytes, spec, inverted, transform, alpha) {
        Ok(packed) => packed,
        Err(error) => return Err(error),
    };
    let size = packed.size();
    if dst.width != size.0 || dst.height != size.1 {
        proof {
            pixels::lemma_decoded_size(spec);
        }
        *dst = RgbaImage::new(size.0, size.1);
    }
    packed.convert_rows(0, spec.height, dst);
    Ok(())
}

/// Converts only buffer rows `rows` into `dst`, for damage-limited updates.
/// Rows index the buffer as stored, top row first; Y inversion and `transform`
/// place their pixels exactly where `decode_into` would. Pixels from other
/// rows are untouched, and on error so is all of `dst`.
pub fn decode_rows_into(
    bytes: &[u8],
    spec: BufferSpec,
    inverted: bool,
    transform: Transform,
    alpha: AlphaMode,
    rows: Range<u32>,
    dst: &mut RgbaImage,
) -> (r: Result<(), Error>)
    requires
        old(dst).wf(),
    ensures
        match r {
            Ok(()) => {
                &&& refused(bytes@.len(), spec, transform) is None
                &&& old(dst).width == output_width(spec, transform)
                &&& old(dst).height == output_height(spec, transform)
                &&& rows.start <= rows.end <= spec.height
                &&& final(dst).wf()
                &&& final(dst).width == old(dst).width
                &&& final(dst).height == old(dst).height
                &&& forall|x: int, y: int|
                    final(dst).has(x, y) ==> #[trigger] final(dst).pixel(x, y) == if rows.start
                        <= origin(spec, inverted, transform, x, y).1 < rows.end {
                        decoded(bytes@, spec, inverted, transform, alpha, x, y)
                    } else {
                        old(dst).pixel(x, y)
                    }
            },
            Err(error) => {
                &&& *final(dst) == *old(dst)
                &&& Some(error) == match refused(bytes@.len(), spec, transform) {
                    Some(error) => Some(error),
                    None => if old(dst).width != output_width(spec, transform)
                        || old(dst).height != output_height(spec, transform) {
                        Some(Error::ImageMismatch)
                    } else if !(rows.start <= rows.end <= spec.height) {
                        Some(Error::RowsOutside { start: rows.start, end: rows.end })
                    } else {
                        None
                    },
                }
            },
        },
{
    let packed = match Packed::new(bytes, spec, inverted, transform, alpha) {
        Ok(packed) => packed,
        Err(error) => return Err(error),
    };
    let size = packed.size();
    if dst.width != size.0 || dst.height != size.1 {
        return Err(Error::ImageMismatch);
    }
    if rows.start > rows.end || rows.end > spec.height {
        return Err(Error::RowsOutside { start: rows.start, end: rows.end });
    }
    packed.convert_rows(rows.start, rows.end, dst);
    Ok(())
}

/// A validated buffer, with its layout chosen once per frame.
pub struct Packed<'a> {
    pub bytes: &'a [u8],
    pub spec: BufferSpec,
    pub inverted: bool,
    pub transform: Transform,
    pub alpha: AlphaMode,
    pub bpp: usize,
    pub layout: Layout,
    /// Buffer rows land last to first: Y inversion combined with the layout.
    pub flip_rows: bool,
}

impl<'a> Packed<'a> {
    pub open spec fn wf(self) -> bool {
        &&& refused(self.bytes@.len(), self.spec, self.transform) is None
        &&& self.bpp == pixels::pixel_size(self.spec.format)
        &&& self.layout == Layout::undoing(self.transform)
        &&& self.flip_rows == (self.layout.mirror != self.inverted)
    }

    pub fn new(
        bytes: &'a [u8],
        spec: BufferSpec,
        inverted: bool,
        transform: Transform,
        alpha: AlphaMode,
    ) -> (r: Result<Packed<'a>, Error>)
        ensures
            match r {
                Ok(packed) => {
                    &&& packed.wf()
                    &&& packed.bytes@ == bytes@
                    &&& packed.spec == spec
                    &&& packed.inverted == inverted
                    &&& packed.transform == transform
                    &&& packed.alpha == alpha
                },
                Err(error) => refused(bytes@.len(), spec, transform) == Some(error),
            },
    {
        let size: usize = match spec.byte_len() {
            Ok(size) => size,
            Err(error) => return Err(error),
        };
        if bytes.len() < size {
            return Err(Error::Truncated);
        }
        let layout = match Layout::of(transform) {
            Ok(layout) => layout,
            Err(error) => return Err(error),
        };
        let bpp: usize = match pixels::bytes_per_pixel(spec.format) {
            Some(bpp) => bpp as usize,
            None => 0,
        };
        Ok(
            Packed {
                bytes,
                spec,
                inverted,
                transform,
                alpha,
                bpp,
                layout,
                flip_rows: layout.mirror != inverted,
            },
        )
    }

    pub fn size(&self) -> (r: (u32, u32))
        requires
            self.wf(),
        ensures
            r.0 == output_width(self.spec, self.transform),
            r.1 == output_height(self.spec, self.transform),
    {
        if self.layout.columns {
            (self.spec.height, self.spec.width)
        } else {
            (self.spec.width, self.spec.height)
        }
    }

    /// Converts the pixel in buffer row `y`, column `x`.
    pub fn pixel(&self, x: u32, y: u32) -> (r: Rgba)
        requires
            self.wf(),
            x < self.spec.width,
            y < self.spec.height,
        ensures
            r == pixels::converted(
                self.spec.format,
                self.alpha,
                self.spec.stored_pixel(self.bytes@, x as int, y as int),
            ),
    {
        proof {
            pixels::lemma_buffer_bounds(self.spec, x as int, y as int);
        }
        let at: usize = y as usize * self.spec.stride as usize + x as usize * self.bpp;
        pixels::convert(self.spec.format, self.alpha, self.bytes, at)
    }

    /// Converts buffer rows `start..end` into `dst`, which has the output
    /// dimensions.
    pub fn convert_rows(&self, start: u32, end: u32, dst: &mut RgbaImage)
        requires
            self.wf(),
            start <= end <= self.spec.height,
            old(dst).wf(),
            old(dst).width == output_width(self.spec, self.transform),
            old(dst).height == output_height(self.spec, self.transform),
        ensures
            final(dst).wf(),
            final(dst).width == old(dst).width,
            final(dst).height == old(dst).height,
            forall|x: int, y: int|
                final(dst).has(x, y) ==> #[trigger] final(dst).pixel(x, y) == if start <= origin(
                    self.spec,
                    self.inverted,
                    self.transform,
                    x,
                    y,
                ).1 < end {
                    decoded(
                        self.bytes@,
                        self.spec,
                        self.inverted,
                        self.transform,
                        self.alpha,
                        x,
                        y,
                    )
                } else {
                    old(dst).pixel(x, y)
                },
    {
        let width: u32 = self.spec.width;
        let height: u32 = self.spec.height;
        let mut y: u32 = start;
        while y < end
            invariant
                self.wf(),
                start <= y <= end <= height,
                width == self.spec.width,
                height == self.spec.height,
                dst.wf(),
                dst.width == old(dst).width == output_width(self.spec, self.transform),
                dst.height == old(dst).height == output_height(self.spec, self.transform),
                self.converted_before(*old(dst), *dst, start as int, y as int, 0),
            decreases end - y,
        {
            let line: u32 = if self.flip_rows {
                height - 1 - y
            } else {
                y
            };
            let mut x: u32 = 0;
            while x < width
                invariant
                    self.wf(),
                    start <= y < end <= height,
                    x <= width,
                    width == self.spec.width,
                    height == self.spec.height,
                    line == (if self.flip_rows {
                        height - 1 - y
                    } else {
                        y as int
                    }),
                    dst.wf(),
                    dst.width == old(dst).width == output_width(self.spec, self.transform),
                    dst.height == old(dst).height == output_height(self.spec, self.transform),
                    self.converted_before(*old(dst), *dst, start as int, y as int, x as int),
                decreases width - x,
            {
                let along: u32 = if self.layout.reverse {
                    width - 1 - x
                } else {
                    x
                };
                let pixel = self.pixel(x, y);
                if self.layout.columns {
                    dst.put_pixel(line, along, pixel);
                } else {
                    dst.put_pixel(along, line, pixel);
                }
                x = x + 1;
            }
            y = y + 1;
        }
    }

    /// `now` is `before` with rows `start..y` converted, and the first `x`
    /// pixels of row `y`.
    spec fn converted_before(
        self,
        before: RgbaImage,
        now: RgbaImage,
        start: int,
        y: int,
        x: int,
    ) -> bool {
        forall|i: int, j: int|
            now.has(i, j) ==> #[trigger] now.pixel(i, j) == {
                let from = origin(self.spec, self.inverted, self.transform, i, j);
                if start <= from.1 < y || (from.1 == y && from.0 < x) {
                    decoded(
                        self.bytes@,
                        self.spec,
                        self.inverted,
                        self.transform,
                        self.alpha,
                        i,
                        j,
                    )
                } else {
                    before.pixel(i, j)
                }
            }
    }
}

/// Where pixel (`x`, `y`) of a `width` by `height` picture stands after the
/// output has mirrored it left to right, for the flipped transforms, and then
/// turned it counter-clockwise.
pub open spec fn turned(transform: Transform, width: int, height: int, x: int, y: int) -> (
    int,
    int,
) {
    let flipped = transform is Flipped || transform is Flipped90 || transform is Flipped180
        || transform is Flipped270;
    let x = if flipped { width - 1 - x } else { x };
    match transform {
        Transform::_90 | Transform::Flipped90 => (y, width - 1 - x),
        Transform::_180 | Transform::Flipped180 => (width - 1 - x, height - 1 - y),
        Transform::_270 | Transform::Flipped270 => (height - 1 - y, x),
        _ => (x, y),
    }
}

/// Decoding undoes every output transform: each pixel of the upright picture
/// is read from where the transform had put it.
pub proof fn decoding_undoes_the_transform(
    spec: BufferSpec,
    transform: Transform,
    x: int,
    y: int,
)
    requires
        !(transform is Other),
    ensures
        origin(spec, false, transform, x, y) == turned(
            transform,
            output_width(spec, transform) as int,
            output_height(spec, transform) as int,
            x,
            y,
        ),
{
}

/// The output pixel that column `x` of buffer row `y` lands on.
pub open spec fn landing(spec: BufferSpec, inverted: bool, transform: Transform, x: int, y: int) -> (
    int,
    int,
) {
    let layout = Layout::undoing(transform);
    let along = if layout.reverse { spec.width - 1 - x } else { x };
    let line = if layout.mirror != inverted { spec.height - 1 - y } else { y };
    if layout.columns {
        (line, along)
    } else {
        (along, line)
    }
}

/// Every buffer pixel lands on exactly one output pixel and every output pixel
/// comes from exactly one buffer pixel.
pub proof fn pixels_land_one_to_one(
    spec: BufferSpec,
    inverted: bool,
    transform: Transform,
    x: int,
    y: int,
)
    ensures
        0 <= x < spec.width && 0 <= y < spec.height ==> {
            let to = landing(spec, inverted, transform, x, y);
            &&& 0 <= to.0 < output_width(spec, transform)
            &&& 0 <= to.1 < output_height(spec, transform)
            &&& origin(spec, inverted, transform, to.0, to.1) == (x, y)
        },
        0 <= x < output_width(spec, transform) && 0 <= y < output_height(spec, transform) ==> {
            let from = origin(spec, inverted, transform, x, y);
            &&& 0 <= from.0 < spec.width
            &&& 0 <= from.1 < spec.height
            &&& landing(spec, inverted, transform, from.0, from.1) == (x, y)
        },
{
}

/// Updating only the rows that changed gives the same image as decoding the
/// new buffer in full: where `before` held the old buffer, the rows in
/// `touched` were converted from the new one, and every other row stores the
/// same pixels in both, `after` holds the new buffer.
pub proof fn damage_limited_updates_match_a_full_decode(
    before: RgbaImage,
    after: RgbaImage,
    old_bytes: Seq<u8>,
    new_bytes: Seq<u8>,
    spec: BufferSpec,
    inverted: bool,
    transform: Transform,
    alpha: AlphaMode,
    touched: spec_fn(int) -> bool,
)
    requires
        holds(before, old_bytes, spec, inverted, transform, alpha),
        after.wf(),
        after.width == before.width,
        after.height == before.height,
        forall|x: int, y: int|
            after.has(x, y) ==> #[trigger] after.pixel(x, y) == if touched(
                origin(spec, inverted, transform, x, y).1,
            ) {
                decoded(new_bytes, spec, inverted, transform, alpha, x, y)
            } else {
                before.pixel(x, y)
            },
        forall|x: int, y: int|
            0 <= x < spec.width && 0 <= y < spec.height && !touched(y)
                ==> #[trigger] spec.stored_pixel(old_bytes, x, y) == spec.stored_pixel(
                new_bytes,
                x,
                y,
            ),
    ensures
        holds(after, new_bytes, spec, inverted, transform, alpha),
{
    assert forall|x: int, y: int| after.has(x, y) implies #[trigger] after.pixel(x, y) == decoded(
        new_bytes,
        spec,
        inverted,
        transform,
        alpha,
        x,
        y,
    ) by {
        pixels_land_one_to_one(spec, inverted, transform, x, y);
        let from = origin(spec, inverted, transform, x, y);
        if !touched(from.1) {
            assert(before.has(x, y));
            assert(before.pixel(x, y) == decoded(
                old_bytes,
                spec,
                inverted,
                transform,
                alpha,
                x,
                y,
            ));
            assert(spec.stored_pixel(old_bytes, from.0, from.1) == spec.stored_pixel(
                new_bytes,
                from.0,
                from.1,
            ));
        }
    }
}

/// An inverted buffer is the same picture with its rows stored last to first.
pub proof fn inverting_reads_rows_from_the_end(
    spec: BufferSpec,
    transform: Transform,
    x: int,
    y: int,
)
    ensures
        ({
            let plain = origin(spec, false, transform, x, y);
            origin(spec, true, transform, x, y) == (plain.0, spec.height - 1 - plain.1)
        }),
{
}

} // verus!
