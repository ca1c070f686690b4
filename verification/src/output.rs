//! Outputs of the compositor, and the rows of their shared-memory buffers.

use core::ops::Range;
use vstd::prelude::*;

use crate::pixels;
use crate::pixels::{BufferSpec, Error, Transform};
use crate::rect::Rect;
use crate::text;

verus! {

/// An output as its events describe it.
#[derive(Debug)]
pub struct Output {
    pub name: String,
    pub position: (i32, i32),
    pub mode: (u32, u32),
    pub logical_size: Option<(u32, u32)>,
    pub scale: i32,
    pub transform: Transform,
    /// Whether the compositor reports logical geometry for it.
    pub xdg: bool,
}

/// A change to an output.
#[derive(Debug)]
pub enum OutputEvent {
    Geometry { x: i32, y: i32, transform: Transform },
    /// A mode; only the current one counts.
    Mode { current: bool, width: i32, height: i32 },
    Scale { factor: i32 },
    Name { name: String },
    LogicalPosition { x: i32, y: i32 },
    LogicalSize { width: i32, height: i32 },
}

/// Whether a transform turns rows into columns.
pub open spec fn sideways(transform: Transform) -> bool {
    transform is _90 || transform is _270 || transform is Flipped90 || transform is Flipped270
}

/// A length in logical units, rounded to nearest, halves up. A scale below one
/// counts as one.
pub open spec fn logical_length(length: u32, scale: i32) -> int {
    let scale = if scale >= 1 { scale as int } else { 1 };
    (2 * length + scale) / (2 * scale)
}

pub open spec fn nonnegative(v: i32) -> u32 {
    if v >= 0 {
        v as u32
    } else {
        0
    }
}

impl Output {
    /// The rectangle that the output covers in the layout. Without reported
    /// logical geometry it is the mode, turned upright and scaled down.
    pub open spec fn area(self) -> Rect {
        let turned = if sideways(self.transform) { (self.mode.1, self.mode.0) } else { self.mode };
        let size = match self.logical_size {
            Some(size) => size,
            None => (
                logical_length(turned.0, self.scale) as u32,
                logical_length(turned.1, self.scale) as u32,
            ),
        };
        Rect { x: self.position.0, y: self.position.1, width: size.0, height: size.1 }
    }

    /// Nothing is known of the output yet.
    pub open spec fn blank(self) -> bool {
        &&& self.name@.len() == 0
        &&& self.position == (0i32, 0i32)
        &&& self.mode == (0u32, 0u32)
        &&& self.logical_size is None
        &&& self.scale == 1
        &&& self.transform == Transform::Normal
        &&& !self.xdg
    }

    /// A new output before any event.
    pub fn new() -> (r: Output)
        ensures
            r.blank(),
    {
        Output {
            name: String::new(),
            position: (0, 0),
            mode: (0, 0),
            logical_size: None,
            scale: 1,
            transform: Transform::Normal,
            xdg: false,
        }
    }

    pub fn rect(&self) -> (r: Rect)
        ensures
            r == self.area(),
    {
        let turned: (u32, u32) = if matches!(
            self.transform,
            Transform::_90 | Transform::_270 | Transform::Flipped90 | Transform::Flipped270
        ) {
            (self.mode.1, self.mode.0)
        } else {
            self.mode
        };
        let size: (u32, u32) = match self.logical_size {
            Some(size) => size,
            None => (unscaled(turned.0, self.scale), unscaled(turned.1, self.scale)),
        };
        Rect { x: self.position.0, y: self.position.1, width: size.0, height: size.1 }
    }

    /// Takes in a change. Reported logical geometry wins over the position and
    /// size that the output itself gives.
    pub fn event(&mut self, event: OutputEvent)
        ensures
            final(self).xdg == old(self).xdg,
            final(self).position == match event {
                OutputEvent::Geometry { x, y, .. } if !old(self).xdg => (x, y),
                OutputEvent::LogicalPosition { x, y } => (x, y),
                _ => old(self).position,
            },
            final(self).transform == match event {
                OutputEvent::Geometry { transform, .. } => transform,
                _ => old(self).transform,
            },
            final(self).mode == match event {
                OutputEvent::Mode { current, width, height } if current => (
                    nonnegative(width),
                    nonnegative(height),
                ),
                _ => old(self).mode,
            },
            final(self).scale == match event {
                OutputEvent::Scale { factor } => if factor >= 1 {
                    factor
                } else {
                    1
                },
                _ => old(self).scale,
            },
            final(self).logical_size == match event {
                OutputEvent::LogicalSize { width, height } => Some(
                    (nonnegative(width), nonnegative(height)),
                ),
                _ => old(self).logical_size,
            },
            final(self).name@ == match event {
                OutputEvent::Name { name } => name@,
                _ => old(self).name@,
            },
            event matches OutputEvent::LogicalPosition { x, y } ==> final(self).area().x == x
                && final(self).area().y == y,
            event matches OutputEvent::LogicalSize { width, height } ==> (width >= 0
                ==> final(self).area().width == width) && (height >= 0
                ==> final(self).area().height == height),
            event matches OutputEvent::Geometry { x, y, .. } ==> old(self).xdg || (
            final(self).area().x == x && final(self).area().y == y),
            event is Geometry && old(self).xdg ==> final(self).area().x == old(self).area().x
                && final(self).area().y == old(self).area().y,
            event is Name ==> final(self).area() == old(self).area(),
    {
        match event {
            OutputEvent::Geometry { x, y, transform } => {
                if !self.xdg {
                    self.position = (x, y);
                }
                self.transform = transform;
            },
            OutputEvent::Mode { current, width, height } => {
                if current {
                    self.mode = (at_least_zero(width), at_least_zero(height));
                }
            },
            OutputEvent::Scale { factor } => {
                self.scale = if factor >= 1 {
                    factor
                } else {
                    1
                };
            },
            OutputEvent::Name { name } => {
                self.name = name;
            },
            OutputEvent::LogicalPosition { x, y } => {
                self.position = (x, y);
            },
            OutputEvent::LogicalSize { width, height } => {
                self.logical_size = Some((at_least_zero(width), at_least_zero(height)));
            },
        }
    }
}

fn at_least_zero(v: i32) -> (r: u32)
    ensures
        r == nonnegative(v),
{
    if v >= 0 {
        v as u32
    } else {
        0
    }
}

fn unscaled(length: u32, scale: i32) -> (r: u32)
    ensures
        r == logical_length(length, scale),
{
    let scale: u64 = if scale >= 1 { scale as u64 } else { 1 };
    proof {
        let n = 2 * length + scale;
        let d = 2 * scale;
        if length >= 1 {
            assert(n / d <= length) by (nonlinear_arith)
                requires
                    n == 2 * length + scale,
                    d == 2 * scale,
                    scale >= 1,
                    length >= 1,
            ;
        } else {
            assert(n / d == 0) by (nonlinear_arith)
                requires
                    n == scale,
                    d == 2 * scale,
                    scale >= 1,
            ;
        }
        assert(n / d >= 0) by (nonlinear_arith)
            requires
                n >= 0,
                d >= 1,
        ;
    }
    ((2 * length as u64 + scale) / (2 * scale)) as u32
}

/// The outputs by the numbers the registry gives them, in ascending order.
#[derive(Debug)]
pub struct Outputs {
    pub list: Vec<(u32, Output)>,
}

impl Outputs {
    /// Each number occurs once, in order.
    pub open spec fn wf(self) -> bool {
        forall|i: int, j: int|
            0 <= i < j < self.list@.len() ==> (#[trigger] self.list@[i]).0 < (
            #[trigger] self.list@[j]).0
    }

    pub open spec fn has(self, id: u32) -> bool {
        exists|i: int| 0 <= i < self.list@.len() && (#[trigger] self.list@[i]).0 == id
    }

    /// The output's place in the list.
    pub open spec fn place(self, id: u32) -> int {
        choose|i: int| 0 <= i < self.list@.len() && (#[trigger] self.list@[i]).0 == id
    }

    /// The output of a number that is present.
    pub open spec fn output(self, id: u32) -> Output {
        self.list@[self.place(id)].1
    }

    /// The first output of that name is at `i`.
    pub open spec fn first_named(self, name: Seq<char>, i: int) -> bool {
        &&& 0 <= i < self.list@.len()
        &&& self.list@[i].1.name@ == name
        &&& forall|j: int| 0 <= j < i ==> (#[trigger] self.list@[j]).1.name@ != name
    }

    /// No output has that name.
    pub open spec fn nameless(self, name: Seq<char>) -> bool {
        forall|j: int| 0 <= j < self.list@.len() ==> (#[trigger] self.list@[j]).1.name@ != name
    }

    pub fn new() -> (r: Outputs)
        ensures
            r.wf(),
            r.list@.len() == 0,
    {
        Outputs { list: Vec::new() }
    }

    /// The index of the output, if it is present.
    pub fn find(&self, id: u32) -> (r: Option<usize>)
        requires
            self.wf(),
        ensures
            match r {
                Some(i) => self.has(id) && i == self.place(id) && i < self.list@.len()
                    && self.list@[i as int].0 == id,
                None => !self.has(id),
            },
    {
        let mut i: usize = 0;
        while i < self.list.len()
            invariant
                self.wf(),
                i <= self.list@.len(),
                forall|j: int| 0 <= j < i ==> (#[trigger] self.list@[j]).0 != id,
            decreases self.list@.len() - i,
        {
            if self.list[i].0 == id {
                assert(self.list@[i as int].0 == id);
                return Some(i);
            }
            i = i + 1;
        }
        None
    }

    /// The index of the first output of that name.
    pub fn find_named(&self, name: &str) -> (r: Option<usize>)
        ensures
            match r {
                Some(i) => self.first_named(name@, i as int),
                None => self.nameless(name@),
            },
    {
        let mut i: usize = 0;
        while i < self.list.len()
            invariant
                i <= self.list@.len(),
                forall|j: int| 0 <= j < i ==> (#[trigger] self.list@[j]).1.name@ != name@,
            decreases self.list@.len() - i,
        {
            if text::same(self.list[i].1.name.as_str(), name) {
                return Some(i);
            }
            i = i + 1;
        }
        None
    }

    /// Adds an output under a number, in place of one that had it.
    pub fn insert(&mut self, id: u32, output: Output)
        requires
            old(self).wf(),
        ensures
            final(self).wf(),
            final(self).has(id),
            final(self).output(id) == output,
            forall|other: u32|
                other != id ==> (#[trigger] final(self).has(other) <==> old(self).has(other)),
            forall|other: u32|
                other != id && old(self).has(other) ==> #[trigger] final(self).output(other)
                    == old(self).output(other),
    {
        let mut at: usize = 0;
        while at < self.list.len() && self.list[at].0 < id
            invariant
                self.wf(),
                at <= self.list@.len(),
                forall|j: int| 0 <= j < at ==> (#[trigger] self.list@[j]).0 < id,
            decreases self.list@.len() - at,
        {
            at = at + 1;
        }
        let ghost before = *self;
        if at < self.list.len() && self.list[at].0 == id {
            self.list.set(at, (id, output));
            proof {
                assert(self.list@[at as int].0 == id);
                assert forall|other: u32| other != id implies (#[trigger] self.has(other)
                    <==> before.has(other)) by {
                    if before.has(other) {
                        let i = before.place(other);
                        assert(self.list@[i].0 == other);
                    }
                    if self.has(other) {
                        let i = self.place(other);
                        assert(before.list@[i].0 == other);
                    }
                }
                assert forall|other: u32| other != id && before.has(other) implies
                    #[trigger] self.output(other) == before.output(other) by {
                    let i = before.place(other);
                    assert(self.list@[i].0 == other);
                }
            }
        } else {
            self.list.insert(at, (id, output));
            proof {
                assert(self.list@[at as int].0 == id);
                let now = *self;
                assert forall|i: int, j: int| 0 <= i < j < now.list@.len() implies (
                #[trigger] now.list@[i]).0 < (#[trigger] now.list@[j]).0 by {
                    let pi = if i > at { i - 1 } else { i };
                    let pj = if j > at { j - 1 } else { j };
                    if i != at {
                        assert(now.list@[i] == before.list@[pi]);
                    }
                    if j != at {
                        assert(now.list@[j] == before.list@[pj]);
                        if j > at {
                            assert(before.list@[at as int].0 > id);
                        }
                    }
                }
                assert forall|other: u32| other != id implies (#[trigger] self.has(other)
                    <==> before.has(other)) by {
                    if before.has(other) {
                        let i = before.place(other);
                        let k = if i >= at { i + 1 } else { i };
                        assert(self.list@[k].0 == other);
                    }
                    if self.has(other) {
                        let i = self.place(other);
                        let k = if i > at { i - 1 } else { i };
                        assert(before.list@[k].0 == other);
                    }
                }
                assert forall|other: u32| other != id && before.has(other) implies
                    #[trigger] self.output(other) == before.output(other) by {
                    let i = before.place(other);
                    let k = if i >= at { i + 1 } else { i };
                    assert(self.list@[k].0 == other);
                    assert(self.list@[k] == before.list@[i]);
                }
            }
        }
    }

    /// Removes an output; tells whether it was present.
    pub fn remove(&mut self, id: u32) -> (r: bool)
        requires
            old(self).wf(),
        ensures
            final(self).wf(),
            r == old(self).has(id),
            !final(self).has(id),
            forall|other: u32|
                other != id ==> (#[trigger] final(self).has(other) <==> old(self).has(other)),
            forall|other: u32|
                other != id && old(self).has(other) ==> #[trigger] final(self).output(other)
                    == old(self).output(other),
    {
        let ghost before = *self;
        match self.find(id) {
            Some(at) => {
                let _ = self.list.remove(at);
                proof {
                    let now = *self;
                    assert forall|i: int, j: int| 0 <= i < j < now.list@.len() implies (
                    #[trigger] now.list@[i]).0 < (#[trigger] now.list@[j]).0 by {
                        let pi = if i >= at { i + 1 } else { i };
                        let pj = if j >= at { j + 1 } else { j };
                        assert(now.list@[i] == before.list@[pi]);
                        assert(now.list@[j] == before.list@[pj]);
                    }
                    assert forall|i: int| 0 <= i < now.list@.len() implies (
                    #[trigger] now.list@[i]).0 != id by {
                        let pi = if i >= at { i + 1 } else { i };
                        assert(now.list@[i] == before.list@[pi]);
                        assert(before.list@[at as int].0 == id);
                    }
                    assert forall|other: u32| other != id implies (#[trigger] now.has(other)
                        <==> before.has(other)) by {
                        if before.has(other) {
                            let i = before.place(other);
                            let k = if i > at { i - 1 } else { i };
                            assert(now.list@[k].0 == other);
                        }
                        if now.has(other) {
                            let i = now.place(other);
                            let k = if i >= at { i + 1 } else { i };
                            assert(before.list@[k].0 == other);
                        }
                    }
                    assert forall|other: u32| other != id && before.has(other) implies
                        #[trigger] now.output(other) == before.output(other) by {
                        let i = before.place(other);
                        let k = if i > at { i - 1 } else { i };
                        assert(now.list@[k].0 == other);
                        assert(now.list@[k] == before.list@[i]);
                    }
                }
                true
            },
            None => false,
        }
    }
}

/// The bytes of some rows of a buffer: they must lie inside it.
pub open spec fn row_bytes(spec: BufferSpec, rows: Range<u32>) -> (int, int) {
    (rows.start * spec.stride, rows.end * spec.stride)
}

/// The rows lie in the buffer, first to last.
pub open spec fn rows_inside(spec: BufferSpec, rows: Range<u32>) -> bool {
    rows.start <= rows.end <= spec.height
}

/// Where in a buffer's bytes some rows stand.
pub fn row_span(spec: BufferSpec, rows: Range<u32>) -> (r: Result<(usize, usize), Error>)
    ensures
        match r {
            Ok((start, end)) => spec.size() is Ok && rows_inside(spec, rows) && (
                start as int,
                end as int,
            ) == row_bytes(spec, rows) && start <= end <= spec.size()->Ok_0,
            Err(error) => error == match spec.size() {
                Err(error) => error,
                Ok(_) => Error::RowsOutside { start: rows.start, end: rows.end },
            } && (spec.size() is Ok ==> !rows_inside(spec, rows)),
        },
{
    match spec.byte_len() {
        Ok(_) => {},
        Err(error) => return Err(error),
    }
    if rows.start > rows.end || rows.end > spec.height {
        return Err(Error::RowsOutside { start: rows.start, end: rows.end });
    }
    proof {
        let s = rows.start as int;
        let e = rows.end as int;
        let h = spec.height as int;
        let stride = spec.stride as int;
        assert(0 <= s * stride <= e * stride <= stride * h) by (nonlinear_arith)
            requires
                0 <= s <= e <= h,
                0 <= stride,
        ;
    }
    Ok((rows.start as usize * spec.stride as usize, rows.end as usize * spec.stride as usize))
}

/// Band `i` is the first that does not lie in the buffer, and `error` says so.
pub open spec fn refused_at(
    spec: BufferSpec,
    bands: Seq<Range<u32>>,
    i: int,
    error: Error,
) -> bool {
    &&& 0 <= i < bands.len()
    &&& forall|j: int| 0 <= j < i ==> rows_inside(spec, #[trigger] bands[j])
    &&& match spec.size() {
        Err(refused) => i == 0 && error == refused,
        Ok(_) => !rows_inside(spec, bands[i]) && error == Error::RowsOutside {
            start: bands[i].start,
            end: bands[i].end,
        },
    }
}

/// Where each band of rows stands, if all lie inside the buffer.
pub fn row_spans(spec: BufferSpec, bands: &[Range<u32>]) -> (r: Result<Vec<(usize, usize)>, Error>)
    ensures
        match r {
            Ok(spans) => {
                &&& spans@.len() == bands@.len()
                &&& forall|i: int|
                    0 <= i < bands@.len() ==> rows_inside(spec, #[trigger] bands@[i]) && (
                        spans@[i].0 as int,
                        spans@[i].1 as int,
                    ) == row_bytes(spec, bands@[i]) && spec.size() is Ok && spans@[i].0
                        <= spans@[i].1 <= spec.size()->Ok_0
            },
            Err(error) => exists|i: int| #[trigger] refused_at(spec, bands@, i, error),
        },
{
    let mut spans: Vec<(usize, usize)> = Vec::new();
    let mut i: usize = 0;
    while i < bands.len()
        invariant
            i <= bands@.len(),
            spans@.len() == i,
            i > 0 ==> spec.size() is Ok,
            forall|k: int|
                0 <= k < i ==> rows_inside(spec, #[trigger] bands@[k]) && (
                    spans@[k].0 as int,
                    spans@[k].1 as int,
                ) == row_bytes(spec, bands@[k]) && spec.size() is Ok && spans@[k].0 <= spans@[k].1
                    <= spec.size()->Ok_0,
        decreases bands@.len() - i,
    {
        let rows = Range { start: bands[i].start, end: bands[i].end };
        let ghost band = bands@[i as int];
        assert(rows.start == band.start && rows.end == band.end);
        assert(rows_inside(spec, rows) == rows_inside(spec, band));
        assert(row_bytes(spec, rows) == row_bytes(spec, band));
        match row_span(spec, rows) {
            Ok(span) => spans.push(span),
            Err(error) => {
                assert(refused_at(spec, bands@, i as int, error));
                return Err(error);
            },
        }
        assert forall|k: int| 0 <= k < i + 1 implies rows_inside(spec, #[trigger] bands@[k]) && (
            spans@[k].0 as int,
            spans@[k].1 as int,
        ) == row_bytes(spec, bands@[k]) && spans@[k].0 <= spans@[k].1 <= spec.size()->Ok_0 by {
            if k == i {
                assert(bands@[k] == band);
            }
        }
        i = i + 1;
    }
    Ok(spans)
}

/// Where `len` bytes written from row `row` on stand: only whole rows inside
/// the buffer can be written.
pub fn write_span(spec: BufferSpec, row: u32, len: usize) -> (r: Result<(usize, usize), Error>)
    ensures
        match r {
            Ok((start, end)) => spec.size() is Ok && start == row * spec.stride && end == start
                + len && len as int % spec.stride as int == 0 && end <= spec.size()->Ok_0 && row
                <= spec.height,
            Err(error) => match spec.size() {
                Err(refused) => error == refused,
                Ok(size) => error == Error::IncorrectSize && (len as int % spec.stride as int != 0
                    || row * spec.stride + len > size),
            },
        },
{
    let size: usize = match spec.byte_len() {
        Ok(size) => size,
        Err(error) => return Err(error),
    };
    proof {
        let w = spec.width as int;
        let n = crate::pixels::pixel_size(spec.format);
        assert(w * n > 0) by (nonlinear_arith)
            requires
                w > 0,
                n > 0,
        ;
    }
    if len % spec.stride as usize != 0 {
        return Err(Error::IncorrectSize);
    }
    proof {
        let row = row as int;
        let h = spec.height as int;
        let stride = spec.stride as int;
        if row > h {
            assert(row * stride > stride * h) by (nonlinear_arith)
                requires
                    row > h,
                    stride > 0,
            ;
        } else {
            assert(row * stride <= stride * h) by (nonlinear_arith)
                requires
                    row <= h,
                    stride > 0,
            ;
        }
        assert(0 <= row * stride) by (nonlinear_arith)
            requires
                row >= 0,
                stride > 0,
        ;
    }
    if row > spec.height {
        return Err(Error::IncorrectSize);
    }
    let start: usize = row as usize * spec.stride as usize;
    if len > size - start {
        return Err(Error::IncorrectSize);
    }
    Ok((start, start + len))
}

/// The running count of bytes read, which stops at the largest number.
pub open spec fn counted(before: int, more: int) -> int {
    if before + more <= usize::MAX {
        before + more
    } else {
        usize::MAX as int
    }
}

/// What was read of a buffer so far. Rows that were not read keep what an
/// earlier read had found, or zero.
#[derive(Debug)]
pub struct Contents {
    pub bytes: Vec<u8>,
    pub bytes_read: usize,
}

impl Contents {
    /// Nothing was read of a buffer of that length.
    pub open spec fn unread(self, len: nat) -> bool {
        self.bytes@ == Seq::new(len, |i: int| 0u8) && self.bytes_read == 0
    }

    pub fn new(len: usize) -> (r: Contents)
        ensures
            r.unread(len as nat),
    {
        let bytes: Vec<u8> = vec![0u8; len];
        assert(bytes@ =~= Seq::new(len as nat, |i: int| 0u8));
        Contents { bytes, bytes_read: 0 }
    }

    /// Takes in bytes that were read at `at`.
    pub fn fill(&mut self, at: usize, read: &[u8])
        requires
            at + read@.len() <= old(self).bytes@.len(),
        ensures
            final(self).bytes@ == Seq::new(
                old(self).bytes@.len(),
                |i: int|
                    if at <= i < at + read@.len() {
                        read@[i - at]
                    } else {
                        old(self).bytes@[i]
                    },
            ),
            final(self).bytes_read == counted(old(self).bytes_read as int, read@.len() as int),
    {
        let mut i: usize = 0;
        while i < read.len()
            invariant
                i <= read@.len(),
                at + read@.len() <= self.bytes@.len(),
                self.bytes.len() == self.bytes@.len(),
                self.bytes_read == old(self).bytes_read,
                self.bytes@ == Seq::new(
                    old(self).bytes@.len(),
                    |k: int|
                        if at <= k < at + i {
                            read@[k - at]
                        } else {
                            old(self).bytes@[k]
                        },
                ),
            decreases read@.len() - i,
        {
            self.bytes.set(at + i, read[i]);
            i = i + 1;
            assert(self.bytes@ =~= Seq::new(
                old(self).bytes@.len(),
                |k: int|
                    if at <= k < at + i {
                        read@[k - at]
                    } else {
                        old(self).bytes@[k]
                    },
            ));
        }
        self.bytes_read = self.bytes_read.saturating_add(read.len());
    }
}

/// Without reported logical geometry an output covers its mode, turned upright
/// and divided by its scale, to within half a unit; turned by a quarter, it
/// covers as much the other way round.
pub proof fn an_output_covers_its_mode(output: Output, turned: Output)
    requires
        output.logical_size is None,
        output.scale >= 1,
        !sideways(output.transform),
        sideways(turned.transform),
        turned == (Output { transform: turned.transform, ..output }),
    ensures
        ({
            let (area, scale) = (output.area(), output.scale as int);
            &&& area.x == output.position.0 && area.y == output.position.1
            &&& -scale <= 2 * (area.width * scale - output.mode.0) <= scale
            &&& -scale <= 2 * (area.height * scale - output.mode.1) <= scale
            &&& turned.area().width == area.height
            &&& turned.area().height == area.width
        }),
{
    let scale = output.scale as int;
    let (w, h) = (output.mode.0 as int, output.mode.1 as int);
    assert forall|n: int| 0 <= n <= u32::MAX implies -scale <= 2 * (#[trigger] ((2 * n + scale) / (2
        * scale)) * scale - n) <= scale && 0 <= (2 * n + scale) / (2 * scale) <= u32::MAX by {
        let q = (2 * n + scale) / (2 * scale);
        assert(-scale <= 2 * (q * scale - n) <= scale && 0 <= q <= n + 1 && (n == u32::MAX ==> q
            <= n)) by (nonlinear_arith)
            requires
                q == (2 * n + scale) / (2 * scale),
                0 <= n,
                1 <= scale,
        ;
    }
    assert(-scale <= 2 * ((2 * w + scale) / (2 * scale) * scale - w) <= scale);
    assert(-scale <= 2 * ((2 * h + scale) / (2 * scale) * scale - h) <= scale);
}

/// Rows stand one stride apart: a pixel is read from the bytes of its own row,
/// at its column, and the pixels of a row follow each other.
pub proof fn pixels_stand_in_their_rows(spec: BufferSpec, bytes: Seq<u8>, x: int, y: u32)
    requires
        spec.size() is Ok,
        bytes.len() == spec.size()->Ok_0,
        0 <= x < spec.width,
        y < spec.height,
    ensures
        ({
            let row = row_bytes(spec, Range { start: y, end: (y + 1) as u32 });
            let n = pixels::pixel_size(spec.format);
            &&& row.1 - row.0 == spec.stride
            &&& spec.stored_pixel(bytes, x, y as int) == bytes.subrange(row.0, row.1).subrange(
                n * x,
                n * x + n,
            )
        }),
{
    let row = row_bytes(spec, Range { start: y, end: (y + 1) as u32 });
    let n = pixels::pixel_size(spec.format);
    let (w, h, s) = (spec.width as int, spec.height as int, spec.stride as int);
    pixels::lemma_buffer_bounds(spec, x, y as int);
    assert((y + 1) * s == y * s + s && (y + 1) * s <= s * h) by (nonlinear_arith)
        requires
            y + 1 <= h,
            0 <= s,
    ;
    assert(0 <= n * x && n * x + n <= w * n && x * n == n * x) by (nonlinear_arith)
        requires
            0 <= x < w,
            0 <= n,
    ;
    assert(spec.stored_pixel(bytes, x, y as int) =~= bytes.subrange(row.0, row.1).subrange(
        n * x,
        n * x + n,
    ));
}

} // verus!
