//! Video encoding: which encoder is used and how it is set up, how captured pictures are placed
//! in the encoder's frames, and how packets are matched to the frames they came from.

use std::collections::VecDeque;
use vstd::prelude::*;

use super::{
    even_side, fitted, law_fitted_picture_fits, law_fitted_picture_keeps_proportions, shown_for,
    to_even_side, Codec, EncodedFrame, FrameClock, HardwareCodecAvailability, RawFrame, FPS,
};
use crate::duration::Duration;
use crate::platform::Platform;
use crate::text::{contains, ends_with, has_suffix, same, texts};

verus! {

/// Where the time of a window of frames went.
#[derive(Clone, Copy, Debug, PartialEq, Eq, Structural)]
pub struct TimingTotals {
    pub frames: u64,
    pub conversion: Duration,
    pub submit: Duration,
    pub drain: Duration,
    pub egress: Duration,
}

/// The totals of a window that has not begun.
pub open spec fn no_timings() -> TimingTotals {
    TimingTotals {
        frames: 0,
        conversion: Duration { nanos: 0 },
        submit: Duration { nanos: 0 },
        drain: Duration { nanos: 0 },
        egress: Duration { nanos: 0 },
    }
}

impl Default for TimingTotals {
    fn default() -> (totals: TimingTotals)
        ensures
            totals == no_timings(),
    {
        TimingTotals {
            frames: 0,
            conversion: Duration::zero(),
            submit: Duration::zero(),
            drain: Duration::zero(),
            egress: Duration::zero(),
        }
    }
}

impl TimingTotals {
    /// Closes the window and hands out its totals. Without a frame there is nothing to report,
    /// and the window stays open.
    pub fn report(&mut self) -> (window: Option<TimingTotals>)
        ensures
            old(self).frames == 0 ==> window is None && *final(self) == *old(self),
            old(self).frames != 0 ==> window == Some(*old(self)) && *final(self) == no_timings(),
    {
        if self.frames == 0 {
            return None;
        }
        let window: TimingTotals = *self;
        *self = TimingTotals::default();
        Some(window)
    }
}

/// The size at which the source picture is placed in a `width` by `height` frame: fitted, then
/// made even in the direction that it does not fill.
pub open spec fn scaled_size(
    source_width: int,
    source_height: int,
    width: int,
    height: int,
) -> (usize, usize) {
    let (fitted_width, fitted_height) = fitted(source_width, source_height, width, height);
    if width * source_height <= height * source_width {
        (width as usize, even_side(fitted_height as usize))
    } else {
        (even_side(fitted_width as usize), height as usize)
    }
}

/// The size of the scaled picture can be computed: the products fit in a `usize` and nothing is
/// divided by zero.
pub open spec fn scalable(
    source_width: usize,
    source_height: usize,
    width: usize,
    height: usize,
) -> bool {
    &&& width * source_height <= usize::MAX
    &&& height * source_width <= usize::MAX
    &&& width * source_height <= height * source_width ==> source_width > 0
}

/// Whether the size of the scaled picture can be computed.
pub fn can_scale(source_width: usize, source_height: usize, width: usize, height: usize) -> (yes:
    bool)
    ensures
        yes == scalable(source_width, source_height, width, height),
{
    match (width.checked_mul(source_height), height.checked_mul(source_width)) {
        (Some(by_width), Some(by_height)) => by_width > by_height || source_width > 0,
        _ => false,
    }
}

pub fn scaled_dimensions(
    source_width: usize,
    source_height: usize,
    width: usize,
    height: usize,
) -> (size: (usize, usize))
    requires
        scalable(source_width, source_height, width, height),
    ensures
        size == scaled_size(
            source_width as int,
            source_height as int,
            width as int,
            height as int,
        ),
        width >= 2 ==> size.0 <= width,
        height >= 2 ==> size.1 <= height,
{
    proof {
        law_fitted_picture_fits(
            source_width as int,
            source_height as int,
            width as int,
            height as int,
        );
        vstd::arithmetic::mul::lemma_mul_is_commutative(width as int, source_height as int);
        vstd::arithmetic::mul::lemma_mul_is_commutative(height as int, source_width as int);
        if width * source_height > height * source_width {
            assert(source_height > 0) by (nonlinear_arith)
                requires
                    width * source_height > height * source_width,
                    source_height >= 0,
                    height * source_width >= 0,
            ;
        }
    }
    if width * source_height <= height * source_width {
        (width, to_even_side(source_height * width / source_width))
    } else {
        (to_even_side(source_width * height / source_height), height)
    }
}

/// A picture placed in an even frame is even in both directions and does not stick out of it.
pub proof fn law_scaled_picture_fits(
    source_width: int,
    source_height: int,
    width: usize,
    height: usize,
)
    requires
        source_width >= 0,
        source_height >= 0,
        width >= 2,
        height >= 2,
        width % 2 == 0,
        height % 2 == 0,
        width * source_height <= height * source_width ==> source_width > 0,
    ensures
        ({
            let size = scaled_size(source_width, source_height, width as int, height as int);
            &&& 2 <= size.0 <= width
            &&& 2 <= size.1 <= height
            &&& size.0 % 2 == 0
            &&& size.1 % 2 == 0
            &&& size.0 == width || size.1 == height
        }),
{
    law_fitted_picture_fits(source_width, source_height, width as int, height as int);
}

/// How the pixels of a frame are laid out.
#[derive(Clone, Copy, Debug, PartialEq, Eq, Structural)]
pub enum Pixel {
    /// A plane of brightness and one of interleaved colour at half the size.
    Nv12,
    /// A plane of brightness and two of colour at half the size.
    Yuv420p,
}

/// A rectangle of bytes, whose rows begin `stride` bytes apart.
pub struct Plane {
    pub data: Vec<u8>,
    pub stride: usize,
}

/// A picture in planes.
pub struct VideoFrame {
    pub pixel: Pixel,
    pub width: usize,
    pub height: usize,
    pub planes: Vec<Plane>,
}

/// A part of a plane.
pub struct Area {
    pub left: usize,
    pub top: usize,
    pub width: usize,
    pub height: usize,
}

/// `target` with `bytes` written over it from `start` on.
pub open spec fn overwritten(target: Seq<u8>, start: int, bytes: Seq<u8>) -> Seq<u8> {
    target.take(start) + bytes + target.skip(start + bytes.len())
}

/// `target` after the first `rows` rows of the area have been copied into it, one after the
/// other.
pub open spec fn rows_copied(
    target: Seq<u8>,
    target_stride: int,
    source: Seq<u8>,
    source_stride: int,
    area: Area,
    rows: int,
) -> Seq<u8>
    decreases rows,
{
    if rows <= 0 {
        target
    } else {
        overwritten(
            rows_copied(target, target_stride, source, source_stride, area, rows - 1),
            (area.top + rows - 1) * target_stride + area.left,
            source.subrange(
                (rows - 1) * source_stride,
                (rows - 1) * source_stride + area.width,
            ),
        )
    }
}

/// Every row of the area lies inside both planes.
pub open spec fn area_fits(
    target_length: int,
    target_stride: int,
    source_length: int,
    source_stride: int,
    area: Area,
) -> bool {
    area.height > 0 ==> {
        &&& area.top + area.height <= usize::MAX
        &&& (area.top + area.height - 1) * target_stride + area.left + area.width <= target_length
        &&& (area.height - 1) * source_stride + area.width <= source_length
    }
}

/// The end of a stretch of bytes in a row, where it fits in a `usize`.
fn stretch_end(row: usize, stride: usize, left: usize, width: usize) -> (end: Option<usize>)
    ensures
        match end {
            Some(end) => end == row * stride + left + width,
            None => row * stride + left + width > usize::MAX,
        },
{
    match row.checked_mul(stride) {
        Some(start) => match start.checked_add(left) {
            Some(from) => from.checked_add(width),
            None => None,
        },
        None => {
            assert(row * stride >= 0) by (nonlinear_arith);
            None
        },
    }
}

/// Whether every row of the area lies inside both planes.
fn check_area(
    target_length: usize,
    target_stride: usize,
    source_length: usize,
    source_stride: usize,
    area: &Area,
) -> (fits: bool)
    ensures
        fits == area_fits(
            target_length as int,
            target_stride as int,
            source_length as int,
            source_stride as int,
            *area,
        ),
{
    if area.height == 0 {
        return true;
    }
    let rows: usize = match area.top.checked_add(area.height) {
        Some(rows) => rows,
        None => return false,
    };
    let in_target: bool = match stretch_end(rows - 1, target_stride, area.left, area.width) {
        Some(end) => end <= target_length,
        None => false,
    };
    let in_source: bool = match stretch_end(area.height - 1, source_stride, 0, area.width) {
        Some(end) => end <= source_length,
        None => false,
    };
    in_target && in_source
}

proof fn lemma_row_fits(rows: int, row: int, stride: int)
    requires
        0 <= row < rows,
        stride >= 0,
    ensures
        0 <= row * stride <= (rows - 1) * stride,
{
    assert(0 <= row * stride <= (rows - 1) * stride) by (nonlinear_arith)
        requires
            0 <= row < rows,
            stride >= 0,
    ;
}

proof fn lemma_rows_copied_length(
    target: Seq<u8>,
    target_stride: int,
    source: Seq<u8>,
    source_stride: int,
    area: Area,
    rows: int,
)
    requires
        0 <= rows <= area.height,
        target_stride >= 0,
        source_stride >= 0,
        area_fits(target.len() as int, target_stride, source.len() as int, source_stride, area),
    ensures
        rows_copied(target, target_stride, source, source_stride, area, rows).len()
            == target.len(),
    decreases rows,
{
    if rows > 0 {
        lemma_rows_copied_length(target, target_stride, source, source_stride, area, rows - 1);
        lemma_row_fits(area.top + area.height, area.top + rows - 1, target_stride);
        lemma_row_fits(area.height as int, rows - 1, source_stride);
    }
}

/// What a copy leaves in the target: where the rows do not overlap, the byte at column `column`
/// of row `row` comes from the source inside the area and is untouched outside of it.
pub proof fn law_copied_area(
    target: Seq<u8>,
    target_stride: int,
    source: Seq<u8>,
    source_stride: int,
    area: Area,
    rows: int,
    row: int,
    column: int,
)
    requires
        0 <= rows <= area.height,
        source_stride >= 0,
        area.left + area.width <= target_stride,
        area_fits(target.len() as int, target_stride, source.len() as int, source_stride, area),
        0 <= row,
        0 <= column < target_stride,
        row * target_stride + column < target.len(),
    ensures
        0 <= row * target_stride + column,
        rows_copied(target, target_stride, source, source_stride, area, rows)[row * target_stride
            + column] == if area.top <= row < area.top + rows && area.left <= column < area.left
            + area.width {
            source[(row - area.top) * source_stride + (column - area.left)]
        } else {
            target[row * target_stride + column]
        },
    decreases rows,
{
    let at = row * target_stride + column;
    assert(0 <= row * target_stride) by (nonlinear_arith)
        requires
            row >= 0,
            target_stride >= 0,
    ;
    if rows > 0 {
        law_copied_area(target, target_stride, source, source_stride, area, rows - 1, row, column);
        lemma_rows_copied_length(target, target_stride, source, source_stride, area, rows - 1);
        lemma_row_fits(area.top + area.height, area.top + rows - 1, target_stride);
        lemma_row_fits(area.height as int, rows - 1, source_stride);
        let last = area.top + rows - 1;
        let start = last * target_stride + area.left;
        if row < last {
            assert(row * target_stride + target_stride <= last * target_stride) by (nonlinear_arith)
                requires
                    row + 1 <= last,
                    target_stride >= 0,
            ;
        } else if row > last {
            assert(last * target_stride + target_stride <= row * target_stride) by (nonlinear_arith)
                requires
                    last + 1 <= row,
                    target_stride >= 0,
            ;
        } else {
            assert(row * target_stride == last * target_stride);
        }
    }
}

/// Copies the rows of `source` into the area of `target`.
fn copy_rows(
    target: &mut Vec<u8>,
    target_stride: usize,
    source: &Vec<u8>,
    source_stride: usize,
    area: &Area,
)
    requires
        area_fits(
            old(target)@.len() as int,
            target_stride as int,
            source@.len() as int,
            source_stride as int,
            *area,
        ),
    ensures
        final(target)@ == rows_copied(
            old(target)@,
            target_stride as int,
            source@,
            source_stride as int,
            *area,
            area.height as int,
        ),
        final(target)@.len() == old(target)@.len(),
{
    let ghost initial = target@;
    let mut row: usize = 0;
    while row < area.height
        invariant
            row <= area.height,
            area_fits(
                initial.len() as int,
                target_stride as int,
                source@.len() as int,
                source_stride as int,
                *area,
            ),
            target@.len() == initial.len(),
            target@ == rows_copied(
                initial,
                target_stride as int,
                source@,
                source_stride as int,
                *area,
                row as int,
            ),
        decreases area.height - row,
    {
        proof {
            lemma_row_fits(area.top + area.height, area.top + row, target_stride as int);
            lemma_row_fits(area.height as int, row as int, source_stride as int);
            assert(target.len() <= usize::MAX && source.len() <= usize::MAX);
        }
        let source_start: usize = row * source_stride;
        let target_start: usize = (area.top + row) * target_stride + area.left;
        let ghost before = target@;
        let ghost bytes = source@.subrange(source_start as int, source_start + area.width);
        let mut i: usize = 0;
        while i < area.width
            invariant
                i <= area.width,
                source_start + area.width <= source@.len(),
                source@.len() == source.len(),
                target_start + area.width <= target@.len(),
                target@.len() == target.len(),
                target@.len() == before.len(),
                bytes == source@.subrange(source_start as int, source_start + area.width),
                forall|j: int|
                    0 <= j < before.len() ==> #[trigger] target@[j] == if target_start <= j
                        < target_start + i {
                        bytes[j - target_start]
                    } else {
                        before[j]
                    },
            decreases area.width - i,
        {
            target.set(target_start + i, source[source_start + i]);
            i += 1;
        }
        assert(target@ =~= overwritten(before, target_start as int, bytes));
        row += 1;
    }
}

/// Copies a `width` by `height` picture from the corner of `source` to the area of `target`.
pub fn copy_plane(target: &mut Plane, source: &Plane, area: &Area)
    requires
        area_fits(
            old(target).data@.len() as int,
            old(target).stride as int,
            source.data@.len() as int,
            source.stride as int,
            *area,
        ),
    ensures
        final(target).stride == old(target).stride,
        final(target).data@ == rows_copied(
            old(target).data@,
            old(target).stride as int,
            source.data@,
            source.stride as int,
            *area,
            area.height as int,
        ),
        final(target).data@.len() == old(target).data@.len(),
{
    copy_rows(&mut target.data, target.stride, &source.data, source.stride, area);
}

/// The area that a captured picture's rows fill in the scaler's input.
pub open spec fn input_area(source: RawFrame) -> Area {
    Area { left: 0, top: 0, width: (source.width * 4) as usize, height: source.height }
}

/// The captured picture is complete, and the scaler's input has room for it.
pub open spec fn packable(source: RawFrame, input: Plane) -> bool {
    &&& source.width * 4 <= usize::MAX
    &&& area_fits(
        input.data@.len() as int,
        input.stride as int,
        source.bgra@.len() as int,
        source.stride as int,
        input_area(source),
    )
}

/// Whether the captured picture is complete and the scaler's input has room for it.
pub fn can_pack(source: &RawFrame, input: &Plane) -> (yes: bool)
    ensures
        yes == packable(*source, *input),
{
    match source.width.checked_mul(4) {
        Some(width) => check_area(
            input.data.len(),
            input.stride,
            source.bgra.len(),
            source.stride,
            &Area { left: 0, top: 0, width, height: source.height },
        ),
        None => false,
    }
}

/// The scaler's input once the captured picture has been laid out in its rows. The stride of the
/// source counts bytes.
pub open spec fn packed(source: RawFrame, input: Plane) -> Seq<u8> {
    rows_copied(
        input.data@,
        input.stride as int,
        source.bgra@,
        source.stride as int,
        input_area(source),
        source.height as int,
    )
}

/// Lays the captured picture out in the rows of the scaler's input.
pub fn pack_frame(source: &RawFrame, input: &mut Plane)
    requires
        packable(*source, *old(input)),
    ensures
        final(input).stride == old(input).stride,
        final(input).data@ == packed(*source, *old(input)),
        final(input).data@.len() == old(input).data@.len(),
{
    let area: Area = Area { left: 0, top: 0, width: source.width * 4, height: source.height };
    copy_rows(&mut input.data, input.stride, &source.bgra, source.stride, &area);
}

/// Both sources are of the same size and show the same pixels, however far their rows are apart
/// and whatever stands between them.
pub open spec fn same_pixels(a: RawFrame, b: RawFrame) -> bool {
    &&& a.width == b.width
    &&& a.height == b.height
    &&& forall|row: int, column: int|
        #![trigger a.bgra@[row * a.stride + column]]
        #![trigger b.bgra@[row * b.stride + column]]
        0 <= row < a.height && 0 <= column < 4 * a.width ==> a.bgra@[row * a.stride + column]
            == b.bgra@[row * b.stride + column]
}

/// The rows that are copied show the pixels of their source alone.
proof fn lemma_rows_are_alike(a: RawFrame, b: RawFrame, input: Plane, rows: int)
    requires
        same_pixels(a, b),
        packable(a, input),
        packable(b, input),
        0 <= rows <= a.height,
    ensures
        input_area(a) == input_area(b),
        rows_copied(
            input.data@,
            input.stride as int,
            a.bgra@,
            a.stride as int,
            input_area(a),
            rows,
        ) == rows_copied(
            input.data@,
            input.stride as int,
            b.bgra@,
            b.stride as int,
            input_area(b),
            rows,
        ),
    decreases rows,
{
    if rows > 0 {
        lemma_rows_are_alike(a, b, input, rows - 1);
        let width = 4 * a.width;
        let (from_a, from_b) = ((rows - 1) * a.stride, (rows - 1) * b.stride);
        lemma_row_fits(a.height as int, rows - 1, a.stride as int);
        lemma_row_fits(b.height as int, rows - 1, b.stride as int);
        let row_a = a.bgra@.subrange(from_a, from_a + width);
        let row_b = b.bgra@.subrange(from_b, from_b + width);
        assert forall|column: int| 0 <= column < width implies row_a[column] == row_b[column] by {
            assert(a.bgra@[(rows - 1) * a.stride + column] == b.bgra@[(rows - 1) * b.stride
                + column]);
        }
        assert(row_a =~= row_b);
    }
}

/// How many planes a frame has.
pub open spec fn plane_count(pixel: Pixel) -> int {
    match pixel {
        Pixel::Nv12 => 2,
        Pixel::Yuv420p => 3,
    }
}

/// The area of plane `plane` that a `scaled_width` by `scaled_height` picture takes in the middle
/// of a `width` by `height` frame.
pub open spec fn letterbox_area(
    pixel: Pixel,
    plane: int,
    width: int,
    height: int,
    scaled_width: int,
    scaled_height: int,
) -> Area {
    let left = (width - scaled_width) / 2;
    let top = (height - scaled_height) / 2;
    if plane == 0 {
        Area {
            left: left as usize,
            top: top as usize,
            width: scaled_width as usize,
            height: scaled_height as usize,
        }
    } else if pixel is Nv12 {
        Area {
            left: left as usize,
            top: (top / 2) as usize,
            width: scaled_width as usize,
            height: (scaled_height / 2) as usize,
        }
    } else {
        Area {
            left: (left / 2) as usize,
            top: (top / 2) as usize,
            width: (scaled_width / 2) as usize,
            height: (scaled_height / 2) as usize,
        }
    }
}

/// The value of a black plane.
pub open spec fn black(plane: int) -> u8 {
    if plane == 0 {
        16
    } else {
        128
    }
}

/// The bytes of plane `plane` of the frame that shows `scaled` in the middle of a black picture.
pub open spec fn letterboxed(scaled: VideoFrame, output: VideoFrame, plane: int) -> Seq<u8> {
    let area = letterbox_area(
        output.pixel,
        plane,
        output.width as int,
        output.height as int,
        scaled.width as int,
        scaled.height as int,
    );
    rows_copied(
        Seq::new(output.planes@[plane].data@.len(), |i: int| black(plane)),
        output.planes@[plane].stride as int,
        scaled.planes@[plane].data@,
        scaled.planes@[plane].stride as int,
        area,
        area.height as int,
    )
}

/// `scaled` can be placed in `output`: both have the planes of the output's layout, and each
/// plane is large enough for its part of the picture.
pub open spec fn can_letterbox(scaled: VideoFrame, output: VideoFrame) -> bool {
    &&& scaled.width <= output.width
    &&& scaled.height <= output.height
    &&& scaled.planes@.len() >= plane_count(output.pixel)
    &&& output.planes@.len() == plane_count(output.pixel)
    &&& forall|plane: int|
        0 <= plane < plane_count(output.pixel) ==> area_fits(
            (#[trigger] output.planes@[plane]).data@.len() as int,
            output.planes@[plane].stride as int,
            scaled.planes@[plane].data@.len() as int,
            scaled.planes@[plane].stride as int,
            letterbox_area(
                output.pixel,
                plane,
                output.width as int,
                output.height as int,
                scaled.width as int,
                scaled.height as int,
            ),
        )
}

/// The area of a plane that a scaled picture takes in the middle of a frame.
fn place_of(
    pixel: Pixel,
    plane: usize,
    width: usize,
    height: usize,
    scaled_width: usize,
    scaled_height: usize,
) -> (area: Area)
    requires
        scaled_width <= width,
        scaled_height <= height,
    ensures
        area == letterbox_area(
            pixel,
            plane as int,
            width as int,
            height as int,
            scaled_width as int,
            scaled_height as int,
        ),
{
    let left: usize = (width - scaled_width) / 2;
    let top: usize = (height - scaled_height) / 2;
    if plane == 0 {
        Area { left, top, width: scaled_width, height: scaled_height }
    } else {
        match pixel {
            Pixel::Nv12 => Area {
                left,
                top: top / 2,
                width: scaled_width,
                height: scaled_height / 2,
            },
            Pixel::Yuv420p => Area {
                left: left / 2,
                top: top / 2,
                width: scaled_width / 2,
                height: scaled_height / 2,
            },
        }
    }
}

/// Whether `scaled` can be placed in `output`.
pub fn can_place(scaled: &VideoFrame, output: &VideoFrame) -> (yes: bool)
    ensures
        yes == can_letterbox(*scaled, *output),
{
    let count: usize = match output.pixel {
        Pixel::Nv12 => 2,
        Pixel::Yuv420p => 3,
    };
    if scaled.width > output.width || scaled.height > output.height || scaled.planes.len() < count
        || output.planes.len() != count {
        return false;
    }
    let mut plane: usize = 0;
    while plane < count
        invariant
            plane <= count,
            count == plane_count(output.pixel),
            scaled.width <= output.width,
            scaled.height <= output.height,
            scaled.planes@.len() >= count,
            output.planes@.len() == count,
            forall|i: int|
                0 <= i < plane ==> area_fits(
                    (#[trigger] output.planes@[i]).data@.len() as int,
                    output.planes@[i].stride as int,
                    scaled.planes@[i].data@.len() as int,
                    scaled.planes@[i].stride as int,
                    letterbox_area(
                        output.pixel,
                        i,
                        output.width as int,
                        output.height as int,
                        scaled.width as int,
                        scaled.height as int,
                    ),
                ),
        decreases count - plane,
    {
        let area: Area = place_of(
            output.pixel,
            plane,
            output.width,
            output.height,
            scaled.width,
            scaled.height,
        );
        if !check_area(
            output.planes[plane].data.len(),
            output.planes[plane].stride,
            scaled.planes[plane].data.len(),
            scaled.planes[plane].stride,
            &area,
        ) {
            assert(!can_letterbox(*scaled, *output)) by {
                assert(output.planes@[plane as int] == output.planes[plane as int]);
            }
            return false;
        }
        plane += 1;
    }
    true
}

/// Sets every byte of a plane.
fn fill_plane(plane: &mut Plane, value: u8)
    ensures
        final(plane).stride == old(plane).stride,
        final(plane).data@ == Seq::new(old(plane).data@.len(), |i: int| value),
{
    let length: usize = plane.data.len();
    let mut i: usize = 0;
    while i < length
        invariant
            i <= length,
            length == plane.data@.len(),
            length == old(plane).data@.len(),
            plane.stride == old(plane).stride,
            forall|j: int| 0 <= j < i ==> plane.data@[j] == value,
        decreases length - i,
    {
        plane.data.set(i, value);
        i += 1;
    }
    assert(plane.data@ =~= Seq::new(old(plane).data@.len(), |i: int| value));
}

/// Whether the scaled picture fills the frame, so that nothing is left around it.
pub fn fills_frame(scaled_width: usize, scaled_height: usize, width: usize, height: usize) -> (fills:
    bool)
    ensures
        fills == (scaled_width == width && scaled_height == height),
{
    scaled_width == width && scaled_height == height
}

/// `frame` is the scaled picture itself where it fills the frame, else the scaled picture in the
/// middle of `output`, which is black around it.
pub open spec fn is_yuv_frame(frame: VideoFrame, scaled: VideoFrame, output: VideoFrame) -> bool {
    if scaled.width == output.width && scaled.height == output.height {
        frame == scaled
    } else {
        &&& frame.pixel == output.pixel
        &&& frame.width == output.width
        &&& frame.height == output.height
        &&& frame.planes@.len() == output.planes@.len()
        &&& forall|plane: int|
            0 <= plane < plane_count(output.pixel) ==> {
                &&& (#[trigger] frame.planes@[plane]).stride == output.planes@[plane].stride
                &&& frame.planes@[plane].data@ == letterboxed(scaled, output, plane)
            }
    }
}

/// The frame that goes into the encoder, made of the picture that the scaler returned.
pub fn yuv_frame(scaled: VideoFrame, output: VideoFrame) -> (frame: VideoFrame)
    requires
        scaled.width == output.width && scaled.height == output.height || can_letterbox(
            scaled,
            output,
        ),
    ensures
        is_yuv_frame(frame, scaled, output),
{
    if fills_frame(scaled.width, scaled.height, output.width, output.height) {
        return scaled;
    }
    let mut planes: Vec<Plane> = output.planes;
    let ghost initial = planes@;
    let count: usize = match output.pixel {
        Pixel::Nv12 => 2,
        Pixel::Yuv420p => 3,
    };
    let mut index: usize = 0;
    while index < count
        invariant
            index <= count,
            count == plane_count(output.pixel),
            planes@.len() == count,
            initial == output.planes@,
            can_letterbox(scaled, output),
            forall|plane: int| index <= plane < count ==> planes@[plane] == initial[plane],
            forall|plane: int|
                0 <= plane < index ==> {
                    &&& (#[trigger] planes@[plane]).stride == initial[plane].stride
                    &&& planes@[plane].data@ == letterboxed(scaled, output, plane)
                },
        decreases count - index,
    {
        let area: Area = place_of(
            output.pixel,
            index,
            output.width,
            output.height,
            scaled.width,
            scaled.height,
        );
        let value: u8 = if index == 0 {
            16
        } else {
            128
        };
        assert(planes@[index as int] == initial[index as int]);
        let mut plane: Plane = planes.remove(index);
        fill_plane(&mut plane, value);
        assert(plane.data@ =~= Seq::new(
            initial[index as int].data@.len(),
            |i: int| black(index as int),
        ));
        copy_plane(&mut plane, &scaled.planes[index], &area);
        planes.insert(index, plane);
        index += 1;
    }
    VideoFrame { pixel: output.pixel, width: output.width, height: output.height, planes }
}

/// Both frames are of the same kind and size and hold the same bytes.
pub open spec fn same_frame(a: VideoFrame, b: VideoFrame) -> bool {
    &&& a.pixel == b.pixel
    &&& a.width == b.width
    &&& a.height == b.height
    &&& a.planes@.len() == b.planes@.len()
    &&& forall|plane: int|
        #![trigger a.planes@[plane]]
        #![trigger b.planes@[plane]]
        0 <= plane < a.planes@.len() ==> {
            &&& a.planes@[plane].stride == b.planes@[plane].stride
            &&& a.planes@[plane].data@ == b.planes@[plane].data@
        }
}

/// Stride and row padding of a captured picture never show: two sources with the same pixels
/// make the same frame, whatever the scaler makes of its input.
pub proof fn law_stride_does_not_show(
    a: RawFrame,
    b: RawFrame,
    input: Plane,
    scaler: spec_fn(Seq<u8>) -> VideoFrame,
    scaled_a: VideoFrame,
    scaled_b: VideoFrame,
    output: VideoFrame,
    frame_a: VideoFrame,
    frame_b: VideoFrame,
)
    requires
        same_pixels(a, b),
        packable(a, input),
        packable(b, input),
        same_frame(scaled_a, scaler(packed(a, input))),
        same_frame(scaled_b, scaler(packed(b, input))),
        scaled_a.width == output.width && scaled_a.height == output.height || can_letterbox(
            scaled_a,
            output,
        ),
        is_yuv_frame(frame_a, scaled_a, output),
        is_yuv_frame(frame_b, scaled_b, output),
    ensures
        packed(a, input) == packed(b, input),
        same_frame(frame_a, frame_b),
{
    lemma_rows_are_alike(a, b, input, a.height as int);
    assert(same_frame(scaled_a, scaled_b)) by {
        let scaled = scaler(packed(a, input));
        assert forall|plane: int|
            #![trigger scaled_a.planes@[plane]]
            #![trigger scaled_b.planes@[plane]]
            0 <= plane < scaled_a.planes@.len() implies scaled_a.planes@[plane].stride
            == scaled_b.planes@[plane].stride && scaled_a.planes@[plane].data@
            == scaled_b.planes@[plane].data@ by {
            assert(scaled_a.planes@[plane].data@ == scaled.planes@[plane].data@);
            assert(scaled_b.planes@[plane].data@ == scaled.planes@[plane].data@);
        }
    }
    if !(scaled_a.width == output.width && scaled_a.height == output.height) {
        assert forall|plane: int|
            #![trigger frame_a.planes@[plane]]
            #![trigger frame_b.planes@[plane]]
            0 <= plane < frame_a.planes@.len() implies frame_a.planes@[plane].stride
            == frame_b.planes@[plane].stride && frame_a.planes@[plane].data@
            == frame_b.planes@[plane].data@ by {
            assert(scaled_a.planes@[plane].data@ == scaled_b.planes@[plane].data@);
            assert(letterboxed(scaled_a, output, plane) == letterboxed(scaled_b, output, plane));
        }
    }
}

/// Outside of the picture in its middle a letterboxed plane is black, and inside it shows the
/// scaled picture: the byte at column `column` of row `row`.
pub proof fn law_letterbox(scaled: VideoFrame, output: VideoFrame, plane: int, row: int, column: int)
    requires
        can_letterbox(scaled, output),
        0 <= plane < plane_count(output.pixel),
        0 <= row,
        0 <= column < output.planes@[plane].stride,
        row * output.planes@[plane].stride + column < output.planes@[plane].data@.len(),
        ({
            let area = letterbox_area(
                output.pixel,
                plane,
                output.width as int,
                output.height as int,
                scaled.width as int,
                scaled.height as int,
            );
            area.left + area.width <= output.planes@[plane].stride
        }),
    ensures
        ({
            let area = letterbox_area(
                output.pixel,
                plane,
                output.width as int,
                output.height as int,
                scaled.width as int,
                scaled.height as int,
            );
            letterboxed(scaled, output, plane)[row * output.planes@[plane].stride + column]
                == if area.top <= row < area.top + area.height && area.left <= column < area.left
                + area.width {
                scaled.planes@[plane].data@[(row - area.top) * scaled.planes@[plane].stride + (
                column - area.left)]
            } else {
                black(plane)
            }
        }),
{
    let area = letterbox_area(
        output.pixel,
        plane,
        output.width as int,
        output.height as int,
        scaled.width as int,
        scaled.height as int,
    );
    law_copied_area(
        Seq::new(output.planes@[plane].data@.len(), |i: int| black(plane)),
        output.planes@[plane].stride as int,
        scaled.planes@[plane].data@,
        scaled.planes@[plane].stride as int,
        area,
        area.height as int,
        row,
        column,
    );
}

/// The texts of a list of names.
pub open spec fn names(list: Seq<&'static str>) -> Seq<Seq<char>> {
    list.map_values(|name: &'static str| name@)
}

/// The hardware encoders of a codec family in the order in which they are tried. Every family
/// but the first two is taken for AV1.
pub open spec fn hardware_encoders(platform: Platform, family: Seq<char>) -> Seq<Seq<char>> {
    match platform {
        Platform::MacOs => if family == "h264"@ {
            seq!["h264_videotoolbox"@]
        } else if family == "hevc"@ {
            seq!["hevc_videotoolbox"@]
        } else {
            seq!["av1_videotoolbox"@]
        },
        Platform::Windows => if family == "h264"@ {
            seq!["h264_nvenc"@, "h264_amf"@, "h264_qsv"@]
        } else if family == "hevc"@ {
            seq!["hevc_nvenc"@, "hevc_amf"@, "hevc_qsv"@]
        } else {
            seq!["av1_nvenc"@, "av1_amf"@, "av1_qsv"@]
        },
        Platform::Linux => if family == "h264"@ {
            seq!["h264_nvenc"@, "h264_vaapi"@, "h264_qsv"@]
        } else if family == "hevc"@ {
            seq!["hevc_nvenc"@, "hevc_vaapi"@, "hevc_qsv"@]
        } else {
            seq!["av1_nvenc"@, "av1_vaapi"@, "av1_qsv"@]
        },
        Platform::Other => Seq::empty(),
    }
}

/// The names of the hardware encoders of a codec family.
pub fn hardware_names(codec: &str, platform: Platform) -> (list: Vec<&'static str>)
    ensures
        names(list@) == hardware_encoders(platform, codec@),
{
    let h264: bool = same(codec, "h264");
    let hevc: bool = same(codec, "hevc");
    let list: Vec<&'static str> = match platform {
        Platform::MacOs => if h264 {
            vec!["h264_videotoolbox"]
        } else if hevc {
            vec!["hevc_videotoolbox"]
        } else {
            vec!["av1_videotoolbox"]
        },
        Platform::Windows => if h264 {
            vec!["h264_nvenc", "h264_amf", "h264_qsv"]
        } else if hevc {
            vec!["hevc_nvenc", "hevc_amf", "hevc_qsv"]
        } else {
            vec!["av1_nvenc", "av1_amf", "av1_qsv"]
        },
        Platform::Linux => if h264 {
            vec!["h264_nvenc", "h264_vaapi", "h264_qsv"]
        } else if hevc {
            vec!["hevc_nvenc", "hevc_vaapi", "hevc_qsv"]
        } else {
            vec!["av1_nvenc", "av1_vaapi", "av1_qsv"]
        },
        Platform::Other => Vec::new(),
    };
    assert(names(list@) =~= hardware_encoders(platform, codec@));
    list
}

/// What the names of hardware encoders end with: VideoToolbox, NVENC, AMF, QSV and VAAPI.
pub open spec fn hardware_kinds() -> Seq<Seq<char>> {
    seq!["_videotoolbox"@, "_nvenc"@, "_amf"@, "_qsv"@, "_vaapi"@]
}

/// The name is that of a hardware encoder of the codec.
pub open spec fn names_hardware(name: Seq<char>, codec: Codec) -> bool {
    exists|kind: int|
        0 <= kind < hardware_kinds().len() && name == family(codec) + #[trigger] hardware_kinds()[kind]
}

proof fn lemma_hardware_kinds(codec: Codec, kind: int)
    requires
        0 <= kind < 5,
    ensures
        names_hardware(family(codec) + hardware_kinds()[kind], codec),
{
}

proof fn lemma_hardware_names()
    ensures
        "h264_videotoolbox"@ == "h264"@ + "_videotoolbox"@,
        "h264_nvenc"@ == "h264"@ + "_nvenc"@,
        "h264_amf"@ == "h264"@ + "_amf"@,
        "h264_qsv"@ == "h264"@ + "_qsv"@,
        "h264_vaapi"@ == "h264"@ + "_vaapi"@,
        "hevc_videotoolbox"@ == "hevc"@ + "_videotoolbox"@,
        "hevc_nvenc"@ == "hevc"@ + "_nvenc"@,
        "hevc_amf"@ == "hevc"@ + "_amf"@,
        "hevc_qsv"@ == "hevc"@ + "_qsv"@,
        "hevc_vaapi"@ == "hevc"@ + "_vaapi"@,
        "av1_videotoolbox"@ == "av1"@ + "_videotoolbox"@,
        "av1_nvenc"@ == "av1"@ + "_nvenc"@,
        "av1_amf"@ == "av1"@ + "_amf"@,
        "av1_qsv"@ == "av1"@ + "_qsv"@,
        "av1_vaapi"@ == "av1"@ + "_vaapi"@,
        "h264"@ != "hevc"@,
        "av1"@ != "h264"@,
        "av1"@ != "hevc"@,
{
    reveal_strlit("h264");
    reveal_strlit("hevc");
    reveal_strlit("av1");
    reveal_strlit("_videotoolbox");
    reveal_strlit("_nvenc");
    reveal_strlit("_amf");
    reveal_strlit("_qsv");
    reveal_strlit("_vaapi");
    reveal_strlit("h264_videotoolbox");
    reveal_strlit("h264_nvenc");
    reveal_strlit("h264_amf");
    reveal_strlit("h264_qsv");
    reveal_strlit("h264_vaapi");
    reveal_strlit("hevc_videotoolbox");
    reveal_strlit("hevc_nvenc");
    reveal_strlit("hevc_amf");
    reveal_strlit("hevc_qsv");
    reveal_strlit("hevc_vaapi");
    reveal_strlit("av1_videotoolbox");
    reveal_strlit("av1_nvenc");
    reveal_strlit("av1_amf");
    reveal_strlit("av1_qsv");
    reveal_strlit("av1_vaapi");
    assert("h264_videotoolbox"@ =~= "h264"@ + "_videotoolbox"@);
    assert("h264_nvenc"@ =~= "h264"@ + "_nvenc"@);
    assert("h264_amf"@ =~= "h264"@ + "_amf"@);
    assert("h264_qsv"@ =~= "h264"@ + "_qsv"@);
    assert("h264_vaapi"@ =~= "h264"@ + "_vaapi"@);
    assert("hevc_videotoolbox"@ =~= "hevc"@ + "_videotoolbox"@);
    assert("hevc_nvenc"@ =~= "hevc"@ + "_nvenc"@);
    assert("hevc_amf"@ =~= "hevc"@ + "_amf"@);
    assert("hevc_qsv"@ =~= "hevc"@ + "_qsv"@);
    assert("hevc_vaapi"@ =~= "hevc"@ + "_vaapi"@);
    assert("av1_videotoolbox"@ =~= "av1"@ + "_videotoolbox"@);
    assert("av1_nvenc"@ =~= "av1"@ + "_nvenc"@);
    assert("av1_amf"@ =~= "av1"@ + "_amf"@);
    assert("av1_qsv"@ =~= "av1"@ + "_qsv"@);
    assert("av1_vaapi"@ =~= "av1"@ + "_vaapi"@);
    assert("h264"@[1] != "hevc"@[1]);
    assert("av1"@.len() == 3);
}

proof fn lemma_kinds_differ(family: Seq<char>)
    ensures
        family + "_nvenc"@ != family + "_amf"@,
        family + "_nvenc"@ != family + "_qsv"@,
        family + "_nvenc"@ != family + "_vaapi"@,
        family + "_amf"@ != family + "_qsv"@,
        family + "_vaapi"@ != family + "_qsv"@,
{
    reveal_strlit("_nvenc");
    reveal_strlit("_amf");
    reveal_strlit("_qsv");
    reveal_strlit("_vaapi");
    let n = family.len() as int;
    assert((family + "_nvenc"@)[n + 1] == 'n');
    assert((family + "_amf"@)[n + 1] == 'a');
    assert((family + "_qsv"@)[n + 1] == 'q');
    assert((family + "_vaapi"@)[n + 1] == 'v');
}

/// On every platform that is known there are hardware encoders to try for each codec; no two are
/// alike, and each is of that codec and of a known kind, so none is a software encoder.
pub proof fn law_hardware_names(platform: Platform, codec: Codec)
    requires
        platform != Platform::Other,
    ensures
        hardware_encoders(platform, family(codec)).len() > 0,
        hardware_encoders(platform, family(codec)).no_duplicates(),
        forall|i: int|
            0 <= i < hardware_encoders(platform, family(codec)).len() ==> names_hardware(
                #[trigger] hardware_encoders(platform, family(codec))[i],
                codec,
            ),
{
    lemma_hardware_names();
    lemma_kinds_differ(family(codec));
    lemma_hardware_kinds(codec, 0);
    lemma_hardware_kinds(codec, 1);
    lemma_hardware_kinds(codec, 2);
    lemma_hardware_kinds(codec, 3);
    lemma_hardware_kinds(codec, 4);
    let kinds = hardware_kinds();
    assert(kinds[0] == "_videotoolbox"@ && kinds[1] == "_nvenc"@ && kinds[2] == "_amf"@ && kinds[3]
        == "_qsv"@ && kinds[4] == "_vaapi"@);
}

/// One of the hardware encoders of the family was compiled in.
pub open spec fn any_compiled(
    platform: Platform,
    family: Seq<char>,
    compiled: Seq<String>,
) -> bool {
    exists|i: int|
        0 <= i < hardware_encoders(platform, family).len() && texts(compiled).contains(
            #[trigger] hardware_encoders(platform, family)[i],
        )
}

/// Whether the encoders that were compiled in, given by their names, offer the codec family in
/// hardware.
pub fn hardware_encoder_available(codec: &str, platform: Platform, compiled: &Vec<String>) -> (
    available: bool)
    ensures
        available == any_compiled(platform, codec@, compiled@),
{
    let list: Vec<&'static str> = hardware_names(codec, platform);
    let ghost encoders = hardware_encoders(platform, codec@);
    let mut i: usize = 0;
    while i < list.len()
        invariant
            i <= list@.len(),
            encoders == hardware_encoders(platform, codec@),
            names(list@) == encoders,
            forall|j: int|
                0 <= j < i ==> !texts(compiled@).contains(#[trigger] encoders[j]),
        decreases list@.len() - i,
    {
        assert(encoders[i as int] == list@[i as int]@);
        if contains(compiled, list[i]) {
            return true;
        }
        i += 1;
    }
    assert(list@.len() == encoders.len());
    false
}

/// The codecs that the encoders which were compiled in offer in hardware.
pub fn hardware_codecs(platform: Platform, compiled: &Vec<String>) -> (available:
    HardwareCodecAvailability)
    ensures
        available.h264 == any_compiled(platform, "h264"@, compiled@),
        available.h265 == any_compiled(platform, "hevc"@, compiled@),
        available.av1 == any_compiled(platform, "av1"@, compiled@),
{
    HardwareCodecAvailability {
        h264: hardware_encoder_available("h264", platform, compiled),
        h265: hardware_encoder_available("hevc", platform, compiled),
        av1: hardware_encoder_available("av1", platform, compiled),
    }
}

/// A private option of an encoder.
#[derive(Clone, Copy, Debug)]
pub struct EncoderOption {
    pub key: &'static str,
    pub value: &'static str,
}

/// The texts of a list of options.
pub open spec fn pairs(options: Seq<EncoderOption>) -> Seq<(Seq<char>, Seq<char>)> {
    options.map_values(|option: EncoderOption| (option.key@, option.value@))
}

/// The options that make an encoder hold back as little as it can.
pub open spec fn low_latency_options(name: Seq<char>) -> Seq<(Seq<char>, Seq<char>)> {
    if name == "libx264"@ || name == "libx265"@ {
        seq![("preset"@, "ultrafast"@), ("tune"@, "zerolatency"@)]
    } else if name == "libsvtav1"@ {
        seq![("preset"@, "13"@), ("svtav1-params"@, "la_depth=0:scd=0"@)]
    } else if has_suffix(name, "_nvenc"@) {
        seq![("preset"@, "p1"@), ("tune"@, "ull"@), ("rc"@, "cbr"@), ("zerolatency"@, "1"@)]
    } else if has_suffix(name, "_amf"@) {
        seq![("usage"@, "ultralowlatency"@), ("quality"@, "speed"@)]
    } else if has_suffix(name, "_videotoolbox"@) {
        seq![("realtime"@, "1"@), ("prio_speed"@, "1"@), ("max_ref_frames"@, "1"@)]
    } else {
        Seq::empty()
    }
}

/// Some option of the list has the key.
pub open spec fn has_key(options: Seq<(Seq<char>, Seq<char>)>, key: Seq<char>) -> bool {
    exists|i: int| 0 <= i < options.len() && (#[trigger] options[i]).0 == key
}

/// The value of an option of the list that has the key.
pub open spec fn value_of(options: Seq<(Seq<char>, Seq<char>)>, key: Seq<char>) -> Seq<char> {
    options[choose|i: int| 0 <= i < options.len() && (#[trigger] options[i]).0 == key].1
}

/// The values that a list of options gives to keys.
pub open spec fn values(options: Seq<(Seq<char>, Seq<char>)>) -> Map<Seq<char>, Seq<char>> {
    Map::new(|key: Seq<char>| has_key(options, key), |key: Seq<char>| value_of(options, key))
}

/// No key occurs twice in the list.
pub open spec fn keys_differ(options: Seq<(Seq<char>, Seq<char>)>) -> bool {
    forall|i: int, j: int|
        0 <= i < j < options.len() ==> (#[trigger] options[i]).0 != (#[trigger] options[j]).0
}

/// The values after each option of a list has been set, in order.
pub open spec fn with_all(
    values: Map<Seq<char>, Seq<char>>,
    options: Seq<(Seq<char>, Seq<char>)>,
) -> Map<Seq<char>, Seq<char>>
    decreases options.len(),
{
    if options.len() == 0 {
        values
    } else {
        with_all(values, options.drop_last()).insert(options.last().0, options.last().1)
    }
}

/// Setting options leaves the values of other keys as they were, and no option of the list that
/// has a key to itself is lost.
pub proof fn law_other_options_stay(
    values: Map<Seq<char>, Seq<char>>,
    options: Seq<(Seq<char>, Seq<char>)>,
    key: Seq<char>,
)
    ensures
        !has_key(options, key) ==> (with_all(values, options).contains_key(key)
            == values.contains_key(key) && with_all(values, options)[key] == values[key]),
        keys_differ(options) ==> forall|i: int|
            0 <= i < options.len() ==> with_all(values, options).contains_key(
                (#[trigger] options[i]).0,
            ) && with_all(values, options)[options[i].0] == options[i].1,
    decreases options.len(),
{
    if options.len() > 0 {
        let before = options.drop_last();
        law_other_options_stay(values, before, key);
        if !has_key(options, key) {
            assert(options[options.len() - 1].0 != key);
            assert forall|i: int| 0 <= i < before.len() implies (#[trigger] before[i]).0 != key by {
                assert(options[i].0 != key);
            }
        }
        if keys_differ(options) {
            assert forall|i: int, j: int| 0 <= i < j < before.len() implies (#[trigger] before[i]).0
                != (#[trigger] before[j]).0 by {
                assert(options[i].0 != options[j].0);
            }
            assert forall|i: int| 0 <= i < options.len() implies with_all(
                values,
                options,
            ).contains_key((#[trigger] options[i]).0) && with_all(values, options)[options[i].0]
                == options[i].1 by {
                if i < before.len() {
                    assert(before[i] == options[i]);
                    assert(options[i].0 != options[options.len() - 1].0);
                }
            }
        }
    }
}

/// The private options that an encoder is opened with, one for each key.
pub struct Dictionary {
    pub entries: Vec<EncoderOption>,
}

impl Dictionary {
    pub open spec fn wf(self) -> bool {
        keys_differ(pairs(self.entries@))
    }

    pub open spec fn contents(self) -> Map<Seq<char>, Seq<char>> {
        values(pairs(self.entries@))
    }

    pub fn new() -> (dictionary: Dictionary)
        ensures
            dictionary.wf(),
            dictionary.entries@.len() == 0,
            dictionary.contents() == Map::<Seq<char>, Seq<char>>::empty(),
    {
        let dictionary: Dictionary = Dictionary { entries: Vec::new() };
        assert(dictionary.contents() =~= Map::<Seq<char>, Seq<char>>::empty());
        dictionary
    }

    /// Gives a value to a key, in place of the one that it had.
    pub fn set(&mut self, key: &'static str, value: &'static str)
        requires
            old(self).wf(),
        ensures
            final(self).wf(),
            final(self).contents() == old(self).contents().insert(key@, value@),
    {
        let ghost before = pairs(self.entries@);
        let mut i: usize = 0;
        while i < self.entries.len()
            invariant
                i <= self.entries@.len(),
                *self == *old(self),
                before == pairs(self.entries@),
                keys_differ(before),
                forall|j: int| 0 <= j < i ==> (#[trigger] before[j]).0 != key@,
            decreases self.entries@.len() - i,
        {
            assert(before[i as int].0 == self.entries@[i as int].key@);
            if same(self.entries[i].key, key) {
                self.entries.set(i, EncoderOption { key, value });
                proof {
                    let after = pairs(self.entries@);
                    assert(after =~= before.update(i as int, (key@, value@)));
                    lemma_replaced(before, i as int, value@);
                }
                return;
            }
            i += 1;
        }
        self.entries.push(EncoderOption { key, value });
        proof {
            let after = pairs(self.entries@);
            assert(after =~= before.push((key@, value@)));
            assert(before.len() == i);
            lemma_added(before, key@, value@);
        }
    }
}

proof fn lemma_value(options: Seq<(Seq<char>, Seq<char>)>, i: int)
    requires
        keys_differ(options),
        0 <= i < options.len(),
    ensures
        values(options).contains_key(options[i].0),
        values(options)[options[i].0] == options[i].1,
{
    let key = options[i].0;
    let k = choose|k: int| 0 <= k < options.len() && (#[trigger] options[k]).0 == key;
    assert(0 <= k < options.len() && options[k].0 == key);
    if k < i {
        assert(options[k].0 != options[i].0);
    } else if i < k {
        assert(options[i].0 != options[k].0);
    }
}

proof fn lemma_replaced(options: Seq<(Seq<char>, Seq<char>)>, i: int, value: Seq<char>)
    requires
        keys_differ(options),
        0 <= i < options.len(),
    ensures
        keys_differ(options.update(i, (options[i].0, value))),
        values(options.update(i, (options[i].0, value))) == values(options).insert(
            options[i].0,
            value,
        ),
{
    let after = options.update(i, (options[i].0, value));
    assert forall|a: int, b: int| 0 <= a < b < after.len() implies (#[trigger] after[a]).0 != (
    #[trigger] after[b]).0 by {
        assert(after[a].0 == options[a].0 && after[b].0 == options[b].0);
    }
    let expected = values(options).insert(options[i].0, value);
    assert forall|key: Seq<char>| #[trigger]
        values(after).contains_key(key) == expected.contains_key(key) && (values(
            after,
        ).contains_key(key) ==> values(after)[key] == expected[key]) by {
        if has_key(after, key) {
            let k = choose|k: int| 0 <= k < after.len() && (#[trigger] after[k]).0 == key;
            assert(options[k].0 == key);
            lemma_value(after, k);
            lemma_value(options, k);
            if k != i {
                lemma_value(options, i);
                if k < i {
                    assert(options[k].0 != options[i].0);
                } else {
                    assert(options[i].0 != options[k].0);
                }
            }
        }
        if has_key(options, key) {
            let k = choose|k: int| 0 <= k < options.len() && (#[trigger] options[k]).0 == key;
            assert(after[k].0 == key);
        }
        assert(after[i].0 == options[i].0);
    }
    assert(values(after) =~= expected);
}

proof fn lemma_added(options: Seq<(Seq<char>, Seq<char>)>, key: Seq<char>, value: Seq<char>)
    requires
        keys_differ(options),
        !has_key(options, key),
    ensures
        keys_differ(options.push((key, value))),
        values(options.push((key, value))) == values(options).insert(key, value),
{
    let after = options.push((key, value));
    assert forall|a: int, b: int| 0 <= a < b < after.len() implies (#[trigger] after[a]).0 != (
    #[trigger] after[b]).0 by {
        assert(after[a] == options[a]);
        if b < options.len() {
            assert(after[b] == options[b]);
        }
    }
    let expected = values(options).insert(key, value);
    assert forall|other: Seq<char>| #[trigger]
        values(after).contains_key(other) == expected.contains_key(other) && (values(
            after,
        ).contains_key(other) ==> values(after)[other] == expected[other]) by {
        if has_key(after, other) {
            let k = choose|k: int| 0 <= k < after.len() && (#[trigger] after[k]).0 == other;
            lemma_value(after, k);
            if k < options.len() {
                assert(options[k] == after[k]);
                lemma_value(options, k);
            }
        }
        if has_key(options, other) {
            let k = choose|k: int| 0 <= k < options.len() && (#[trigger] options[k]).0 == other;
            assert(after[k].0 == other);
        }
        assert(after[options.len() as int].0 == key);
    }
    assert(values(after) =~= expected);
}

/// The options that make the named encoder hold back as little as it can.
fn low_latency_list(name: &str) -> (options: Vec<EncoderOption>)
    ensures
        pairs(options@) == low_latency_options(name@),
{
    let mut options: Vec<EncoderOption> = Vec::new();
    if same(name, "libx264") || same(name, "libx265") {
        options.push(EncoderOption { key: "preset", value: "ultrafast" });
        options.push(EncoderOption { key: "tune", value: "zerolatency" });
    } else if same(name, "libsvtav1") {
        // SVT presets run from 0 (slowest) through 13 (fastest).
        options.push(EncoderOption { key: "preset", value: "13" });
        options.push(EncoderOption { key: "svtav1-params", value: "la_depth=0:scd=0" });
    } else if ends_with(name, "_nvenc") {
        options.push(EncoderOption { key: "preset", value: "p1" });
        options.push(EncoderOption { key: "tune", value: "ull" });
        options.push(EncoderOption { key: "rc", value: "cbr" });
        options.push(EncoderOption { key: "zerolatency", value: "1" });
    } else if ends_with(name, "_amf") {
        options.push(EncoderOption { key: "usage", value: "ultralowlatency" });
        options.push(EncoderOption { key: "quality", value: "speed" });
    } else if ends_with(name, "_videotoolbox") {
        options.push(EncoderOption { key: "realtime", value: "1" });
        options.push(EncoderOption { key: "prio_speed", value: "1" });
        options.push(EncoderOption { key: "max_ref_frames", value: "1" });
    }
    assert(pairs(options@) =~= low_latency_options(name@));
    options
}

/// Sets the options that make the named encoder hold back as little as it can, in place of the
/// values that their keys had. Options of other keys stay.
pub fn set_low_latency_options(name: &str, options: &mut Dictionary)
    requires
        old(options).wf(),
    ensures
        final(options).wf(),
        final(options).contents() == with_all(old(options).contents(), low_latency_options(name@)),
{
    let list: Vec<EncoderOption> = low_latency_list(name);
    let ghost wanted = low_latency_options(name@);
    let mut i: usize = 0;
    assert(wanted.take(0) =~= Seq::empty());
    while i < list.len()
        invariant
            i <= list@.len(),
            wanted == pairs(list@),
            options.wf(),
            options.contents() == with_all(old(options).contents(), wanted.take(i as int)),
        decreases list@.len() - i,
    {
        options.set(list[i].key, list[i].value);
        assert(wanted.take(i + 1).drop_last() =~= wanted.take(i as int));
        assert(wanted.take(i + 1).last() == (list@[i as int].key@, list@[i as int].value@));
        i += 1;
    }
    assert(wanted.take(i as int) =~= wanted);
}

/// The family name of a codec.
pub open spec fn family(codec: Codec) -> Seq<char> {
    match codec {
        Codec::H264 => "h264"@,
        Codec::H265 => "hevc"@,
        Codec::Av1 => "av1"@,
    }
}

/// The software encoder of a codec.
pub open spec fn software_encoder(codec: Codec) -> Seq<char> {
    match codec {
        Codec::H264 => "libx264"@,
        Codec::H265 => "libx265"@,
        Codec::Av1 => "libsvtav1"@,
    }
}

/// The encoders of a codec in the order in which they are tried: those in hardware, then the
/// one in software.
pub open spec fn candidates(codec: Codec, platform: Platform) -> Seq<Seq<char>> {
    hardware_encoders(platform, family(codec)).push(software_encoder(codec))
}

/// What an encoder is opened with.
pub struct EncoderSettings {
    pub name: &'static str,
    pub hardware: bool,
    pub pixel: Pixel,
    pub width: u32,
    pub height: u32,
    /// Frames per second; the time base is its inverse.
    pub frame_rate: i32,
    pub bit_rate: usize,
    /// Frames from one key frame to the next.
    pub gop: u32,
    pub max_b_frames: usize,
    pub low_delay: bool,
    pub options: Dictionary,
}

/// How trying an encoder ended.
pub enum Probe {
    /// No encoder of that name was compiled in.
    NotCompiled,
    /// There was one, but no context could be created for it.
    NoContext,
    /// It refused the settings, for the given reason.
    Rejected(String),
    /// It is open.
    Opened,
}

/// Why no encoder could be opened.
pub enum OpenError {
    NoContext,
    LastAttempt { name: &'static str, error: String },
    NotCompiled,
}

/// An open encoder.
#[derive(Clone, Copy, Debug)]
pub struct Encoder {
    pub name: &'static str,
    pub hardware: bool,
    pub pixel: Pixel,
}

/// What to do about opening an encoder.
pub enum OpenStep {
    /// Try an encoder with these settings.
    Try(EncoderSettings),
    /// Use the encoder that was opened last.
    Done(Encoder),
    /// Give up.
    Failed(OpenError),
}

/// The probe ends the search.
pub open spec fn decisive(probe: Probe) -> bool {
    probe is NoContext || probe is Opened
}

/// The layout in which an encoder takes its pictures.
pub open spec fn pixel_for(hardware: bool) -> Pixel {
    if hardware {
        Pixel::Nv12
    } else {
        Pixel::Yuv420p
    }
}

/// Candidate `index` is one in hardware.
pub open spec fn in_hardware(codec: Codec, platform: Platform, index: int) -> bool {
    index < hardware_encoders(platform, family(codec)).len()
}

/// The settings are those of candidate `index`.
pub open spec fn settings_for(
    settings: EncoderSettings,
    codec: Codec,
    platform: Platform,
    width: usize,
    height: usize,
    bitrate: u32,
    index: int,
) -> bool {
    let hardware = in_hardware(codec, platform, index);
    &&& settings.name@ == candidates(codec, platform)[index]
    &&& settings.hardware == hardware
    &&& settings.pixel == pixel_for(hardware)
    &&& settings.width == width as u32
    &&& settings.height == height as u32
    &&& settings.frame_rate == 60
    &&& settings.bit_rate == bitrate
    &&& settings.gop == 120
    &&& settings.max_b_frames == 0
    &&& settings.low_delay
    &&& settings.options.wf()
    &&& settings.options.contents() == with_all(
        Map::empty(),
        low_latency_options(candidates(codec, platform)[index]),
    )
}

/// None of the first `count` probes ended the search.
pub open spec fn undecided(probes: Seq<Probe>, count: int) -> bool {
    forall|i: int| 0 <= i < count && i < probes.len() ==> !decisive(#[trigger] probes[i])
}

/// The step that follows from the probes made so far, `probes[i]` being that of candidate `i`.
pub open spec fn follows(
    step: OpenStep,
    codec: Codec,
    platform: Platform,
    width: usize,
    height: usize,
    bitrate: u32,
    probes: Seq<Probe>,
) -> bool {
    let all = candidates(codec, platform);
    let count = all.len() as int;
    match step {
        OpenStep::Done(encoder) => exists|i: int|
            {
                &&& 0 <= i < probes.len()
                &&& i < count
                &&& undecided(probes, i)
                &&& #[trigger] probes[i] is Opened
                &&& encoder.name@ == all[i]
                &&& encoder.hardware == in_hardware(codec, platform, i)
                &&& encoder.pixel == pixel_for(encoder.hardware)
            },
        OpenStep::Failed(OpenError::NoContext) => exists|i: int|
            {
                &&& 0 <= i < probes.len()
                &&& i < count
                &&& undecided(probes, i)
                &&& #[trigger] probes[i] is NoContext
            },
        OpenStep::Try(settings) => {
            &&& undecided(probes, count)
            &&& probes.len() < count
            &&& settings_for(
                settings,
                codec,
                platform,
                width,
                height,
                bitrate,
                probes.len() as int,
            )
        },
        OpenStep::Failed(OpenError::LastAttempt { name, error }) => {
            &&& undecided(probes, count)
            &&& probes.len() >= count
            &&& exists|i: int|
                {
                    &&& 0 <= i < count
                    &&& #[trigger] probes[i] matches Probe::Rejected(reason)
                    &&& error@ == reason@
                    &&& name@ == all[i]
                    &&& forall|j: int| i < j < count ==> #[trigger] probes[j] is NotCompiled
                }
        },
        OpenStep::Failed(OpenError::NotCompiled) => {
            &&& undecided(probes, count)
            &&& probes.len() >= count
            &&& forall|j: int| 0 <= j < count ==> #[trigger] probes[j] is NotCompiled
        },
    }
}

impl Encoder {
    /// Decides how the search for an encoder goes on after the given probes. The first encoder
    /// that opens is used.
    pub fn open(
        codec: Codec,
        platform: Platform,
        width: usize,
        height: usize,
        bitrate: u32,
        probes: &Vec<Probe>,
    ) -> (step: OpenStep)
        ensures
            follows(step, codec, platform, width, height, bitrate, probes@),
    {
        let (family_name, software): (&'static str, &'static str) = match codec {
            Codec::H264 => ("h264", "libx264"),
            Codec::H265 => ("hevc", "libx265"),
            Codec::Av1 => ("av1", "libsvtav1"),
        };
        let hardware: Vec<&'static str> = hardware_names(family_name, platform);
        let ghost all = candidates(codec, platform);
        let ghost hardware_count = hardware_encoders(platform, family(codec)).len();
        assert(names(hardware@).len() == hardware_count);
        assert(hardware.len() == hardware_count);
        assert(hardware_count <= 4);
        let count: usize = hardware.len() + 1;
        let mut last: Option<usize> = None;
        let mut i: usize = 0;
        while i < count
            invariant
                i <= count,
                count == all.len(),
                count == hardware@.len() + 1,
                all == candidates(codec, platform),
                names(hardware@) == hardware_encoders(platform, family(codec)),
                software@ == software_encoder(codec),
                i <= probes@.len(),
                undecided(probes@, i as int),
                match last {
                    None => forall|j: int| 0 <= j < i ==> #[trigger] probes@[j] is NotCompiled,
                    Some(k) => k < i && probes@[k as int] is Rejected && forall|j: int|
                        k < j < i ==> #[trigger] probes@[j] is NotCompiled,
                },
            decreases count - i,
        {
            let in_hardware_list: bool = i < hardware.len();
            let name: &'static str = if in_hardware_list {
                hardware[i]
            } else {
                software
            };
            assert(name@ == all[i as int]) by {
                if in_hardware_list {
                    assert(names(hardware@)[i as int] == hardware@[i as int]@);
                }
            }
            assert(in_hardware_list == in_hardware(codec, platform, i as int));
            let pixel: Pixel = if in_hardware_list {
                Pixel::Nv12
            } else {
                Pixel::Yuv420p
            };
            if i >= probes.len() {
                let mut options: Dictionary = Dictionary::new();
                set_low_latency_options(name, &mut options);
                return OpenStep::Try(
                    EncoderSettings {
                        name,
                        hardware: in_hardware_list,
                        pixel,
                        width: width as u32,
                        height: height as u32,
                        frame_rate: FPS as i32,
                        bit_rate: bitrate as usize,
                        gop: FPS * 2,
                        max_b_frames: 0,
                        low_delay: true,
                        options,
                    },
                );
            }
            match &probes[i] {
                Probe::NotCompiled => {},
                Probe::NoContext => {
                    assert(probes@[i as int] is NoContext);
                    return OpenStep::Failed(OpenError::NoContext);
                },
                Probe::Rejected(_) => {
                    last = Some(i);
                },
                Probe::Opened => {
                    assert(probes@[i as int] is Opened);
                    return OpenStep::Done(Encoder { name, hardware: in_hardware_list, pixel });
                },
            }
            i += 1;
        }
        if let Some(k) = last {
            let name: &'static str = if k < hardware.len() {
                hardware[k]
            } else {
                software
            };
            assert(name@ == all[k as int]) by {
                if k < hardware@.len() {
                    assert(names(hardware@)[k as int] == hardware@[k as int]@);
                }
            }
            if let Probe::Rejected(error) = &probes[k] {
                assert(probes@[k as int] is Rejected);
                return OpenStep::Failed(OpenError::LastAttempt { name, error: error.clone() });
            }
        }
        OpenStep::Failed(OpenError::NotCompiled)
    }
}

/// Hardware comes first: the software encoder is tried, or used, only after every hardware
/// encoder of the platform turned out to be missing or refused to open.
pub proof fn law_software_is_the_fallback(
    step: OpenStep,
    codec: Codec,
    platform: Platform,
    width: usize,
    height: usize,
    bitrate: u32,
    probes: Seq<Probe>,
)
    requires
        follows(step, codec, platform, width, height, bitrate, probes),
        step matches OpenStep::Try(settings) ==> !settings.hardware,
        step matches OpenStep::Done(encoder) ==> !encoder.hardware,
        step !is Failed,
    ensures
        forall|i: int|
            0 <= i < hardware_encoders(platform, family(codec)).len() ==> i < probes.len() && (
            #[trigger] probes[i] is NotCompiled || probes[i] is Rejected),
{
    let hardware = hardware_encoders(platform, family(codec));
    if let OpenStep::Done(encoder) = step {
        let all = candidates(codec, platform);
        let k = choose|k: int|
            {
                &&& 0 <= k < probes.len()
                &&& k < all.len()
                &&& undecided(probes, k)
                &&& #[trigger] probes[k] is Opened
                &&& encoder.name@ == all[k]
                &&& encoder.hardware == in_hardware(codec, platform, k)
                &&& encoder.pixel == pixel_for(encoder.hardware)
            };
        assert(k >= hardware.len());
    }
    assert forall|i: int| 0 <= i < hardware.len() implies i < probes.len() && (
    #[trigger] probes[i] is NotCompiled || probes[i] is Rejected) by {
        assert(!decisive(probes[i]));
    }
}

/// The search ends: once every candidate has been probed, no further one is tried.
pub proof fn law_search_ends(
    step: OpenStep,
    codec: Codec,
    platform: Platform,
    width: usize,
    height: usize,
    bitrate: u32,
    probes: Seq<Probe>,
)
    requires
        follows(step, codec, platform, width, height, bitrate, probes),
        probes.len() >= candidates(codec, platform).len(),
    ensures
        step !is Try,
{
}

/// Encoders are pipelined: frames are fed without waiting for packets, and packets may come out
/// late. This is what is known about the frames that are inside the encoder, with times in
/// nanoseconds on a clock that starts anywhere.
pub struct Pipeline {
    /// The number of each frame for which no packet has come out, and when it went in.
    pub submissions: VecDeque<(i64, u128)>,
    pub clock: FrameClock,
    pub timings: TimingTotals,
    /// A packet has come out of an earlier drain.
    pub primed: bool,
}

/// The position of the frame with the given number among the submissions, if it is there.
pub open spec fn position(submissions: Seq<(i64, u128)>, pts: i64) -> Option<int> {
    if exists|i: int| 0 <= i < submissions.len() && #[trigger] submissions[i].0 == pts {
        Some(choose|i: int| 0 <= i < submissions.len() && #[trigger] submissions[i].0 == pts)
    } else {
        None
    }
}

/// The position of the submission that a packet answers: the one with its number, else the
/// oldest. `None` where there is no submission.
pub open spec fn answered(submissions: Seq<(i64, u128)>, pts: Option<i64>) -> Option<int> {
    match pts {
        Some(number) if position(submissions, number) is Some => position(submissions, number),
        _ => if submissions.len() == 0 {
            None
        } else {
            Some(0)
        },
    }
}

/// How long a packet's frame was in the encoder when the packet came out at `drained_at`; zero
/// while the encoder warms up and for a packet that answers no submission.
pub open spec fn time_in_encoder(
    submissions: Seq<(i64, u128)>,
    primed: bool,
    pts: Option<i64>,
    drained_at: u128,
) -> Duration {
    match answered(submissions, pts) {
        Some(index) if primed && submissions[index].1 <= drained_at => Duration {
            nanos: (drained_at - submissions[index].1) as u128,
        },
        _ => Duration { nanos: 0 },
    }
}

/// One pass over the packets that are ready.
pub struct Drain {
    pub egress: Duration,
    pub had_packets: bool,
}

impl Drain {
    pub fn new() -> (drain: Drain)
        ensures
            drain.egress.nanos == 0,
            !drain.had_packets,
    {
        Drain { egress: Duration::zero(), had_packets: false }
    }

    /// A packet was handed on, which took `elapsed`.
    pub fn sent(&mut self, elapsed: Duration)
        requires
            old(self).egress.nanos + elapsed.nanos <= u128::MAX,
        ensures
            final(self).egress.nanos == old(self).egress.nanos + elapsed.nanos,
            final(self).had_packets,
    {
        self.egress = self.egress.plus(elapsed);
        self.had_packets = true;
    }
}

impl Pipeline {
    /// Frames went in with rising numbers below the next one, so no two are alike.
    pub open spec fn wf(self) -> bool {
        &&& 0 <= self.clock.next
        &&& forall|i: int, j: int|
            0 <= i < j < self.submissions@.len() ==> (#[trigger] self.submissions@[i]).0 < (
            #[trigger] self.submissions@[j]).0
        &&& forall|i: int|
            0 <= i < self.submissions@.len() ==> 0 <= (#[trigger] self.submissions@[i]).0
                < self.clock.next
        &&& self.timings.frames <= FPS
    }

    pub fn new() -> (pipeline: Pipeline)
        ensures
            pipeline.wf(),
            pipeline.submissions@ == Seq::<(i64, u128)>::empty(),
            pipeline.clock == (FrameClock { next: 0, previous: None }),
            pipeline.timings == no_timings(),
            !pipeline.primed,
    {
        Pipeline {
            submissions: VecDeque::new(),
            clock: FrameClock::new(),
            timings: TimingTotals::default(),
            primed: false,
        }
    }

    /// The frame was converted, which took `elapsed`.
    pub fn converted(&mut self, elapsed: Duration)
        requires
            old(self).wf(),
            old(self).timings.conversion.nanos + elapsed.nanos <= u128::MAX,
        ensures
            final(self).wf(),
            final(self).submissions@ == old(self).submissions@,
            final(self).clock == old(self).clock,
            final(self).primed == old(self).primed,
            final(self).timings == (TimingTotals {
                conversion: Duration {
                    nanos: (old(self).timings.conversion.nanos + elapsed.nanos) as u128,
                },
                ..old(self).timings
            }),
    {
        self.timings.conversion = self.timings.conversion.plus(elapsed);
    }

    /// A frame captured at `captured_at` goes into the encoder at `now`: its number and how long
    /// it is shown.
    pub fn submit(&mut self, captured_at: u128, now: u128) -> (frame: (i64, Duration))
        requires
            old(self).wf(),
            old(self).clock.next < i64::MAX,
        ensures
            final(self).wf(),
            frame.0 == old(self).clock.next,
            frame.1 == shown_for(old(self).clock.previous, captured_at),
            final(self).clock.next == old(self).clock.next + 1,
            final(self).clock.previous == Some(captured_at),
            final(self).submissions@ == old(self).submissions@.push((frame.0, now)),
            final(self).timings == old(self).timings,
            final(self).primed == old(self).primed,
    {
        let (number, duration): (i64, Duration) = self.clock.tick(captured_at);
        self.submissions.push_back((number, now));
        (number, duration)
    }

    /// The encoder took the frame, which took `elapsed`.
    pub fn queued(&mut self, elapsed: Duration)
        requires
            old(self).wf(),
            old(self).timings.frames < FPS,
            old(self).timings.submit.nanos + elapsed.nanos <= u128::MAX,
        ensures
            final(self).wf(),
            final(self).submissions@ == old(self).submissions@,
            final(self).clock == old(self).clock,
            final(self).primed == old(self).primed,
            final(self).timings == (TimingTotals {
                frames: (old(self).timings.frames + 1) as u64,
                submit: Duration { nanos: (old(self).timings.submit.nanos + elapsed.nanos) as u128 },
                ..old(self).timings
            }),
    {
        self.timings.submit = self.timings.submit.plus(elapsed);
        self.timings.frames = self.timings.frames + 1;
    }

    /// A packet came out at `drained_at`, with the number of its frame where the encoder tells
    /// it, while a frame shown for `duration` was being encoded. A packet without data is
    /// ignored; every other one answers a submission.
    pub fn on_packet(
        &mut self,
        data: Option<Vec<u8>>,
        pts: Option<i64>,
        drained_at: u128,
        duration: Duration,
    ) -> (frame: Option<EncodedFrame>)
        requires
            old(self).wf(),
        ensures
            final(self).wf(),
            final(self).clock == old(self).clock,
            final(self).timings == old(self).timings,
            final(self).primed == old(self).primed,
            match data {
                None => frame is None && final(self).submissions@ == old(self).submissions@,
                Some(bytes) => {
                    &&& frame matches Some(encoded)
                    &&& encoded.data == bytes
                    &&& encoded.duration == duration
                    &&& encoded.encode_duration == time_in_encoder(
                        old(self).submissions@,
                        old(self).primed,
                        pts,
                        drained_at,
                    )
                    &&& final(self).submissions@ == match answered(old(self).submissions@, pts) {
                        Some(index) => old(self).submissions@.remove(index),
                        None => old(self).submissions@,
                    }
                },
            },
    {
        let data: Vec<u8> = match data {
            Some(data) => data,
            None => return None,
        };
        let ghost before = self.submissions@;
        let mut index: Option<usize> = None;
        if let Some(number) = pts {
            let mut i: usize = 0;
            while i < self.submissions.len() && index.is_none()
                invariant
                    i <= self.submissions@.len(),
                    *self == *old(self),
                    before == self.submissions@,
                    match index {
                        Some(found) => found == i && i < before.len() && before[i as int].0
                            == number,
                        None => forall|j: int| 0 <= j < i ==> #[trigger] before[j].0 != number,
                    },
                decreases
                        self.submissions@.len() - i + if index is None {
                            1int
                        } else {
                            0int
                        },
            {
                if self.submissions[i].0 == number {
                    index = Some(i);
                } else {
                    i += 1;
                }
            }
            proof {
                match index {
                    Some(found) => {
                        let k = position(before, number)->0;
                        assert(before[found as int].0 == number);
                        assert(before[k].0 == number);
                        assert(k == found) by {
                            if k < found {
                                assert(before[k].0 < before[found as int].0);
                            } else if found < k {
                                assert(before[found as int].0 < before[k].0);
                            }
                        }
                    },
                    None => {
                        assert(position(before, number) is None);
                    },
                }
            }
        }
        let entry: Option<(i64, u128)> = match index {
            Some(index) => self.submissions.remove(index),
            None => self.submissions.pop_front(),
        };
        proof {
            if index is None && before.len() > 0 {
                assert(self.submissions@ =~= before.remove(0));
            }
        }
        let encode_duration: Duration = match entry {
            Some((_, submitted_at)) => if self.primed && submitted_at <= drained_at {
                Duration { nanos: drained_at - submitted_at }
            } else {
                Duration::zero()
            },
            None => Duration::zero(),
        };
        Some(EncodedFrame { data, duration, encode_duration })
    }

    /// A pass over the packets ended after `elapsed`. From then on the encoder counts as warm
    /// if a packet came out.
    pub fn finish_drain(&mut self, drain: &Drain, elapsed: Duration)
        requires
            old(self).wf(),
            old(self).timings.drain.nanos + elapsed.nanos <= u128::MAX,
            old(self).timings.egress.nanos + drain.egress.nanos <= u128::MAX,
        ensures
            final(self).wf(),
            final(self).submissions@ == old(self).submissions@,
            final(self).clock == old(self).clock,
            final(self).primed == (old(self).primed || drain.had_packets),
            final(self).timings.frames == old(self).timings.frames,
            final(self).timings.conversion == old(self).timings.conversion,
            final(self).timings.submit == old(self).timings.submit,
            final(self).timings.drain.nanos == old(self).timings.drain.nanos + if drain.egress.nanos
                <= elapsed.nanos {
                elapsed.nanos - drain.egress.nanos
            } else {
                0
            },
            final(self).timings.egress.nanos == old(self).timings.egress.nanos
                + drain.egress.nanos,
    {
        self.timings.drain = self.timings.drain.plus(elapsed.saturating_sub(drain.egress));
        self.timings.egress = self.timings.egress.plus(drain.egress);
        self.primed = self.primed || drain.had_packets;
    }

    /// The frame is through. Once a second's worth of frames is, their timings are handed out
    /// and a new window begins.
    pub fn end_frame(&mut self) -> (window: Option<TimingTotals>)
        requires
            old(self).wf(),
        ensures
            final(self).wf(),
            final(self).submissions@ == old(self).submissions@,
            final(self).clock == old(self).clock,
            final(self).primed == old(self).primed,
            final(self).timings.frames < FPS,
            if old(self).timings.frames >= FPS {
                window == Some(old(self).timings) && final(self).timings == no_timings()
            } else {
                window is None && final(self).timings == old(self).timings
            },
    {
        if self.timings.frames >= FPS as u64 {
            self.timings.report()
        } else {
            None
        }
    }
}

/// A packet that carries the number of a frame in the encoder answers that very frame, whatever
/// the order in which packets come out; the others stay.
pub proof fn law_packet_answers_its_frame(pipeline: Pipeline, index: int)
    requires
        pipeline.wf(),
        0 <= index < pipeline.submissions@.len(),
    ensures
        answered(pipeline.submissions@, Some(pipeline.submissions@[index].0)) == Some(index),
{
    let submissions = pipeline.submissions@;
    let number = submissions[index].0;
    assert(submissions[index].0 == number);
    let found = position(submissions, number)->0;
    assert(submissions[found].0 == number);
    if found < index {
        assert(submissions[found].0 < submissions[index].0);
    } else if index < found {
        assert(submissions[index].0 < submissions[found].0);
    }
}

/// A scaled picture keeps the proportions of its source: it fills the frame in one direction, and
/// in the other its side is less than two pixels shorter than the proportions ask for, or two
/// where they ask for less. Where the frame has the proportions of the source, it is filled.
pub proof fn law_scaled_picture_keeps_proportions(
    source_width: int,
    source_height: int,
    width: usize,
    height: usize,
)
    requires
        source_width > 0,
        source_height > 0,
    ensures
        ({
            let size = scaled_size(source_width, source_height, width as int, height as int);
            &&& width * source_height <= height * source_width ==> {
                &&& size.0 == width
                &&& size.1 * source_width <= source_height * width || size.1 == 2 && source_height
                    * width < 2 * source_width
                &&& source_height * width < (size.1 + 2) * source_width
            }
            &&& width * source_height > height * source_width ==> {
                &&& size.1 == height
                &&& size.0 * source_height <= source_width * height || size.0 == 2 && source_width
                    * height < 2 * source_height
                &&& source_width * height < (size.0 + 2) * source_height
            }
        }),
        width * source_height == height * source_width && height >= 2 && height % 2 == 0
            ==> scaled_size(source_width, source_height, width as int, height as int) == (
            width,
            height,
        ),
{
    law_fitted_picture_fits(source_width, source_height, width as int, height as int);
    law_fitted_picture_keeps_proportions(
        source_width,
        source_height,
        width as int,
        height as int,
    );
    let by_width = source_height * width;
    let by_height = source_width * height;
    let (h, w) = (by_width / source_width, by_height / source_height);
    assert(h * source_width <= by_width < (h + 1) * source_width) by (nonlinear_arith)
        requires
            h == by_width / source_width,
            source_width > 0,
    ;
    assert(w * source_height <= by_height < (w + 1) * source_height) by (nonlinear_arith)
        requires
            w == by_height / source_height,
            source_height > 0,
    ;
    let size = scaled_size(source_width, source_height, width as int, height as int);
    if width * source_height <= height * source_width {
        lemma_even_part(h, size.1 as int, source_width, by_width);
    } else {
        lemma_even_part(w, size.0 as int, source_height, by_height);
    }
}

/// Taking the odd pixel off a side keeps it within two pixels of what it was.
proof fn lemma_even_part(side: int, even: int, unit: int, product: int)
    requires
        unit > 0,
        side >= 0,
        side * unit <= product < (side + 1) * unit,
        even == if side < 2 {
            2
        } else {
            side - side % 2
        },
    ensures
        even * unit <= product || even == 2 && product < 2 * unit,
        product < (even + 2) * unit,
{
    assert((side + 1) * unit <= (even + 2) * unit) by (nonlinear_arith)
        requires
            side + 1 <= even + 2,
            unit > 0,
    ;
    if side < 2 {
        assert((side + 1) * unit <= 2 * unit) by (nonlinear_arith)
            requires
                side + 1 <= 2,
                unit > 0,
        ;
    } else {
        assert(even * unit <= side * unit) by (nonlinear_arith)
            requires
                even <= side,
                unit > 0,
        ;
    }
}

/// The picture stands in the middle of the plane of brightness: the margins on both sides, and
/// those above and below, differ by no more than a pixel. In a plane of colour it takes the same
/// part at half the size, in NV12 at half the height alone, as two values share a row there.
pub proof fn law_picture_is_in_the_middle(
    pixel: Pixel,
    plane: int,
    width: usize,
    height: usize,
    scaled_width: usize,
    scaled_height: usize,
)
    requires
        scaled_width <= width,
        scaled_height <= height,
    ensures
        ({
            let bright = letterbox_area(
                pixel,
                0,
                width as int,
                height as int,
                scaled_width as int,
                scaled_height as int,
            );
            let colour = letterbox_area(
                pixel,
                plane,
                width as int,
                height as int,
                scaled_width as int,
                scaled_height as int,
            );
            &&& bright.width == scaled_width && bright.height == scaled_height
            &&& 0 <= width - bright.width - 2 * bright.left <= 1
            &&& 0 <= height - bright.height - 2 * bright.top <= 1
            &&& plane > 0 ==> {
                &&& 0 <= bright.top - 2 * colour.top <= 1
                &&& 0 <= bright.height - 2 * colour.height <= 1
            }
            &&& plane > 0 && pixel is Nv12 ==> colour.left == bright.left && colour.width
                == bright.width
            &&& plane > 0 && pixel is Yuv420p ==> {
                &&& 0 <= bright.left - 2 * colour.left <= 1
                &&& 0 <= bright.width - 2 * colour.width <= 1
            }
        }),
{
}

/// A side, or its half.
pub open spec fn maybe_half(side: int, halved: bool) -> int {
    if halved {
        side / 2
    } else {
        side
    }
}

/// What goes into the encoder is a frame of the encoder's size. Where the picture does not fill
/// it, each plane shows the picture in its middle and is black around it: 16 in the plane of
/// brightness, 128 in those of colour.
pub proof fn law_frames_show_the_picture(
    frame: VideoFrame,
    scaled: VideoFrame,
    output: VideoFrame,
    plane: int,
    row: int,
    column: int,
)
    requires
        is_yuv_frame(frame, scaled, output),
        scaled.width < output.width || scaled.height < output.height,
        can_letterbox(scaled, output),
        0 <= plane < (if output.pixel is Nv12 {
            2int
        } else {
            3
        }),
        0 <= row,
        0 <= column < output.planes@[plane].stride,
        row * output.planes@[plane].stride + column < output.planes@[plane].data@.len(),
        maybe_half(output.width as int, plane > 0 && output.pixel is Yuv420p)
            <= output.planes@[plane].stride,
    ensures
        frame.pixel == output.pixel,
        frame.width == output.width,
        frame.height == output.height,
        frame.planes@.len() == output.planes@.len(),
        frame.planes@[plane].stride == output.planes@[plane].stride,
        ({
            let narrow = plane > 0 && output.pixel is Yuv420p;
            let left = maybe_half((output.width - scaled.width) / 2, narrow);
            let top = maybe_half((output.height - scaled.height) / 2, plane > 0);
            let wide = maybe_half(scaled.width as int, narrow);
            let high = maybe_half(scaled.height as int, plane > 0);
            frame.planes@[plane].data@[row * output.planes@[plane].stride + column] == if top <= row
                < top + high && left <= column < left + wide {
                scaled.planes@[plane].data@[(row - top) * scaled.planes@[plane].stride + (column
                    - left)]
            } else if plane == 0 {
                16u8
            } else {
                128u8
            }
        }),
{
    law_letterbox(scaled, output, plane, row, column);
}

/// A picture of the frame's own size goes into the encoder as it is.
pub proof fn law_full_pictures_are_kept(frame: VideoFrame, scaled: VideoFrame, output: VideoFrame)
    requires
        is_yuv_frame(frame, scaled, output),
        scaled.width == output.width,
        scaled.height == output.height,
    ensures
        frame == scaled,
{
}

/// The plane has room for its part of a picture of this size.
pub open spec fn has_room(frame: VideoFrame, pixel: Pixel, plane: int) -> bool {
    let stride = frame.planes@[plane].stride;
    &&& stride >= maybe_half(frame.width as int, plane > 0 && pixel is Yuv420p)
    &&& frame.planes@[plane].data@.len() >= stride * maybe_half(frame.height as int, plane > 0)
}

/// A smaller picture can be placed in a frame whose planes have room for theirs, as its own
/// planes have.
pub proof fn law_ordinary_frames_can_be_placed(scaled: VideoFrame, output: VideoFrame)
    requires
        scaled.width <= output.width,
        scaled.height <= output.height,
        output.planes@.len() == (if output.pixel is Nv12 {
            2int
        } else {
            3
        }),
        scaled.planes@.len() == output.planes@.len(),
        forall|i: int|
            0 <= i < output.planes@.len() ==> (#[trigger] has_room(output, output.pixel, i))
                && has_room(scaled, output.pixel, i),
    ensures
        can_letterbox(scaled, output),
{
    assert forall|plane: int| 0 <= plane < plane_count(output.pixel) implies area_fits(
        (#[trigger] output.planes@[plane]).data@.len() as int,
        output.planes@[plane].stride as int,
        scaled.planes@[plane].data@.len() as int,
        scaled.planes@[plane].stride as int,
        letterbox_area(
            output.pixel,
            plane,
            output.width as int,
            output.height as int,
            scaled.width as int,
            scaled.height as int,
        ),
    ) by {
        let area = letterbox_area(
            output.pixel,
            plane,
            output.width as int,
            output.height as int,
            scaled.width as int,
            scaled.height as int,
        );
        let target = output.planes@[plane].stride as int;
        let source = scaled.planes@[plane].stride as int;
        assert(plane < output.planes@.len());
        assert(has_room(output, output.pixel, plane));
        assert(has_room(scaled, output.pixel, plane));
        lemma_room_for_rows(
            area.top + area.height,
            maybe_half(output.height as int, plane > 0),
            target,
            area.left + area.width,
        );
        lemma_room_for_rows(
            area.height as int,
            maybe_half(scaled.height as int, plane > 0),
            source,
            area.width as int,
        );
    }
}

/// Rows that are no more and no wider than those there is room for have room.
proof fn lemma_room_for_rows(rows: int, all_rows: int, stride: int, width: int)
    requires
        rows <= all_rows,
        0 <= width <= stride,
    ensures
        rows > 0 ==> (rows - 1) * stride + width <= stride * all_rows,
{
    if rows > 0 {
        assert((rows - 1) * stride + width <= stride * all_rows) by (nonlinear_arith)
            requires
                0 < rows <= all_rows,
                0 <= width <= stride,
        ;
    }
}

/// A captured picture whose buffer holds its rows can be laid out wherever there is room for as
/// many rows of four bytes for each pixel.
pub proof fn law_complete_pictures_can_be_packed(source: RawFrame, input: Plane)
    requires
        4 * source.width <= source.stride,
        source.bgra@.len() >= source.stride * source.height,
        4 * source.width <= input.stride,
        input.data@.len() >= input.stride * source.height,
    ensures
        packable(source, input),
{
    let width = 4 * source.width as int;
    let rows = source.height as int;
    lemma_room_for_rows(rows, rows, source.stride as int, width);
    lemma_room_for_rows(rows, rows, input.stride as int, width);
}

/// The scaler's input shows the captured picture: byte by byte its rows, and what was there
/// before around them.
pub proof fn law_packed_pictures_show_their_source(source: RawFrame, input: Plane, row: int, column: int)
    requires
        packable(source, input),
        4 * source.width <= input.stride,
        0 <= row,
        0 <= column < input.stride,
        row * input.stride + column < input.data@.len(),
    ensures
        packed(source, input)[row * input.stride + column] == if row < source.height && column < 4
            * source.width {
            source.bgra@[row * source.stride + column]
        } else {
            input.data@[row * input.stride + column]
        },
{
    law_copied_area(
        input.data@,
        input.stride as int,
        source.bgra@,
        source.stride as int,
        input_area(source),
        source.height as int,
        row,
        column,
    );
}

/// The size of a scaled picture can be computed for all sides that screens have.
pub proof fn law_screens_can_be_scaled(
    source_width: usize,
    source_height: usize,
    width: usize,
    height: usize,
)
    requires
        0 < source_width <= 0xffff,
        0 < source_height <= 0xffff,
        width <= 0xffff,
        height <= 0xffff,
    ensures
        scalable(source_width, source_height, width, height),
{
    assert(width * source_height <= 0xffff * 0xffff && height * source_width <= 0xffff * 0xffff)
        by (nonlinear_arith)
        requires
            0 <= source_width <= 0xffff,
            0 <= source_height <= 0xffff,
            0 <= width <= 0xffff,
            0 <= height <= 0xffff,
    ;
}

/// The hardware encoders of each platform, in the order in which they are tried, the same for
/// every codec.
pub proof fn law_platforms_have_their_encoders(codec: Codec)
    ensures
        ({
            let name = match codec {
                Codec::H264 => "h264"@,
                Codec::H265 => "hevc"@,
                Codec::Av1 => "av1"@,
            };
            &&& hardware_encoders(Platform::MacOs, name) == seq![name + "_videotoolbox"@]
            &&& hardware_encoders(Platform::Windows, name) == seq![
                name + "_nvenc"@,
                name + "_amf"@,
                name + "_qsv"@,
            ]
            &&& hardware_encoders(Platform::Linux, name) == seq![
                name + "_nvenc"@,
                name + "_vaapi"@,
                name + "_qsv"@,
            ]
            &&& hardware_encoders(Platform::Other, name) == Seq::<Seq<char>>::empty()
        }),
{
    lemma_hardware_names();
    let name = match codec {
        Codec::H264 => "h264"@,
        Codec::H265 => "hevc"@,
        Codec::Av1 => "av1"@,
    };
    assert(hardware_encoders(Platform::MacOs, name) =~= seq![name + "_videotoolbox"@]);
    assert(hardware_encoders(Platform::Windows, name) =~= seq![
        name + "_nvenc"@,
        name + "_amf"@,
        name + "_qsv"@,
    ]);
    assert(hardware_encoders(Platform::Linux, name) =~= seq![
        name + "_nvenc"@,
        name + "_vaapi"@,
        name + "_qsv"@,
    ]);
}

/// The encoders that are tried for each codec: those of the platform in hardware, in order, and
/// behind them the one in software.
pub proof fn law_candidates_end_in_software(codec: Codec, platform: Platform)
    ensures
        candidates(codec, platform).last() == match codec {
            Codec::H264 => "libx264"@,
            Codec::H265 => "libx265"@,
            Codec::Av1 => "libsvtav1"@,
        },
        candidates(codec, platform).drop_last() == hardware_encoders(
            platform,
            match codec {
                Codec::H264 => "h264"@,
                Codec::H265 => "hevc"@,
                Codec::Av1 => "av1"@,
            },
        ),
        candidates(codec, platform).len() == match platform {
            Platform::MacOs => 2int,
            Platform::Windows => 4,
            Platform::Linux => 4,
            Platform::Other => 1,
        },
{
    let all = candidates(codec, platform);
    assert(all.drop_last() =~= hardware_encoders(platform, family(codec)));
}

/// A codec is offered in hardware exactly where one of the platform's encoders for it is among
/// those that were compiled in; what else was compiled in does not matter.
pub proof fn law_hardware_is_what_was_compiled_in(codec: Codec, compiled: Seq<String>)
    ensures
        ({
            let name = match codec {
                Codec::H264 => "h264"@,
                Codec::H265 => "hevc"@,
                Codec::Av1 => "av1"@,
            };
            let has = texts(compiled);
            &&& any_compiled(Platform::MacOs, name, compiled) <==> has.contains(
                name + "_videotoolbox"@,
            )
            &&& any_compiled(Platform::Windows, name, compiled) <==> has.contains(name + "_nvenc"@)
                || has.contains(name + "_amf"@) || has.contains(name + "_qsv"@)
            &&& any_compiled(Platform::Linux, name, compiled) <==> has.contains(name + "_nvenc"@)
                || has.contains(name + "_vaapi"@) || has.contains(name + "_qsv"@)
            &&& !any_compiled(Platform::Other, name, compiled)
        }),
{
    law_platforms_have_their_encoders(codec);
    let name = match codec {
        Codec::H264 => "h264"@,
        Codec::H265 => "hevc"@,
        Codec::Av1 => "av1"@,
    };
    let mac = hardware_encoders(Platform::MacOs, name);
    let windows = hardware_encoders(Platform::Windows, name);
    let linux = hardware_encoders(Platform::Linux, name);
    assert(mac[0] == name + "_videotoolbox"@ && mac.len() == 1);
    assert(windows[0] == name + "_nvenc"@ && windows[1] == name + "_amf"@ && windows[2] == name
        + "_qsv"@ && windows.len() == 3);
    assert(linux[0] == name + "_nvenc"@ && linux[1] == name + "_vaapi"@ && linux[2] == name
        + "_qsv"@ && linux.len() == 3);
}

/// What each kind of encoder is told so that it holds back as little as it can. The kind is known
/// by the end of the name, whatever codec stands ahead of it; other kinds are told nothing.
pub proof fn law_encoders_are_told_to_hurry(codec: Seq<char>)
    ensures
        low_latency_options("libx264"@) == seq![
            ("preset"@, "ultrafast"@),
            ("tune"@, "zerolatency"@),
        ],
        low_latency_options("libx265"@) == seq![
            ("preset"@, "ultrafast"@),
            ("tune"@, "zerolatency"@),
        ],
        low_latency_options("libsvtav1"@) == seq![
            ("preset"@, "13"@),
            ("svtav1-params"@, "la_depth=0:scd=0"@),
        ],
        low_latency_options(codec + "_nvenc"@) == seq![
            ("preset"@, "p1"@),
            ("tune"@, "ull"@),
            ("rc"@, "cbr"@),
            ("zerolatency"@, "1"@),
        ],
        low_latency_options(codec + "_amf"@) == seq![
            ("usage"@, "ultralowlatency"@),
            ("quality"@, "speed"@),
        ],
        low_latency_options(codec + "_videotoolbox"@) == seq![
            ("realtime"@, "1"@),
            ("prio_speed"@, "1"@),
            ("max_ref_frames"@, "1"@),
        ],
        low_latency_options(codec + "_vaapi"@).len() == 0,
        low_latency_options(codec + "_qsv"@).len() == 0,
{
    reveal_strlit("libx264");
    reveal_strlit("libx265");
    reveal_strlit("libsvtav1");
    reveal_strlit("_nvenc");
    reveal_strlit("_amf");
    reveal_strlit("_videotoolbox");
    reveal_strlit("_vaapi");
    reveal_strlit("_qsv");
    assert("libx264"@.len() == "libx265"@.len() && "libx264"@[6] != "libx265"@[6]);
    lemma_suffix(codec, "_nvenc"@);
    lemma_suffix(codec, "_amf"@);
    lemma_suffix(codec, "_videotoolbox"@);
    lemma_last(codec, "_nvenc"@, 'c');
    lemma_last(codec, "_amf"@, 'f');
    lemma_last(codec, "_videotoolbox"@, 'x');
    lemma_last(codec, "_vaapi"@, 'i');
    lemma_last(codec, "_qsv"@, 'v');
    lemma_other_end(codec + "_amf"@, "_nvenc"@);
    lemma_other_end(codec + "_videotoolbox"@, "_nvenc"@);
    lemma_other_end(codec + "_videotoolbox"@, "_amf"@);
    lemma_other_end(codec + "_vaapi"@, "_nvenc"@);
    lemma_other_end(codec + "_vaapi"@, "_amf"@);
    lemma_other_end(codec + "_vaapi"@, "_videotoolbox"@);
    lemma_other_end(codec + "_qsv"@, "_nvenc"@);
    lemma_other_end(codec + "_qsv"@, "_amf"@);
    lemma_other_end(codec + "_qsv"@, "_videotoolbox"@);
}

proof fn lemma_suffix(ahead: Seq<char>, suffix: Seq<char>)
    ensures
        has_suffix(ahead + suffix, suffix),
{
    let text = ahead + suffix;
    assert(text.skip(text.len() - suffix.len()) =~= suffix);
}

proof fn lemma_last(ahead: Seq<char>, suffix: Seq<char>, last: char)
    requires
        suffix.len() > 0,
        suffix[suffix.len() - 1] == last,
    ensures
        (ahead + suffix).len() > 0,
        (ahead + suffix)[(ahead + suffix).len() - 1] == last,
{
}

/// A text does not end in what ends with another character.
proof fn lemma_other_end(text: Seq<char>, suffix: Seq<char>)
    requires
        text.len() > 0,
        suffix.len() > 0,
        text[text.len() - 1] != suffix[suffix.len() - 1],
    ensures
        !has_suffix(text, suffix),
{
    if has_suffix(text, suffix) {
        let end = text.skip(text.len() - suffix.len());
        assert(end[suffix.len() - 1] == text[text.len() - 1]);
    }
}

/// Encoders in hardware take pictures in NV12, the one in software in three planes.
pub proof fn law_layouts_go_by_kind(codec: Codec, platform: Platform, index: int)
    requires
        0 <= index < candidates(codec, platform).len(),
    ensures
        pixel_for(true) == Pixel::Nv12,
        pixel_for(false) == Pixel::Yuv420p,
        in_hardware(codec, platform, index) <==> index < candidates(codec, platform).len() - 1,
{
}

/// While no encoder has opened and none lacked a context, the next one in turn is tried: at the
/// size of the stream and with the bit rate that was chosen, at sixty frames per second with a
/// key frame every two seconds, without frames that wait for later ones, and told to hurry.
pub proof fn law_encoders_are_tried_in_turn(
    step: OpenStep,
    codec: Codec,
    platform: Platform,
    width: usize,
    height: usize,
    bitrate: u32,
    probes: Seq<Probe>,
)
    requires
        follows(step, codec, platform, width, height, bitrate, probes),
        probes.len() < candidates(codec, platform).len(),
        forall|i: int|
            0 <= i < probes.len() ==> #[trigger] probes[i] is NotCompiled || probes[i] is Rejected,
    ensures
        match step {
            OpenStep::Try(settings) => {
                let hardware = probes.len() < candidates(codec, platform).len() - 1;
                &&& settings.name@ == candidates(codec, platform)[probes.len() as int]
                &&& settings.hardware == hardware
                &&& settings.pixel == if hardware {
                    Pixel::Nv12
                } else {
                    Pixel::Yuv420p
                }
                &&& width <= u32::MAX ==> settings.width == width
                &&& height <= u32::MAX ==> settings.height == height
                &&& settings.frame_rate == 60
                &&& settings.bit_rate == bitrate
                &&& settings.gop == 2 * settings.frame_rate
                &&& settings.max_b_frames == 0
                &&& settings.low_delay
                &&& settings.options.contents() == with_all(
                    Map::empty(),
                    low_latency_options(settings.name@),
                )
            },
            _ => false,
        },
{
    let count = candidates(codec, platform).len() as int;
    if let OpenStep::Failed(OpenError::LastAttempt { .. }) = step {
        assert(probes.len() >= count);
    }
}

/// The first encoder that opens is used, as what it is; one that lacks a context before that ends
/// the search.
pub proof fn law_the_first_that_opens_is_used(
    step: OpenStep,
    codec: Codec,
    platform: Platform,
    width: usize,
    height: usize,
    bitrate: u32,
    probes: Seq<Probe>,
    first: int,
)
    requires
        follows(step, codec, platform, width, height, bitrate, probes),
        0 <= first < probes.len(),
        first < candidates(codec, platform).len(),
        forall|i: int|
            0 <= i < first ==> #[trigger] probes[i] is NotCompiled || probes[i] is Rejected,
    ensures
        probes[first] is Opened ==> match step {
            OpenStep::Done(encoder) => {
                let hardware = first < candidates(codec, platform).len() - 1;
                &&& encoder.name@ == candidates(codec, platform)[first]
                &&& encoder.hardware == hardware
                &&& encoder.pixel == if hardware {
                    Pixel::Nv12
                } else {
                    Pixel::Yuv420p
                }
            },
            _ => false,
        },
        probes[first] is NoContext ==> step matches OpenStep::Failed(OpenError::NoContext),
{
    let all = candidates(codec, platform);
    if probes[first] is Opened || probes[first] is NoContext {
        assert(decisive(probes[first]));
        assert forall|k: int|
            0 <= k < probes.len() && (probes[k] is Opened || probes[k] is NoContext) && undecided(
                probes,
                k,
            ) implies k == first by {
            if k < first {
                assert(probes[k] is NotCompiled || probes[k] is Rejected);
            } else if first < k {
                assert(!decisive(probes[first]));
            }
        }
        if undecided(probes, all.len() as int) {
            assert(!decisive(probes[first]));
        }
        match step {
            OpenStep::Done(encoder) => {
                let k = choose|k: int|
                    {
                        &&& 0 <= k < probes.len()
                        &&& k < all.len()
                        &&& undecided(probes, k)
                        &&& #[trigger] probes[k] is Opened
                        &&& encoder.name@ == all[k]
                        &&& encoder.hardware == in_hardware(codec, platform, k)
                        &&& encoder.pixel == pixel_for(encoder.hardware)
                    };
                assert(k == first);
            },
            OpenStep::Failed(OpenError::NoContext) => {
                let k = choose|k: int|
                    {
                        &&& 0 <= k < probes.len()
                        &&& k < all.len()
                        &&& undecided(probes, k)
                        &&& #[trigger] probes[k] is NoContext
                    };
                assert(k == first);
            },
            _ => {},
        }
    }
}

/// Where every encoder was missing or refused, the search fails: with the reason of the last one
/// that refused, or as nothing was compiled in.
pub proof fn law_the_last_refusal_is_reported(
    step: OpenStep,
    codec: Codec,
    platform: Platform,
    width: usize,
    height: usize,
    bitrate: u32,
    probes: Seq<Probe>,
    last: int,
)
    requires
        follows(step, codec, platform, width, height, bitrate, probes),
        probes.len() >= candidates(codec, platform).len(),
        forall|i: int|
            0 <= i < candidates(codec, platform).len() ==> #[trigger] probes[i] is NotCompiled
                || probes[i] is Rejected,
        -1 <= last < candidates(codec, platform).len(),
        last >= 0 ==> probes[last] is Rejected,
        forall|i: int|
            last < i < candidates(codec, platform).len() ==> #[trigger] probes[i] is NotCompiled,
    ensures
        last >= 0 ==> (step matches OpenStep::Failed(OpenError::LastAttempt { name, error })
            && name@ == candidates(codec, platform)[last] && error@ == probes[last]->Rejected_0@),
        last == -1 ==> step matches OpenStep::Failed(OpenError::NotCompiled),
{
    let all = candidates(codec, platform);
    match step {
        OpenStep::Failed(OpenError::LastAttempt { name, error }) => {
            let k = choose|k: int|
                {
                    &&& 0 <= k < all.len()
                    &&& #[trigger] probes[k] matches Probe::Rejected(reason)
                    &&& error@ == reason@
                    &&& name@ == all[k]
                    &&& forall|j: int| k < j < all.len() ==> #[trigger] probes[j] is NotCompiled
                };
            assert(probes[k] is Rejected);
            if k < last {
                assert(probes[last] is NotCompiled);
            } else if last < k {
                assert(probes[k] is NotCompiled);
            }
        },
        OpenStep::Failed(OpenError::NotCompiled) => {
            if last >= 0 {
                assert(probes[last] is NotCompiled);
            }
        },
        _ => {},
    }
}

/// A packet without a number, or with one that no frame in the encoder has, answers the oldest
/// frame, where there is one.
pub proof fn law_other_packets_answer_the_oldest(submissions: Seq<(i64, u128)>, number: i64)
    ensures
        submissions.len() > 0 ==> answered(submissions, None) == Some(0int),
        submissions.len() == 0 ==> answered(submissions, None) is None,
        submissions.len() == 0 ==> answered(submissions, Some(number)) is None,
        submissions.len() > 0 && (forall|i: int|
            0 <= i < submissions.len() ==> (#[trigger] submissions[i]).0 != number) ==> answered(
            submissions,
            Some(number),
        ) == Some(0int),
{
}

/// The time from when a frame went in until its packet came out; none where the clock went back.
pub open spec fn time_between(entered: u128, drained_at: u128) -> int {
    if entered <= drained_at {
        drained_at - entered
    } else {
        0
    }
}

/// The time of a frame in a warm encoder runs from when it went in until its packet came out: that
/// of the frame whose number the packet carries, or of the oldest where it carries none that is
/// known. While the encoder warms up there is none, nor where no frame is in the encoder.
pub proof fn law_encoding_takes_from_in_to_out(
    pipeline: Pipeline,
    index: int,
    drained_at: u128,
    other: i64,
    number: Option<i64>,
)
    requires
        pipeline.wf(),
        0 <= index < pipeline.submissions@.len(),
        forall|i: int|
            0 <= i < pipeline.submissions@.len() ==> (#[trigger] pipeline.submissions@[i]).0 != other,
    ensures
        ({
            let (frame, entered) = pipeline.submissions@[index];
            let inside = pipeline.submissions@;
            &&& time_in_encoder(inside, true, Some(frame), drained_at).nanos == time_between(
                entered,
                drained_at,
            )
            &&& time_in_encoder(inside, true, None, drained_at).nanos == time_between(
                inside[0].1,
                drained_at,
            )
            &&& time_in_encoder(inside, true, Some(other), drained_at).nanos == time_between(
                inside[0].1,
                drained_at,
            )
        }),
        time_in_encoder(pipeline.submissions@, false, number, drained_at).nanos == 0,
        time_in_encoder(Seq::empty(), true, number, drained_at).nanos == 0,
{
    law_packet_answers_its_frame(pipeline, index);
    law_other_packets_answer_the_oldest(pipeline.submissions@, other);
}

/// A window that has not begun counts nothing.
pub proof fn law_new_windows_are_empty()
    ensures
        no_timings().frames == 0,
        no_timings().conversion.nanos == 0,
        no_timings().submit.nanos == 0,
        no_timings().drain.nanos == 0,
        no_timings().egress.nanos == 0,
{
}

/// An encoder whose name has none of these forms is told nothing.
pub proof fn law_other_encoders_are_told_nothing(name: Seq<char>)
    requires
        name != "libx264"@,
        name != "libx265"@,
        name != "libsvtav1"@,
        forall|codec: Seq<char>| name != #[trigger] (codec + "_nvenc"@),
        forall|codec: Seq<char>| name != #[trigger] (codec + "_amf"@),
        forall|codec: Seq<char>| name != #[trigger] (codec + "_videotoolbox"@),
    ensures
        low_latency_options(name).len() == 0,
{
    lemma_ends(name, "_nvenc"@);
    lemma_ends(name, "_amf"@);
    lemma_ends(name, "_videotoolbox"@);
}

/// A text that ends in a suffix is made of what stands ahead of it, and of the suffix.
proof fn lemma_ends(text: Seq<char>, suffix: Seq<char>)
    ensures
        has_suffix(text, suffix) ==> text == text.take(text.len() - suffix.len()) + suffix,
{
    if has_suffix(text, suffix) {
        assert(text =~= text.take(text.len() - suffix.len()) + text.skip(
            text.len() - suffix.len(),
        ));
    }
}

/// The texts of names and options are theirs, one for each and in order.
pub proof fn law_texts_are_in_order(list: Seq<&'static str>, options: Seq<EncoderOption>, i: int)
    ensures
        names(list).len() == list.len(),
        0 <= i < list.len() ==> names(list)[i] == list[i]@,
        pairs(options).len() == options.len(),
        0 <= i < options.len() ==> pairs(options)[i] == (options[i].key@, options[i].value@),
{
}

/// A dictionary gives each of its keys the value that stands with it, and knows no other key.
pub proof fn law_dictionaries_hold_their_entries(dictionary: Dictionary, i: int, key: Seq<char>)
    requires
        dictionary.wf(),
        0 <= i < dictionary.entries@.len(),
    ensures
        dictionary.contents().contains_key(dictionary.entries@[i].key@),
        dictionary.contents()[dictionary.entries@[i].key@] == dictionary.entries@[i].value@,
        dictionary.contents().contains_key(key) <==> exists|j: int|
            0 <= j < dictionary.entries@.len() && (#[trigger] dictionary.entries@[j]).key@ == key,
{
    let options = pairs(dictionary.entries@);
    assert(options[i].0 == dictionary.entries@[i].key@);
    lemma_value(options, i);
    if has_key(options, key) {
        let j = choose|j: int| 0 <= j < options.len() && (#[trigger] options[j]).0 == key;
        assert(dictionary.entries@[j].key@ == key);
    }
    if exists|j: int|
        0 <= j < dictionary.entries@.len() && (#[trigger] dictionary.entries@[j]).key@ == key {
        let j = choose|j: int|
            0 <= j < dictionary.entries@.len() && (#[trigger] dictionary.entries@[j]).key@ == key;
        assert(options[j].0 == key);
    }
}

/// What is no family of H.264 or H.265 is taken for AV1.
pub proof fn law_other_families_are_taken_for_av1(platform: Platform, family: Seq<char>)
    requires
        family != "h264"@,
        family != "hevc"@,
    ensures
        hardware_encoders(platform, family) == hardware_encoders(platform, "av1"@),
{
    lemma_hardware_names();
}

} // verus!
