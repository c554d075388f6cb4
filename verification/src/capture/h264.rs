//! H.264 bitstream framing and the VideoToolbox encoder's frame input.

use vstd::arithmetic::div_mod::lemma_fundamental_div_mod_converse;
use vstd::prelude::*;

use super::{fitted, law_fitted_picture_fits, RawFrame, FPS};

verus! {

/// Why a length-prefixed NAL unit stream was rejected.
#[derive(Clone, Copy, Debug, PartialEq, Eq, Structural)]
pub enum NalError {
    /// Length prefixes of this many bytes do not exist.
    LengthSize(usize),
    /// The data ends inside a length prefix.
    TruncatedLength,
    /// A NAL unit is empty or longer than the data that is left.
    InvalidLength,
}

/// The number that the bytes write in base 256, most significant byte first.
pub open spec fn big_endian(bytes: Seq<u8>) -> nat
    decreases bytes.len(),
{
    if bytes.len() == 0 {
        0
    } else {
        big_endian(bytes.drop_last()) * 256 + bytes.last() as nat
    }
}

/// The number as `size` bytes, most significant byte first.
pub open spec fn big_endian_bytes(value: nat, size: nat) -> Seq<u8>
    decreases size,
{
    if size == 0 {
        Seq::empty()
    } else {
        big_endian_bytes(value / 256, (size - 1) as nat).push((value % 256) as u8)
    }
}

/// The NAL units of `data`, where each is preceded by its length in `size` bytes.
pub open spec fn nal_units(data: Seq<u8>, size: nat) -> Result<Seq<Seq<u8>>, NalError>
    decreases data.len(),
{
    if data.len() == 0 {
        Ok(Seq::empty())
    } else if data.len() < size {
        Err(NalError::TruncatedLength)
    } else {
        let length = big_endian(data.take(size as int));
        if length == 0 || data.len() - size < length {
            Err(NalError::InvalidLength)
        } else {
            match nal_units(data.skip((size + length) as int), size) {
                Ok(rest) => Ok(seq![data.subrange(size as int, (size + length) as int)] + rest),
                Err(error) => Err(error),
            }
        }
    }
}

/// The NAL units one after another, each preceded by its length in `size` bytes.
pub open spec fn length_prefixed(units: Seq<Seq<u8>>, size: nat) -> Seq<u8>
    decreases units.len(),
{
    if units.len() == 0 {
        Seq::empty()
    } else {
        big_endian_bytes(units.first().len(), size) + units.first() + length_prefixed(
            units.drop_first(),
            size,
        )
    }
}

/// The contents of a list of slices.
pub open spec fn contents(slices: Seq<&[u8]>) -> Seq<Seq<u8>> {
    slices.map_values(|slice: &[u8]| slice@)
}

/// The number of distinct values of `size` bytes.
pub open spec fn power_of_256(size: nat) -> nat
    decreases size,
{
    if size == 0 {
        1
    } else {
        256 * power_of_256((size - 1) as nat)
    }
}

proof fn lemma_big_endian_bound(bytes: Seq<u8>)
    ensures
        big_endian(bytes) < power_of_256(bytes.len()),
    decreases bytes.len(),
{
    if bytes.len() > 0 {
        lemma_big_endian_bound(bytes.drop_last());
    }
}

proof fn lemma_power_of_256_up_to_4()
    ensures
        power_of_256(0) == 1,
        power_of_256(1) == 0x100,
        power_of_256(2) == 0x1_0000,
        power_of_256(3) == 0x100_0000,
        power_of_256(4) == 0x1_0000_0000,
{
    reveal_with_fuel(power_of_256, 5);
}

proof fn lemma_big_endian_inverse(value: nat, size: nat)
    requires
        value < power_of_256(size),
    ensures
        big_endian_bytes(value, size).len() == size,
        big_endian(big_endian_bytes(value, size)) == value,
    decreases size,
{
    if size > 0 {
        lemma_big_endian_inverse(value / 256, (size - 1) as nat);
        let bytes = big_endian_bytes(value, size);
        assert(bytes.drop_last() =~= big_endian_bytes(value / 256, (size - 1) as nat));
    }
}

proof fn lemma_big_endian_bytes_inverse(bytes: Seq<u8>)
    ensures
        big_endian_bytes(big_endian(bytes), bytes.len()) == bytes,
    decreases bytes.len(),
{
    if bytes.len() > 0 {
        lemma_big_endian_bytes_inverse(bytes.drop_last());
        assert(bytes.drop_last().push(bytes.last()) =~= bytes);
    }
}

/// Splitting gives back the units that were joined: every unit is non-empty and its length
/// fits in the prefix.
pub proof fn law_split_undoes_join(units: Seq<Seq<u8>>, size: nat)
    requires
        size >= 1,
        forall|i: int|
            0 <= i < units.len() ==> 0 < #[trigger] units[i].len() < power_of_256(size),
    ensures
        nal_units(length_prefixed(units, size), size) == Ok::<Seq<Seq<u8>>, NalError>(units),
    decreases units.len(),
{
    if units.len() == 0 {
        assert(units =~= Seq::empty());
    } else {
        let first = units.first();
        let rest = units.drop_first();
        let prefix = big_endian_bytes(first.len(), size);
        let data = length_prefixed(units, size);
        assert(first == units[0]);
        lemma_big_endian_inverse(first.len(), size);
        assert forall|i: int| 0 <= i < rest.len() implies 0 < #[trigger] rest[i].len()
            < power_of_256(size) by {
            assert(rest[i] == units[i + 1]);
        }
        law_split_undoes_join(rest, size);
        assert(data.take(size as int) =~= prefix);
        assert(data.subrange(size as int, (size + first.len()) as int) =~= first);
        assert(data.skip((size + first.len()) as int) =~= length_prefixed(rest, size));
        assert(seq![first] + rest =~= units);
    }
}

/// Joining the units that were split out of some data gives back that data: no byte is lost,
/// added or moved.
pub proof fn law_join_undoes_split(data: Seq<u8>, size: nat)
    requires
        size >= 1,
    ensures
        nal_units(data, size) matches Ok(units) ==> length_prefixed(units, size) == data,
    decreases data.len(),
{
    if nal_units(data, size) is Ok && data.len() > 0 {
        let units = nal_units(data, size)->Ok_0;
        let length = big_endian(data.take(size as int));
        let tail = data.skip((size + length) as int);
        law_join_undoes_split(tail, size);
        lemma_big_endian_bytes_inverse(data.take(size as int));
        let first = data.subrange(size as int, (size + length) as int);
        assert(units.first() == first);
        assert(units.drop_first() =~= nal_units(tail, size)->Ok_0);
        assert(data.take(size as int) + first + tail =~= data);
    }
}

/// The units that splitting yields are never empty.
pub proof fn law_units_are_not_empty(data: Seq<u8>, size: nat)
    ensures
        nal_units(data, size) matches Ok(units) ==> forall|i: int|
            0 <= i < units.len() ==> #[trigger] units[i].len() > 0,
    decreases data.len(),
{
    if nal_units(data, size) is Ok && data.len() > 0 {
        let length = big_endian(data.take(size as int));
        let tail = data.skip((size + length) as int);
        law_units_are_not_empty(tail, size);
        let units = nal_units(data, size)->Ok_0;
        let rest = nal_units(tail, size)->Ok_0;
        assert forall|i: int| 0 <= i < units.len() implies #[trigger] units[i].len() > 0 by {
            if i > 0 {
                assert(units[i] == rest[i - 1]);
            }
        }
    }
}

/// Splits length-prefixed H.264 data into its NAL units.
pub fn avcc_nalus(data: &[u8], length_size: usize) -> (result: Result<Vec<&[u8]>, NalError>)
    ensures
        match result {
            Ok(nalus) => 1 <= length_size <= 4 && nal_units(data@, length_size as nat) == Ok::<
                Seq<Seq<u8>>,
                NalError,
            >(contents(nalus@)),
            Err(error) => if 1 <= length_size <= 4 {
                nal_units(data@, length_size as nat) == Err::<Seq<Seq<u8>>, NalError>(error)
            } else {
                error == NalError::LengthSize(length_size)
            },
        },
{
    if length_size < 1 || length_size > 4 {
        return Err(NalError::LengthSize(length_size));
    }
    let mut nalus: Vec<&[u8]> = Vec::new();
    let mut offset: usize = 0;
    let ghost size = length_size as nat;
    assert(data@.skip(0) =~= data@);
    assert(contents(nalus@) =~= Seq::empty());
    proof {
        lemma_power_of_256_up_to_4();
        if nal_units(data@, size) is Ok {
            assert(Seq::<Seq<u8>>::empty() + nal_units(data@, size)->Ok_0 =~= nal_units(
                data@,
                size,
            )->Ok_0);
        }
    }
    while offset < data.len()
        invariant
            1 <= length_size <= 4,
            size == length_size,
            offset <= data@.len(),
            match nal_units(data@.skip(offset as int), size) {
                Ok(rest) => nal_units(data@, size) == Ok::<Seq<Seq<u8>>, NalError>(
                    contents(nalus@) + rest,
                ),
                Err(error) => nal_units(data@, size) == Err::<Seq<Seq<u8>>, NalError>(error),
            },
        decreases data@.len() - offset,
    {
        let ghost left = data@.skip(offset as int);
        if data.len() - offset < length_size {
            return Err(NalError::TruncatedLength);
        }
        let mut length: u32 = 0;
        let mut i: usize = 0;
        assert(left.take(0) =~= Seq::empty());
        proof {
            lemma_power_of_256_up_to_4();
        }
        while i < length_size
            invariant
                1 <= length_size <= 4,
                i <= length_size,
                offset + length_size <= data.len(),
                left == data@.skip(offset as int),
                length == big_endian(left.take(i as int)),
            decreases length_size - i,
        {
            proof {
                lemma_power_of_256_up_to_4();
                lemma_big_endian_bound(left.take(i + 1));
                assert(left.take(i + 1).drop_last() =~= left.take(i as int));
            }
            length = length * 256 + data[offset + i] as u32;
            i += 1;
        }
        let start: usize = offset + length_size;
        if length == 0 || data.len() - start < length as usize {
            return Err(NalError::InvalidLength);
        }
        let end: usize = start + length as usize;
        let ghost before = contents(nalus@);
        let unit: &[u8] = vstd::slice::slice_subrange(data, start, end);
        nalus.push(unit);
        proof {
            assert(unit@ =~= left.subrange(size as int, (size + length) as int));
            assert(left.skip((size + length) as int) =~= data@.skip(end as int));
            assert(contents(nalus@) =~= before.push(unit@));
            if let Ok(rest) = nal_units(data@.skip(end as int), size) {
                assert(before + (seq![unit@] + rest) =~= contents(nalus@) + rest);
            }
        }
        offset = end;
    }
    assert(data@.skip(offset as int) =~= Seq::empty());
    assert(contents(nalus@) + Seq::empty() =~= contents(nalus@));
    Ok(nalus)
}

/// The bytes before each NAL unit in a byte stream.
pub open spec fn start_code() -> Seq<u8> {
    seq![0u8, 0, 0, 1]
}

/// The units one after another, each preceded by the start code.
pub open spec fn byte_stream(units: Seq<Seq<u8>>) -> Seq<u8>
    decreases units.len(),
{
    if units.len() == 0 {
        Seq::empty()
    } else {
        byte_stream(units.drop_last()) + start_code() + units.last()
    }
}

/// A slice of a picture that can be decoded without earlier ones.
pub open spec fn is_key_slice(unit: Seq<u8>) -> bool {
    unit.len() > 0 && unit[0] % 32 == 5
}

/// The units hold a key slice.
pub open spec fn has_key_slice(units: Seq<Seq<u8>>) -> bool {
    exists|i: int| 0 <= i < units.len() && is_key_slice(#[trigger] units[i])
}

/// The contents of a list of byte vectors.
pub open spec fn vec_contents(vectors: Seq<Vec<u8>>) -> Seq<Seq<u8>> {
    vectors.map_values(|bytes: Vec<u8>| bytes@)
}

/// What a compressed sample carries besides its data.
pub struct FormatDescription {
    /// The parameter sets, where they could be read.
    pub parameter_sets: Option<Vec<Vec<u8>>>,
    /// The size of the length prefixes in bytes.
    pub length_size: usize,
}

/// A compressed sample as the encoder hands it out.
pub struct SampleBuffer {
    pub format: Option<FormatDescription>,
    pub data: Option<Vec<u8>>,
}

/// Why no frame came out of the encoder.
#[derive(Clone, Copy, Debug, PartialEq, Eq, Structural)]
pub enum EncodeError {
    CallbackFailed,
    DroppedFrame,
    MissingFormat,
    MissingData,
    MissingParameterSets,
    Nal(NalError),
}

/// The byte stream of a sample: its units behind start codes, with the parameter sets ahead of
/// them where the sample can be decoded on its own.
pub open spec fn sample_stream(sample: SampleBuffer) -> Result<Seq<u8>, EncodeError> {
    match sample.format {
        None => Err(EncodeError::MissingFormat),
        Some(format) => match sample.data {
            None => Err(EncodeError::MissingData),
            Some(data) => if !(1 <= format.length_size <= 4) {
                Err(EncodeError::Nal(NalError::LengthSize(format.length_size)))
            } else {
                match nal_units(data@, format.length_size as nat) {
                    Err(error) => Err(EncodeError::Nal(error)),
                    Ok(units) => if has_key_slice(units) {
                        match format.parameter_sets {
                            None => Err(EncodeError::MissingParameterSets),
                            Some(sets) => Ok(byte_stream(vec_contents(sets@)) + byte_stream(units)),
                        }
                    } else {
                        Ok(byte_stream(units))
                    },
                }
            },
        },
    }
}

/// Appends a unit to a byte stream.
fn append_unit(output: &mut Vec<u8>, unit: &[u8])
    ensures
        final(output)@ == old(output)@ + start_code() + unit@,
{
    output.push(0);
    output.push(0);
    output.push(0);
    output.push(1);
    let ghost headed = output@;
    assert(headed =~= old(output)@ + start_code());
    output.extend_from_slice(unit);
    assert(output@ =~= headed + unit@);
}

/// Turns what the encoder's callback received into a byte stream: `failed` says that it was
/// called with an error, `sample` is what it was called with.
pub fn encoded(failed: bool, sample: Option<&SampleBuffer>) -> (result: Result<
    Vec<u8>,
    EncodeError,
>)
    ensures
        match result {
            Ok(output) => !failed && sample is Some && sample_stream(*sample->0) == Ok::<
                Seq<u8>,
                EncodeError,
            >(output@),
            Err(error) => if failed {
                error == EncodeError::CallbackFailed
            } else {
                match sample {
                    None => error == EncodeError::DroppedFrame,
                    Some(sample) => sample_stream(*sample) == Err::<Seq<u8>, EncodeError>(error),
                }
            },
        },
{
    if failed {
        return Err(EncodeError::CallbackFailed);
    }
    let sample: &SampleBuffer = match sample {
        Some(sample) => sample,
        None => return Err(EncodeError::DroppedFrame),
    };
    let format: &FormatDescription = match &sample.format {
        Some(format) => format,
        None => return Err(EncodeError::MissingFormat),
    };
    let data: &Vec<u8> = match &sample.data {
        Some(data) => data,
        None => return Err(EncodeError::MissingData),
    };
    let nalus: Vec<&[u8]> = match avcc_nalus(data.as_slice(), format.length_size) {
        Ok(nalus) => nalus,
        Err(error) => return Err(EncodeError::Nal(error)),
    };
    let ghost units = contents(nalus@);
    proof {
        law_units_are_not_empty(data@, format.length_size as nat);
    }
    let mut key: bool = false;
    let mut i: usize = 0;
    while i < nalus.len() && !key
        invariant
            i <= nalus@.len(),
            units == contents(nalus@),
            forall|j: int| 0 <= j < units.len() ==> #[trigger] units[j].len() > 0,
            key ==> has_key_slice(units),
            !key ==> forall|j: int| 0 <= j < i ==> !is_key_slice(#[trigger] units[j]),
        decreases nalus@.len() - i + if key {
            0int
        } else {
            1int
        },
    {
        let nalu: &[u8] = nalus[i];
        assert(nalu@ == units[i as int]);
        let header: u8 = nalu[0];
        assert(header & 0x1f == header % 32) by (bit_vector);
        if header & 0x1f == 5 {
            assert(is_key_slice(units[i as int]));
            key = true;
        } else {
            i += 1;
        }
    }
    let mut output: Vec<u8> = Vec::new();
    let ghost mut ahead: Seq<u8> = Seq::empty();
    if key {
        let sets: &Vec<Vec<u8>> = match &format.parameter_sets {
            Some(sets) => sets,
            None => return Err(EncodeError::MissingParameterSets),
        };
        let ghost all = vec_contents(sets@);
        let mut k: usize = 0;
        assert(all.take(0) =~= Seq::empty());
        while k < sets.len()
            invariant
                k <= sets@.len(),
                all == vec_contents(sets@),
                output@ == byte_stream(all.take(k as int)),
            decreases sets@.len() - k,
        {
            append_unit(&mut output, sets[k].as_slice());
            assert(all.take(k + 1).drop_last() =~= all.take(k as int));
            k += 1;
        }
        assert(all.take(k as int) =~= all);
        proof {
            ahead = output@;
        }
    }
    let mut k: usize = 0;
    assert(units.take(0) =~= Seq::empty());
    assert(ahead + Seq::empty() =~= ahead);
    while k < nalus.len()
        invariant
            k <= nalus@.len(),
            units == contents(nalus@),
            output@ == ahead + byte_stream(units.take(k as int)),
        decreases nalus@.len() - k,
    {
        append_unit(&mut output, nalus[k]);
        assert(units.take(k + 1).drop_last() =~= units.take(k as int));
        assert(output@ =~= ahead + byte_stream(units.take(k + 1)));
        k += 1;
    }
    assert(units.take(k as int) =~= units);
    assert(Seq::<u8>::empty() + byte_stream(units) =~= byte_stream(units));
    Ok(output)
}

/// Byte `index` of a `width` by `height` BGRA buffer with rows of `stride` bytes that shows the
/// source: the picture is fitted and centred, each of its pixels is the source pixel at the
/// proportional place, and everything around it is zero.
pub open spec fn shown_byte(
    source: RawFrame,
    width: int,
    height: int,
    stride: int,
    index: int,
) -> u8 {
    let (picture_width, picture_height) = fitted(
        source.width as int,
        source.height as int,
        width,
        height,
    );
    let x = (index % stride) / 4 - (width - picture_width) / 2;
    let y = index / stride - (height - picture_height) / 2;
    if 0 <= x < picture_width && 0 <= y < picture_height {
        source.bgra@[source_offset(source, picture_width, picture_height, x, y) + (index % stride)
            % 4]
    } else {
        0
    }
}

/// Where the source keeps the pixel that is shown at (`x`, `y`) of the picture. The stride of
/// the source counts pixels.
pub open spec fn source_offset(
    source: RawFrame,
    picture_width: int,
    picture_height: int,
    x: int,
    y: int,
) -> int {
    ((y * source.height / picture_height) * source.stride + x * source.width / picture_width) * 4
}

/// The source's buffer holds every pixel that is shown in a picture of the given size.
pub open spec fn holds_pixels(source: RawFrame, picture_width: int, picture_height: int) -> bool {
    forall|x: int, y: int|
        0 <= x < picture_width && 0 <= y < picture_height ==> #[trigger] source_offset(
            source,
            picture_width,
            picture_height,
            x,
            y,
        ) + 4 <= source.bgra@.len()
}

proof fn lemma_proportional(i: int, source: int, size: int)
    requires
        0 <= i < size,
        source > 0,
    ensures
        0 <= i * source / size < source,
        i * source < size * source,
{
    assert(0 <= i * source / size < source && i * source < size * source) by (nonlinear_arith)
        requires
            0 <= i < size,
            source > 0,
    ;
}

proof fn lemma_pixel_in_source(source: RawFrame, picture_width: int, picture_height: int, x: int, y: int)
    requires
        holds_pixels(source, picture_width, picture_height),
        source.width > 0,
        source.height > 0,
        0 <= x < picture_width,
        0 <= y < picture_height,
    ensures
        0 <= y * source.height / picture_height < source.height,
        0 <= x * source.width / picture_width < source.width,
        0 <= (y * source.height / picture_height) * source.stride,
        0 <= source_offset(source, picture_width, picture_height, x, y),
        source_offset(source, picture_width, picture_height, x, y) + 4 <= source.bgra@.len(),
{
    lemma_proportional(x, source.width as int, picture_width);
    lemma_proportional(y, source.height as int, picture_height);
    let row = y * source.height / picture_height;
    let stride = source.stride as int;
    assert(0 <= row * stride) by (nonlinear_arith)
        requires
            0 <= row,
            stride >= 0,
    ;
}

/// The source can be drawn into a buffer of so many bytes: the buffer has room for rows of
/// `stride` bytes, the source holds what is shown, the products fit in a `usize` and nothing is
/// divided by zero.
pub open spec fn drawable(source: RawFrame, length: int, width: usize, height: usize, stride: usize) -> bool {
    let (picture_width, picture_height) = fitted(
        source.width as int,
        source.height as int,
        width as int,
        height as int,
    );
    &&& length == stride * height
    &&& 4 * width <= stride
    &&& stride > 0
    &&& width * source.width <= usize::MAX
    &&& width * source.height <= usize::MAX
    &&& height * source.width <= usize::MAX
    &&& height * source.height <= usize::MAX
    &&& width * source.height <= height * source.width ==> source.width > 0
    &&& holds_pixels(source, picture_width, picture_height)
}

/// The last pixel that is shown lies behind all the others.
proof fn lemma_last_pixel_is_last(source: RawFrame, picture_width: int, picture_height: int, x: int, y: int)
    requires
        0 <= x < picture_width,
        0 <= y < picture_height,
    ensures
        source_offset(source, picture_width, picture_height, x, y) <= source_offset(
            source,
            picture_width,
            picture_height,
            picture_width - 1,
            picture_height - 1,
        ),
{
    let (w, h, d) = (source.width as int, source.height as int, source.stride as int);
    let (row, last_row) = (y * h / picture_height, (picture_height - 1) * h / picture_height);
    let (column, last_column) = (x * w / picture_width, (picture_width - 1) * w / picture_width);
    assert(y * h <= (picture_height - 1) * h) by (nonlinear_arith)
        requires
            y <= picture_height - 1,
            h >= 0,
    ;
    assert(x * w <= (picture_width - 1) * w) by (nonlinear_arith)
        requires
            x <= picture_width - 1,
            w >= 0,
    ;
    vstd::arithmetic::div_mod::lemma_div_is_ordered(
        y * h,
        (picture_height - 1) * h,
        picture_height,
    );
    vstd::arithmetic::div_mod::lemma_div_is_ordered(x * w, (picture_width - 1) * w, picture_width);
    assert(row * d <= last_row * d) by (nonlinear_arith)
        requires
            row <= last_row,
            d >= 0,
    ;
}

/// Whether the source can be drawn into a buffer of `length` bytes.
pub fn can_copy(source: &RawFrame, length: usize, width: usize, height: usize, stride: usize) -> (yes:
    bool)
    ensures
        yes == drawable(*source, length as int, width, height, stride),
{
    match stride.checked_mul(height) {
        Some(size) => if size != length {
            return false;
        },
        None => return false,
    }
    if stride == 0 || width > stride / 4 || width.checked_mul(source.width).is_none()
        || height.checked_mul(source.height).is_none() {
        return false;
    }
    let (by_width, by_height): (usize, usize) = match (
        width.checked_mul(source.height),
        height.checked_mul(source.width),
    ) {
        (Some(by_width), Some(by_height)) => (by_width, by_height),
        _ => return false,
    };
    if by_width <= by_height && source.width == 0 {
        return false;
    }
    proof {
        law_fitted_picture_fits(
            source.width as int,
            source.height as int,
            width as int,
            height as int,
        );
        vstd::arithmetic::mul::lemma_mul_is_commutative(width as int, source.height as int);
        vstd::arithmetic::mul::lemma_mul_is_commutative(height as int, source.width as int);
        if by_width > by_height {
            assert(source.height > 0) by (nonlinear_arith)
                requires
                    width * source.height > height * source.width,
                    source.height >= 0,
                    height * source.width >= 0,
            ;
        }
    }
    let (picture_width, picture_height): (usize, usize) = if by_width <= by_height {
        (width, by_width / source.width)
    } else {
        (by_height / source.height, height)
    };
    if picture_width == 0 || picture_height == 0 {
        return true;
    }
    proof {
        assert((picture_width - 1) * source.width <= width * source.width) by (nonlinear_arith)
            requires
                picture_width <= width,
                source.width >= 0,
        ;
        assert((picture_height - 1) * source.height <= height * source.height) by (nonlinear_arith)
            requires
                picture_height <= height,
                source.height >= 0,
        ;
        assert(0 <= (picture_width - 1) * source.width) by (nonlinear_arith)
            requires
                picture_width >= 1,
                source.width >= 0,
        ;
        assert(0 <= (picture_height - 1) * source.height) by (nonlinear_arith)
            requires
                picture_height >= 1,
                source.height >= 0,
        ;
        assert forall|x: int, y: int|
            0 <= x < picture_width && 0 <= y < picture_height implies #[trigger] source_offset(
            *source,
            picture_width as int,
            picture_height as int,
            x,
            y,
        ) <= source_offset(
            *source,
            picture_width as int,
            picture_height as int,
            picture_width - 1,
            picture_height - 1,
        ) by {
            lemma_last_pixel_is_last(*source, picture_width as int, picture_height as int, x, y);
        }
    }
    let row: usize = (picture_height - 1) * source.height / picture_height;
    let column: usize = (picture_width - 1) * source.width / picture_width;
    assert(source.bgra.len() <= usize::MAX);
    assert(source_offset(
        *source,
        picture_width as int,
        picture_height as int,
        picture_width - 1,
        picture_height - 1,
    ) == (row * source.stride + column) * 4);
    let pixel: usize = match row.checked_mul(source.stride) {
        Some(start) => match start.checked_add(column) {
            Some(pixel) => pixel,
            None => return false,
        },
        None => return false,
    };
    source.bgra.len() >= 4 && pixel <= (source.bgra.len() - 4) / 4
}

/// Draws the source into a `width` by `height` BGRA buffer with rows of `stride` bytes.
pub fn copy_bgra(source: &RawFrame, data: &mut Vec<u8>, width: usize, height: usize, stride: usize)
    requires
        drawable(*source, old(data)@.len() as int, width, height, stride),
    ensures
        final(data)@ == Seq::new(
            (stride * height) as nat,
            |i: int| shown_byte(*source, width as int, height as int, stride as int, i),
        ),
{
    let ghost size = (stride * height) as int;
    let length: usize = data.len();
    let mut i: usize = 0;
    while i < length
        invariant
            i <= length,
            length == data@.len(),
            length == size,
            forall|j: int| 0 <= j < i ==> data@[j] == 0,
        decreases length - i,
    {
        data.set(i, 0);
        i += 1;
    }
    proof {
        law_fitted_picture_fits(
            source.width as int,
            source.height as int,
            width as int,
            height as int,
        );
        vstd::arithmetic::mul::lemma_mul_is_commutative(width as int, source.height as int);
        vstd::arithmetic::mul::lemma_mul_is_commutative(height as int, source.width as int);
        if width * source.height > height * source.width {
            assert(source.height > 0) by (nonlinear_arith)
                requires
                    width * source.height > height * source.width,
                    source.height >= 0,
                    height * source.width >= 0,
            ;
        }
    }
    let (picture_width, picture_height): (usize, usize) = if width * source.height <= height
        * source.width {
        (width, source.height * width / source.width)
    } else {
        (source.width * height / source.height, height)
    };
    let left: usize = (width - picture_width) / 2;
    let top: usize = (height - picture_height) / 2;
    let ghost shown = |i: int|
        shown_byte(*source, width as int, height as int, stride as int, i);
    if picture_width == 0 || picture_height == 0 {
        assert(data@ =~= Seq::new(size as nat, shown));
        return ;
    }
    proof {
        if source.width == 0 || source.height == 0 {
            let (w, h, sw, sh) = (width as int, height as int, source.width as int, source.height as int);
            if sh == 0 {
                assert(w * sh == 0 && sh * w == 0);
                assert(0int / sw == 0) by (nonlinear_arith) requires sw > 0;
            } else {
                assert(sw * h == 0);
                assert(0int / sh == 0) by (nonlinear_arith) requires sh > 0;
            }
            assert(false);
        }
    }
    let mut y: usize = 0;
    while y < picture_height
        invariant
            length == data@.len(),
            size == stride * height,
            length == size,
            size <= usize::MAX,
            4 * width <= stride,
            holds_pixels(*source, picture_width as int, picture_height as int),
            source.width > 0,
            source.height > 0,
            0 < picture_width <= width,
            0 < picture_height <= height,
            fitted(source.width as int, source.height as int, width as int, height as int) == (
                picture_width as int,
                picture_height as int,
            ),
            left == (width - picture_width) / 2,
            top == (height - picture_height) / 2,
            y <= picture_height,
            width * source.width <= usize::MAX,
            height * source.height <= usize::MAX,
            forall|i: int|
                0 <= i < size ==> #[trigger] data@[i] == if i / (stride as int) < top + y {
                    shown_byte(*source, width as int, height as int, stride as int, i)
                } else {
                    0
                },
        decreases picture_height - y,
    {
        proof {
            lemma_proportional(y as int, source.height as int, picture_height as int);
            assert(picture_height * source.height <= height * source.height) by (nonlinear_arith)
                requires
                    picture_height <= height,
            ;
        }
        let source_y: usize = y * source.height / picture_height;
        let mut x: usize = 0;
        while x < picture_width
            invariant
                length == data@.len(),
                size == stride * height,
                length == size,
                size <= usize::MAX,
                4 * width <= stride,
                holds_pixels(*source, picture_width as int, picture_height as int),
                source.width > 0,
                source.height > 0,
                0 < picture_width <= width,
                0 < picture_height <= height,
                fitted(source.width as int, source.height as int, width as int, height as int) == (
                    picture_width as int,
                    picture_height as int,
                ),
                left == (width - picture_width) / 2,
                top == (height - picture_height) / 2,
                y < picture_height,
                x <= picture_width,
                width * source.width <= usize::MAX,
                source_y == (y * source.height) / picture_height as int,
                forall|i: int|
                    0 <= i < size ==> #[trigger] data@[i] == if i / (stride as int) < top + y || i / (stride as int) == top + y && (i % stride as int) / 4 < left + x {
                        shown_byte(*source, width as int, height as int, stride as int, i)
                    } else {
                        0
                    },
            decreases picture_width - x,
        {
            let ghost row = (top + y) as int;
            let ghost column = ((left + x) * 4) as int;
            proof {
                lemma_proportional(x as int, source.width as int, picture_width as int);
                assert(picture_width * source.width <= width * source.width) by (nonlinear_arith)
                    requires
                        picture_width <= width,
                ;
                lemma_pixel_in_source(
                    *source,
                    picture_width as int,
                    picture_height as int,
                    x as int,
                    y as int,
                );
                assert(row * stride + stride <= stride * height) by (nonlinear_arith)
                    requires
                        row + 1 <= height,
                        stride >= 0,
                ;
                assert(0 <= row * stride) by (nonlinear_arith)
                    requires
                        row >= 0,
                        stride >= 0,
                ;
            }
            let source_x: usize = x * source.width / picture_width;
            assert((source_y * source.stride + source_x) * 4 == source_offset(
                *source,
                picture_width as int,
                picture_height as int,
                x as int,
                y as int,
            ));
            assert(source.bgra.len() <= usize::MAX);
            let from: usize = (source_y * source.stride + source_x) * 4;
            let to: usize = (top + y) * stride + (left + x) * 4;
            let ghost before = data@;
            data.set(to, source.bgra[from]);
            data.set(to + 1, source.bgra[from + 1]);
            data.set(to + 2, source.bgra[from + 2]);
            data.set(to + 3, source.bgra[from + 3]);
            assert forall|i: int| 0 <= i < size implies #[trigger] data@[i] == if i / (stride as int)
                < top + y || i / (stride as int) == top + y && (i % stride as int) / 4 < left + x + 1 {
                shown_byte(*source, width as int, height as int, stride as int, i)
            } else {
                0
            } by {
                let d = stride as int;
                vstd::arithmetic::div_mod::lemma_fundamental_div_mod(i, d);
                vstd::arithmetic::mul::lemma_mul_is_commutative(d, i / d);
                if to <= i < to + 4 {
                    lemma_fundamental_div_mod_converse(i, d, row, column + (i - to));
                } else {
                    assert(data@[i] == before[i]);
                    if i / d == row && (i % d) / 4 == left + x {
                        assert(d * (i / d) == row * stride);
                        assert(to <= i < to + 4);
                    }
                }
            }
            x += 1;
        }
        y += 1;
    }
    assert(data@ =~= Seq::new(size as nat, shown));
}

/// What the hardware encoder is set up with.
#[derive(Clone, Copy, Debug, PartialEq, Eq, Structural)]
pub struct SessionProperties {
    pub real_time: bool,
    pub allow_frame_reordering: bool,
    pub prioritize_speed_over_quality: bool,
    pub average_bit_rate: i32,
    pub expected_frame_rate: i32,
    pub max_frame_delay_count: i32,
    pub max_key_frame_interval: i32,
    /// The constrained baseline profile at whatever level the picture needs.
    pub constrained_baseline: bool,
}

/// Bits per second of the hardware encoder.
pub const BITRATE: i32 = 8_000_000;

/// The properties for low latency: a key frame at least every two seconds and no frame held back
/// or sent out of order.
pub fn session_properties() -> (properties: SessionProperties)
    ensures
        properties == (SessionProperties {
            real_time: true,
            allow_frame_reordering: false,
            prioritize_speed_over_quality: true,
            average_bit_rate: BITRATE,
            expected_frame_rate: 60,
            max_frame_delay_count: 0,
            max_key_frame_interval: 120,
            constrained_baseline: true,
        }),
{
    SessionProperties {
        real_time: true,
        allow_frame_reordering: false,
        prioritize_speed_over_quality: true,
        average_bit_rate: BITRATE,
        expected_frame_rate: FPS as i32,
        max_frame_delay_count: 0,
        max_key_frame_interval: (FPS * 2) as i32,
        constrained_baseline: true,
    }
}

/// Whether the prepared encoder may be used, given what it says of running in hardware: where it
/// says nothing, it counts as software, and software is refused.
pub fn accept_encoder(using_hardware: Option<bool>) -> (accepted: bool)
    ensures
        accepted == (using_hardware == Some(true)),
{
    match using_hardware {
        Some(hardware) => hardware,
        None => false,
    }
}

/// Lengths are written with the most significant byte first.
pub proof fn law_lengths_are_big_endian(a: u8, b: u8, c: u8, d: u8)
    ensures
        big_endian(seq![a]) == a,
        big_endian(seq![a, b]) == 0x100 * a + b,
        big_endian(seq![a, b, c]) == 0x1_0000 * a + 0x100 * b + c,
        big_endian(seq![a, b, c, d]) == 0x100_0000 * a + 0x1_0000 * b + 0x100 * c + d,
{
    reveal_with_fuel(big_endian, 5);
    let (one, two, three) = (seq![a], seq![a, b], seq![a, b, c]);
    assert(one.drop_last() =~= Seq::empty());
    assert(two.drop_last() =~= one);
    assert(three.drop_last() =~= two);
    assert(seq![a, b, c, d].drop_last() =~= three);
}

/// Units ahead do not change how the data behind them is split.
pub proof fn law_units_are_split_in_order(unit: Seq<u8>, rest: Seq<u8>, size: nat)
    requires
        1 <= size,
        0 < unit.len() < power_of_256(size),
    ensures
        nal_units(big_endian_bytes(unit.len(), size) + unit + rest, size) == match nal_units(
            rest,
            size,
        ) {
            Ok(units) => Ok::<Seq<Seq<u8>>, NalError>(seq![unit] + units),
            Err(error) => Err(error),
        },
{
    let prefix = big_endian_bytes(unit.len(), size);
    let data = prefix + unit + rest;
    lemma_big_endian_inverse(unit.len(), size);
    assert(data.take(size as int) =~= prefix);
    assert(data.subrange(size as int, (size + unit.len()) as int) =~= unit);
    assert(data.skip((size + unit.len()) as int) =~= rest);
}

/// What is wrong with data that is not made of units: it ends inside a length, or a length is
/// zero or greater than what follows it.
pub proof fn law_broken_units_are_told_apart(length: nat, rest: Seq<u8>, size: nat)
    requires
        1 <= size,
        length < power_of_256(size),
    ensures
        nal_units(Seq::empty(), size) == Ok::<Seq<Seq<u8>>, NalError>(Seq::empty()),
        0 < rest.len() < size ==> nal_units(rest, size) == Err::<Seq<Seq<u8>>, NalError>(
            NalError::TruncatedLength,
        ),
        length == 0 || rest.len() < length ==> nal_units(
            big_endian_bytes(length, size) + rest,
            size,
        ) == Err::<Seq<Seq<u8>>, NalError>(NalError::InvalidLength),
{
    let prefix = big_endian_bytes(length, size);
    lemma_big_endian_inverse(length, size);
    assert((prefix + rest).take(size as int) =~= prefix);
}

/// In a byte stream units follow each other behind three zeros and a one.
pub proof fn law_byte_streams_mark_their_units(first: Seq<Seq<u8>>, second: Seq<Seq<u8>>, unit: Seq<u8>)
    ensures
        byte_stream(first + second) == byte_stream(first) + byte_stream(second),
        byte_stream(seq![unit]) == seq![0u8, 0, 0, 1] + unit,
        byte_stream(Seq::empty()) == Seq::<u8>::empty(),
    decreases second.len(),
{
    reveal_with_fuel(byte_stream, 2);
    assert(seq![unit].drop_last() =~= Seq::empty());
    assert(byte_stream(seq![unit]) =~= seq![0u8, 0, 0, 1] + unit);
    if second.len() == 0 {
        assert(first + second =~= first);
        assert(byte_stream(first) + byte_stream(second) =~= byte_stream(first));
    } else {
        law_byte_streams_mark_their_units(first, second.drop_last(), unit);
        assert((first + second).drop_last() =~= first + second.drop_last());
        assert(byte_stream(first + second) =~= byte_stream(first) + byte_stream(second));
    }
}

/// A unit is a key slice by the five low bits of its first byte.
pub proof fn law_key_slices_are_of_type_five(header: u8, rest: Seq<u8>)
    ensures
        is_key_slice(seq![header] + rest) <==> header & 0x1f == 5,
        !is_key_slice(Seq::empty()),
{
    assert((seq![header] + rest)[0] == header);
    assert(header & 0x1f == header % 32) by (bit_vector);
}

/// A sample is sent as its units, each behind a start code; where one of them is a key slice, the
/// parameter sets go ahead of them, so that a viewer can begin there.
pub proof fn law_samples_are_sent_as_their_units(sample: SampleBuffer, units: Seq<Seq<u8>>)
    requires
        sample.format is Some,
        1 <= sample.format->0.length_size <= 4,
        sample.data is Some,
        forall|i: int|
            0 <= i < units.len() ==> 0 < #[trigger] units[i].len() < power_of_256(
                sample.format->0.length_size as nat,
            ),
        sample.data->0@ == length_prefixed(units, sample.format->0.length_size as nat),
    ensures
        ({
            let key = exists|i: int|
                0 <= i < units.len() && #[trigger] units[i].len() > 0 && units[i][0] % 32 == 5;
            let sets = sample.format->0.parameter_sets;
            &&& !key ==> sample_stream(sample) == Ok::<Seq<u8>, EncodeError>(byte_stream(units))
            &&& key && sets is Some ==> sample_stream(sample) == Ok::<Seq<u8>, EncodeError>(
                byte_stream(vec_contents(sets->0@)) + byte_stream(units),
            )
            &&& key && sets is None ==> sample_stream(sample) == Err::<Seq<u8>, EncodeError>(
                EncodeError::MissingParameterSets,
            )
        }),
{
    law_split_undoes_join(units, sample.format->0.length_size as nat);
    if exists|i: int|
        0 <= i < units.len() && #[trigger] units[i].len() > 0 && units[i][0] % 32 == 5 {
        let i = choose|i: int|
            0 <= i < units.len() && #[trigger] units[i].len() > 0 && units[i][0] % 32 == 5;
        assert(is_key_slice(units[i]));
    }
    if has_key_slice(units) {
        let i = choose|i: int| 0 <= i < units.len() && is_key_slice(#[trigger] units[i]);
        assert(units[i].len() > 0 && units[i][0] % 32 == 5);
    }
}

/// A sample that is not complete is refused for what it lacks, its format first.
pub proof fn law_incomplete_samples_are_refused(sample: SampleBuffer, error: NalError)
    ensures
        sample.format is None ==> sample_stream(sample) == Err::<Seq<u8>, EncodeError>(
            EncodeError::MissingFormat,
        ),
        sample.format is Some && sample.data is None ==> sample_stream(sample) == Err::<
            Seq<u8>,
            EncodeError,
        >(EncodeError::MissingData),
        sample.format is Some && sample.data is Some && !(1 <= sample.format->0.length_size <= 4)
            ==> sample_stream(sample) == Err::<Seq<u8>, EncodeError>(
            EncodeError::Nal(NalError::LengthSize(sample.format->0.length_size)),
        ),
        sample.format is Some && sample.data is Some && 1 <= sample.format->0.length_size <= 4
            && nal_units(sample.data->0@, sample.format->0.length_size as nat) == Err::<
            Seq<Seq<u8>>,
            NalError,
        >(error) ==> sample_stream(sample) == Err::<Seq<u8>, EncodeError>(EncodeError::Nal(error)),
{
}

/// The fitted picture stands in the middle of the buffer. Inside it, every pixel is the one of
/// the source at the proportional place: the pixel that the place falls into, not one beside it.
/// Around it everything is zero, behind the ends of the rows too.
pub proof fn law_drawn_pictures_show_their_source(
    source: RawFrame,
    width: int,
    height: int,
    stride: int,
    x: int,
    y: int,
    byte: int,
    column: int,
    row: int,
)
    requires
        0 < source.width,
        0 < source.height,
        0 <= width,
        0 <= height,
        0 <= x,
        0 <= y < height,
        0 <= byte < 4,
        4 * x + byte < stride,
    ensures
        ({
            let (w, h) = fitted(source.width as int, source.height as int, width, height);
            let (left, top) = ((width - w) / 2, (height - h) / 2);
            let shown = shown_byte(source, width, height, stride, y * stride + 4 * x + byte);
            &&& left <= x < left + w && top <= y < top + h && column * w <= (x - left)
                * source.width < (column + 1) * w && row * h <= (y - top) * source.height < (row
                + 1) * h ==> shown == source.bgra@[4 * (row * source.stride + column) + byte]
            &&& !(left <= x < left + w && top <= y < top + h) ==> shown == 0
        }),
{
    let (w, h) = fitted(source.width as int, source.height as int, width, height);
    let (left, top) = ((width - w) / 2, (height - h) / 2);
    let index = y * stride + 4 * x + byte;
    lemma_fundamental_div_mod_converse(index, stride, y, 4 * x + byte);
    assert(index % stride == 4 * x + byte && index / stride == y);
    assert((4 * x + byte) / 4 == x && (4 * x + byte) % 4 == byte);
    let across = (x - left) * source.width;
    let down = (y - top) * source.height;
    if left <= x < left + w && top <= y < top + h && column * w <= across < (column + 1) * w && row
        * h <= down < (row + 1) * h {
        assert(column == across / w) by (nonlinear_arith)
            requires
                column * w <= across < (column + 1) * w,
                w > 0,
        ;
        assert(row == down / h) by (nonlinear_arith)
            requires
                row * h <= down < (row + 1) * h,
                h > 0,
        ;
        let shown = shown_byte(source, width, height, stride, index);
        assert(shown == source.bgra@[4 * (row * source.stride + column) + byte]);
    }
}

/// A picture of the buffer's own size is drawn as it is, pixel by pixel.
pub proof fn law_pictures_of_the_same_size_are_copied(
    source: RawFrame,
    stride: int,
    x: int,
    y: int,
    byte: int,
)
    requires
        4 * source.width <= stride,
        0 <= x < source.width,
        0 <= y < source.height,
        0 <= byte < 4,
    ensures
        shown_byte(
            source,
            source.width as int,
            source.height as int,
            stride,
            y * stride + 4 * x + byte,
        ) == source.bgra@[4 * (y * source.stride + x) + byte],
{
    let (w, h) = (source.width as int, source.height as int);
    super::law_fitted_picture_keeps_proportions(w, h, w, h);
    assert(w * h == h * w) by (nonlinear_arith);
    let index = y * stride + 4 * x + byte;
    lemma_fundamental_div_mod_converse(index, stride, y, 4 * x + byte);
    assert((4 * x + byte) / 4 == x && (4 * x + byte) % 4 == byte);
    assert(x * w / w == x && y * h / h == y) by (nonlinear_arith)
        requires
            w > 0,
            h > 0,
    ;
}

/// A captured picture whose buffer holds its rows can be drawn into every buffer with rows of
/// four bytes for each pixel, for all sides that screens have.
pub proof fn law_screens_can_be_drawn(
    source: RawFrame,
    length: int,
    width: usize,
    height: usize,
    stride: usize,
)
    requires
        0 < source.width <= 0xffff,
        0 < source.height <= 0xffff,
        0 < width <= 0xffff,
        height <= 0xffff,
        source.width <= source.stride,
        4 * source.stride * source.height <= source.bgra@.len(),
        4 * width <= stride,
        length == stride * height,
    ensures
        drawable(source, length, width, height, stride),
{
    let (sw, sh) = (source.width as int, source.height as int);
    let (w, h) = (width as int, height as int);
    assert(w * sw <= 0xffff * 0xffff && w * sh <= 0xffff * 0xffff && h * sw <= 0xffff * 0xffff && h
        * sh <= 0xffff * 0xffff) by (nonlinear_arith)
        requires
            0 <= sw <= 0xffff,
            0 <= sh <= 0xffff,
            0 <= w <= 0xffff,
            0 <= h <= 0xffff,
    ;
    let (pw, ph) = fitted(sw, sh, w, h);
    assert forall|x: int, y: int| 0 <= x < pw && 0 <= y < ph implies #[trigger] source_offset(
        source,
        pw,
        ph,
        x,
        y,
    ) + 4 <= source.bgra@.len() by {
        lemma_proportional(x, sw, pw);
        lemma_proportional(y, sh, ph);
        let (row, column) = (y * sh / ph, x * sw / pw);
        let rows = source.stride as int;
        assert((row * rows + column) * 4 + 4 <= 4 * rows * sh) by (nonlinear_arith)
            requires
                0 <= row < sh,
                0 <= column < sw,
                sw <= rows,
        ;
    }
}

/// What lists hold is what their parts hold, one for each and in order.
pub proof fn law_contents_are_in_order(slices: Seq<&[u8]>, vectors: Seq<Vec<u8>>, i: int)
    ensures
        contents(slices).len() == slices.len(),
        0 <= i < slices.len() ==> contents(slices)[i] == slices[i]@,
        vec_contents(vectors).len() == vectors.len(),
        0 <= i < vectors.len() ==> vec_contents(vectors)[i] == vectors[i]@,
{
}

} // verus!
