//! Backend-free render data: viewport sizes, texture ids, validated RGBA
//! texture data and sprite batches.
use vstd::prelude::*;

use crate::text::{decimal_string, spec_decimal};

verus! {

/// Width and height of a render target in pixels.
#[derive(Debug, Clone, Copy, PartialEq, Eq)]
pub struct RenderSize {
    pub width: u32,
    pub height: u32,
}

impl RenderSize {
    pub fn new(width: u32, height: u32) -> (size: Self)
        ensures
            size.width == width,
            size.height == height,
    {
        RenderSize { width, height }
    }

    /// A viewport with no pixels in one of its dimensions.
    pub fn is_zero(self) -> (zero: bool)
        ensures
            zero == (self.width == 0 || self.height == 0),
    {
        self.width == 0 || self.height == 0
    }
}

/// The id of an uploaded texture.
#[derive(Debug, Clone, Copy, PartialEq, Eq, Hash, Structural)]
pub struct TextureId(u64);

impl View for TextureId {
    type V = u64;

    closed spec fn view(&self) -> u64 {
        self.0
    }
}

impl TextureId {
    pub fn new(raw: u64) -> (id: Self)
        ensures
            id@ == raw,
    {
        TextureId(raw)
    }

    pub fn raw(self) -> (raw: u64)
        ensures
            raw == self@,
    {
        self.0
    }
}

/// Why render data was refused.
#[derive(Debug, Clone, PartialEq, Eq)]
pub enum RenderError {
    InvalidTextureData { id: TextureId, reason: String },
}

/// Tightly packed RGBA8 pixels of a texture whose size is non-zero and whose
/// byte count matches its dimensions.
#[derive(Debug, Clone, PartialEq, Eq)]
pub struct TextureData {
    id: TextureId,
    width: u32,
    height: u32,
    pixels_rgba8: Vec<u8>,
}

/// The byte count of an RGBA8 image of the given size.
pub open spec fn spec_rgba_len(width: u32, height: u32) -> int {
    width * height * 4
}

/// The explanation given when the byte count does not match the size.
pub open spec fn spec_byte_count_reason(expected: nat, actual: nat) -> Seq<char> {
    "expected "@ + spec_decimal(expected) + " RGBA bytes, got "@ + spec_decimal(actual)
}

/// Why RGBA8 texture data of this size and byte count is refused, if it is:
/// the byte count must fit in `u32`, both dimensions must be non-zero, and
/// the buffer must hold exactly four bytes per pixel, checked in this order.
pub open spec fn spec_rgba8_refusal(width: u32, height: u32, byte_count: nat) -> Option<Seq<char>> {
    if spec_rgba_len(width, height) > u32::MAX {
        Some("texture dimensions overflowed RGBA byte count"@)
    } else if width == 0 || height == 0 {
        Some("texture dimensions must be greater than zero"@)
    } else if byte_count != spec_rgba_len(width, height) {
        Some(spec_byte_count_reason(spec_rgba_len(width, height) as nat, byte_count))
    } else {
        None
    }
}

fn byte_count_reason(expected: u64, actual: u64) -> (reason: String)
    ensures
        reason@ == spec_byte_count_reason(expected as nat, actual as nat),
{
    let mut reason = "expected ".to_owned();
    reason.append(decimal_string(expected).as_str());
    reason.append(" RGBA bytes, got ");
    reason.append(decimal_string(actual).as_str());
    reason
}

impl TextureData {
    /// Validated RGBA8 texture data. The checks come in this order: the byte
    /// count must fit in `u32`, both dimensions must be non-zero, and the
    /// pixel buffer must hold exactly four bytes per pixel.
    pub fn rgba8(id: TextureId, width: u32, height: u32, pixels_rgba8: Vec<u8>) -> (result:
        Result<Self, RenderError>)
        ensures
            spec_rgba_len(width, height) > u32::MAX ==> (result matches Err(
                RenderError::InvalidTextureData { id: error_id, reason },
            ) && error_id == id && reason@
                == "texture dimensions overflowed RGBA byte count"@),
            spec_rgba_len(width, height) <= u32::MAX && (width == 0 || height == 0) ==> (
            result matches Err(RenderError::InvalidTextureData { id: error_id, reason })
                && error_id == id && reason@ == "texture dimensions must be greater than zero"@),
            spec_rgba_len(width, height) <= u32::MAX && width != 0 && height != 0
                && pixels_rgba8@.len() != spec_rgba_len(width, height) ==> (result matches Err(
                RenderError::InvalidTextureData { id: error_id, reason },
            ) && error_id == id && reason@ == spec_byte_count_reason(
                spec_rgba_len(width, height) as nat,
                pixels_rgba8@.len(),
            )),
            spec_rgba_len(width, height) <= u32::MAX && width != 0 && height != 0
                && pixels_rgba8@.len() == spec_rgba_len(width, height) ==> (result matches Ok(
                data,
            ) && data.id() == id && data.width() == width && data.height() == height
                && data.pixels() == pixels_rgba8@),
    {
        let expected = match width.checked_mul(height) {
            Some(pixel_count) => pixel_count.checked_mul(4),
            None => None,
        };
        proof {
            assert(width * height * 4 == (width * height) * 4);
            if width * height > u32::MAX {
                assert(width * height * 4 > u32::MAX) by (nonlinear_arith)
                    requires
                        width * height > u32::MAX,
                ;
            }
        }
        let expected_len = match expected {
            Some(len) => len,
            None => {
                return Err(
                    RenderError::InvalidTextureData {
                        id,
                        reason: "texture dimensions overflowed RGBA byte count".to_owned(),
                    },
                );
            },
        };
        if width == 0 || height == 0 {
            return Err(
                RenderError::InvalidTextureData {
                    id,
                    reason: "texture dimensions must be greater than zero".to_owned(),
                },
            );
        }
        if pixels_rgba8.len() != expected_len as usize {
            return Err(
                RenderError::InvalidTextureData {
                    id,
                    reason: byte_count_reason(expected_len as u64, pixels_rgba8.len() as u64),
                },
            );
        }
        Ok(TextureData { id, width, height, pixels_rgba8 })
    }

    /// The texture's pixels.
    pub closed spec fn pixels(&self) -> Seq<u8> {
        self.pixels_rgba8@
    }

    pub closed spec fn spec_id(&self) -> TextureId {
        self.id
    }

    pub closed spec fn spec_width(&self) -> u32 {
        self.width
    }

    pub closed spec fn spec_height(&self) -> u32 {
        self.height
    }

    #[verifier::when_used_as_spec(spec_id)]
    pub fn id(&self) -> (id: TextureId)
        ensures
            id == self.spec_id(),
    {
        self.id
    }

    #[verifier::when_used_as_spec(spec_width)]
    pub fn width(&self) -> (width: u32)
        ensures
            width == self.spec_width(),
    {
        self.width
    }

    #[verifier::when_used_as_spec(spec_height)]
    pub fn height(&self) -> (height: u32)
        ensures
            height == self.spec_height(),
    {
        self.height
    }

    pub fn pixels_rgba8(&self) -> (pixels: &[u8])
        ensures
            pixels@ == self.pixels(),
    {
        self.pixels_rgba8.as_slice()
    }

    /// A copy of the texture data.
    pub fn copy(&self) -> (copy: TextureData)
        ensures
            copy.id() == self.id(),
            copy.width() == self.width(),
            copy.height() == self.height(),
            copy.pixels() == self.pixels(),
    {
        TextureData {
            id: self.id,
            width: self.width,
            height: self.height,
            pixels_rgba8: self.pixels_rgba8.clone(),
        }
    }
}

/// A run of consecutive sprites that share one texture.
#[derive(Debug, Clone, Copy, PartialEq, Eq)]
pub struct SpriteBatch {
    pub texture_id: TextureId,
    pub start: usize,
    pub len: usize,
}

impl SpriteBatch {
    pub fn new(texture_id: TextureId, start: usize, len: usize) -> (batch: Self)
        ensures
            batch.texture_id == texture_id,
            batch.start == start,
            batch.len == len,
    {
        SpriteBatch { texture_id, start, len }
    }

    pub fn is_empty(self) -> (empty: bool)
        ensures
            empty == (self.len == 0),
    {
        self.len == 0
    }

    /// The sprite positions covered by the batch.
    pub fn range(self) -> (range: std::ops::Range<usize>)
        requires
            self.start + self.len <= usize::MAX,
        ensures
            range.start == self.start,
            range.end == self.start + self.len,
    {
        self.start..self.start + self.len
    }
}

/// `batches` cover `ids` from the first position to the last, in order, each
/// batch a non-empty run of one texture, and no two neighbouring batches of
/// the same texture.
pub open spec fn is_batching_of(ids: Seq<TextureId>, batches: Seq<SpriteBatch>) -> bool {
    &&& ids.len() == 0 <==> batches.len() == 0
    &&& batches.len() > 0 ==> batches[0].start == 0
    &&& batches.len() > 0 ==> batches.last().start + batches.last().len == ids.len()
    &&& forall|k: int|
        0 <= k < batches.len() - 1 ==> #[trigger] batches[k + 1].start == batches[k].start
            + batches[k].len
    &&& forall|k: int| 0 <= k < batches.len() ==> #[trigger] batches[k].len >= 1
    &&& forall|k: int, i: int|
        0 <= k < batches.len() && batches[k].start <= i < batches[k].start + batches[k].len
            ==> #[trigger] ids[i] == #[trigger] batches[k].texture_id
    &&& forall|k: int|
        0 <= k < batches.len() - 1 ==> #[trigger] batches[k + 1].texture_id
            != batches[k].texture_id
}

/// Groups consecutive sprites drawn with the same texture, without reordering.
pub fn sprite_batches(texture_ids: &[TextureId]) -> (batches: Vec<SpriteBatch>)
    ensures
        is_batching_of(texture_ids@, batches@),
{
    if texture_ids.len() == 0 {
        return Vec::new();
    }
    let mut batches: Vec<SpriteBatch> = Vec::new();
    let mut texture_id = texture_ids[0];
    let mut start: usize = 0;
    let mut len: usize = 1;
    let mut index: usize = 1;
    while index < texture_ids.len()
        invariant
            1 <= index <= texture_ids@.len(),
            len >= 1,
            start + len == index,
            forall|i: int| start <= i < index ==> #[trigger] texture_ids@[i] == texture_id,
            batches@.len() == 0 ==> start == 0,
            batches@.len() > 0 ==> batches@.last().start + batches@.last().len == start,
            batches@.len() > 0 ==> batches@.last().texture_id != texture_id,
            batches@.len() > 0 ==> batches@[0].start == 0,
            forall|k: int|
                0 <= k < batches@.len() - 1 ==> #[trigger] batches@[k + 1].start
                    == batches@[k].start + batches@[k].len,
            forall|k: int| 0 <= k < batches@.len() ==> #[trigger] batches@[k].len >= 1,
            forall|k: int, i: int|
                0 <= k < batches@.len() && batches@[k].start <= i < batches@[k].start
                    + batches@[k].len ==> #[trigger] texture_ids@[i]
                    == #[trigger] batches@[k].texture_id,
            forall|k: int|
                0 <= k < batches@.len() - 1 ==> #[trigger] batches@[k + 1].texture_id
                    != batches@[k].texture_id,
        decreases texture_ids@.len() - index,
    {
        if texture_ids[index] == texture_id {
            len = len + 1;
        } else {
            batches.push(SpriteBatch::new(texture_id, start, len));
            texture_id = texture_ids[index];
            start = index;
            len = 1;
        }
        index = index + 1;
    }
    batches.push(SpriteBatch::new(texture_id, start, len));
    batches
}

} // verus!
