//! Reading the frame data of effect files (STR): blend factors, animation
//! and frame types, and where the textures of an effect live.

use vstd::prelude::*;

use vstd::utf8::{decode_utf8, encode_utf8, encode_utf8_decode_utf8, is_char_boundary};

use crate::text::chars_of;

verus! {

/// How a layer of an effect is blended, as the renderer names the factors.
#[derive(Clone, Copy, Debug, PartialEq, Eq, Structural)]
pub enum BlendFactor {
    Zero,
    One,
    Src,
    OneMinusSrc,
    SrcAlpha,
    OneMinusSrcAlpha,
    DstAlpha,
    OneMinusDstAlpha,
    Dst,
    OneMinusDst,
    SrcAlphaSaturated,
}

/// How the frames of a layer are animated.
#[derive(Clone, Copy, Debug, PartialEq, Eq, Structural)]
pub enum AnimationType {
    Type0,
    Type1,
    Type2,
    Type3,
}

/// Whether a frame is drawn as it is or morphs into the next.
#[derive(Clone, Copy, Debug, PartialEq, Eq, Structural)]
pub enum FrameType {
    Basic,
    Morphing,
}

/// Whether a frame carries more than one texture; only none is known.
#[derive(Clone, Copy, Debug, PartialEq, Eq, Structural)]
pub enum MultiTexturePresent {
    NotPresent,
}

/// The blend factor that `value` stands for in an effect file: 0 repeats the
/// previous factor, 1 to 11 name a factor, 12 is the alpha of the source (for
/// the source factor) or its complement (for the destination factor), and
/// anything else is read as zero.
pub open spec fn blend_factor_of(value: i32, previous: Option<BlendFactor>, is_source: bool) -> BlendFactor {
    match value {
        0 => previous.unwrap(),
        1 => BlendFactor::Zero,
        2 => BlendFactor::One,
        3 => BlendFactor::Src,
        4 => BlendFactor::OneMinusSrc,
        5 => BlendFactor::SrcAlpha,
        6 => BlendFactor::OneMinusSrcAlpha,
        7 => BlendFactor::DstAlpha,
        8 => BlendFactor::OneMinusDstAlpha,
        9 => BlendFactor::Dst,
        10 => BlendFactor::OneMinusDst,
        11 => BlendFactor::SrcAlphaSaturated,
        12 => if is_source {
            BlendFactor::SrcAlpha
        } else {
            BlendFactor::OneMinusSrcAlpha
        },
        _ => BlendFactor::Zero,
    }
}

/// What a blend factor reads: 0 for a constant, 1 for the source, 2 for the
/// destination.
pub open spec fn factor_operand(factor: BlendFactor) -> int {
    match factor {
        BlendFactor::Zero | BlendFactor::One => 0,
        BlendFactor::Src | BlendFactor::OneMinusSrc | BlendFactor::SrcAlpha | BlendFactor::OneMinusSrcAlpha
        | BlendFactor::SrcAlphaSaturated => 1,
        _ => 2,
    }
}

/// Whether a blend factor reads the alpha of its operand rather than its
/// color.
pub open spec fn factor_reads_alpha(factor: BlendFactor) -> bool {
    match factor {
        BlendFactor::SrcAlpha | BlendFactor::OneMinusSrcAlpha | BlendFactor::DstAlpha | BlendFactor::OneMinusDstAlpha
        | BlendFactor::SrcAlphaSaturated => true,
        _ => false,
    }
}

/// Whether a blend factor is one minus what it reads (`One` being one minus
/// zero).
pub open spec fn factor_complemented(factor: BlendFactor) -> bool {
    match factor {
        BlendFactor::One | BlendFactor::OneMinusSrc | BlendFactor::OneMinusSrcAlpha | BlendFactor::OneMinusDstAlpha
        | BlendFactor::OneMinusDst => true,
        _ => false,
    }
}

/// The codes of an effect file follow the Direct3D blend codes: 1 and 2 are
/// the constants zero and one; 3 to 6 read the source and 7 to 10 the
/// destination; 5 to 8 read alpha and 3, 4, 9 and 10 color; an even code is
/// one minus the odd code before it; 11 is the saturated source alpha; 12 is
/// the source alpha for the source factor and one minus it for the
/// destination factor; 0 repeats the previous factor and any other code is
/// zero.
pub proof fn lemma_blend_codes(value: i32, previous: Option<BlendFactor>, is_source: bool)
    ensures
        ({
            let factor = blend_factor_of(value, previous, is_source);
            &&& 1 <= value <= 10 ==> factor_operand(factor) == if value <= 2 {
                0int
            } else if value <= 6 {
                1int
            } else {
                2int
            }
            &&& 1 <= value <= 10 ==> factor_reads_alpha(factor) == (5 <= value <= 8)
            &&& 1 <= value <= 10 ==> factor_complemented(factor) == (value % 2 == 0)
            &&& value == 11 ==> factor == BlendFactor::SrcAlphaSaturated
            &&& value == 12 ==> factor_operand(factor) == 1 && factor_reads_alpha(factor) && factor_complemented(
                factor,
            ) == !is_source && factor != BlendFactor::SrcAlphaSaturated
            &&& value == 0 ==> factor == previous.unwrap()
            &&& (value < 0 || value > 12) ==> factor == BlendFactor::Zero
        }),
{
}

/// The operand, whether alpha is read and whether it is complemented tell a
/// blend factor apart from every other, but for the saturated source alpha.
pub proof fn lemma_blend_attributes_distinguish(a: BlendFactor, b: BlendFactor)
    requires
        a != BlendFactor::SrcAlphaSaturated,
        b != BlendFactor::SrcAlphaSaturated,
        factor_operand(a) == factor_operand(b),
        factor_reads_alpha(a) == factor_reads_alpha(b),
        factor_complemented(a) == factor_complemented(b),
    ensures
        a == b,
{
}

/// The blend factor of a frame; a 0, which repeats the previous factor, needs
/// a previous one.
pub fn parse_blend_factor(value: i32, previous: Option<BlendFactor>, is_source: bool) -> (factor: BlendFactor)
    requires
        value == 0 ==> previous is Some,
    ensures
        factor == blend_factor_of(value, previous, is_source),
{
    match value {
        0 => previous.unwrap(),
        1 => BlendFactor::Zero,
        2 => BlendFactor::One,
        3 => BlendFactor::Src,
        4 => BlendFactor::OneMinusSrc,
        5 => BlendFactor::SrcAlpha,
        6 => BlendFactor::OneMinusSrcAlpha,
        7 => BlendFactor::DstAlpha,
        8 => BlendFactor::OneMinusDstAlpha,
        9 => BlendFactor::Dst,
        10 => BlendFactor::OneMinusDst,
        11 => BlendFactor::SrcAlphaSaturated,
        12 => if is_source {
            BlendFactor::SrcAlpha
        } else {
            BlendFactor::OneMinusSrcAlpha
        },
        _ => BlendFactor::Zero,
    }
}

/// The number of an animation type.
pub open spec fn animation_number(animation_type: AnimationType) -> int {
    match animation_type {
        AnimationType::Type0 => 0,
        AnimationType::Type1 => 1,
        AnimationType::Type2 => 2,
        AnimationType::Type3 => 3,
    }
}

/// The animation type of a frame; an unknown value is read as type 1.
pub fn parse_animation_type(value: i32) -> (animation_type: AnimationType)
    ensures
        0 <= value <= 3 ==> animation_number(animation_type) == value,
        !(0 <= value <= 3) ==> animation_number(animation_type) == 1,
        animation_type == match value {
            0 => AnimationType::Type0,
            2 => AnimationType::Type2,
            3 => AnimationType::Type3,
            _ => AnimationType::Type1,
        },
{
    match value {
        0 => AnimationType::Type0,
        1 => AnimationType::Type1,
        2 => AnimationType::Type2,
        3 => AnimationType::Type3,
        _ => AnimationType::Type1,
    }
}

/// The frame type of a frame; an unknown value is read as basic.
pub fn parse_frame_type(value: i32) -> (frame_type: FrameType)
    ensures
        frame_type == if value == 1 {
            FrameType::Morphing
        } else {
            FrameType::Basic
        },
{
    match value {
        0 => FrameType::Basic,
        1 => FrameType::Morphing,
        _ => FrameType::Basic,
    }
}

/// The multi-texture marker of a frame; every value is read as none.
pub fn parse_mt_present(value: i32) -> (present: MultiTexturePresent)
    ensures
        present == MultiTexturePresent::NotPresent,
{
    match value {
        _ => MultiTexturePresent::NotPresent,
    }
}

/// The directory part of an effect path: everything up to and including its
/// last backslash, or nothing where it has none.
pub open spec fn effect_directory(path: Seq<char>) -> Seq<char>
    decreases path.len(),
{
    if path.len() == 0 {
        path
    } else if path.last() == '\\' {
        path
    } else {
        effect_directory(path.drop_last())
    }
}

/// How many bytes of the path's UTF-8 encoding stand before the split point
/// that the loader uses: the number of characters after the last backslash,
/// taken away from the byte length of the whole path.
pub open spec fn prefix_split(path: Seq<char>) -> int {
    encode_utf8(path).len() - (path.len() - effect_directory(path).len())
}

/// The texture prefix of an effect path: nothing where it has no backslash,
/// and otherwise the text of the bytes before the split point. Where the file
/// name after the last backslash is ASCII, that is the directory part.
pub open spec fn texture_prefix(path: Seq<char>) -> Seq<char> {
    if effect_directory(path).len() == 0 {
        Seq::empty()
    } else {
        decode_utf8(encode_utf8(path).take(prefix_split(path)))
    }
}

proof fn lemma_encode_utf8_len(chars: Seq<char>)
    ensures
        encode_utf8(chars).len() >= chars.len(),
    decreases chars.len(),
{
    if chars.len() > 0 {
        lemma_encode_utf8_len(chars.drop_first());
    }
}

/// The directory of an effect file, under which the textures it names are
/// found. The split point is found by counting the characters after the last
/// backslash and is applied to the bytes of the path, so a path is accepted
/// only where that point falls on a character boundary.
pub fn effect_texture_prefix(path: &str) -> (prefix: String)
    requires
        encode_utf8(path@).len() <= usize::MAX,
        effect_directory(path@).len() == 0 || is_char_boundary(encode_utf8(path@), prefix_split(path@)),
    ensures
        prefix@ == texture_prefix(path@),
        effect_directory(path@).len() > 0 ==> encode_utf8(prefix@) == encode_utf8(path@).take(
            prefix_split(path@),
        ),
{
    let chars = chars_of(path);
    let mut end = chars.len();
    assert(path@.take(end as int) =~= path@);
    while end > 0 && chars[end - 1] != '\\'
        invariant
            chars@ == path@,
            end <= chars.len(),
            effect_directory(path@.take(end as int)) == effect_directory(path@),
        decreases end,
    {
        assert(path@.take(end as int).drop_last() =~= path@.take(end - 1));
        end = end - 1;
    }
    proof {
        if end > 0 {
            assert(path@.take(end as int).last() == '\\');
        }
        assert(effect_directory(path@.take(end as int)) == path@.take(end as int));
    }
    if end == 0 {
        return String::new();
    }
    let offset = chars.len() - end;
    proof {
        lemma_encode_utf8_len(path@);
        assert(effect_directory(path@).len() == end);
    }
    let mid = path.len() - offset;
    let (head, _tail) = path.split_at(mid);
    let prefix = head.to_owned();
    proof {
        assert(encode_utf8(prefix@) == encode_utf8(path@).subrange(0, mid as int));
        assert(encode_utf8(path@).subrange(0, mid as int) =~= encode_utf8(path@).take(prefix_split(path@)));
        encode_utf8_decode_utf8(prefix@);
    }
    prefix
}

} // verus!
