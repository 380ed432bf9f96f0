//! Map resources: the corners of ground tiles and the textures of water.

use vstd::prelude::*;

use crate::text::{decimal, push_char, push_decimal, push_signed_decimal, signed_decimal, two_digit_decimal};

verus! {

/// A corner of a ground tile, whose height the map stores.
#[derive(Copy, Clone, Debug, PartialEq, Eq, Structural)]
pub enum Heights {
    SouthWest,
    SouthEast,
    NorthWest,
    NorthEast,
}

/// The number of animation frames of a water texture.
pub const WATER_TEXTURE_FRAMES: u32 = 32;

/// The directory of the water textures, with its separator.
pub open spec fn water_directory() -> Seq<char> {
    seq!['\u{C6CC}', '\u{D130}', '\\', 'w', 'a', 't', 'e', 'r']
}

/// The path of frame `frame` of the water texture of `water_type`:
/// `워터\water`, the water type, the frame with two digits, and `.jpg`.
pub open spec fn water_texture_path(water_type: int, frame: nat) -> Seq<char> {
    water_directory() + signed_decimal(water_type) + two_digit_decimal(frame) + seq!['.', 'j', 'p', 'g']
}

fn push_water_texture_path(path: &mut String, water_type: i32, frame: u32)
    requires
        old(path)@.len() == 0,
    ensures
        final(path)@ == water_texture_path(water_type as int, frame as nat),
{
    push_char(path, '\u{C6CC}');
    push_char(path, '\u{D130}');
    push_char(path, '\\');
    push_char(path, 'w');
    push_char(path, 'a');
    push_char(path, 't');
    push_char(path, 'e');
    push_char(path, 'r');
    assert(path@ =~= water_directory());
    push_signed_decimal(path, water_type as i64);
    let ghost before_frame = path@;
    if frame < 10 {
        push_char(path, '0');
    }
    push_decimal(path, frame as u64);
    assert(path@ =~= before_frame + two_digit_decimal(frame as nat));
    push_char(path, '.');
    push_char(path, 'j');
    push_char(path, 'p');
    push_char(path, 'g');
    assert(path@ =~= water_texture_path(water_type as int, frame as nat));
}

/// The paths of the animation frames of the water texture of `water_type`,
/// in frame order.
pub fn get_water_texture_paths(water_type: i32) -> (paths: Vec<String>)
    ensures
        paths.len() == WATER_TEXTURE_FRAMES,
        forall|frame: int|
            0 <= frame < WATER_TEXTURE_FRAMES ==> #[trigger] paths@[frame]@ == water_texture_path(
                water_type as int,
                frame as nat,
            ),
{
    let mut paths: Vec<String> = Vec::new();
    let mut frame: u32 = 0;
    while frame < WATER_TEXTURE_FRAMES
        invariant
            frame <= WATER_TEXTURE_FRAMES,
            paths.len() == frame,
            forall|k: int|
                0 <= k < frame ==> #[trigger] paths@[k]@ == water_texture_path(water_type as int, k as nat),
        decreases WATER_TEXTURE_FRAMES - frame,
    {
        let mut path = String::new();
        push_water_texture_path(&mut path, water_type, frame);
        paths.push(path);
        frame = frame + 1;
    }
    paths
}

/// A surface of a ground tile.
#[derive(Copy, Clone, Debug, PartialEq, Eq, Structural)]
pub enum SurfaceType {
    North,
    East,
    Top,
}

/// The corners of a surface in drawing order: for each, the offset of the
/// tile whose height it takes, and which corner of that tile.
pub open spec fn surface_alignment(surface_type: SurfaceType) -> Seq<((usize, usize), Heights)> {
    match surface_type {
        SurfaceType::North => seq![
            ((0usize, 1usize), Heights::NorthWest),
            ((1usize, 1usize), Heights::NorthEast),
            ((0usize, 1usize), Heights::SouthWest),
            ((1usize, 1usize), Heights::SouthEast),
        ],
        SurfaceType::East => seq![
            ((1usize, 1usize), Heights::NorthEast),
            ((1usize, 0usize), Heights::SouthEast),
            ((1usize, 1usize), Heights::NorthWest),
            ((1usize, 0usize), Heights::SouthWest),
        ],
        SurfaceType::Top => seq![
            ((0usize, 0usize), Heights::SouthWest),
            ((1usize, 0usize), Heights::SouthEast),
            ((0usize, 1usize), Heights::NorthWest),
            ((1usize, 1usize), Heights::NorthEast),
        ],
    }
}

/// The corners of a surface, with the tile offset each takes its height from.
pub fn tile_surface_alignment(surface_type: SurfaceType) -> (alignment: [((usize, usize), Heights); 4])
    ensures
        alignment@ == surface_alignment(surface_type),
{
    let alignment = match surface_type {
        SurfaceType::North => [
            ((0, 1), Heights::NorthWest),
            ((1, 1), Heights::NorthEast),
            ((0, 1), Heights::SouthWest),
            ((1, 1), Heights::SouthEast),
        ],
        SurfaceType::East => [
            ((1, 1), Heights::NorthEast),
            ((1, 0), Heights::SouthEast),
            ((1, 1), Heights::NorthWest),
            ((1, 0), Heights::SouthWest),
        ],
        SurfaceType::Top => [
            ((0, 0), Heights::SouthWest),
            ((1, 0), Heights::SouthEast),
            ((0, 1), Heights::NorthWest),
            ((1, 1), Heights::NorthEast),
        ],
    };
    assert(alignment@ =~= surface_alignment(surface_type));
    alignment
}

/// The offset of the tile that a wall surface faces: the one to the north
/// for a north wall and the one to the east for an east wall. The top has
/// none.
pub fn neighbor_tile_index(surface_type: SurfaceType) -> (offset: (usize, usize))
    requires
        !(surface_type is Top),
    ensures
        surface_type is North ==> offset == (0usize, 1usize),
        surface_type is East ==> offset == (1usize, 0usize),
{
    match surface_type {
        SurfaceType::North => (0, 1),
        _ => (1, 0),
    }
}

} // verus!
