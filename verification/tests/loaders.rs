use korangar::animation::calculate_new_size;
use korangar::archive::ArchiveType;
use korangar::effect::{
    effect_texture_prefix, parse_animation_type, parse_blend_factor, parse_frame_type, parse_mt_present, AnimationType,
    BlendFactor, FrameType, MultiTexturePresent,
};
use korangar::file_table::{parse_file_table, read_row, write_row, AssetTable, RawFileTableRow};
use korangar::gamefile::{get_archive_type_by_path, get_target_filename, texture_file_dds_name, video_file_h264_name, MediaType};
use korangar::model::collect_versioned_texture_names;
use korangar::map::{neighbor_tile_index, tile_surface_alignment, Heights, SurfaceType};

#[test]
fn blend_factors_follow_the_file_numbering() {
    assert_eq!(parse_blend_factor(1, None, true), BlendFactor::Zero);
    assert_eq!(parse_blend_factor(5, None, true), BlendFactor::SrcAlpha);
    assert_eq!(parse_blend_factor(11, None, false), BlendFactor::SrcAlphaSaturated);
    assert_eq!(parse_blend_factor(0, Some(BlendFactor::Dst), false), BlendFactor::Dst);
    assert_eq!(parse_blend_factor(12, None, true), BlendFactor::SrcAlpha);
    assert_eq!(parse_blend_factor(12, None, false), BlendFactor::OneMinusSrcAlpha);
    assert_eq!(parse_blend_factor(99, None, true), BlendFactor::Zero);
}

#[test]
fn unknown_frame_values_fall_back() {
    assert_eq!(parse_animation_type(0), AnimationType::Type0);
    assert_eq!(parse_animation_type(3), AnimationType::Type3);
    assert_eq!(parse_animation_type(7), AnimationType::Type1);
    assert_eq!(parse_frame_type(1), FrameType::Morphing);
    assert_eq!(parse_frame_type(-4), FrameType::Basic);
    assert_eq!(parse_mt_present(3), MultiTexturePresent::NotPresent);
}

#[test]
fn effect_textures_live_next_to_the_effect() {
    assert_eq!(effect_texture_prefix("lens\\flare.str"), "lens\\");
    assert_eq!(effect_texture_prefix("a\\b\\c.str"), "a\\b\\");
    assert_eq!(effect_texture_prefix("plain.str"), "");
    assert_eq!(effect_texture_prefix("워터\\flare.str"), "워터\\");
    assert_eq!(effect_texture_prefix("dir\\"), "dir\\");
}

#[test]
fn effect_prefix_split_counts_characters_as_bytes() {
    assert_eq!(effect_texture_prefix("a\\\u{e9}\u{e9}"), "a\\\u{e9}");
}

#[test]
fn frame_sizes_are_centered_and_odd() {
    assert_eq!(calculate_new_size(-10, 10, -3, 5), (11, 21));
    assert_eq!(calculate_new_size(-10, 11, -7, 5), (15, 23));
    assert_eq!(calculate_new_size(0, 0, 0, 0), (1, 1));
}

#[test]
fn surfaces_take_heights_from_their_neighbors() {
    assert_eq!(tile_surface_alignment(SurfaceType::Top)[0], ((0, 0), Heights::SouthWest));
    assert_eq!(tile_surface_alignment(SurfaceType::North)[3], ((1, 1), Heights::SouthEast));
    assert_eq!(tile_surface_alignment(SurfaceType::East)[1], ((1, 0), Heights::SouthEast));
    assert_eq!(neighbor_tile_index(SurfaceType::North), (0, 1));
    assert_eq!(neighbor_tile_index(SurfaceType::East), (1, 0));
}

#[test]
fn converted_media_names_append_their_extension() {
    assert_eq!(texture_file_dds_name("data\\texture\\a.bmp"), "data\\texture\\a.bmp.dds");
    assert_eq!(video_file_h264_name("data\\video\\intro.bik"), "data\\video\\intro.bik.h264");
    assert_eq!(get_target_filename("x.jpg", MediaType::Texture), "x.jpg.dds");
    assert_eq!(get_target_filename("x.bik", MediaType::Video), "x.bik.h264");
}

#[test]
fn archive_types_follow_the_path() {
    assert_eq!(get_archive_type_by_path("data.grf", false), Some(ArchiveType::Native));
    assert_eq!(get_archive_type_by_path("cache/lua.7z", false), Some(ArchiveType::SevenZip));
    assert_eq!(get_archive_type_by_path("data/", false), Some(ArchiveType::Folder));
    assert_eq!(get_archive_type_by_path("data", true), Some(ArchiveType::Folder));
    assert_eq!(get_archive_type_by_path("data.zip", false), None);
    assert_eq!(get_archive_type_by_path(".grf", false), None);
}

#[test]
fn file_table_rows_read_back() {
    let rows = vec![
        RawFileTableRow {
            file_name: b"data\\a.txt".to_vec(),
            compressed_size: 10,
            compressed_size_aligned: 16,
            uncompressed_size: 30,
            flags: 1,
            offset: 0,
        },
        RawFileTableRow {
            file_name: b"data\\b.bmp".to_vec(),
            compressed_size: 0x0102_0304,
            compressed_size_aligned: 7,
            uncompressed_size: 8,
            flags: 5,
            offset: 16,
        },
    ];
    let mut bytes = Vec::new();
    for row in &rows {
        write_row(&mut bytes, row);
    }
    assert_eq!(bytes.len(), 2 * (10 + 18));
    assert_eq!(parse_file_table(&bytes, 2), Some(rows.clone()));
    assert_eq!(parse_file_table(&bytes, 3), None);
    let (first, next) = read_row(&bytes, 0).unwrap();
    assert_eq!(first, rows[0]);
    assert_eq!(next, 28);
    assert_eq!(read_row(&bytes[..27], 0), None);
}

#[test]
fn asset_tables_read_back() {
    let table = AssetTable { compressed_size: 123, uncompressed_size: 456_789 };
    let bytes = table.to_bytes();
    assert_eq!(bytes, vec![123, 0, 0, 0, 0x55, 0xF8, 0x06, 0x00]);
    assert_eq!(AssetTable::from_bytes(&bytes), Some(table));
    assert_eq!(AssetTable::from_bytes(&bytes[..7]), None);
}

#[test]
fn model_textures_are_listed_once_in_order() {
    let own = vec![String::from("a.bmp"), String::from("b.bmp"), String::from("a.bmp")];
    let nodes = vec![
        vec![String::from("x.bmp"), String::from("y.bmp")],
        vec![String::from("y.bmp"), String::from("z.bmp"), String::from("x.bmp")],
        vec![],
    ];
    assert_eq!(collect_versioned_texture_names(2, 2, &own, &nodes), own);
    assert_eq!(collect_versioned_texture_names(1, 9, &own, &nodes), own);
    assert_eq!(collect_versioned_texture_names(2, 3, &own, &nodes), vec!["x.bmp", "y.bmp", "z.bmp"]);
    assert_eq!(collect_versioned_texture_names(3, 0, &own, &[]), Vec::<String>::new());
}
