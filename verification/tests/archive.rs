use korangar::archive::{
    get_parent_directories, os_specific_path, path_for_separator, ArchiveType, Compression, FileTableRow, FolderArchive, Header, Writable,
    GRF_VERSION, HEADER_SIZE,
};
use korangar::gamefile::fix_broken_texture_file_endings;
use korangar::map::get_water_texture_paths;
use korangar::file_table::{parse_file_table, AssetTable};
use korangar::gamefile::{archive_type_for_extension, file_extension, get_archive_type_by_path};
use korangar::native_archive::{
    add_asset_to_file_table, archive_file_table, finished_archive, latest_file_table_rows, decompress_file_table, file_table_entry, is_plain_lua_file,
    raw_file_table_row, unpack_file, NativeArchiveBuilder,
};
use korangar::archive::{stored_folder_bytes, stored_folder_path};
use korangar::text::ends_with;
use std::io::Write;

#[test]
fn header_bytes_read_back_to_the_header() {
    let header = Header::new(0x1234_5678, 3, 42, GRF_VERSION);
    let bytes = header.to_bytes();
    assert_eq!(bytes.len(), HEADER_SIZE);
    assert_eq!(&bytes[14..18], &[0x78, 0x56, 0x34, 0x12]);
    assert_eq!(Header::from_bytes(&bytes), Some(header));
    header.validate_version();
}

#[test]
fn short_header_bytes_are_refused() {
    assert_eq!(Header::from_bytes(&[0u8; HEADER_SIZE - 1]), None);
}

#[test]
fn file_count_leaves_out_reserved_and_the_seven_extra_entries() {
    let header = Header::new(100, 2, 19, GRF_VERSION);
    assert_eq!(header.get_file_count(), 10);
    assert_eq!(header.get_file_table_offset(), 100);
}

#[test]
fn backslashes_become_slashes() {
    assert_eq!(os_specific_path("data\\texture\\angel.bmp"), "data/texture/angel.bmp");
    assert_eq!(os_specific_path("plain"), "plain");
    assert_eq!(os_specific_path("워터\\water"), "워터/water");
}

#[test]
fn parent_directories_are_listed_outermost_first() {
    assert_eq!(get_parent_directories("a/b/c.txt"), vec!["a", "a/b"]);
    assert_eq!(get_parent_directories("file.txt"), Vec::<String>::new());
    assert_eq!(get_parent_directories("/a/b"), vec!["/a"]);
    assert_eq!(get_parent_directories("a//b"), vec!["a", "a/"]);
}

#[test]
fn broken_texture_endings_are_completed() {
    assert_eq!(fix_broken_texture_file_endings("texture\\a.bm"), "texture\\a.bmp");
    assert_eq!(fix_broken_texture_file_endings("texture\\a.jp"), "texture\\a.jpg");
    assert_eq!(fix_broken_texture_file_endings("texture\\a.pn"), "texture\\a.png");
    assert_eq!(fix_broken_texture_file_endings("texture\\a.tg"), "texture\\a.tga");
    assert_eq!(fix_broken_texture_file_endings("texture\\a.bmp"), "texture\\a.bmp");
    assert_eq!(fix_broken_texture_file_endings("bm"), "bm");
}

#[test]
fn fixing_a_fixed_path_changes_nothing() {
    let once = fix_broken_texture_file_endings("a.jp");
    assert_eq!(fix_broken_texture_file_endings(&once), once);
}

#[test]
fn water_textures_have_thirty_two_frames() {
    let paths = get_water_texture_paths(2);
    assert_eq!(paths.len(), 32);
    assert_eq!(paths[0], "워터\\water200.jpg");
    assert_eq!(paths[5], "워터\\water205.jpg");
    assert_eq!(paths[31], "워터\\water231.jpg");
    assert_eq!(get_water_texture_paths(-1)[10], "워터\\water-110.jpg");
    assert_eq!(get_water_texture_paths(12)[9], "워터\\water1209.jpg");
}

#[test]
fn folder_asset_keys_use_backslashes_lowercase_and_drop_gz() {
    assert_eq!(FolderArchive::asset_key("Texture/Data/Angel.str.gz"), "texture\\data\\angel.str");
    assert_eq!(FolderArchive::asset_key("data/Sprite.spr"), "data\\sprite.spr");
    assert_eq!(FolderArchive::asset_key("gz"), "gz");
}

#[test]
fn stored_assets_unpack_to_their_data() {
    let data = b"the same bytes, the same bytes, the same bytes".to_vec();
    let mut offset = 100;
    let (row, stored) = add_asset_to_file_table(&mut offset, "data\\a.txt", data.clone(), true).unwrap();
    assert_eq!(row.offset, 100);
    assert_eq!(offset, 100 + stored.len() as u32);
    assert_eq!(row.compressed_size as usize, stored.len());
    assert_eq!(row.uncompressed_size as usize, data.len());
    assert_eq!(row.flags, 1);
    assert_eq!(row.file_name, "data\\a.txt");
    assert_ne!(stored, data);
    assert_eq!(unpack_file(&row, stored), Some(data));
}

#[test]
fn uncompressed_assets_are_stored_as_they_are() {
    let mut offset = 0;
    let (row, stored) = add_asset_to_file_table(&mut offset, "b", vec![1, 2, 3], false).unwrap();
    assert_eq!(stored, vec![1, 2, 3]);
    assert_eq!(offset, 3);
    assert_eq!(row.compressed_size, 3);
}

#[test]
fn offsets_past_the_limit_are_refused() {
    let mut offset = u32::MAX - 1;
    assert!(add_asset_to_file_table(&mut offset, "c", vec![1, 2, 3], false).is_none());
    assert_eq!(offset, u32::MAX - 1);
}

#[test]
fn bytes_that_are_not_zlib_do_not_unpack() {
    let row = FileTableRow {
        file_name: String::from("x"),
        compressed_size: 4,
        compressed_size_aligned: 4,
        uncompressed_size: 4,
        flags: 1,
        offset: 0,
    };
    assert_eq!(unpack_file(&row, vec![1, 2, 3, 4]), None);
}

#[test]
fn the_builder_queues_assets_in_order() {
    let mut builder = NativeArchiveBuilder::from_path("out/data.grf");
    builder.add_file("a", vec![1], Compression::No);
    builder.add_file("b", vec![2, 3], Compression::Fast);
    assert_eq!(builder.os_file_path, "out/data.grf");
    assert_eq!(builder.archive_entries.len(), 2);
    assert_eq!(builder.archive_entries[0].path, "a");
    assert!(!builder.archive_entries[0].compress);
    assert!(builder.archive_entries[1].compress);
    assert_eq!(builder.archive_entries[1].asset_data, vec![2, 3]);
}

#[test]
fn compressions_are_ordered() {
    assert!(Compression::No < Compression::Slow);
    assert!(Compression::Slow < Compression::Fast);
    assert_ne!(ArchiveType::Folder, ArchiveType::Native);
}

#[test]
fn gzip_files_of_a_folder_are_decompressed() {
    let mut encoder = flate2::write::GzEncoder::new(Vec::new(), flate2::Compression::fast());
    encoder.write_all(b"folder asset").unwrap();
    let gz = encoder.finish().unwrap();

    assert_eq!(FolderArchive::unpack_file("data/a.txt.gz", gz.clone()), Some(b"folder asset".to_vec()));
    assert_eq!(FolderArchive::unpack_file("data/a.txt", gz.clone()), Some(gz));
    assert_eq!(FolderArchive::unpack_file("data/b.gz", vec![1, 2, 3]), None);
}

#[test]
fn file_table_sections_read_back() {
    let entries = vec![
        FileTableRow {
            file_name: String::from("data\\a.txt"),
            compressed_size: 3,
            compressed_size_aligned: 8,
            uncompressed_size: 5,
            flags: 1,
            offset: 0,
        },
        FileTableRow {
            file_name: String::from("data\\워터.jpg"),
            compressed_size: 9,
            compressed_size_aligned: 16,
            uncompressed_size: 12,
            flags: 1,
            offset: 8,
        },
    ];
    let (section, count) = archive_file_table(&entries).unwrap();
    assert_eq!(count, 9);
    let asset_table = AssetTable::from_bytes(&section).unwrap();
    assert_eq!(asset_table.compressed_size as usize, section.len() - 8);
    let table = decompress_file_table(&section[8..]).unwrap();
    assert_eq!(asset_table.uncompressed_size as usize, table.len());
    let rows = parse_file_table(&table, 2).unwrap();
    assert_eq!(rows[0], raw_file_table_row(&entries[0]));
    let entry = file_table_entry(&rows[1]);
    assert_eq!(entry.file_name, "data\\워터.jpg");
    assert_eq!(entry.offset, 8);
    let shouting = raw_file_table_row(&FileTableRow {
        file_name: String::from("DATA\\A.TXT"),
        compressed_size: 3,
        compressed_size_aligned: 8,
        uncompressed_size: 5,
        flags: 1,
        offset: 0,
    });
    assert_eq!(file_table_entry(&shouting).file_name, "data\\a.txt");
}

#[test]
fn lua_files_are_recognised_by_name_and_flags() {
    assert!(is_plain_lua_file("data\\luafiles514\\lua files\\a.lub", 1));
    assert!(!is_plain_lua_file("data\\a.lub", 3));
    assert!(!is_plain_lua_file("data\\a.lua", 1));
    assert!(!is_plain_lua_file("lub", 1));
}

#[test]
fn folder_assets_are_gzipped_as_asked() {
    let data = b"folder asset, folder asset, folder asset".to_vec();
    assert_eq!(stored_folder_bytes(data.clone(), Compression::No), Some(data.clone()));
    for compression in [Compression::Slow, Compression::Fast] {
        let stored = stored_folder_bytes(data.clone(), compression).unwrap();
        assert_ne!(stored, data);
        assert_eq!(FolderArchive::unpack_file("a.txt.gz", stored), Some(data.clone()));
    }
}

#[test]
fn folder_asset_paths_gain_gz() {
    assert_eq!(stored_folder_path("data/a.txt", Compression::No), "data/a.txt");
    assert_eq!(stored_folder_path("data/a.txt", Compression::Fast), "data/a.txt.gz");
    assert_eq!(stored_folder_path("data/a", Compression::Slow), "data/a..gz");
    assert_eq!(stored_folder_path("data/.hidden", Compression::Slow), "data/.hidden..gz");
}

#[test]
fn extensions_of_plain_paths() {
    assert_eq!(file_extension("a/b.tar.gz/."), Some(String::from("gz")));
    assert_eq!(file_extension("a/.."), None);
    assert_eq!(file_extension("a."), Some(String::new()));
    assert_eq!(file_extension("data/.hidden"), None);
    assert_eq!(file_extension("data/map.gat"), Some(String::from("gat")));
}

#[test]
fn archive_types_follow_the_extension() {
    assert_eq!(archive_type_for_extension("data.grf", false, &Some(String::from("grf"))), Some(ArchiveType::Native));
    assert_eq!(archive_type_for_extension("data.GRF", false, &Some(String::from("GRF"))), None);
    assert_eq!(archive_type_for_extension("data/", false, &None), Some(ArchiveType::Folder));
    assert_eq!(archive_type_for_extension("data", true, &None), Some(ArchiveType::Folder));
    assert_eq!(archive_type_for_extension("data.zip", false, &Some(String::from("zip"))), None);
    assert_eq!(get_archive_type_by_path("games/data.grf", false), Some(ArchiveType::Native));
}

#[test]
fn paths_follow_the_separator() {
    assert_eq!(path_for_separator("data\\texture\\a.bmp", '\\'), "data\\texture\\a.bmp");
    assert_eq!(path_for_separator("data\\texture\\a.bmp", '/'), "data/texture/a.bmp");
    assert_eq!(path_for_separator("", '/'), "");
}

#[test]
fn suffixes_are_matched_at_the_end() {
    assert!(ends_with("data\\a.lub", ".lub"));
    assert!(ends_with("x", ""));
    assert!(!ends_with("a.lu", ".lub"));
    assert!(!ends_with("lub", ".lub"));
}

fn table_row(name: &str, offset: u32) -> FileTableRow {
    FileTableRow {
        file_name: String::from(name),
        compressed_size: 4,
        compressed_size_aligned: 4,
        uncompressed_size: 4,
        flags: 1,
        offset,
    }
}

#[test]
fn a_file_added_again_replaces_its_row() {
    let rows = vec![table_row("a", 0), table_row("b", 4), table_row("a", 8), table_row("c", 12)];
    let latest = latest_file_table_rows(rows);
    let kept: Vec<(&str, u32)> = latest.iter().map(|row| (row.file_name.as_str(), row.offset)).collect();
    assert_eq!(kept, vec![("b", 4), ("a", 8), ("c", 12)]);
    assert!(latest_file_table_rows(Vec::new()).is_empty());
}

#[test]
fn finished_archives_count_each_file_once() {
    let rows = vec![table_row("a", 0), table_row("a", 4), table_row("b", 8)];
    let (header, section) = finished_archive(rows, 12).unwrap();
    assert_eq!(header.file_table_offset, 12);
    assert_eq!(header.reserved_files, 0);
    assert_eq!(header.file_count, 9);
    assert_eq!(header.version, GRF_VERSION);
    assert_eq!(header.get_file_count(), 2);
    let table = decompress_file_table(&section[8..]).unwrap();
    let parsed = parse_file_table(&table, 2).unwrap();
    assert_eq!(parsed[0], raw_file_table_row(&table_row("a", 4)));
    assert_eq!(parsed[1], raw_file_table_row(&table_row("b", 8)));
}
