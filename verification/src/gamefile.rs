//! Paths of game files.

use vstd::prelude::*;

use crate::archive::ArchiveType;
use crate::text::{chars_of, push_char};

verus! {

/// Whether `path` ends with a dot and the two characters `a` and `b`.
pub open spec fn ends_with_stub(path: Seq<char>, a: char, b: char) -> bool {
    path.len() >= 3 && path[path.len() - 3] == '.' && path[path.len() - 2] == a && path[path.len()
        - 1] == b
}

/// The path with a texture extension that lost its last letter completed:
/// `.bm` becomes `.bmp`, `.jp` becomes `.jpg`, `.pn` becomes `.png` and `.tg`
/// becomes `.tga`; any other path stays as it is.
pub open spec fn fixed_texture_path(path: Seq<char>) -> Seq<char> {
    if ends_with_stub(path, 'b', 'm') {
        path.push('p')
    } else if ends_with_stub(path, 'j', 'p') || ends_with_stub(path, 'p', 'n') {
        path.push('g')
    } else if ends_with_stub(path, 't', 'g') {
        path.push('a')
    } else {
        path
    }
}

/// Completes a texture extension that lost its last letter.
pub fn fix_broken_texture_file_endings(path: &str) -> (fixed: String)
    ensures
        fixed@ == fixed_texture_path(path@),
{
    let chars = chars_of(path);
    let mut fixed = path.to_owned();
    let n = chars.len();
    if n >= 3 && chars[n - 3] == '.' {
        let a = chars[n - 2];
        let b = chars[n - 1];
        if a == 'b' && b == 'm' {
            push_char(&mut fixed, 'p');
        } else if (a == 'j' && b == 'p') || (a == 'p' && b == 'n') {
            push_char(&mut fixed, 'g');
        } else if a == 't' && b == 'g' {
            push_char(&mut fixed, 'a');
        }
    }
    fixed
}

/// Completing an extension once is enough: a fixed path stays as it is.
pub proof fn lemma_fixed_texture_path_idempotent(path: Seq<char>)
    ensures
        fixed_texture_path(fixed_texture_path(path)) == fixed_texture_path(path),
{
}

/// The kinds of media that the cache converts.
#[derive(Clone, Copy, Debug, PartialEq, Eq, Structural)]
pub enum MediaType {
    Texture,
    Video,
}

/// The name of the converted texture of an image file: `.dds` appended.
pub fn texture_file_dds_name(image_file_name: &str) -> (name: String)
    ensures
        name@ == image_file_name@ + seq!['.', 'd', 'd', 's'],
{
    let mut name = image_file_name.to_owned();
    push_char(&mut name, '.');
    push_char(&mut name, 'd');
    push_char(&mut name, 'd');
    push_char(&mut name, 's');
    assert(name@ =~= image_file_name@ + seq!['.', 'd', 'd', 's']);
    name
}

/// The name of the converted video of a BIK file: `.h264` appended.
pub fn video_file_h264_name(bik_file_name: &str) -> (name: String)
    ensures
        name@ == bik_file_name@ + seq!['.', 'h', '2', '6', '4'],
{
    let mut name = bik_file_name.to_owned();
    push_char(&mut name, '.');
    push_char(&mut name, 'h');
    push_char(&mut name, '2');
    push_char(&mut name, '6');
    push_char(&mut name, '4');
    assert(name@ =~= bik_file_name@ + seq!['.', 'h', '2', '6', '4']);
    name
}

/// The name a converted media file is cached under.
pub fn get_target_filename(source_file: &str, media_type: MediaType) -> (name: String)
    ensures
        name@ == match media_type {
            MediaType::Texture => source_file@ + seq!['.', 'd', 'd', 's'],
            MediaType::Video => source_file@ + seq!['.', 'h', '2', '6', '4'],
        },
{
    match media_type {
        MediaType::Texture => texture_file_dds_name(source_file),
        MediaType::Video => video_file_h264_name(source_file),
    }
}

/// The position of the last slash before `end`, or -1 where there is none.
pub open spec fn last_slash(path: Seq<char>, end: int) -> int
    decreases end,
{
    if end <= 0 {
        -1
    } else if path[end - 1] == '/' {
        end - 1
    } else {
        last_slash(path, end - 1)
    }
}

/// The last slash before `end` lies before it.
pub proof fn lemma_last_slash_below(path: Seq<char>, end: int)
    ensures
        -1 <= last_slash(path, end) < if end > 0 { end } else { 0 },
    decreases end,
{
    if end > 0 && path[end - 1] != '/' {
        lemma_last_slash_below(path, end - 1);
    }
}

/// The file name of the slash-separated path `path.take(end)`: its last
/// part that is neither empty nor `.`, where that part is not `..`.
pub open spec fn file_name_before(path: Seq<char>, end: int) -> Option<Seq<char>>
    decreases end,
{
    if end <= 0 {
        None
    } else {
        let slash = last_slash(path, end);
        proof {
            lemma_last_slash_below(path, end);
        }
        let part = path.subrange(slash + 1, end);
        if part.len() == 0 || part == seq!['.'] {
            if slash < 0 {
                None
            } else {
                file_name_before(path, slash)
            }
        } else if part == seq!['.', '.'] {
            None
        } else {
            Some(part)
        }
    }
}

/// The position of the last dot before `end`, or -1 where there is none.
pub open spec fn last_dot(name: Seq<char>, end: int) -> int
    decreases end,
{
    if end <= 0 {
        -1
    } else if name[end - 1] == '.' {
        end - 1
    } else {
        last_dot(name, end - 1)
    }
}

/// The extension of a slash-separated path: the part of its file name after
/// the last dot, where there is a dot that does not start the name.
pub open spec fn path_extension(path: Seq<char>) -> Option<Seq<char>> {
    match file_name_before(path, path.len() as int) {
        Some(name) => {
            let dot = last_dot(name, name.len() as int);
            if dot <= 0 {
                None
            } else {
                Some(name.subrange(dot + 1, name.len() as int))
            }
        },
        None => None,
    }
}

/// Whether `path` starts with a drive (an ASCII letter and a colon).
pub open spec fn has_drive(path: Seq<char>) -> bool {
    path.len() >= 2 && path[1] == ':' && (('a' <= path[0] && path[0] <= 'z') || ('A' <= path[0] && path[0] <= 'Z'))
}

/// Whether every platform reads `path` alike: it holds no backslash, starts
/// with no drive and not with two slashes, so that only slashes separate it
/// and no platform finds a prefix in it.
pub open spec fn is_portable(path: Seq<char>) -> bool {
    &&& !path.contains('\\')
    &&& !has_drive(path)
    &&& !(path.len() >= 2 && path[0] == '/' && path[1] == '/')
}

/// The extension of `path` by `std::path::Path::extension`, as a string.
/// Where the platform's separators and prefixes may matter (a backslash, a
/// leading drive or two leading slashes) nothing is claimed of it; for any
/// other path it is claimed to be `path_extension` of the path: the file name
/// is the last component that `Path::components` yields as a name, and its
/// extension is what follows its last dot, unless that dot starts the name.
#[verifier::external_body]
fn extension_of(path: &str) -> (extension: Option<String>)
    ensures
        is_portable(path@) ==> match extension {
            Some(e) => path_extension(path@) == Some(e@),
            None => path_extension(path@) is None,
        },
{
    std::path::Path::new(path).extension().map(|e| e.to_string_lossy().into_owned())
}

/// The extension of `path` as the platform reads it; on a path that every
/// platform reads alike, its `path_extension`.
pub fn file_extension(path: &str) -> (extension: Option<String>)
    ensures
        is_portable(path@) ==> match extension {
            Some(e) => path_extension(path@) == Some(e@),
            None => path_extension(path@) is None,
        },
{
    extension_of(path)
}

/// The extension, as characters, that `extension` holds.
pub open spec fn extension_chars(extension: Option<String>) -> Option<Seq<char>> {
    match extension {
        Some(e) => Some(e@),
        None => None,
    }
}

/// The kind of archive at `path`, whose extension is `extension`: a folder
/// where it is a directory (as `is_dir` tells) or ends with a slash, a GRF
/// file for the `grf` extension, a 7z archive for `7z`; `None` for anything
/// else, which the client refuses.
pub open spec fn archive_type_for(path: Seq<char>, is_dir: bool, extension: Option<Seq<char>>) -> Option<ArchiveType> {
    if is_dir || (path.len() > 0 && path.last() == '/') {
        Some(ArchiveType::Folder)
    } else if extension == Some(seq!['g', 'r', 'f']) {
        Some(ArchiveType::Native)
    } else if extension == Some(seq!['7', 'z']) {
        Some(ArchiveType::SevenZip)
    } else {
        None
    }
}

/// The kind of archive at `path`, given whether it is a directory and the
/// extension the platform reads in it.
pub fn archive_type_for_extension(path: &str, is_dir: bool, extension: &Option<String>) -> (archive_type: Option<ArchiveType>)
    ensures
        archive_type == archive_type_for(path@, is_dir, extension_chars(*extension)),
{
    let chars = chars_of(path);
    if is_dir || (chars.len() > 0 && chars[chars.len() - 1] == '/') {
        return Some(ArchiveType::Folder);
    }
    match extension {
        Some(extension) => {
            let e = chars_of(extension.as_str());
            if e.len() == 3 && e[0] == 'g' && e[1] == 'r' && e[2] == 'f' {
                assert(extension@ =~= seq!['g', 'r', 'f']);
                Some(ArchiveType::Native)
            } else if e.len() == 2 && e[0] == '7' && e[1] == 'z' {
                assert(extension@ =~= seq!['7', 'z']);
                assert(extension@ != seq!['g', 'r', 'f']);
                Some(ArchiveType::SevenZip)
            } else {
                assert(extension@ != seq!['g', 'r', 'f']) by {
                    if extension@ == seq!['g', 'r', 'f'] {
                        assert(e@[0] == 'g' && e@[1] == 'r' && e@[2] == 'f');
                    }
                }
                assert(extension@ != seq!['7', 'z']) by {
                    if extension@ == seq!['7', 'z'] {
                        assert(e@[0] == '7' && e@[1] == 'z');
                    }
                }
                None
            }
        },
        None => None,
    }
}

/// The kind of archive at `path`, by the extension the platform reads in it.
pub fn get_archive_type_by_path(path: &str, is_dir: bool) -> (archive_type: Option<ArchiveType>)
    ensures
        exists|extension: Option<Seq<char>>|
            archive_type == archive_type_for(path@, is_dir, extension) && (is_portable(path@) ==> extension
                == path_extension(path@)),
{
    let extension = file_extension(path);
    let archive_type = archive_type_for_extension(path, is_dir, &extension);
    assert(archive_type == archive_type_for(path@, is_dir, extension_chars(extension)));
    archive_type
}

} // verus!
