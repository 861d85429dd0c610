//! Which previews and thumbnails a file gets, decided from its extension
//! and content type.

use vstd::prelude::*;

use crate::format::{human_size, size_text};
use crate::git_actions::{texts, word_list};
use crate::paths::{extension_of, path_extension};
use crate::text::{decimal, decimal_text, push_text, chars_of, contains, contains_text, begins_with, lower_all, owned, same_text, starts_with, to_ascii_lower};

verus! {

/// The extension of `path` in ASCII lowercase, empty when it has none.
pub open spec fn lower_extension(path: Seq<char>) -> Seq<char> {
    match path_extension(path) {
        Some(e) => lower_all(e),
        None => Seq::empty(),
    }
}

/// The extension of a path, ASCII-lowercased (empty when there is none).
pub fn extension(path: &str) -> (r: Vec<char>)
    ensures
        r@ == lower_extension(path@),
{
    match extension_of(path) {
        Some(e) => {
            let chars = chars_of(e.as_str());
            to_ascii_lower(&chars)
        },
        None => Vec::new(),
    }
}

/// Whether `e` spells the literal `word`.
fn is_word(e: &[char], word: &str) -> (r: bool)
    ensures
        r == (e@ == word@),
{
    let w = chars_of(word);
    same_text(e, &w)
}

/// Extensions decoded as raster images.
pub open spec fn raster_extension(e: Seq<char>) -> bool {
    ||| e == "bmp"@
    ||| e == "gif"@
    ||| e == "ico"@
    ||| e == "jpeg"@
    ||| e == "jpg"@
    ||| e == "png"@
    ||| e == "tif"@
    ||| e == "tiff"@
    ||| e == "webp"@
}

/// Extensions drawn as vector images.
pub open spec fn vector_extension(e: Seq<char>) -> bool {
    e == "svg"@ || e == "svgz"@
}

/// Extensions of paged documents.
pub open spec fn document_extension(e: Seq<char>) -> bool {
    ||| e == "pdf"@
    ||| e == "ps"@
    ||| e == "eps"@
    ||| e == "djvu"@
    ||| e == "xps"@
}

/// Extensions of sound files.
pub open spec fn audio_extension(e: Seq<char>) -> bool {
    ||| e == "mp3"@
    ||| e == "flac"@
    ||| e == "wav"@
    ||| e == "ogg"@
    ||| e == "m4a"@
    ||| e == "aac"@
    ||| e == "aiff"@
    ||| e == "opus"@
    ||| e == "wma"@
}

/// Extensions of video files.
pub open spec fn video_extension(e: Seq<char>) -> bool {
    ||| e == "mp4"@
    ||| e == "mkv"@
    ||| e == "webm"@
    ||| e == "mov"@
    ||| e == "avi"@
    ||| e == "m4v"@
}

/// Extensions of office files.
pub open spec fn office_extension(e: Seq<char>) -> bool {
    ||| e == "doc"@
    ||| e == "docx"@
    ||| e == "odt"@
    ||| e == "ods"@
    ||| e == "odp"@
    ||| e == "ppt"@
    ||| e == "pptx"@
    ||| e == "xls"@
    ||| e == "xlsx"@
}

/// How a thumbnail is made.
#[derive(Clone, Copy, PartialEq, Eq, Structural, Debug)]
pub enum Thumbnailer {
    /// Decoded and scaled in process.
    Raster,
    /// `rsvg-convert`.
    Vector,
    /// `evince-thumbnailer`.
    Document,
    /// A waveform drawn by `ffmpeg`.
    Audio,
    /// `ffmpegthumbnailer`.
    Video,
    /// `gsf-office-thumbnailer`.
    Office,
}

/// The thumbnailer for a lowercased extension, `None` when none applies.
pub open spec fn thumbnailer_of(e: Seq<char>) -> Option<Thumbnailer> {
    if raster_extension(e) {
        Some(Thumbnailer::Raster)
    } else if vector_extension(e) {
        Some(Thumbnailer::Vector)
    } else if document_extension(e) {
        Some(Thumbnailer::Document)
    } else if audio_extension(e) {
        Some(Thumbnailer::Audio)
    } else if video_extension(e) {
        Some(Thumbnailer::Video)
    } else if office_extension(e) {
        Some(Thumbnailer::Office)
    } else {
        None
    }
}

/// Whether the lowercased extension `e` names a raster image.
pub fn is_raster_extension(e: &[char]) -> (r: bool)
    ensures
        r == raster_extension(e@),
{
    is_word(e, "bmp") || is_word(e, "gif") || is_word(e, "ico") || is_word(e, "jpeg") || is_word(
        e,
        "jpg",
    ) || is_word(e, "png") || is_word(e, "tif") || is_word(e, "tiff") || is_word(e, "webp")
}

/// The thumbnailer for the lowercased extension `e` (see `thumbnailer_of`).
pub fn thumbnailer(e: &[char]) -> (r: Option<Thumbnailer>)
    ensures
        r == thumbnailer_of(e@),
{
    if is_raster_extension(e) {
        Some(Thumbnailer::Raster)
    } else if is_word(e, "svg") || is_word(e, "svgz") {
        Some(Thumbnailer::Vector)
    } else if is_word(e, "pdf") || is_word(e, "ps") || is_word(e, "eps") || is_word(e, "djvu")
        || is_word(e, "xps") {
        Some(Thumbnailer::Document)
    } else if is_word(e, "mp3") || is_word(e, "flac") || is_word(e, "wav") || is_word(e, "ogg")
        || is_word(e, "m4a") || is_word(e, "aac") || is_word(e, "aiff") || is_word(e, "opus")
        || is_word(e, "wma") {
        Some(Thumbnailer::Audio)
    } else if is_word(e, "mp4") || is_word(e, "mkv") || is_word(e, "webm") || is_word(e, "mov")
        || is_word(e, "avi") || is_word(e, "m4v") {
        Some(Thumbnailer::Video)
    } else if is_word(e, "doc") || is_word(e, "docx") || is_word(e, "odt") || is_word(e, "ods")
        || is_word(e, "odp") || is_word(e, "ppt") || is_word(e, "pptx") || is_word(e, "xls")
        || is_word(e, "xlsx") {
        Some(Thumbnailer::Office)
    } else {
        None
    }
}

/// Whether the file at `path` is a raster image, by its extension.
pub fn is_raster_image(path: &str) -> (r: bool)
    ensures
        r == raster_extension(lower_extension(path@)),
{
    let e = extension(path);
    is_raster_extension(&e)
}

/// Whether a thumbnail can be made for the file at `path`.
pub fn can_thumbnail(path: &str) -> (r: bool)
    ensures
        r == (thumbnailer_of(lower_extension(path@)) is Some),
{
    let e = extension(path);
    thumbnailer(&e).is_some()
}

/// The size handed to external thumbnailers: the larger side, at most 1600.
pub fn thumbnail_size(width: u32, height: u32) -> (r: u32)
    ensures
        r == if width >= height {
            if width < 1600 {
                width
            } else {
                1600
            }
        } else {
            if height < 1600 {
                height
            } else {
                1600
            }
        },
{
    let larger = if width >= height {
        width
    } else {
        height
    };
    if larger < 1600 {
        larger
    } else {
        1600
    }
}

/// Extensions previewed as text whatever their content type.
pub open spec fn text_extension(e: Seq<char>) -> bool {
    ||| e == "md"@
    ||| e == "rs"@
    ||| e == "toml"@
    ||| e == "json"@
    ||| e == "txt"@
    ||| e == "css"@
    ||| e == "js"@
    ||| e == "ts"@
    ||| e == "py"@
    ||| e == "sh"@
}

/// Whether a file of content type `ctype` at `path` is previewed as text:
/// a `text/` type, a type naming JSON or XML, or a known source extension
/// (compared as written, without lowercasing).
pub open spec fn textish(ctype: Seq<char>, path: Seq<char>) -> bool {
    ||| starts_with(ctype, "text/"@)
    ||| contains_text(ctype, "json"@)
    ||| contains_text(ctype, "xml"@)
    ||| match path_extension(path) {
        Some(e) => text_extension(e),
        None => false,
    }
}

/// Whether a file is previewed as text (see `textish`).
pub fn is_textish(ctype: &str, path: &str) -> (r: bool)
    ensures
        r == textish(ctype@, path@),
{
    let c = chars_of(ctype);
    if begins_with(&c, &chars_of("text/")) || contains(&c, &chars_of("json")) || contains(
        &c,
        &chars_of("xml"),
    ) {
        return true;
    }
    match extension_of(path) {
        Some(e) => {
            let e = chars_of(e.as_str());
            is_word(&e, "md") || is_word(&e, "rs") || is_word(&e, "toml") || is_word(&e, "json")
                || is_word(&e, "txt") || is_word(&e, "css") || is_word(&e, "js") || is_word(&e, "ts")
                || is_word(&e, "py") || is_word(&e, "sh")
        },
        None => false,
    }
}

/// The text of a folder's size: the measured size, else `"Unavailable"`
/// once measuring failed, else `"Measuring…"`.
pub fn folder_size_text(measured: Option<u64>, failed: bool) -> (r: String)
    ensures
        r@ == match measured {
            Some(n) => size_text(n as nat),
            None => if failed {
                "Unavailable"@
            } else {
                "Measuring…"@
            },
        },
{
    match measured {
        Some(n) => human_size(n),
        None => if failed {
            owned("Unavailable")
        } else {
            owned("Measuring…")
        },
    }
}

/// What the `image` crate makes of the file contents `bytes`: the format
/// read from the contents (else the one the extension `ext` names), the
/// picture decoded, scaled by `DynamicImage::thumbnail` to fit within
/// `width`×`height` keeping its proportions, and encoded as PNG; `None`
/// when any step fails.
pub uninterp spec fn png_thumbnail(bytes: Seq<u8>, ext: Seq<char>, width: u32, height: u32) -> Option<Seq<u8>>;

/// A PNG thumbnail of the picture in `bytes` (the `image` crate:
/// `ImageReader` with the format named by `ext`, replaced by the one its
/// contents show when they show one; `decode`; `DynamicImage::thumbnail`;
/// `write_to` as PNG).  The contract names the result; nothing is claimed
/// of the pixels.
#[verifier::external_body]
pub(crate) fn encode_thumbnail(bytes: &[u8], ext: &str, width: u32, height: u32) -> (r: Option<Vec<u8>>)
    requires
        width >= 1,
        height >= 1,
    ensures
        match r {
            Some(v) => png_thumbnail(bytes@, ext@, width, height) == Some(v@),
            None => png_thumbnail(bytes@, ext@, width, height) is None,
        },
{
    let mut reader = image::ImageReader::new(std::io::Cursor::new(bytes));
    if let Some(format) = image::ImageFormat::from_extension(ext) {
        reader.set_format(format);
    }
    let picture = reader.with_guessed_format().ok()?.decode().ok()?;
    let mut out = std::io::Cursor::new(Vec::new());
    picture.thumbnail(width, height).write_to(&mut out, image::ImageFormat::Png).ok()?;
    Some(out.into_inner())
}

/// The thumbnail of a raster picture read from `path` (its contents
/// `bytes`): the PNG `png_thumbnail` names for the contents, the path's
/// extension as the fallback format, and the requested size, each side at
/// least one pixel.
pub fn raster_thumbnail(bytes: &[u8], path: &str, width: u32, height: u32) -> (r: Option<Vec<u8>>)
    ensures
        ({
            let ext = match path_extension(path@) {
                Some(e) => e,
                None => Seq::empty(),
            };
            let w: u32 = if width > 1 {
                width
            } else {
                1
            };
            let h: u32 = if height > 1 {
                height
            } else {
                1
            };
            match r {
                Some(v) => png_thumbnail(bytes@, ext, w, h) == Some(v@),
                None => png_thumbnail(bytes@, ext, w, h) is None,
            }
        }),
{
    let ext = match extension_of(path) {
        Some(e) => e,
        None => String::new(),
    };
    let w: u32 = if width > 1 {
        width
    } else {
        1
    };
    let h: u32 = if height > 1 {
        height
    } else {
        1
    };
    encode_thumbnail(bytes, ext.as_str(), w, h)
}

/// The external thumbnailer run for a file of kind `kind`, as program and
/// arguments (none for raster pictures, which are scaled in process):
/// `rsvg-convert` for vector drawings, `evince-thumbnailer` for documents,
/// an `ffmpeg` waveform for audio, `ffmpegthumbnailer` for video and
/// `gsf-office-thumbnailer` for office files; `size` is `thumbnail_size`.
pub open spec fn command_of(
    kind: Thumbnailer,
    path: Seq<char>,
    output: Seq<char>,
    width: u32,
    height: u32,
) -> Option<(Seq<char>, Seq<Seq<char>>)> {
    let size = decimal(
        (if width >= height {
            if width < 1600 {
                width
            } else {
                1600
            }
        } else if height < 1600 {
            height
        } else {
            1600
        }) as nat,
    );
    match kind {
        Thumbnailer::Raster => None,
        Thumbnailer::Vector => Some(
            (
                "rsvg-convert"@,
                seq![
                    "--format"@,
                    "png"@,
                    "--keep-aspect-ratio"@,
                    "--width"@,
                    decimal(width as nat),
                    "--height"@,
                    decimal(height as nat),
                    "--output"@,
                    output,
                    path,
                ],
            ),
        ),
        Thumbnailer::Document => Some(("evince-thumbnailer"@, seq!["-s"@, size, path, output])),
        Thumbnailer::Audio => Some(
            (
                "ffmpeg"@,
                seq![
                    "-hide_banner"@,
                    "-loglevel"@,
                    "error"@,
                    "-y"@,
                    "-i"@,
                    path,
                    "-filter_complex"@,
                    "aformat=channel_layouts=mono,showwavespic=s="@ + decimal(width as nat) + "x"@
                        + decimal(height as nat) + ":colors=#8aa4ff"@,
                    "-frames:v"@,
                    "1"@,
                    output,
                ],
            ),
        ),
        Thumbnailer::Video => Some(
            (
                "ffmpegthumbnailer"@,
                seq!["-i"@, path, "-o"@, output, "-s"@, size, "-c"@, "png"@, "-t"@, "10%"@],
            ),
        ),
        Thumbnailer::Office => Some(
            ("gsf-office-thumbnailer"@, seq!["-i"@, path, "-o"@, output, "-s"@, size]),
        ),
    }
}

/// The external thumbnailer command for a file (see `command_of`).
pub fn thumbnailer_command(kind: Thumbnailer, path: &str, output: &str, width: u32, height: u32) -> (r: Option<
    (String, Vec<String>),
>)
    ensures
        match command_of(kind, path@, output@, width, height) {
            Some((program, args)) => r matches Some(c) && c.0@ == program && texts(c.1@) == args,
            None => r is None,
        },
{
    let size = decimal_text(thumbnail_size(width, height) as u64);
    let w = decimal_text(width as u64);
    let h = decimal_text(height as u64);
    match kind {
        Thumbnailer::Raster => None,
        Thumbnailer::Vector => {
            let args = word_list(
                &[
                    "--format",
                    "png",
                    "--keep-aspect-ratio",
                    "--width",
                    w.as_str(),
                    "--height",
                    h.as_str(),
                    "--output",
                    output,
                    path,
                ],
            );
            assert(texts(args@) == seq![
                "--format"@,
                "png"@,
                "--keep-aspect-ratio"@,
                "--width"@,
                decimal(width as nat),
                "--height"@,
                decimal(height as nat),
                "--output"@,
                output@,
                path@,
            ]);
            Some((owned("rsvg-convert"), args))
        },
        Thumbnailer::Document => {
            let args = word_list(&["-s", size.as_str(), path, output]);
            assert(texts(args@) == seq!["-s"@, size@, path@, output@]);
            Some((owned("evince-thumbnailer"), args))
        },
        Thumbnailer::Audio => {
            let mut filter = owned("aformat=channel_layouts=mono,showwavespic=s=");
            push_text(&mut filter, w.as_str());
            push_text(&mut filter, "x");
            push_text(&mut filter, h.as_str());
            push_text(&mut filter, ":colors=#8aa4ff");
            let args = word_list(
                &[
                    "-hide_banner",
                    "-loglevel",
                    "error",
                    "-y",
                    "-i",
                    path,
                    "-filter_complex",
                    filter.as_str(),
                    "-frames:v",
                    "1",
                    output,
                ],
            );
            assert(texts(args@) == seq![
                "-hide_banner"@,
                "-loglevel"@,
                "error"@,
                "-y"@,
                "-i"@,
                path@,
                "-filter_complex"@,
                filter@,
                "-frames:v"@,
                "1"@,
                output@,
            ]);
            Some((owned("ffmpeg"), args))
        },
        Thumbnailer::Video => {
            let args = word_list(&["-i", path, "-o", output, "-s", size.as_str(), "-c", "png", "-t", "10%"]);
            assert(texts(args@) == seq!["-i"@, path@, "-o"@, output@, "-s"@, size@, "-c"@, "png"@, "-t"@, "10%"@]);
            Some((owned("ffmpegthumbnailer"), args))
        },
        Thumbnailer::Office => {
            let args = word_list(&["-i", path, "-o", output, "-s", size.as_str()]);
            assert(texts(args@) == seq!["-i"@, path@, "-o"@, output@, "-s"@, size@]);
            Some((owned("gsf-office-thumbnailer"), args))
        },
    }
}

} // verus!
