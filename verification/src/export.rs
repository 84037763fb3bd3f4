//! Export: file-name and destination checks, format names, and the bytes an
//! export writes. The application writes them to disk.
use vstd::prelude::*;

use crate::codec::{
    base64_encode, decode_base64, deterministic_format, encode_rgba_image, encoded_rgba_image, image_decodes,
    is_base64, transcode_image, transcoded_image, ImageFormatKind, RgbaEncodeError, TranscodeError,
};
use crate::text::{
    ascii_lower, chars_of, contains, contains_seq, has_prefix, is_err_with, joined, owned,
    str_eq, string_from_chars, sub_chars, to_ascii_lower, trim, trim_bounds,
};

verus! {

broadcast use vstd::string::group_string_axioms;

// ---------------------------------------------------------------------------
// Paths (std)
// ---------------------------------------------------------------------------
/// What `Path::file_name` answers for a path, as a string.
pub uninterp spec fn path_file_name(path: Seq<char>) -> Option<Seq<char>>;

/// What `Path::is_absolute` answers for a path.
pub uninterp spec fn path_is_absolute(path: Seq<char>) -> bool;

/// Calls `std::path::Path::file_name` (and reads the name back as UTF-8, which
/// always succeeds for a name taken from a string). The platform's path rules
/// are not stated; the answer is named by `path_file_name`.
#[verifier::external_body]
pub(crate) fn file_name_of(path: &str) -> (r: Option<String>)
    ensures
        match r {
            Some(n) => path_file_name(path@) == Some(n@),
            None => path_file_name(path@) is None,
        },
{
    std::path::Path::new(path).file_name().and_then(|n| n.to_str()).map(|n| n.to_string())
}

/// Calls `std::path::Path::is_absolute`; the platform's rule is named by
/// `path_is_absolute`.
#[verifier::external_body]
fn is_absolute_path(path: &str) -> (r: bool)
    ensures
        r == path_is_absolute(path@),
{
    std::path::Path::new(path).is_absolute()
}

/// What `Path::extension` answers for a path, as a string.
pub uninterp spec fn path_extension(path: Seq<char>) -> Option<Seq<char>>;

/// Calls `std::path::Path::extension` (read back as UTF-8, which always succeeds
/// for a part of a string). The platform's path rules are not stated; the answer
/// is named by `path_extension`.
#[verifier::external_body]
pub(crate) fn extension_of(path: &str) -> (r: Option<String>)
    ensures
        match r {
            Some(e) => path_extension(path@) == Some(e@),
            None => path_extension(path@) is None,
        },
{
    std::path::Path::new(path).extension().and_then(|e| e.to_str()).map(|e| e.to_string())
}

/// A usable file name: the path's final component, non-empty and without "..".
pub open spec fn usable_file_name(path: Seq<char>) -> Option<Seq<char>> {
    match path_file_name(path) {
        Some(n) => if n.len() > 0 && !contains_seq(n, ".."@) {
            Some(n)
        } else {
            None
        },
        None => None,
    }
}

/// The message of an unusable file name.
pub open spec fn invalid_file_name_message() -> Seq<char> {
    "文件名无效"@
}

fn usable_file_name_of(path: &str) -> (r: Option<String>)
    ensures
        match r {
            Some(n) => usable_file_name(path@) == Some(n@),
            None => usable_file_name(path@) is None,
        },
{
    match file_name_of(path) {
        Some(n) => {
            let v = chars_of(n.as_str());
            if v.len() > 0 && !contains(&v, &chars_of("..")) {
                Some(n)
            } else {
                None
            }
        },
        None => None,
    }
}

/// The file name part of `filename`, refused when empty or holding "..".
pub fn sanitize_filename(filename: &str) -> (r: Result<String, String>)
    ensures
        match usable_file_name(filename@) {
            Some(n) => r matches Ok(s) && s@ == n,
            None => is_err_with(r, invalid_file_name_message()),
        },
{
    match usable_file_name_of(filename) {
        Some(n) => Ok(n),
        None => Err(owned("文件名无效")),
    }
}

/// A destination must be absolute and end in a usable file name.
pub fn validate_dest_path(path: &str) -> (r: Result<String, String>)
    ensures
        !dest_ok(path@) ==> is_err_with(r, dest_error(path@)),
        dest_ok(path@) ==> (r matches Ok(p) && p@ == path@),
{
    if !is_absolute_path(path) {
        return Err(owned("保存路径无效"));
    }
    if usable_file_name_of(path).is_none() {
        return Err(owned("文件名无效"));
    }
    Ok(owned(path))
}

// ---------------------------------------------------------------------------
// Formats and payloads
// ---------------------------------------------------------------------------
/// The format a (lower-cased) name stands for.
pub open spec fn format_named(name: Seq<char>) -> Option<ImageFormatKind> {
    if name == "png"@ {
        Some(ImageFormatKind::Png)
    } else if name == "jpeg"@ || name == "jpg"@ {
        Some(ImageFormatKind::Jpeg)
    } else if name == "webp"@ {
        Some(ImageFormatKind::WebP)
    } else if name == "gif"@ {
        Some(ImageFormatKind::Gif)
    } else if name == "bmp"@ {
        Some(ImageFormatKind::Bmp)
    } else if name == "tiff"@ || name == "tif"@ {
        Some(ImageFormatKind::Tiff)
    } else if name == "ico"@ {
        Some(ImageFormatKind::Ico)
    } else if name == "avif"@ {
        Some(ImageFormatKind::Avif)
    } else {
        None
    }
}

/// The format names the export tools accept, each with its format.
pub open spec fn image_format_names() -> Seq<(Seq<char>, ImageFormatKind)> {
    seq![
        ("png"@, ImageFormatKind::Png),
        ("jpeg"@, ImageFormatKind::Jpeg),
        ("jpg"@, ImageFormatKind::Jpeg),
        ("webp"@, ImageFormatKind::WebP),
        ("gif"@, ImageFormatKind::Gif),
        ("bmp"@, ImageFormatKind::Bmp),
        ("tiff"@, ImageFormatKind::Tiff),
        ("tif"@, ImageFormatKind::Tiff),
        ("ico"@, ImageFormatKind::Ico),
        ("avif"@, ImageFormatKind::Avif),
    ]
}

/// Format names mean what the table says: every name of the table, in any
/// ASCII case, stands for its format, and no other name stands for a format.
pub proof fn lemma_format_names(name: Seq<char>)
    ensures
        forall|i: int|
            0 <= i < image_format_names().len() ==> format_named(#[trigger] image_format_names()[i].0)
                == Some(image_format_names()[i].1),
        format_named(name) is Some ==> exists|i: int|
            0 <= i < image_format_names().len() && #[trigger] image_format_names()[i].0 == name,
{
    reveal_strlit("png");
    reveal_strlit("jpeg");
    reveal_strlit("jpg");
    reveal_strlit("webp");
    reveal_strlit("gif");
    reveal_strlit("bmp");
    reveal_strlit("tiff");
    reveal_strlit("tif");
    reveal_strlit("ico");
    reveal_strlit("avif");
    let t = image_format_names();
    assert("png"@.len() == 3 && "png"@[0] == 'p');
    assert("jpeg"@.len() == 4 && "jpeg"@[0] == 'j');
    assert("jpg"@.len() == 3 && "jpg"@[0] == 'j');
    assert("webp"@.len() == 4 && "webp"@[0] == 'w');
    assert("gif"@.len() == 3 && "gif"@[0] == 'g');
    assert("bmp"@.len() == 3 && "bmp"@[0] == 'b');
    assert("tiff"@.len() == 4 && "tiff"@[0] == 't');
    assert("tif"@.len() == 3 && "tif"@[0] == 't');
    assert("ico"@.len() == 3 && "ico"@[0] == 'i');
    assert("avif"@.len() == 4 && "avif"@[0] == 'a');
    assert(format_named(t[0].0) == Some(t[0].1));
    assert(format_named(t[1].0) == Some(t[1].1));
    assert(format_named(t[2].0) == Some(t[2].1));
    assert(format_named(t[3].0) == Some(t[3].1));
    assert(format_named(t[4].0) == Some(t[4].1));
    assert(format_named(t[5].0) == Some(t[5].1));
    assert(format_named(t[6].0) == Some(t[6].1));
    assert(format_named(t[7].0) == Some(t[7].1));
    assert(format_named(t[8].0) == Some(t[8].1));
    assert(format_named(t[9].0) == Some(t[9].1));
    assert forall|i: int| 0 <= i < t.len() implies format_named(#[trigger] t[i].0) == Some(t[i].1) by {
        assert(0 <= i < 10);
    }
    if format_named(name) is Some {
        if name == t[0].0 {
        } else if name == t[1].0 {
        } else if name == t[2].0 {
        } else if name == t[3].0 {
        } else if name == t[4].0 {
        } else if name == t[5].0 {
        } else if name == t[6].0 {
        } else if name == t[7].0 {
        } else if name == t[8].0 {
        } else {
            assert(name == t[9].0);
        }
    }
}

/// The image format a name stands for, ignoring ASCII case.
pub fn parse_image_format(format: &str) -> (r: Result<ImageFormatKind, String>)
    ensures
        forall|i: int|
            0 <= i < image_format_names().len() && ascii_lower(format@)
                == #[trigger] image_format_names()[i].0 ==> r == Ok::<ImageFormatKind, String>(
                image_format_names()[i].1,
            ),
        r is Ok ==> exists|i: int|
            0 <= i < image_format_names().len() && #[trigger] image_format_names()[i].0
                == ascii_lower(format@),
        match format_named(ascii_lower(format@)) {
            Some(k) => r == Ok::<ImageFormatKind, String>(k),
            None => is_err_with(r, "不支持的图片格式: "@ + ascii_lower(format@)),
        },
{
    proof {
        lemma_format_names(ascii_lower(format@));
    }
    let lower = string_from_chars(&to_ascii_lower(&chars_of(format)));
    let l = lower.as_str();
    if str_eq(l, "png") {
        Ok(ImageFormatKind::Png)
    } else if str_eq(l, "jpeg") || str_eq(l, "jpg") {
        Ok(ImageFormatKind::Jpeg)
    } else if str_eq(l, "webp") {
        Ok(ImageFormatKind::WebP)
    } else if str_eq(l, "gif") {
        Ok(ImageFormatKind::Gif)
    } else if str_eq(l, "bmp") {
        Ok(ImageFormatKind::Bmp)
    } else if str_eq(l, "tiff") || str_eq(l, "tif") {
        Ok(ImageFormatKind::Tiff)
    } else if str_eq(l, "ico") {
        Ok(ImageFormatKind::Ico)
    } else if str_eq(l, "avif") {
        Ok(ImageFormatKind::Avif)
    } else {
        Err(joined("不支持的图片格式: ", l))
    }
}

/// The prefix of the message of a payload that is not base64.
pub open spec fn bad_payload_prefix() -> Seq<char> {
    "解码图片数据失败: "@
}

/// Decodes a standard base64 payload after trimming white space around it.
pub fn decode_base64_payload(content_base64: &str) -> (r: Result<Vec<u8>, String>)
    ensures
        match r {
            Ok(b) => base64_encode(b@) == trim(content_base64@),
            Err(e) => !is_base64(trim(content_base64@)) && has_prefix(e@, bad_payload_prefix()),
        },
        r is Ok <==> is_base64(trim(content_base64@)),
{
    let v = chars_of(content_base64);
    let (lo, hi) = trim_bounds(&v);
    let trimmed = string_from_chars(&sub_chars(&v, lo, hi));
    match decode_base64(trimmed.as_str()) {
        Ok(b) => Ok(b),
        Err(e) => {
            let m = joined("解码图片数据失败: ", e.as_str());
            assert(m@.take(bad_payload_prefix().len() as int) =~= bad_payload_prefix());
            Err(m)
        },
    }
}

// ---------------------------------------------------------------------------
// What an export writes
// ---------------------------------------------------------------------------
/// Bytes to write at a checked destination path.
#[derive(Debug)]
pub struct PathWrite {
    pub path: String,
    pub bytes: Vec<u8>,
}

/// Bytes to write under a checked file name in the downloads directory.
#[derive(Debug)]
pub struct NamedBytes {
    pub file_name: String,
    pub bytes: Vec<u8>,
}

/// A destination that `validate_dest_path` accepts.
pub open spec fn dest_ok(path: Seq<char>) -> bool {
    path_is_absolute(path) && usable_file_name(path) is Some
}

/// The message `validate_dest_path` refuses a destination with.
pub open spec fn dest_error(path: Seq<char>) -> Seq<char> {
    if !path_is_absolute(path) {
        "保存路径无效"@
    } else {
        invalid_file_name_message()
    }
}

/// The write of `content` to `path`, once the destination is checked.
pub fn plan_binary_write(path: &str, content: Vec<u8>) -> (r: Result<PathWrite, String>)
    ensures
        !dest_ok(path@) ==> is_err_with(r, dest_error(path@)),
        dest_ok(path@) ==> (r matches Ok(w) && w.path@ == path@ && w.bytes@ == content@),
{
    let checked = validate_dest_path(path)?;
    Ok(PathWrite { path: checked, bytes: content })
}

/// Writes a base64 payload's bytes to `path`: the payload is decoded first, then
/// the destination checked.
pub fn export_binary_base64_to_path(path: &str, content_base64: &str) -> (r: Result<
    PathWrite,
    String,
>)
    ensures
        !is_base64(trim(content_base64@)) ==> (r matches Err(e) && has_prefix(
            e@,
            bad_payload_prefix(),
        )),
        is_base64(trim(content_base64@)) && !dest_ok(path@) ==> is_err_with(r, dest_error(path@)),
        is_base64(trim(content_base64@)) && dest_ok(path@) ==> (r matches Ok(w) && w.path@ == path@
            && base64_encode(w.bytes@) == trim(content_base64@)),
{
    let bytes = decode_base64_payload(content_base64)?;
    plan_binary_write(path, bytes)
}

/// The message prefix of bytes that do not decode as an image.
pub open spec fn undecodable_image_prefix() -> Seq<char> {
    "无法解析图片: "@
}

/// The message prefix of an image the encoder could not write.
pub open spec fn encode_failed_prefix() -> Seq<char> {
    "编码图片失败: "@
}

/// The message of a failed conversion (its decoder's or encoder's message
/// behind a fixed prefix); converted bytes pass through.
pub fn transcode_message(t: Result<Vec<u8>, TranscodeError>) -> (r: Result<Vec<u8>, String>)
    ensures
        match t {
            Ok(b) => r matches Ok(c) && c@ == b@,
            Err(TranscodeError::Decode(e)) => is_err_with(r, undecodable_image_prefix() + e@),
            Err(TranscodeError::Encode(e)) => is_err_with(r, encode_failed_prefix() + e@),
        },
{
    match t {
        Ok(b) => Ok(b),
        Err(TranscodeError::Decode(e)) => Err(joined("无法解析图片: ", e.as_str())),
        Err(TranscodeError::Encode(e)) => Err(joined("编码图片失败: ", e.as_str())),
    }
}

/// Decodes `bytes` as an image and re-encodes it in `format`.
fn transcode_for_export(bytes: &[u8], format: ImageFormatKind) -> (r: Result<Vec<u8>, String>)
    ensures
        !image_decodes(bytes@) ==> (r matches Err(e) && has_prefix(e@, undecodable_image_prefix())),
        image_decodes(bytes@) && deterministic_format(format) ==> match transcoded_image(
            bytes@,
            format,
        ) {
            Some(out) => r matches Ok(b) && b@ == out,
            None => r matches Err(e) && has_prefix(e@, encode_failed_prefix()),
        },
        image_decodes(bytes@) && !deterministic_format(format) ==> r is Ok || (r matches Err(e)
            && has_prefix(e@, encode_failed_prefix())),
{
    let t = transcode_image(bytes, format);
    let ghost tg = t;
    let r = transcode_message(t);
    proof {
        match tg {
            Err(TranscodeError::Decode(d)) => {
                assert((undecodable_image_prefix() + d@).take(undecodable_image_prefix().len() as int)
                    =~= undecodable_image_prefix());
            },
            Err(TranscodeError::Encode(d)) => {
                assert((encode_failed_prefix() + d@).take(encode_failed_prefix().len() as int)
                    =~= encode_failed_prefix());
            },
            Ok(_) => {},
        }
    }
    r
}

/// Re-encodes `bytes` in the named format for writing to `path`: the format name
/// is checked first, then the image decoded and encoded, then the destination.
pub fn convert_image_bytes_to_path(path: &str, format: &str, bytes: &[u8]) -> (r: Result<
    PathWrite,
    String,
>)
    ensures
        match format_named(ascii_lower(format@)) {
            None => is_err_with(r, "不支持的图片格式: "@ + ascii_lower(format@)),
            Some(k) => conversion_outcome(r, path@, bytes@, k),
        },
{
    let kind = parse_image_format(format)?;
    let converted = transcode_for_export(bytes, kind)?;
    plan_binary_write(path, converted)
}

/// The outcome of converting an image to the format `k` for writing to `path`,
/// once the format is known: decoding fails, or the encoder refuses the image,
/// or the destination is refused, or else the converted bytes are written there.
/// For AVIF, whose output varies with the machine, the encoder may succeed or
/// fail, and what it writes is not stated.
pub open spec fn conversion_outcome(
    r: Result<PathWrite, String>,
    path: Seq<char>,
    bytes: Seq<u8>,
    k: ImageFormatKind,
) -> bool {
    if !image_decodes(bytes) {
        r matches Err(e) && has_prefix(e@, undecodable_image_prefix())
    } else if !deterministic_format(k) {
        (r matches Err(e) && has_prefix(e@, encode_failed_prefix())) || if dest_ok(path) {
            r matches Ok(w) && w.path@ == path
        } else {
            is_err_with(r, dest_error(path))
        }
    } else {
        match transcoded_image(bytes, k) {
            None => r matches Err(e) && has_prefix(e@, encode_failed_prefix()),
            Some(out) => if dest_ok(path) {
                r matches Ok(w) && w.path@ == path && w.bytes@ == out
            } else {
                is_err_with(r, dest_error(path))
            },
        }
    }
}

/// Decodes a base64 payload and re-encodes the image for writing to `path`: the
/// payload is decoded first, then the format, image and destination checked.
pub fn convert_image_base64_to_path(path: &str, format: &str, content_base64: &str) -> (r: Result<
    PathWrite,
    String,
>)
    ensures
        !is_base64(trim(content_base64@)) ==> (r matches Err(e) && has_prefix(
            e@,
            bad_payload_prefix(),
        )),
        is_base64(trim(content_base64@)) ==> exists|b: Seq<u8>|
            #[trigger] base64_encode(b) == trim(content_base64@) && match format_named(
                ascii_lower(format@),
            ) {
                None => is_err_with(r, "不支持的图片格式: "@ + ascii_lower(format@)),
                Some(k) => conversion_outcome(r, path@, b, k),
            },
{
    let bytes = decode_base64_payload(content_base64)?;
    let r = convert_image_bytes_to_path(path, format, bytes.as_slice());
    assert(base64_encode(bytes@) == trim(content_base64@));
    r
}

/// The message of a failed RGBA encoding; encoded bytes pass through.
pub fn rgba_encode_message(t: Result<Vec<u8>, RgbaEncodeError>) -> (r: Result<Vec<u8>, String>)
    ensures
        match t {
            Ok(b) => r matches Ok(c) && c@ == b@,
            Err(RgbaEncodeError::BufferTooSmall) => is_err_with(r, "图片像素数据无效"@),
            Err(RgbaEncodeError::Encode(e)) => is_err_with(r, encode_failed_prefix() + e@),
        },
{
    match t {
        Ok(b) => Ok(b),
        Err(RgbaEncodeError::BufferTooSmall) => Err(owned("图片像素数据无效")),
        Err(RgbaEncodeError::Encode(e)) => Err(joined("编码图片失败: ", e.as_str())),
    }
}

/// Encodes raw RGBA pixels in the named format under a checked file name: the
/// file name, then the format, then the pixel buffer are checked.
pub fn encode_rgba_export(
    filename: &str,
    format: &str,
    width: u32,
    height: u32,
    rgba: Vec<u8>,
) -> (r: Result<NamedBytes, String>)
    ensures
        usable_file_name(filename@) is None ==> is_err_with(r, invalid_file_name_message()),
        usable_file_name(filename@) is Some && format_named(ascii_lower(format@)) is None
            ==> is_err_with(r, "不支持的图片格式: "@ + ascii_lower(format@)),
        usable_file_name(filename@) is Some && format_named(ascii_lower(format@)) is Some
            && rgba@.len() < 4 * width * height ==> is_err_with(r, "图片像素数据无效"@),
        usable_file_name(filename@) is Some && format_named(ascii_lower(format@)) is Some
            && rgba@.len() >= 4 * width * height ==> (format_named(ascii_lower(format@)) matches Some(
            k,
        ) ==> if deterministic_format(k) {
            match encoded_rgba_image(width, height, rgba@, k) {
                Some(out) => r matches Ok(nb) && usable_file_name(filename@) == Some(nb.file_name@)
                    && nb.bytes@ == out,
                None => r matches Err(e) && has_prefix(e@, encode_failed_prefix()),
            }
        } else {
            (r matches Ok(nb) && usable_file_name(filename@) == Some(nb.file_name@)) || (
            r matches Err(e) && has_prefix(e@, encode_failed_prefix()))
        }),
        usable_file_name(filename@) is Some && format_named(ascii_lower(format@))
            == Some(ImageFormatKind::Png) && 1 <= width <= 0x7fff_ffff && 1 <= height <= 0x7fff_ffff
            && rgba@.len() >= 4 * width * height ==> r is Ok,
{
    let safe_name = sanitize_filename(filename)?;
    let kind = parse_image_format(format)?;
    let ghost pixels = rgba@;
    let t = encode_rgba_image(width, height, rgba, kind);
    let ghost tg = t;
    proof {
        if let Err(RgbaEncodeError::Encode(d)) = tg {
            assert((encode_failed_prefix() + d@).take(encode_failed_prefix().len() as int)
                =~= encode_failed_prefix());
        }
    }
    let bytes = rgba_encode_message(t)?;
    Ok(NamedBytes { file_name: safe_name, bytes })
}

/// Re-encodes a base64 image payload in the named format under a checked file
/// name: the file name, the format, the payload, then the image are checked.
pub fn convert_image_base64_export(filename: &str, format: &str, content_base64: &str) -> (r:
    Result<NamedBytes, String>)
    ensures
        usable_file_name(filename@) is None ==> is_err_with(r, invalid_file_name_message()),
        usable_file_name(filename@) is Some && format_named(ascii_lower(format@)) is None
            ==> is_err_with(r, "不支持的图片格式: "@ + ascii_lower(format@)),
        usable_file_name(filename@) is Some && format_named(ascii_lower(format@)) is Some
            && !is_base64(trim(content_base64@)) ==> (r matches Err(e) && has_prefix(
            e@,
            bad_payload_prefix(),
        )),
        usable_file_name(filename@) is Some && is_base64(trim(content_base64@)) ==> (format_named(
            ascii_lower(format@),
        ) matches Some(k) ==> exists|b: Seq<u8>|
            #[trigger] base64_encode(b) == trim(content_base64@) && if !image_decodes(b) {
                r matches Err(e) && has_prefix(e@, undecodable_image_prefix())
            } else if deterministic_format(k) {
                match transcoded_image(b, k) {
                    Some(out) => r matches Ok(nb) && usable_file_name(filename@) == Some(
                        nb.file_name@,
                    ) && nb.bytes@ == out,
                    None => r matches Err(e) && has_prefix(e@, encode_failed_prefix()),
                }
            } else {
                (r matches Ok(nb) && usable_file_name(filename@) == Some(nb.file_name@)) || (
                r matches Err(e) && has_prefix(e@, encode_failed_prefix()))
            }),
{
    let safe_name = sanitize_filename(filename)?;
    let kind = parse_image_format(format)?;
    let bytes = decode_base64_payload(content_base64)?;
    let converted = transcode_for_export(bytes.as_slice(), kind)?;
    Ok(NamedBytes { file_name: safe_name, bytes: converted })
}

/// Writes a base64 payload's bytes under a checked file name in the downloads
/// directory: the payload is decoded first, then the file name checked.
pub fn binary_base64_download(filename: &str, content_base64: &str) -> (r: Result<NamedBytes, String>)
    ensures
        !is_base64(trim(content_base64@)) ==> (r matches Err(e) && has_prefix(
            e@,
            bad_payload_prefix(),
        )),
        is_base64(trim(content_base64@)) && usable_file_name(filename@) is None ==> is_err_with(
            r,
            invalid_file_name_message(),
        ),
        is_base64(trim(content_base64@)) && usable_file_name(filename@) is Some ==> (r matches Ok(
            nb,
        ) && usable_file_name(filename@) == Some(nb.file_name@) && base64_encode(nb.bytes@) == trim(
            content_base64@,
        )),
{
    let bytes = decode_base64_payload(content_base64)?;
    let name = sanitize_filename(filename)?;
    Ok(NamedBytes { file_name: name, bytes })
}

// ---------------------------------------------------------------------------
// Showing an exported file
// ---------------------------------------------------------------------------
/// What `Path::parent` answers for a path, as a string.
pub uninterp spec fn path_parent(path: Seq<char>) -> Option<Seq<char>>;

/// Calls `std::path::Path::parent` (read back losslessly, as a part of a string).
/// The platform's path rules are not stated; the answer is named by
/// `path_parent`.
#[verifier::external_body]
fn parent_of(path: &str) -> (r: Option<String>)
    ensures
        match r {
            Some(p) => path_parent(path@) == Some(p@),
            None => path_parent(path@) is None,
        },
{
    std::path::Path::new(path).parent().map(|p| p.to_string_lossy().to_string())
}

/// The desktop family whose file manager shows an exported file.
#[derive(Clone, Copy, Debug)]
pub enum DesktopFamily {
    Windows,
    MacOs,
    /// Other desktops, reached through `xdg-open`.
    Other,
}

/// The command that shows the exported file `path` in the file manager: Explorer
/// selects it, Finder reveals it, elsewhere its folder is opened. A file that
/// does not exist, or a path without a folder, is refused.
pub fn reveal_export_path(path: &str, exists: bool, family: DesktopFamily) -> (r: Result<
    (String, Vec<String>),
    String,
>)
    ensures
        !exists ==> is_err_with(r, "文件不存在"@),
        exists ==> match family {
            DesktopFamily::Windows => r matches Ok(c) && c.0@ == "explorer"@ && c.1@.len() == 1
                && c.1@[0]@ == "/select,"@ + path@,
            DesktopFamily::MacOs => r matches Ok(c) && c.0@ == "open"@ && c.1@.len() == 2
                && c.1@[0]@ == "-R"@ && c.1@[1]@ == path@,
            DesktopFamily::Other => match path_parent(path@) {
                None => is_err_with(r, "路径无效"@),
                Some(d) => r matches Ok(c) && c.0@ == "xdg-open"@ && c.1@.len() == 1 && c.1@[0]@
                    == d,
            },
        },
{
    if !exists {
        return Err(owned("文件不存在"));
    }
    match family {
        DesktopFamily::Windows => {
            let mut args: Vec<String> = Vec::new();
            args.push(joined("/select,", path));
            Ok((owned("explorer"), args))
        },
        DesktopFamily::MacOs => {
            let mut args: Vec<String> = Vec::new();
            args.push(owned("-R"));
            args.push(owned(path));
            Ok((owned("open"), args))
        },
        DesktopFamily::Other => {
            let dir = match parent_of(path) {
                Some(d) => d,
                None => {
                    return Err(owned("路径无效"));
                },
            };
            let mut args: Vec<String> = Vec::new();
            args.push(dir);
            Ok((owned("xdg-open"), args))
        },
    }
}

} // verus!
