//! Byte codecs the tools call: standard base64 (`base64`) and image encoding
//! and decoding (`image`).
use vstd::prelude::*;

verus! {

broadcast use vstd::string::group_string_axioms;

// ---------------------------------------------------------------------------
// Standard base64 (RFC 4648 alphabet, '=' padding)
// ---------------------------------------------------------------------------
/// The symbol of a 6-bit value in the standard alphabet.
pub open spec fn b64_symbol(i: int) -> char {
    if i < 26 {
        (65 + i) as char
    } else if i < 52 {
        (97 + i - 26) as char
    } else if i < 62 {
        (48 + i - 52) as char
    } else if i == 62 {
        '+'
    } else {
        '/'
    }
}

/// The standard, padded base64 encoding of `b`.
pub open spec fn base64_encode(b: Seq<u8>) -> Seq<char>
    decreases b.len(),
{
    if b.len() == 0 {
        Seq::empty()
    } else if b.len() == 1 {
        seq![b64_symbol((b[0] as int) / 4), b64_symbol(((b[0] as int) % 4) * 16), '=', '=']
    } else if b.len() == 2 {
        seq![
            b64_symbol((b[0] as int) / 4),
            b64_symbol(((b[0] as int) % 4) * 16 + (b[1] as int) / 16),
            b64_symbol(((b[1] as int) % 16) * 4),
            '=',
        ]
    } else {
        seq![
            b64_symbol((b[0] as int) / 4),
            b64_symbol(((b[0] as int) % 4) * 16 + (b[1] as int) / 16),
            b64_symbol(((b[1] as int) % 16) * 4 + (b[2] as int) / 64),
            b64_symbol((b[2] as int) % 64),
        ] + base64_encode(b.skip(3))
    }
}

/// `s` is the standard, padded base64 encoding of some byte string.
pub open spec fn is_base64(s: Seq<char>) -> bool {
    exists|b: Seq<u8>| #[trigger] base64_encode(b) == s
}

/// Inputs on which the encoder's length computation does not overflow.
pub open spec fn base64_encodable_len(n: nat) -> bool {
    (n / 3) * 4 + (if n % 3 > 0 {
        4int
    } else {
        0int
    }) <= usize::MAX
}

/// Calls `base64::engine::general_purpose::STANDARD.encode`: the padded standard
/// encoding of `data`. The call panics when the output length overflows `usize`,
/// which `requires` leaves out.
#[verifier::external_body]
pub(crate) fn encode_base64(data: &[u8]) -> (s: String)
    requires
        base64_encodable_len(data@.len()),
    ensures
        s@ == base64_encode(data@),
{
    base64::Engine::encode(&base64::engine::general_purpose::STANDARD, data)
}

/// Calls `base64::engine::general_purpose::STANDARD.decode`. That engine requires
/// canonical padding and rejects stray trailing bits, so it succeeds exactly on
/// the standard encodings of byte strings and then yields the encoded bytes. The
/// error carries the crate's message, whose text is not stated.
#[verifier::external_body]
pub(crate) fn decode_base64(s: &str) -> (r: Result<Vec<u8>, String>)
    ensures
        r is Ok <==> is_base64(s@),
        r matches Ok(b) ==> base64_encode(b@) == s@,
{
    base64::Engine::decode(&base64::engine::general_purpose::STANDARD, s).map_err(|e| e.to_string())
}

proof fn lemma_symbol_injective(i: int, j: int)
    requires
        0 <= i < 64,
        0 <= j < 64,
        b64_symbol(i) == b64_symbol(j),
    ensures
        i == j,
{
}

proof fn lemma_symbol_not_pad(i: int)
    requires
        0 <= i < 64,
    ensures
        b64_symbol(i) != '=',
{
}

proof fn lemma_encode_len(b: Seq<u8>)
    ensures
        base64_encode(b).len() == 4 * ((b.len() + 2) / 3),
    decreases b.len(),
{
    if b.len() >= 3 {
        lemma_encode_len(b.skip(3));
    }
}

proof fn lemma_encode_head(b: Seq<u8>)
    requires
        b.len() >= 1,
    ensures
        base64_encode(b).len() >= 4,
        base64_encode(b)[0] == b64_symbol((b[0] as int) / 4),
        base64_encode(b)[1] == b64_symbol(
            ((b[0] as int) % 4) * 16 + if b.len() >= 2 {
                (b[1] as int) / 16
            } else {
                0
            },
        ),
        base64_encode(b)[2] == if b.len() == 1 {
            '='
        } else {
            b64_symbol(
                ((b[1] as int) % 16) * 4 + if b.len() >= 3 {
                    (b[2] as int) / 64
                } else {
                    0
                },
            )
        },
        base64_encode(b)[3] == if b.len() <= 2 {
            '='
        } else {
            b64_symbol((b[2] as int) % 64)
        },
        b.len() >= 3 ==> base64_encode(b).skip(4) == base64_encode(b.skip(3)),
{
    lemma_encode_len(b);
    if b.len() >= 3 {
        assert(base64_encode(b).skip(4) =~= base64_encode(b.skip(3)));
    }
}

/// Different byte strings have different base64 encodings.
pub proof fn lemma_base64_injective(a: Seq<u8>, b: Seq<u8>)
    requires
        base64_encode(a) == base64_encode(b),
    ensures
        a == b,
    decreases a.len(),
{
    lemma_encode_len(a);
    lemma_encode_len(b);
    if a.len() == 0 || b.len() == 0 {
        assert(a.len() == 0 && b.len() == 0);
        assert(a =~= b);
        return;
    }
    lemma_encode_head(a);
    lemma_encode_head(b);
    let e = base64_encode(a);
    if a.len() >= 3 {
        lemma_symbol_not_pad((a[2] as int) % 64);
    }
    if b.len() >= 3 {
        lemma_symbol_not_pad((b[2] as int) % 64);
    }
    if a.len() == 2 {
        lemma_symbol_not_pad(((a[1] as int) % 16) * 4);
    }
    if b.len() == 2 {
        lemma_symbol_not_pad(((b[1] as int) % 16) * 4);
    }
    assert(e[2] == base64_encode(b)[2]);
    assert(e[3] == base64_encode(b)[3]);
    lemma_symbol_injective((a[0] as int) / 4, (b[0] as int) / 4);
    if a.len() == 1 {
        assert(b.len() == 1);
        lemma_symbol_injective(((a[0] as int) % 4) * 16, ((b[0] as int) % 4) * 16);
        assert(a =~= b);
    } else if a.len() == 2 {
        assert(b.len() == 2);
        lemma_symbol_injective(
            ((a[0] as int) % 4) * 16 + (a[1] as int) / 16,
            ((b[0] as int) % 4) * 16 + (b[1] as int) / 16,
        );
        lemma_symbol_injective(((a[1] as int) % 16) * 4, ((b[1] as int) % 16) * 4);
        assert(a =~= b);
    } else {
        assert(b.len() >= 3);
        lemma_symbol_injective(
            ((a[0] as int) % 4) * 16 + (a[1] as int) / 16,
            ((b[0] as int) % 4) * 16 + (b[1] as int) / 16,
        );
        lemma_symbol_injective(
            ((a[1] as int) % 16) * 4 + (a[2] as int) / 64,
            ((b[1] as int) % 16) * 4 + (b[2] as int) / 64,
        );
        lemma_symbol_injective((a[2] as int) % 64, (b[2] as int) % 64);
        lemma_base64_injective(a.skip(3), b.skip(3));
        assert(a =~= seq![a[0], a[1], a[2]] + a.skip(3));
        assert(b =~= seq![b[0], b[1], b[2]] + b.skip(3));
    }
}

/// Decoding undoes encoding: the standard decoder accepts the encoding of any
/// byte string and yields exactly those bytes.
pub proof fn lemma_decode_inverts_encode(data: Seq<u8>, decoded: Seq<u8>)
    requires
        base64_encode(decoded) == base64_encode(data),
    ensures
        is_base64(base64_encode(data)),
        decoded == data,
{
    lemma_base64_injective(decoded, data);
}

// ---------------------------------------------------------------------------
// Images
// ---------------------------------------------------------------------------
/// The image formats the tools export.
#[derive(PartialEq, Eq, Clone, Copy, Debug, Structural)]
pub enum ImageFormatKind {
    Png,
    Jpeg,
    WebP,
    Gif,
    Bmp,
    Tiff,
    Ico,
    Avif,
}

/// Declares `image::ImageFormat`, carried opaque from `image_format_of` to the
/// encoders.
#[verifier::external_type_specification]
#[verifier::external_body]
pub struct ExImageFormat(image::ImageFormat);

/// The `image::ImageFormat` variant of a format, one arm per variant.
#[verifier::external_body]
fn image_format_of(kind: ImageFormatKind) -> image::ImageFormat {
    match kind {
        ImageFormatKind::Png => image::ImageFormat::Png,
        ImageFormatKind::Jpeg => image::ImageFormat::Jpeg,
        ImageFormatKind::WebP => image::ImageFormat::WebP,
        ImageFormatKind::Gif => image::ImageFormat::Gif,
        ImageFormatKind::Bmp => image::ImageFormat::Bmp,
        ImageFormatKind::Tiff => image::ImageFormat::Tiff,
        ImageFormatKind::Ico => image::ImageFormat::Ico,
        ImageFormatKind::Avif => image::ImageFormat::Avif,
    }
}

/// Why an RGBA buffer could not be encoded.
#[derive(Debug)]
pub enum RgbaEncodeError {
    /// The buffer holds fewer than `4 × width × height` bytes.
    BufferTooSmall,
    /// The encoder failed; its message.
    Encode(String),
}

/// The formats whose encoders write the same bytes for the same image on every
/// machine: all but AVIF, whose encoder splits the picture into as many tiles as
/// the machine runs threads (the tile layout is part of the AV1 stream).
pub open spec fn deterministic_format(format: ImageFormatKind) -> bool {
    format != ImageFormatKind::Avif
}

/// What `RgbaImage::write_to` does with a `width × height` RGBA buffer in a
/// deterministic format: the bytes it writes, or `None` when the encoder refuses
/// the image. Nothing is claimed of it for AVIF.
pub uninterp spec fn encoded_rgba_image(
    width: u32,
    height: u32,
    rgba: Seq<u8>,
    format: ImageFormatKind,
) -> Option<Seq<u8>>;

/// Calls `image::RgbaImage::from_raw` and then `write_to` into memory. `from_raw`
/// refuses exactly the buffers shorter than `4 × width × height` bytes. For a
/// deterministic format, whether the encoder succeeds and what it writes depend
/// on the arguments alone and are named by `encoded_rgba_image`; for AVIF only
/// the outcome's kind is stated (bytes, or the encoder's error). Of which images
/// an encoder refuses, this is stated for PNG: the png crate's header check
/// refuses a zero width or height, and an image of sides from 1 to 2^31 − 1 with
/// a full buffer is written (into memory nothing else can fail). Like every
/// `Vec<u8>`, the output holds at most `isize::MAX` bytes.
#[verifier::external_body]
pub(crate) fn encode_rgba_image(width: u32, height: u32, rgba: Vec<u8>, format: ImageFormatKind) -> (r:
    Result<Vec<u8>, RgbaEncodeError>)
    ensures
        (r matches Err(RgbaEncodeError::BufferTooSmall)) <==> rgba@.len() < 4 * width * height,
        rgba@.len() >= 4 * width * height && deterministic_format(format) ==> match encoded_rgba_image(
            width,
            height,
            rgba@,
            format,
        ) {
            Some(out) => r matches Ok(b) && b@ == out,
            None => r matches Err(RgbaEncodeError::Encode(_)),
        },
        format == ImageFormatKind::Png && (width == 0 || height == 0) ==> r matches Err(
            RgbaEncodeError::Encode(_),
        ),
        format == ImageFormatKind::Png && 1 <= width <= 0x7fff_ffff && 1 <= height <= 0x7fff_ffff
            && rgba@.len() >= 4 * width * height ==> r is Ok,
        r matches Ok(b) ==> b@.len() <= isize::MAX,
{
    let Some(img) = image::RgbaImage::from_raw(width, height, rgba) else {
        return Err(RgbaEncodeError::BufferTooSmall);
    };
    let mut buf = std::io::Cursor::new(Vec::new());
    match img.write_to(&mut buf, image_format_of(format)) {
        Ok(()) => Ok(buf.into_inner()),
        Err(e) => Err(RgbaEncodeError::Encode(e.to_string())),
    }
}

/// Whether `image::load_from_memory` decodes `bytes` (format guessed from them).
pub uninterp spec fn image_decodes(bytes: Seq<u8>) -> bool;

/// The width and height of the image `image::load_from_memory` decodes from `bytes`.
pub uninterp spec fn decoded_dimensions(bytes: Seq<u8>) -> (u32, u32);

/// What `DynamicImage::write_to` does with the image decoded from `bytes` when
/// re-encoding it in a deterministic `format`: the bytes it writes, or `None`
/// when the encoder refuses the image. Nothing is claimed of it for AVIF.
pub uninterp spec fn transcoded_image(bytes: Seq<u8>, format: ImageFormatKind) -> Option<Seq<u8>>;

/// Why an encoded image could not be converted.
#[derive(Debug)]
pub enum TranscodeError {
    /// The bytes do not decode as an image; the decoder's message.
    Decode(String),
    /// The decoded image could not be encoded; the encoder's message.
    Encode(String),
}

/// Calls `image::load_from_memory` and then `DynamicImage::write_to` into memory.
/// Decoding fails exactly when `image_decodes` is false. For a deterministic
/// format the encoder's outcome depends on its arguments alone and is named by
/// `transcoded_image`; for AVIF only the outcome's kind is stated (bytes, or the
/// encoder's error). Which images an encoder refuses is not stated.
#[verifier::external_body]
pub(crate) fn transcode_image(bytes: &[u8], format: ImageFormatKind) -> (r: Result<Vec<u8>, TranscodeError>)
    ensures
        (r matches Err(TranscodeError::Decode(_))) <==> !image_decodes(bytes@),
        image_decodes(bytes@) && deterministic_format(format) ==> match transcoded_image(
            bytes@,
            format,
        ) {
            Some(out) => r matches Ok(b) && b@ == out,
            None => r matches Err(TranscodeError::Encode(_)),
        },
        r matches Ok(b) ==> b@.len() <= isize::MAX,
{
    let img = image::load_from_memory(bytes).map_err(|e| TranscodeError::Decode(e.to_string()))?;
    let mut buf = std::io::Cursor::new(Vec::new());
    img.write_to(&mut buf, image_format_of(format)).map_err(
        |e| TranscodeError::Encode(e.to_string()),
    )?;
    Ok(buf.into_inner())
}

/// Calls `image::load_from_memory` and reads the decoded image's width and height.
/// Fails exactly when `image_decodes` is false, with the decoder's message.
#[verifier::external_body]
pub(crate) fn image_dimensions(bytes: &[u8]) -> (r: Result<(u32, u32), String>)
    ensures
        r is Ok <==> image_decodes(bytes@),
        r matches Ok(d) ==> d == decoded_dimensions(bytes@),
{
    let img = image::load_from_memory(bytes).map_err(|e| e.to_string())?;
    Ok((img.width(), img.height()))
}

} // verus!
