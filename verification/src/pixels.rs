//! Pixel-buffer handling of screen captures: row padding, channel order, size
//! checks and the messages shown when capturing fails.
use vstd::prelude::*;

use crate::color_picker::ScreenCapture;
use crate::text::{decimal, is_err_with, owned, push_decimal};

verus! {

broadcast use vstd::string::group_string_axioms;

// ---------------------------------------------------------------------------
// Row padding
// ---------------------------------------------------------------------------
/// The rows of `buf`, `stride` bytes apart, each cut to its first `row_bytes`
/// bytes; a trailing partial row is dropped.
pub open spec fn strip_row_padding(buf: Seq<u8>, stride: nat, row_bytes: nat) -> Seq<u8>
    decreases buf.len(),
{
    if stride == 0 || buf.len() < stride {
        Seq::empty()
    } else {
        buf.take(row_bytes as int) + strip_row_padding(buf.skip(stride as int), stride, row_bytes)
    }
}

/// Drops the padding a capture API adds after each row of `width` RGBA pixels:
/// the buffer unchanged when rows are not padded, else each full `bytes_per_row`
/// row cut to `4 × width` bytes. (`requires` leaves out the sizes whose buffer
/// size computation overflows.)
pub fn remove_extra_row_bytes(width: usize, height: usize, bytes_per_row: usize, buf: Vec<u8>) -> (r:
    Vec<u8>)
    requires
        width * 4 <= usize::MAX,
        bytes_per_row > width * 4 ==> width * 4 * height <= isize::MAX,
    ensures
        r@ == if bytes_per_row <= width * 4 {
            buf@
        } else {
            strip_row_padding(buf@, bytes_per_row as nat, (width * 4) as nat)
        },
{
    let row_bytes = width * 4;
    if bytes_per_row <= row_bytes {
        return buf;
    }
    let mut out: Vec<u8> = Vec::new();
    let mut pos: usize = 0;
    assert(buf@.skip(0) =~= buf@);
    while buf.len() - pos >= bytes_per_row
        invariant
            row_bytes < bytes_per_row,
            row_bytes == width * 4,
            pos <= buf.len(),
            out@ + strip_row_padding(buf@.skip(pos as int), bytes_per_row as nat, row_bytes as nat)
                == strip_row_padding(buf@, bytes_per_row as nat, row_bytes as nat),
        decreases buf.len() - pos,
    {
        let ghost before = out@;
        let mut k: usize = 0;
        while k < row_bytes
            invariant
                row_bytes < bytes_per_row,
                pos + bytes_per_row <= buf.len(),
                k <= row_bytes,
                out@ == before + buf@.subrange(pos as int, pos + k),
            decreases row_bytes - k,
        {
            out.push(buf[pos + k]);
            assert(buf@.subrange(pos as int, pos + k + 1) =~= buf@.subrange(pos as int, pos + k).push(
                buf@[pos + k],
            ));
            k = k + 1;
        }
        proof {
            let tail = buf@.skip(pos as int);
            assert(tail.take(row_bytes as int) =~= buf@.subrange(pos as int, pos + row_bytes));
            assert(tail.skip(bytes_per_row as int) =~= buf@.skip(pos + bytes_per_row));
            assert(before + strip_row_padding(tail, bytes_per_row as nat, row_bytes as nat) =~= (
            before + tail.take(row_bytes as int)) + strip_row_padding(
                tail.skip(bytes_per_row as int),
                bytes_per_row as nat,
                row_bytes as nat,
            ));
        }
        pos = pos + bytes_per_row;
    }
    proof {
        let tail = buf@.skip(pos as int);
        assert(strip_row_padding(tail, bytes_per_row as nat, row_bytes as nat) =~= Seq::<
            u8,
        >::empty());
        assert(out@ + Seq::<u8>::empty() =~= out@);
    }
    out
}

// ---------------------------------------------------------------------------
// Channel order
// ---------------------------------------------------------------------------
/// `s` with the first and third byte of every complete 4-byte group exchanged
/// (BGRA ↔ RGBA); bytes after the last complete group stay.
pub open spec fn swap_red_blue(s: Seq<u8>) -> Seq<u8> {
    Seq::new(
        s.len(),
        |i: int|
            if i >= (s.len() / 4) * 4 {
                s[i]
            } else if i % 4 == 0 {
                s[i + 2]
            } else if i % 4 == 2 {
                s[i - 2]
            } else {
                s[i]
            },
    )
}

/// Exchanging red and blue twice gives back the original bytes.
pub proof fn lemma_swap_red_blue_involution(s: Seq<u8>)
    ensures
        swap_red_blue(swap_red_blue(s)) == s,
{
    assert(swap_red_blue(swap_red_blue(s)) =~= s);
}

/// The message for a capture buffer shorter than expected.
pub open spec fn short_buffer_message(expected: nat, actual: nat) -> Seq<char> {
    "截屏缓冲不足：期望 "@ + decimal(expected) + " 字节，实际 "@ + decimal(actual) + " 字节"@
}

/// Converts a BGRA capture of `width × height` pixels to RGBA, refusing a buffer
/// shorter than `4 × width × height` bytes.
pub fn bgra_to_rgba(width: u32, height: u32, buf: Vec<u8>) -> (r: Result<Vec<u8>, String>)
    requires
        width * height * 4 <= usize::MAX,
    ensures
        buf@.len() < width * height * 4 ==> is_err_with(
            r,
            short_buffer_message((width * height * 4) as nat, buf@.len()),
        ),
        buf@.len() >= width * height * 4 ==> (r matches Ok(v) && v@ == swap_red_blue(buf@)),
{
    let expected: usize = (width as usize) * (height as usize) * 4;
    if buf.len() < expected {
        let mut m = owned("截屏缓冲不足：期望 ");
        push_decimal(&mut m, expected as u64);
        m.append(" 字节，实际 ");
        push_decimal(&mut m, buf.len() as u64);
        m.append(" 字节");
        return Err(m);
    }
    let mut rgba = buf;
    let ghost original = rgba@;
    let n = rgba.len();
    let mut i: usize = 0;
    while n - i >= 4
        invariant
            n == rgba.len() == original.len(),
            i <= n,
            i % 4 == 0,
            forall|j: int| 0 <= j < i ==> rgba@[j] == #[trigger] swap_red_blue(original)[j],
            forall|j: int| i <= j < n ==> rgba@[j] == original[j],
        decreases n - i,
    {
        let b0 = rgba[i];
        let b2 = rgba[i + 2];
        rgba.set(i, b2);
        rgba.set(i + 2, b0);
        assert forall|j: int| 0 <= j < i + 4 implies rgba@[j] == #[trigger] swap_red_blue(
            original,
        )[j] by {
            assert(i + 4 <= (original.len() / 4) * 4);
        }
        i = i + 4;
    }
    assert(rgba@ =~= swap_red_blue(original));
    Ok(rgba)
}

/// The message for a capture of zero width or height.
pub open spec fn empty_capture_message() -> Seq<char> {
    "截屏结果尺寸无效"@
}

/// The RGBA pixels of a captured image given as BGRA rows `bytes_per_row` apart:
/// refused when the image is empty or the rows hold too few bytes.
pub fn capture_image_to_rgba(width: u32, height: u32, bytes_per_row: usize, raw: Vec<u8>) -> (r:
    Result<(u32, u32, Vec<u8>), String>)
    requires
        width * 4 <= usize::MAX,
        bytes_per_row > width * 4 ==> width * 4 * height <= isize::MAX,
        width * height * 4 <= usize::MAX,
    ensures
        width == 0 || height == 0 ==> is_err_with(r, empty_capture_message()),
        width > 0 && height > 0 ==> ({
            let clean = if bytes_per_row <= width * 4 {
                raw@
            } else {
                strip_row_padding(raw@, bytes_per_row as nat, (width * 4) as nat)
            };
            &&& clean.len() < width * height * 4 ==> is_err_with(
                r,
                short_buffer_message((width * height * 4) as nat, clean.len()),
            )
            &&& clean.len() >= width * height * 4 ==> (r matches Ok(t) && t.0 == width && t.1
                == height && t.2@ == swap_red_blue(clean))
        }),
{
    if width == 0 || height == 0 {
        return Err(owned("截屏结果尺寸无效"));
    }
    let clean = remove_extra_row_bytes(width as usize, height as usize, bytes_per_row, raw);
    let rgba = bgra_to_rgba(width, height, clean)?;
    Ok((width, height, rgba))
}

// ---------------------------------------------------------------------------
// Size checks and messages
// ---------------------------------------------------------------------------
/// `round(x × 0.45)` of the application's floating-point check, for an unsigned
/// `x`: the product is never within rounding error of a half that it would
/// round the other way, so it equals `(9x + 10) / 20`.
pub open spec fn min_capture_extent(x: u32) -> int {
    (9 * x + 10) / 20
}

/// The message when screen recording is not permitted.
pub open spec fn permission_denied_text() -> Seq<char> {
    "需要屏幕录制权限。请在「系统设置 → 隐私与安全性 → 屏幕录制」中允许 Void，完全退出后重开。"@
}

/// The message when screen recording is not permitted.
pub fn permission_denied_message() -> (s: String)
    ensures
        s@ == permission_denied_text(),
{
    owned(
        "需要屏幕录制权限。请在「系统设置 → 隐私与安全性 → 屏幕录制」中允许 Void，完全退出后重开。",
    )
}

/// The message when the capture API returned nothing: the permission message
/// when access is missing, else a hint to retry.
pub fn capture_api_failed_message(has_access: bool) -> (s: String)
    ensures
        !has_access ==> s@ == permission_denied_text(),
        has_access ==> s@ == "截屏失败，请重试；若仍失败，可关闭「截屏时隐藏应用」后再试。"@,
{
    if !has_access {
        return permission_denied_message();
    }
    owned("截屏失败，请重试；若仍失败，可关闭「截屏时隐藏应用」后再试。")
}

/// The message for a capture far smaller than its monitor.
pub open spec fn small_capture_message(w: u32, h: u32) -> Seq<char> {
    "截屏失败（"@ + decimal(w as nat) + "×"@ + decimal(h as nat)
        + "），请重试或关闭「截屏时隐藏应用」。"@
}

/// Accepts a capture of `actual_w × actual_h` for a monitor of
/// `expected_w × expected_h` unless a side is below 45% (rounded) of the
/// monitor's; then the answer depends on whether screen recording is permitted
/// (`has_access`, asked only then).
pub fn validate_capture_size(
    expected_w: u32,
    expected_h: u32,
    actual_w: u32,
    actual_h: u32,
    has_access: impl Fn() -> bool,
) -> (r: Result<(), String>)
    requires
        has_access.requires(()),
    ensures
        actual_w >= min_capture_extent(expected_w) && actual_h >= min_capture_extent(expected_h)
            ==> r is Ok,
        actual_w < min_capture_extent(expected_w) || actual_h < min_capture_extent(expected_h)
            ==> {
            ||| (has_access.ensures((), false) && is_err_with(r, permission_denied_text()))
            ||| (has_access.ensures((), true) && is_err_with(
                r,
                small_capture_message(actual_w, actual_h),
            ))
        },
{
    let min_w: u64 = (9 * (expected_w as u64) + 10) / 20;
    let min_h: u64 = (9 * (expected_h as u64) + 10) / 20;
    if (actual_w as u64) < min_w || (actual_h as u64) < min_h {
        if !has_access() {
            return Err(permission_denied_message());
        }
        let mut m = owned("截屏失败（");
        push_decimal(&mut m, actual_w as u64);
        m.append("×");
        push_decimal(&mut m, actual_h as u64);
        m.append("），请重试或关闭「截屏时隐藏应用」。");
        return Err(m);
    }
    Ok(())
}

/// The message for a capture region of zero width or height, or too large to
/// hold in memory.
pub open spec fn invalid_region_message() -> Seq<char> {
    "显示器尺寸无效"@
}

/// The byte length of a `width × height` capture, 4 bytes per pixel: refused
/// for an empty region, and for one whose buffer could not be allocated (more
/// than `isize::MAX` bytes).
pub fn capture_buffer_len(width: u32, height: u32) -> (r: Result<usize, String>)
    ensures
        width == 0 || height == 0 || width * height * 4 > isize::MAX ==> is_err_with(
            r,
            invalid_region_message(),
        ),
        width > 0 && height > 0 && width * height * 4 <= isize::MAX ==> (r matches Ok(n) && n
            == width * height * 4),
{
    if width == 0 || height == 0 {
        return Err(owned("显示器尺寸无效"));
    }
    let w = width as u128;
    let h = height as u128;
    assert(w * h <= 0xffff_ffffu128 * 0xffff_ffffu128) by (nonlinear_arith)
        requires
            w <= 0xffff_ffff,
            h <= 0xffff_ffff,
    ;
    let n: u128 = w * h * 4;
    if n > (isize::MAX as u128) {
        return Err(owned("显示器尺寸无效"));
    }
    Ok(n as usize)
}

/// A capture of `rgba` at `(origin_x, origin_y)`.
pub fn image_to_capture(origin_x: i32, origin_y: i32, width: u32, height: u32, rgba: Vec<u8>) -> (c:
    ScreenCapture)
    ensures
        c.origin_x == origin_x,
        c.origin_y == origin_y,
        c.width == width,
        c.height == height,
        c.rgba@ == rgba@,
{
    ScreenCapture { origin_x, origin_y, width, height, rgba }
}

/// The label of a monitor: `显示器 <n> · <w>×<h>`, then ` · <p>%` for a scale
/// other than 100% and ` · 主屏` for the primary monitor (`n` counts from 1).
pub open spec fn monitor_label_text(
    index: nat,
    width: u32,
    height: u32,
    scale_percent: Option<u32>,
    is_primary: bool,
) -> Seq<char> {
    "显示器 "@ + decimal(index + 1) + " · "@ + decimal(width as nat) + "×"@ + decimal(height as nat)
        + match scale_percent {
        Some(p) => " · "@ + decimal(p as nat) + "%"@,
        None => Seq::empty(),
    } + if is_primary {
        " · 主屏"@
    } else {
        Seq::empty()
    }
}

/// The label of the monitor at position `index`. The scale tag is given as a
/// whole percentage (`None` for 100%), which the caller rounds from the
/// monitor's scale factor.
pub fn monitor_label(
    index: usize,
    width: u32,
    height: u32,
    scale_percent: Option<u32>,
    is_primary: bool,
) -> (s: String)
    requires
        index < usize::MAX,
    ensures
        s@ == monitor_label_text(index as nat, width, height, scale_percent, is_primary),
{
    let mut s = owned("显示器 ");
    push_decimal(&mut s, (index as u64) + 1);
    s.append(" · ");
    push_decimal(&mut s, width as u64);
    s.append("×");
    push_decimal(&mut s, height as u64);
    match scale_percent {
        Some(p) => {
            s.append(" · ");
            push_decimal(&mut s, p as u64);
            s.append("%");
        },
        None => {},
    }
    if is_primary {
        s.append(" · 主屏");
    }
    proof {
        let base = "显示器 "@ + decimal((index + 1) as nat) + " · "@ + decimal(width as nat) + "×"@
            + decimal(height as nat);
        let tag = match scale_percent {
            Some(p) => " · "@ + decimal(p as nat) + "%"@,
            None => Seq::<char>::empty(),
        };
        let prim = if is_primary {
            " · 主屏"@
        } else {
            Seq::<char>::empty()
        };
        assert(s@ =~= base + tag + prim);
    }
    s
}

} // verus!
