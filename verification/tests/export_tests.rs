use base64::Engine;
use rinova_void::codec::ImageFormatKind;
use rinova_void::export::{
    binary_base64_download, convert_image_base64_export, convert_image_base64_to_path,
    convert_image_bytes_to_path, decode_base64_payload, encode_rgba_export,
    export_binary_base64_to_path, parse_image_format, plan_binary_write, reveal_export_path,
    sanitize_filename, validate_dest_path, DesktopFamily,
};
use rinova_void::export_buffer::{
    append_export_base64, begin_export_buffer, cancel_export_buffer, finish_convert_export,
    finish_export_binary, take_export_bytes, ExportBufferState,
};

fn tiny_png() -> Vec<u8> {
    let rgba = vec![255, 0, 0, 255, 0, 0, 255, 255];
    encode_rgba_export("tiny.png", "png", 2, 1, rgba).unwrap().bytes
}

fn abs_path(name: &str) -> String {
    if std::path::MAIN_SEPARATOR == '\\' {
        format!("C:\\exports\\{name}")
    } else {
        format!("/tmp/exports/{name}")
    }
}

#[test]
fn file_names_are_checked() {
    assert_eq!(sanitize_filename("report.txt").unwrap(), "report.txt");
    assert_eq!(sanitize_filename("dir/inner.png").unwrap(), "inner.png");
    assert_eq!(sanitize_filename("a..b").unwrap_err(), "文件名无效");
    assert_eq!(sanitize_filename("").unwrap_err(), "文件名无效");
    assert_eq!(sanitize_filename("dir/..").unwrap_err(), "文件名无效");
}

#[test]
fn destinations_are_checked() {
    assert_eq!(validate_dest_path("relative/file.png").unwrap_err(), "保存路径无效");
    let good = abs_path("out.png");
    assert_eq!(validate_dest_path(&good).unwrap(), good);
    let w = plan_binary_write(&good, vec![1, 2, 3]).unwrap();
    assert_eq!(w.path, good);
    assert_eq!(w.bytes, vec![1, 2, 3]);
}

#[test]
fn format_names_ignore_case() {
    assert_eq!(parse_image_format("PNG"), Ok(ImageFormatKind::Png));
    assert_eq!(parse_image_format("jpg"), Ok(ImageFormatKind::Jpeg));
    assert_eq!(parse_image_format("Tif"), Ok(ImageFormatKind::Tiff));
    assert_eq!(parse_image_format("AVIF"), Ok(ImageFormatKind::Avif));
    assert_eq!(parse_image_format("Svg").unwrap_err(), "不支持的图片格式: svg");
}

#[test]
fn payloads_decode_after_trimming() {
    assert_eq!(decode_base64_payload("  aGVsbG8=\n").unwrap(), b"hello".to_vec());
    assert!(decode_base64_payload("not base64!").unwrap_err().starts_with("解码图片数据失败: "));
    assert!(decode_base64_payload("aGVsbG8").is_err());
}

#[test]
fn binary_exports() {
    let path = abs_path("hello.bin");
    let w = export_binary_base64_to_path(&path, "aGVsbG8=").unwrap();
    assert_eq!(w.bytes, b"hello".to_vec());
    assert!(export_binary_base64_to_path(&path, "%%").unwrap_err().starts_with("解码图片数据失败: "));
    assert_eq!(export_binary_base64_to_path("x.bin", "aGVsbG8=").unwrap_err(), "保存路径无效");
    let nb = binary_base64_download("notes.bin", "aGk=").unwrap();
    assert_eq!(nb.file_name, "notes.bin");
    assert_eq!(nb.bytes, b"hi".to_vec());
    assert_eq!(binary_base64_download("..", "aGk=").unwrap_err(), "文件名无效");
}

#[test]
fn rgba_exports() {
    let png = tiny_png();
    assert_eq!(&png[1..4], b"PNG");
    assert_eq!(
        encode_rgba_export("a.png", "png", 2, 2, vec![0; 8]).unwrap_err(),
        "图片像素数据无效"
    );
    assert_eq!(encode_rgba_export("a.png", "xyz", 1, 1, vec![0; 4]).unwrap_err(), "不支持的图片格式: xyz");
    assert_eq!(encode_rgba_export("", "png", 1, 1, vec![0; 4]).unwrap_err(), "文件名无效");
}

#[test]
fn conversions() {
    let png = tiny_png();
    let path = abs_path("tiny.bmp");
    let w = convert_image_bytes_to_path(&path, "bmp", &png).unwrap();
    assert_eq!(&w.bytes[0..2], b"BM");
    assert!(convert_image_bytes_to_path(&path, "bmp", b"garbage").unwrap_err().starts_with("无法解析图片: "));
    assert_eq!(convert_image_bytes_to_path(&path, "raw", &png).unwrap_err(), "不支持的图片格式: raw");
    let b64 = "iVBORw0KGgo=";
    assert!(convert_image_base64_to_path(&path, "bmp", b64).unwrap_err().starts_with("无法解析图片: "));
    let nb = convert_image_base64_export("x.png", "png", "@@").unwrap_err();
    assert!(nb.starts_with("解码图片数据失败: "));
}

#[test]
fn reveal_commands() {
    let p = abs_path("out.png");
    assert_eq!(reveal_export_path(&p, false, DesktopFamily::MacOs).unwrap_err(), "文件不存在");
    let (prog, args) = reveal_export_path(&p, true, DesktopFamily::Windows).unwrap();
    assert_eq!(prog, "explorer");
    assert_eq!(args, vec![format!("/select,{p}")]);
    let (prog, args) = reveal_export_path(&p, true, DesktopFamily::MacOs).unwrap();
    assert_eq!(prog, "open");
    assert_eq!(args, vec!["-R".to_string(), p.clone()]);
    let (prog, args) = reveal_export_path("/tmp/exports/out.png", true, DesktopFamily::Other).unwrap();
    assert_eq!(prog, "xdg-open");
    if std::path::MAIN_SEPARATOR == '/' {
        assert_eq!(args, vec!["/tmp/exports".to_string()]);
    }
    assert_eq!(reveal_export_path("/", true, DesktopFamily::Other).unwrap_err(), "路径无效");
}

#[test]
fn export_buffer_reads_back_its_chunks() {
    let mut state = ExportBufferState::new();
    begin_export_buffer(&mut state, "e1".to_string()).unwrap();
    append_export_base64(&mut state, "e1".to_string(), "aGVs".to_string()).unwrap();
    append_export_base64(&mut state, "e1".to_string(), " bG8= ".to_string()).unwrap();
    assert_eq!(take_export_bytes(&mut state, "e1").unwrap(), b"hello".to_vec());
    assert_eq!(take_export_bytes(&mut state, "e1").unwrap_err(), "导出会话不存在或已结束");
}

#[test]
fn export_buffer_errors() {
    let mut state = ExportBufferState::new();
    assert_eq!(
        append_export_base64(&mut state, "nope".to_string(), "aGk=".to_string()).unwrap_err(),
        "导出会话不存在或已结束"
    );
    begin_export_buffer(&mut state, "e2".to_string()).unwrap();
    assert!(append_export_base64(&mut state, "e2".to_string(), "***".to_string())
        .unwrap_err()
        .starts_with("解码图片数据失败: "));
    let dest = abs_path("e2.bin");
    assert_eq!(finish_export_binary(&mut state, "e2".to_string(), dest.clone()).unwrap_err(), "导出数据为空");
    assert_eq!(finish_export_binary(&mut state, "e2".to_string(), dest).unwrap_err(), "导出会话不存在或已结束");
    begin_export_buffer(&mut state, "e3".to_string()).unwrap();
    cancel_export_buffer(&mut state, "e3".to_string()).unwrap();
    assert!(take_export_bytes(&mut state, "e3").is_err());
}

#[test]
fn export_buffer_finishes() {
    let mut state = ExportBufferState::new();
    begin_export_buffer(&mut state, "bin".to_string()).unwrap();
    append_export_base64(&mut state, "bin".to_string(), "aGk=".to_string()).unwrap();
    let dest = abs_path("hi.bin");
    let w = finish_export_binary(&mut state, "bin".to_string(), dest.clone()).unwrap();
    assert_eq!(w.path, dest);
    assert_eq!(w.bytes, b"hi".to_vec());

    let png = tiny_png();
    let b64 = base64::engine::general_purpose::STANDARD.encode(&png);
    begin_export_buffer(&mut state, "img".to_string()).unwrap();
    append_export_base64(&mut state, "img".to_string(), b64).unwrap();
    let w = finish_convert_export(&mut state, "img".to_string(), abs_path("img.bmp"), "BMP".to_string()).unwrap();
    assert_eq!(&w.bytes[0..2], b"BM");
}
