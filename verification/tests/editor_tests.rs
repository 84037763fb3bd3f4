use rinova_void::editor::{
    append_editor_session_image, begin_editor_session, check_image_file, commit_editor_session,
    image_file_result, is_image_path, take_image_editor_session, EditorImageItem,
    EditorSessionMeta, ImageEditorState,
};
use rinova_void::export::encode_rgba_export;

fn meta(active: &str) -> EditorSessionMeta {
    EditorSessionMeta {
        active_id: active.to_string(),
        export_mode: "single".to_string(),
        export_format_id: "png".to_string(),
        compression_preset_id: "none".to_string(),
        size_scale_preset_id: "100".to_string(),
        thumbnail_sizes: vec![64, 128],
        ico_sizes: vec![16, 32],
        project_id: None,
        project_name: Some("demo".to_string()),
    }
}

fn item(id: &str, bytes: Vec<u8>) -> EditorImageItem {
    EditorImageItem {
        id: id.to_string(),
        name: format!("{id}.png"),
        width: 1,
        height: 1,
        bytes,
        export_name: format!("{id}-out"),
        edit_state: Some(serde_json::Value::Bool(true)),
    }
}

#[test]
fn session_hands_over_what_was_staged() {
    let mut state = ImageEditorState::new();
    begin_editor_session(&mut state, "s1".to_string(), meta("a")).unwrap();
    append_editor_session_image(&mut state, "s1".to_string(), item("a", vec![1])).unwrap();
    append_editor_session_image(&mut state, "s1".to_string(), item("b", vec![2, 3])).unwrap();
    commit_editor_session(&mut state, "s1".to_string()).unwrap();
    let batch = take_image_editor_session(&mut state).unwrap().unwrap();
    assert_eq!(batch.meta.active_id, "a");
    assert_eq!(batch.meta.project_name.as_deref(), Some("demo"));
    let ids: Vec<&str> = batch.images.iter().map(|i| i.id.as_str()).collect();
    assert_eq!(ids, vec!["a", "b"]);
    assert_eq!(batch.images[1].bytes, vec![2, 3]);
    assert!(take_image_editor_session(&mut state).unwrap().is_none());
    assert_eq!(
        commit_editor_session(&mut state, "s1".to_string()).unwrap_err(),
        "编辑会话不存在或已过期"
    );
}

#[test]
fn session_errors() {
    let mut state = ImageEditorState::new();
    assert_eq!(begin_editor_session(&mut state, "  ".to_string(), meta("a")).unwrap_err(), "会话 ID 无效");
    assert_eq!(begin_editor_session(&mut state, "s".to_string(), meta(" \t")).unwrap_err(), "未指定活动图片");
    assert_eq!(
        append_editor_session_image(&mut state, "s".to_string(), item("a", vec![1])).unwrap_err(),
        "编辑会话不存在或已过期"
    );
    begin_editor_session(&mut state, "s".to_string(), meta("a")).unwrap();
    assert_eq!(
        append_editor_session_image(&mut state, "s".to_string(), item("a", vec![])).unwrap_err(),
        "图片数据为空"
    );
    assert_eq!(commit_editor_session(&mut state, "s".to_string()).unwrap_err(), "请至少添加一张图片");
    assert_eq!(commit_editor_session(&mut state, "s".to_string()).unwrap_err(), "编辑会话不存在或已过期");
    assert!(take_image_editor_session(&mut state).unwrap().is_none());
}

#[test]
fn restarting_a_session_discards_its_images() {
    let mut state = ImageEditorState::new();
    begin_editor_session(&mut state, "s".to_string(), meta("a")).unwrap();
    append_editor_session_image(&mut state, "s".to_string(), item("a", vec![1])).unwrap();
    begin_editor_session(&mut state, "s".to_string(), meta("b")).unwrap();
    assert_eq!(commit_editor_session(&mut state, "s".to_string()).unwrap_err(), "请至少添加一张图片");
}

#[test]
fn image_paths() {
    assert!(is_image_path("/photos/cat.PNG"));
    assert!(is_image_path("icon.svg"));
    assert!(is_image_path("scan.TIFF"));
    assert!(!is_image_path("notes.txt"));
    assert!(!is_image_path("png"));
    assert_eq!(check_image_file("/a/b.png", false).unwrap_err(), "文件不存在");
    assert_eq!(check_image_file("/a/b.doc", true).unwrap_err(), "不支持的图片格式");
    assert!(check_image_file("/a/b.jpeg", true).is_ok());
}

#[test]
fn image_files_are_described() {
    let png = encode_rgba_export("p.png", "png", 3, 2, vec![7; 24]).unwrap().bytes;
    let f = image_file_result("/pics/p.png", png.clone()).unwrap();
    assert_eq!(f.name, "p.png");
    assert_eq!((f.width, f.height), (3, 2));
    assert_eq!(f.bytes, png);
    assert!(image_file_result("/pics/bad.png", vec![1, 2, 3]).unwrap_err().starts_with("无法解析图片: "));
}
