use rinova_void::projects::{
    add_project_summary, is_json_path, plan_project_save, project_file_name, project_summary,
    sort_newest_first, summary_from_fields, ProjectSummary,
};

fn summary(id: &str, t: u64) -> ProjectSummary {
    ProjectSummary {
        id: id.to_string(),
        name: id.to_string(),
        updated_at: t,
        image_count: 0,
        preview_base64: None,
    }
}

#[test]
fn project_ids() {
    assert_eq!(project_file_name("proj-01_A").unwrap(), "proj-01_A.json");
    assert_eq!(project_file_name("").unwrap_err(), "项目 ID 无效");
    assert_eq!(project_file_name("../x").unwrap_err(), "项目 ID 无效");
    assert_eq!(project_file_name("a b").unwrap_err(), "项目 ID 无效");
    assert_eq!(project_file_name("中文").unwrap_err(), "项目 ID 无效");
    assert!(is_json_path("/data/p1.json"));
    assert!(!is_json_path("/data/p1.JSON"));
    assert!(!is_json_path("/data/p1"));
}

#[test]
fn saving_checks_the_document() {
    assert_eq!(
        plan_project_save(r#"{"id":"p1","name":"x"}"#).unwrap(),
        ("p1".to_string(), "p1.json".to_string())
    );
    assert!(plan_project_save("{oops").unwrap_err().starts_with("项目数据无效: "));
    assert_eq!(plan_project_save(r#"{"name":"x"}"#).unwrap_err(), "项目缺少 id");
    assert_eq!(plan_project_save(r#"{"id":7}"#).unwrap_err(), "项目缺少 id");
    assert_eq!(plan_project_save(r#"{"id":"a/b"}"#).unwrap_err(), "项目 ID 无效");
}

#[test]
fn summaries_of_documents() {
    let s = project_summary(
        r#"{"id":"p1","name":"Trip","updatedAt":17,"documents":[1,2,3],"previewBase64":"AAA="}"#,
    )
    .unwrap()
    .unwrap();
    assert_eq!(s.id, "p1");
    assert_eq!(s.name, "Trip");
    assert_eq!(s.updated_at, 17);
    assert_eq!(s.image_count, 3);
    assert_eq!(s.preview_base64.as_deref(), Some("AAA="));
    let d = project_summary(r#"{"id":"p2"}"#).unwrap().unwrap();
    assert_eq!(d.name, "未命名项目");
    assert_eq!((d.updated_at, d.image_count), (0, 0));
    assert!(d.preview_base64.is_none());
    assert!(project_summary(r#"{"id":""}"#).unwrap().is_none());
    assert!(project_summary(r#"{"name":"no id"}"#).unwrap().is_none());
    assert!(project_summary("[1,").unwrap_err().starts_with("解析项目失败: "));
    assert!(summary_from_fields(Some("x".into()), None, Some(5), Some(2), None).is_some());
    assert!(summary_from_fields(None, None, None, None, None).is_none());
}

#[test]
fn listing_is_newest_first_and_stable() {
    let sorted = sort_newest_first(vec![
        summary("a", 5),
        summary("b", 9),
        summary("c", 5),
        summary("d", 1),
        summary("e", 9),
    ]);
    let ids: Vec<&str> = sorted.iter().map(|s| s.id.as_str()).collect();
    assert_eq!(ids, vec!["b", "e", "a", "c", "d"]);
    assert!(sort_newest_first(vec![]).is_empty());
}

#[test]
fn listing_collects_documents() {
    let mut items = Vec::new();
    add_project_summary(&mut items, r#"{"id":"old","updatedAt":1}"#).unwrap();
    add_project_summary(&mut items, r#"{"name":"skipped"}"#).unwrap();
    add_project_summary(&mut items, r#"{"id":"new","updatedAt":3}"#).unwrap();
    assert!(add_project_summary(&mut items, "nope").is_err());
    assert_eq!(items.len(), 2);
    let sorted = sort_newest_first(items);
    assert_eq!(sorted[0].id, "new");
}
