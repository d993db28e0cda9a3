use rustfox::model::HttpMethod;
use rustfox::openapi_import::{
    import_step_text, import_summary, plan_import, ConflictStrategy, FolderCache, FolderStep,
    ImportAction, ImportItem, EMPTY_IMPORT_MESSAGE, NO_PROJECT_MESSAGE,
};

fn item(name: &str, method: HttpMethod, path: &str) -> ImportItem {
    ImportItem { name: name.into(), method, path: path.into(), folder_hint: None }
}

fn existing() -> Vec<(HttpMethod, String)> {
    vec![
        (HttpMethod::GET, "/users".to_string()),
        (HttpMethod::POST, "/users".to_string()),
        (HttpMethod::GET, "/users".to_string()),
    ]
}

fn items() -> Vec<ImportItem> {
    vec![
        item("列出用户", HttpMethod::GET, "/users"),
        item("创建订单", HttpMethod::POST, "/orders"),
        item("删除用户", HttpMethod::DELETE, "/users"),
    ]
}

#[test]
fn conflicts_follow_the_strategy() {
    let skip = plan_import(&existing(), &items(), ConflictStrategy::Skip);
    assert_eq!(skip.len(), 3);
    assert!(matches!(skip[0], ImportAction::Skip));
    assert!(matches!(&skip[1], ImportAction::Create { name } if name == "创建订单"));
    assert!(matches!(&skip[2], ImportAction::Create { name } if name == "删除用户"));

    let over = plan_import(&existing(), &items(), ConflictStrategy::Overwrite);
    assert!(matches!(over[0], ImportAction::Overwrite { index: 0 }));
    assert!(matches!(&over[1], ImportAction::Create { name } if name == "创建订单"));

    let dup = plan_import(&existing(), &items(), ConflictStrategy::Duplicate);
    assert!(matches!(&dup[0], ImportAction::Create { name } if name == "列出用户 (副本)"));
    assert!(matches!(&dup[2], ImportAction::Create { name } if name == "删除用户"));
}

#[test]
fn overwrite_targets_first_match_and_empty_lists() {
    let ex = vec![(HttpMethod::PUT, "/a".to_string()), (HttpMethod::GET, "/b".to_string()), (HttpMethod::GET, "/b".to_string())];
    let plan = plan_import(&ex, &vec![item("b", HttpMethod::GET, "/b")], ConflictStrategy::Overwrite);
    assert!(matches!(plan[0], ImportAction::Overwrite { index: 1 }));
    assert!(plan_import(&ex, &Vec::new(), ConflictStrategy::Skip).is_empty());
    let fresh = plan_import(&Vec::new(), &items(), ConflictStrategy::Skip);
    assert!(fresh.iter().all(|a| matches!(a, ImportAction::Create { .. })));
}

#[test]
fn folders_made_once_per_group() {
    let mut cache = FolderCache::new();
    assert!(matches!(cache.folder_step(None), FolderStep::NoFolder));
    assert!(matches!(cache.folder_step(Some("用户")), FolderStep::Create(n) if n == "用户"));
    cache.remember("用户", 7);
    assert!(matches!(cache.folder_step(Some("用户")), FolderStep::Use(7)));
    assert!(matches!(cache.folder_step(Some("订单")), FolderStep::Create(n) if n == "订单"));
    cache.remember("订单", 9);
    assert!(matches!(cache.folder_step(Some("订单")), FolderStep::Use(9)));
    assert!(matches!(cache.folder_step(Some("用户")), FolderStep::Use(7)));
}

#[test]
fn import_messages() {
    assert_eq!(
        import_summary("OpenAPI 3.0", 2, 1, 3, 6),
        "导入完成（OpenAPI 3.0）：新建 2，覆盖 1，跳过 3（共 6 个接口）"
    );
    assert_eq!(import_step_text("Postman", 0, 4, 0), "导入 OpenAPI（Postman）：新建 0/覆盖 4/跳过 0");
    assert_eq!(NO_PROJECT_MESSAGE, "未选择项目");
    assert_eq!(EMPTY_IMPORT_MESSAGE, "文档中没有可导入的接口");
}
