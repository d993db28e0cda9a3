use rustfox::string_map::StringMap;
use rustfox::state::{
    dismiss_toast, dispatch_shortcut, export_file_stem, merged_vars, new_project_name, parse_match_lines, push_step, valid_theme, vars_from_rows,
    ShortcutAction, Toast, ToastKind, AUTO, DARK, LIGHT, MAX_STEPS,
};

#[test]
fn vars_skip_empty_keys_keep_values() {
    let rows: Vec<(String, String)> = vec![
        ("base_url".into(), "https://api.example.com".into()),
        ("".into(), "应被跳过".into()),
        ("  ".into(), "空白键也跳过".into()),
        ("token".into(), String::new()),
    ];
    let map = vars_from_rows(&rows);
    assert_eq!(map.len(), 2);
    assert_eq!(map.get("base_url").as_deref(), Some("https://api.example.com"));
    assert_eq!(map.get("token").as_deref(), Some(""));
    assert!(!map.contains_key(""));
}

#[test]
fn vars_keys_are_trimmed() {
    let rows: Vec<(String, String)> = vec![("  base_url  ".into(), "v".into())];
    let map = vars_from_rows(&rows);
    assert_eq!(map.get("base_url").as_deref(), Some("v"));
}

#[test]
fn vars_empty_input_yields_empty_map() {
    let map = vars_from_rows(&Vec::new());
    assert_eq!(map.len(), 0);
}

#[test]
fn vars_later_row_wins_for_same_key() {
    let rows: Vec<(String, String)> = vec![("k".into(), "1".into()), (" k ".into(), "2".into())];
    let map = vars_from_rows(&rows);
    assert_eq!(map.len(), 1);
    assert_eq!(map.get("k").as_deref(), Some("2"));
}

#[test]
fn theme_validation_accepts_known_modes() {
    assert!(valid_theme(AUTO));
    assert!(valid_theme(DARK));
    assert!(valid_theme(LIGHT));
}

#[test]
fn theme_validation_rejects_unknown_modes() {
    assert!(!valid_theme("blue"));
    assert!(!valid_theme(""));
    assert!(!valid_theme("LIGHT"));
}

#[test]
fn toast_classes() {
    assert_eq!(ToastKind::Success.css_class(), "rf-toast-success");
    assert_eq!(ToastKind::Error.css_class(), "rf-toast-error");
    assert_eq!(ToastKind::Info.css_class(), "rf-toast-info");
}

#[test]
fn dismiss_removes_only_that_toast() {
    let mut toasts = vec![
        Toast { id: 1, kind: ToastKind::Info, message: "a".into() },
        Toast { id: 2, kind: ToastKind::Error, message: "b".into() },
        Toast { id: 3, kind: ToastKind::Success, message: "c".into() },
    ];
    dismiss_toast(&mut toasts, 2);
    assert_eq!(toasts.len(), 2);
    assert_eq!(toasts[0].id, 1);
    assert_eq!(toasts[1].id, 3);
    assert_eq!(toasts[1].message, "c");
    dismiss_toast(&mut toasts, 42);
    assert_eq!(toasts.len(), 2);
}

#[test]
fn steps_keep_the_most_recent() {
    let mut steps: Vec<String> = Vec::new();
    for i in 0..(MAX_STEPS + 5) {
        push_step(&mut steps, format!("step {i}"));
        assert!(steps.len() <= MAX_STEPS);
    }
    assert_eq!(steps.len(), MAX_STEPS);
    assert_eq!(steps[0], "step 5");
    assert_eq!(steps[MAX_STEPS - 1], format!("step {}", MAX_STEPS + 4));
}

#[test]
fn match_lines_parsed() {
    let items = parse_match_lines(" a = 1 \n\nno-equals\nb==2\r\n=x\n");
    let got: Vec<(String, String)> = items.into_iter().map(|m| (m.key, m.value)).collect();
    assert_eq!(
        got,
        vec![
            ("a".to_string(), "1".to_string()),
            ("b".to_string(), "=2".to_string()),
            ("".to_string(), "x".to_string()),
        ]
    );
}

#[test]
fn dispatch_maps_shortcut_messages() {
    assert!(matches!(dispatch_shortcut(Some("new-endpoint")), ShortcutAction::NewEndpoint(n) if n == "未命名接口"));
    assert!(matches!(dispatch_shortcut(Some("new-folder")), ShortcutAction::NewFolder(n) if n == "新建文件夹"));
    assert!(matches!(dispatch_shortcut(Some("other")), ShortcutAction::Ignore));
    assert!(matches!(dispatch_shortcut(None), ShortcutAction::Ignore));
}

#[test]
fn environment_variables_override_project_ones() {
    let mut project = StringMap::new();
    project.insert("base_url".into(), "https://prod".into());
    project.insert("token".into(), "p".into());
    let mut env = StringMap::new();
    env.insert("base_url".into(), "http://localhost".into());
    env.insert("debug".into(), "1".into());
    let m = merged_vars(Some(&project), Some(&env));
    assert_eq!(m.len(), 3);
    assert_eq!(m.get("base_url").as_deref(), Some("http://localhost"));
    assert_eq!(m.get("token").as_deref(), Some("p"));
    assert_eq!(m.get("debug").as_deref(), Some("1"));
    assert_eq!(merged_vars(Some(&project), None).get("base_url").as_deref(), Some("https://prod"));
    assert_eq!(merged_vars(None, None).len(), 0);
}

#[test]
fn project_names_trimmed_and_required() {
    assert_eq!(new_project_name("  演示项目 ").unwrap(), "演示项目");
    assert_eq!(new_project_name(" \t ").unwrap_err(), "项目名称不能为空");
    assert_eq!(new_project_name("").unwrap_err(), "项目名称不能为空");
}

#[test]
fn export_stems_are_file_safe() {
    assert_eq!(export_file_stem(" My API/v1: a\\b "), "My_API_v1__a_b");
    assert_eq!(export_file_stem("项目"), "项目");
}
