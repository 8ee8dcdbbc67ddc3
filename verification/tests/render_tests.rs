use svc_config::CfgError;
use svc_config::CfgRenderer;
use svc_config::CfgTable;
use svc_config::CfgValue;
use svc_config::Entry;

fn n(x: i64) -> CfgValue {
    CfgValue::Int(x)
}

fn tbl(entries: Vec<(&str, CfgValue)>) -> CfgTable {
    CfgTable {
        entries: entries
            .into_iter()
            .map(|(k, v)| Entry {
                key: k.to_string(),
                val: v,
            })
            .collect(),
    }
}

fn two_templates() -> Vec<(String, String)> {
    vec![
        (
            "db.conf".to_string(),
            "port = {{port}}\n".to_string(),
        ),
        (
            "web.conf".to_string(),
            "workers = {{workers}}\n".to_string(),
        ),
    ]
}

#[test]
fn registration_failure_names_the_template() {
    let templates = vec![
        ("good.conf".to_string(), "a = {{a}}".to_string()),
        ("bad.conf".to_string(), "{{#if}".to_string()),
    ];
    match CfgRenderer::new(templates) {
        Err(CfgError::TemplateRegistrationError(name, _)) => assert_eq!(name, "bad.conf"),
        Err(_) => panic!("wrong error"),
        Ok(_) => panic!("registration should fail"),
    }
}

#[test]
fn compile_renders_against_the_document() {
    let renderer = CfgRenderer::new(two_templates()).expect("register templates");
    let ctx = tbl(vec![("port", n(8080)), ("workers", n(4))]);
    let out = renderer.compile(&ctx, &vec![None, None]).unwrap();
    assert!(out.changed);
    assert_eq!(
        out.writes,
        vec![
            ("db.conf".to_string(), "port = 8080\n".to_string()),
            ("web.conf".to_string(), "workers = 4\n".to_string()),
        ]
    );
}

#[test]
fn recompiling_an_unchanged_context_writes_nothing() {
    let renderer = CfgRenderer::new(two_templates()).expect("register templates");
    let ctx = tbl(vec![("port", n(8080)), ("workers", n(4))]);

    let first = renderer.compile(&ctx, &vec![None, None]).unwrap();
    assert!(first.changed);

    // The destinations now hold exactly what the first pass wrote.
    let on_disk: Vec<Option<String>> = first.writes.iter().map(|w| Some(w.1.clone())).collect();
    let second = renderer.compile(&ctx, &on_disk).unwrap();
    assert!(!second.changed);
    assert_eq!(second.writes, vec![]);
}

#[test]
fn changing_one_value_rewrites_exactly_the_affected_file() {
    let renderer = CfgRenderer::new(two_templates()).expect("register templates");
    let ctx = tbl(vec![("port", n(8080)), ("workers", n(4))]);
    let first = renderer.compile(&ctx, &vec![None, None]).unwrap();
    let on_disk: Vec<Option<String>> = first.writes.iter().map(|w| Some(w.1.clone())).collect();

    let ctx2 = tbl(vec![("port", n(8080)), ("workers", n(8))]);
    let out = renderer.compile(&ctx2, &on_disk).unwrap();
    assert!(out.changed);
    assert_eq!(
        out.writes,
        vec![("web.conf".to_string(), "workers = 8\n".to_string())]
    );
}

#[test]
fn an_absent_destination_forces_a_write() {
    let renderer = CfgRenderer::new(vec![(
        "db.conf".to_string(),
        "port = {{port}}\n".to_string(),
    )])
    .expect("register template");
    let ctx = tbl(vec![("port", n(8080))]);

    // The rendered text is already on disk: nothing to do.
    let kept = renderer
        .compile(&ctx, &vec![Some("port = 8080\n".to_string())])
        .unwrap();
    assert!(!kept.changed);

    // An unreadable or missing destination is rewritten even so.
    let missing = renderer.compile(&ctx, &vec![None]).unwrap();
    assert!(missing.changed);
    assert_eq!(
        missing.writes,
        vec![("db.conf".to_string(), "port = 8080\n".to_string())]
    );
}

#[test]
fn render_failure_names_the_template() {
    let renderer = CfgRenderer::new(vec![(
        "broken.conf".to_string(),
        "{{> missing_partial}}".to_string(),
    )])
    .expect("register template");
    let ctx = tbl(vec![]);
    match renderer.compile(&ctx, &vec![None]) {
        Err(CfgError::RenderError(name, _)) => assert_eq!(name, "broken.conf"),
        Err(_) => panic!("wrong error"),
        Ok(_) => panic!("render should fail"),
    }
}

#[test]
fn nested_tables_render_through_dotted_access() {
    let renderer = CfgRenderer::new(vec![(
        "app.conf".to_string(),
        "db = {{cfg.database}}\n".to_string(),
    )])
    .expect("register template");
    let ctx = tbl(vec![(
        "cfg",
        CfgValue::Tbl(tbl(vec![("database", CfgValue::Str("origin".to_string()))])),
    )]);
    let out = renderer.compile(&ctx, &vec![None]).unwrap();
    assert_eq!(
        out.writes,
        vec![("app.conf".to_string(), "db = origin\n".to_string())]
    );
}
