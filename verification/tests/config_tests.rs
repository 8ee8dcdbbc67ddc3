use svc_config::cfg::env_var_name;
use svc_config::cfg::load_environment;
use svc_config::cfg::resolve_user_config_dir;
use svc_config::cfg::ServiceConfigView;
use svc_config::cfg::UserConfigDir;
use svc_config::CensusGroupView;
use svc_config::Cfg;
use svc_config::CfgError;
use svc_config::CfgTable;
use svc_config::CfgValue;
use svc_config::Entry;

fn s(x: &str) -> CfgValue {
    CfgValue::Str(x.to_string())
}

fn n(x: i64) -> CfgValue {
    CfgValue::Int(x)
}

fn tbl(entries: Vec<(&str, CfgValue)>) -> CfgTable {
    CfgTable {
        entries: entries
            .into_iter()
            .map(|(k, v)| Entry {
                key: k.to_string(),
                val: v,
            })
            .collect(),
    }
}

#[test]
fn load_deprecated_user_toml() {
    let (dir, notice) = resolve_user_config_dir(false, true);
    assert_eq!(dir, UserConfigDir::Deprecated);
    assert!(notice);

    let toml = "foo = 42";
    let cfg = Cfg::new("testing", None, Some(toml), None).expect("create config");
    assert_eq!(cfg.user, Some(tbl(vec![("foo", n(42))])));
}

#[test]
fn load_recommended_user_toml() {
    let (dir, notice) = resolve_user_config_dir(true, false);
    assert_eq!(dir, UserConfigDir::Recommended);
    assert!(!notice);

    let toml = "foo = 42";
    let cfg = Cfg::new("testing", None, Some(toml), None).expect("create config");
    assert_eq!(cfg.user, Some(tbl(vec![("foo", n(42))])));
}

#[test]
fn prefer_recommended_to_deprecated() {
    let (dir, notice) = resolve_user_config_dir(true, true);
    assert_eq!(dir, UserConfigDir::Recommended);
    assert!(!notice);

    // The deprecated file holds `foo = 13`, but only the recommended
    // location is read.
    let toml = "foo = 42";
    let cfg = Cfg::new("testing", None, Some(toml), None).expect("create config");
    assert_eq!(cfg.user, Some(tbl(vec![("foo", n(42))])));
}

#[test]
fn default_choice_without_any_user_toml() {
    let (dir, notice) = resolve_user_config_dir(false, false);
    assert_eq!(dir, UserConfigDir::Recommended);
    assert!(!notice);
}

#[test]
fn serialize_config() {
    let default_toml = "shards = []\n\n\
                        [datastore]\n\
                        database = \"builder_originsrv\"\n\
                        password = \"\"\n\
                        user = \"hab\"\n";
    let cfg = Cfg::new("testing", Some(default_toml), None, None).expect("Could not create config");

    assert_eq!(default_toml, cfg.to_output_string().unwrap());
}

#[test]
fn environment_variable_name_from_package_name() {
    assert_eq!(env_var_name("redis"), "HAB_REDIS");
    assert_eq!(env_var_name("my-service"), "HAB_MY_SERVICE");
    assert_eq!(env_var_name("pg_13"), "HAB_PG_13");
}

#[test]
fn environment_layer_parses_toml_first() {
    let layer = load_environment("testing", Some("port = 9000")).unwrap();
    assert_eq!(layer, Some(tbl(vec![("port", n(9000))])));
}

#[test]
fn environment_layer_falls_back_to_json() {
    let layer = load_environment("testing", Some("{\"port\": 9000}")).unwrap();
    assert_eq!(layer, Some(tbl(vec![("port", n(9000))])));
}

#[test]
fn environment_layer_rejects_garbage_naming_the_variable() {
    let err = load_environment("my-service", Some("{ neither = ")).unwrap_err();
    assert_eq!(
        err,
        CfgError::InvalidEnvironmentConfig("HAB_MY_SERVICE".to_string())
    );
}

#[test]
fn absent_environment_variable_is_no_layer() {
    let layer = load_environment("testing", None).unwrap();
    assert_eq!(layer, None);
}

#[test]
fn malformed_default_toml_fails_construction() {
    let err = Cfg::new("testing", Some("not = toml ="), None, None).unwrap_err();
    assert_eq!(err, CfgError::ParseError("default.toml".to_string()));
}

#[test]
fn update_with_stale_incarnation_is_a_no_op() {
    let mut cfg = Cfg::new("testing", None, None, None).expect("create config");
    let newer = CensusGroupView {
        service_config: Some(ServiceConfigView {
            incarnation: 2,
            value: tbl(vec![("a", n(1))]),
        }),
    };
    assert!(cfg.update(&newer));
    assert_eq!(cfg.gossip, Some(tbl(vec![("a", n(1))])));

    let stale = CensusGroupView {
        service_config: Some(ServiceConfigView {
            incarnation: 2,
            value: tbl(vec![("a", n(7))]),
        }),
    };
    assert!(!cfg.update(&stale));
    assert_eq!(cfg.gossip, Some(tbl(vec![("a", n(1))])));

    let none = CensusGroupView {
        service_config: None,
    };
    assert!(!cfg.update(&none));
    assert_eq!(cfg.gossip, Some(tbl(vec![("a", n(1))])));
}

#[test]
fn update_with_newer_incarnation_replaces_the_layer() {
    let mut cfg = Cfg::new("testing", None, None, None).expect("create config");
    let first = CensusGroupView {
        service_config: Some(ServiceConfigView {
            incarnation: 1,
            value: tbl(vec![("a", n(1))]),
        }),
    };
    let second = CensusGroupView {
        service_config: Some(ServiceConfigView {
            incarnation: 5,
            value: tbl(vec![("a", n(2))]),
        }),
    };
    assert!(cfg.update(&first));
    assert!(cfg.update(&second));
    assert_eq!(cfg.gossip, Some(tbl(vec![("a", n(2))])));
}

#[test]
fn precedence_across_all_four_layers() {
    let mut cfg = Cfg::new(
        "testing",
        Some("a = 1\nb = 2"),
        Some("b = 4"),
        Some("a = 3"),
    )
    .expect("create config");
    let gossip = CensusGroupView {
        service_config: Some(ServiceConfigView {
            incarnation: 1,
            value: tbl(vec![("a", n(5))]),
        }),
    };
    assert!(cfg.update(&gossip));

    let merged = cfg.merged().unwrap();
    assert_eq!(merged, tbl(vec![("a", n(5)), ("b", n(4))]));
}

#[test]
fn exports_omit_paths_that_do_not_fully_resolve() {
    let cfg = Cfg::new("testing", Some("port = 8080"), None, None).expect("create config");
    let exports = vec![("db".to_string(), "server.database".to_string())];
    let out = cfg.to_exported(&exports).unwrap();
    assert_eq!(out, tbl(vec![]));
}

#[test]
fn exports_include_fully_resolved_paths_verbatim() {
    let default_toml = "port = 8080\n[server]\ndatabase = \"origin\"";
    let cfg = Cfg::new("testing", Some(default_toml), None, None).expect("create config");
    let exports = vec![
        ("db".to_string(), "server.database".to_string()),
        ("port".to_string(), "port".to_string()),
    ];
    let out = cfg.to_exported(&exports).unwrap();
    assert_eq!(out, tbl(vec![("db", s("origin")), ("port", n(8080))]));
}

#[test]
fn exports_do_not_resume_from_partial_matches() {
    // `a` is absent, `b` is present at the top level: `a.b` must not
    // resolve to the top-level `b`.
    let cfg = Cfg::new("testing", Some("b = 1"), None, None).expect("create config");
    let exports = vec![("x".to_string(), "a.b".to_string())];
    let out = cfg.to_exported(&exports).unwrap();
    assert_eq!(out, tbl(vec![]));
}

#[test]
fn serialization_buckets_scalars_arrays_tables() {
    let doc = tbl(vec![
        ("t", CfgValue::Tbl(tbl(vec![("x", n(1))]))),
        ("s", s("v")),
        ("arr", CfgValue::Arr(vec![n(1), n(2)])),
    ]);
    let ordered = svc_config::order_table(&doc);
    assert_eq!(
        ordered,
        tbl(vec![
            ("s", s("v")),
            ("arr", CfgValue::Arr(vec![n(1), n(2)])),
            ("t", CfgValue::Tbl(tbl(vec![("x", n(1))]))),
        ])
    );
}

#[test]
fn io_error_reports_its_description() {
    let err = CfgError::IOError("disk on fire".to_string());
    assert_eq!(err.message(), "i/o failure: disk on fire");
}

#[test]
fn bucket_ordering_recurses_into_nested_tables() {
    let inner = tbl(vec![
        ("t2", CfgValue::Tbl(tbl(vec![("y", n(2))]))),
        ("s2", n(1)),
    ]);
    let doc = tbl(vec![("outer", CfgValue::Tbl(inner)), ("top", n(0))]);
    let ordered = svc_config::order_table(&doc);
    assert_eq!(
        ordered,
        tbl(vec![
            ("top", n(0)),
            (
                "outer",
                CfgValue::Tbl(tbl(vec![
                    ("s2", n(1)),
                    ("t2", CfgValue::Tbl(tbl(vec![("y", n(2))]))),
                ]))
            ),
        ])
    );
}
