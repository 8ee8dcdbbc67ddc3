use svc_config::doc::clone_table;
use svc_config::toml_merge;
use svc_config::CfgError;
use svc_config::CfgTable;
use svc_config::CfgValue;
use svc_config::Entry;

fn s(x: &str) -> CfgValue {
    CfgValue::Str(x.to_string())
}

fn n(x: i64) -> CfgValue {
    CfgValue::Int(x)
}

fn tbl(entries: Vec<(&str, CfgValue)>) -> CfgTable {
    CfgTable {
        entries: entries
            .into_iter()
            .map(|(k, v)| Entry {
                key: k.to_string(),
                val: v,
            })
            .collect(),
    }
}

/// Sets the value at a dotted-out path, creating nested tables on the
/// way, descending into existing tables.
fn set_path(t: &mut CfgTable, path: &[&str], val: CfgValue) {
    let key = path[0];
    if path.len() == 1 {
        for e in t.entries.iter_mut() {
            if e.key == key {
                e.val = val;
                return;
            }
        }
        t.entries.push(Entry {
            key: key.to_string(),
            val,
        });
        return;
    }
    for e in t.entries.iter_mut() {
        if e.key == key {
            if let CfgValue::Tbl(sub) = &mut e.val {
                set_path(sub, &path[1..], val);
                return;
            }
            panic!("path runs through a non-table");
        }
    }
    let mut sub = CfgTable {
        entries: Vec::new(),
    };
    set_path(&mut sub, &path[1..], val);
    t.entries.push(Entry {
        key: key.to_string(),
        val: CfgValue::Tbl(sub),
    });
}

#[test]
fn merge_with_empty_me_table() {
    let mut me = tbl(vec![]);
    let other = tbl(vec![("fruit", s("apple")), ("veggie", s("carrot"))]);
    let expected = clone_table(&other);
    toml_merge(&mut me, &other).unwrap();

    assert_eq!(me, expected);
}

#[test]
fn merge_with_empty_other_table() {
    let mut me = tbl(vec![("fruit", s("apple")), ("veggie", s("carrot"))]);
    let other = tbl(vec![]);
    let expected = clone_table(&me);
    toml_merge(&mut me, &other).unwrap();

    assert_eq!(me, expected);
}

#[test]
fn merge_with_shallow_tables() {
    let mut me = tbl(vec![
        ("fruit", s("apple")),
        ("veggie", s("carrot")),
        ("awesomeness", n(10)),
    ]);
    let other = tbl(vec![("fruit", s("orange")), ("awesomeness", n(99))]);
    let expected = tbl(vec![
        ("fruit", s("orange")),
        ("veggie", s("carrot")),
        ("awesomeness", n(99)),
    ]);
    toml_merge(&mut me, &other).unwrap();

    assert_eq!(me, expected);
}

#[test]
fn merge_with_differing_value_types() {
    let mut me = tbl(vec![
        ("fruit", s("apple")),
        ("veggie", s("carrot")),
        (
            "awesome_things",
            CfgValue::Arr(vec![s("carrots"), s("kitties"), s("unicorns")]),
        ),
        ("heat", n(42)),
    ]);
    let other = tbl(vec![
        ("heat", s("hothothot")),
        ("awesome_things", s("habitat")),
    ]);
    let expected = tbl(vec![
        ("fruit", s("apple")),
        ("veggie", s("carrot")),
        ("awesome_things", s("habitat")),
        ("heat", s("hothothot")),
    ]);
    toml_merge(&mut me, &other).unwrap();

    assert_eq!(me, expected);
}

#[test]
fn merge_with_table_values() {
    let mut me = tbl(vec![(
        "frubnub",
        s("foobar"),
    )]);
    set_path(&mut me, &["server", "some-details"], s("initial"));
    set_path(&mut me, &["server", "port"], n(1000));

    let mut other = tbl(vec![]);
    set_path(&mut other, &["server", "port"], n(5000));
    set_path(&mut other, &["server", "more-details"], s("yep"));

    let mut expected = tbl(vec![("frubnub", s("foobar"))]);
    set_path(&mut expected, &["server", "some-details"], s("initial"));
    set_path(&mut expected, &["server", "port"], n(5000));
    set_path(&mut expected, &["server", "more-details"], s("yep"));

    toml_merge(&mut me, &other).unwrap();

    assert_eq!(me, expected);
}

const DEEP_PATH: [&str; 30] = [
    "a", "b", "c", "d", "e", "f", "g", "h", "i", "j", "k", "l", "m", "n", "o", "p", "q", "r", "s",
    "t", "u", "v", "w", "x", "y", "z", "aa", "ab", "ac", "ad",
];

#[test]
fn merge_with_deep_table_values() {
    let stew_path: Vec<&str> = DEEP_PATH
        .iter()
        .copied()
        .chain(["stew"])
        .collect();
    let fancy_path = ["a", "b", "c", "d", "e", "f", "foxtrot", "fancy"];
    let funny_path = ["a", "b", "c", "d", "e", "f", "foxtrot", "funny"];

    let mut me = tbl(vec![]);
    set_path(&mut me, &stew_path, s("carrot"));
    set_path(&mut me, &fancy_path, s("fork"));

    let mut other = tbl(vec![]);
    set_path(&mut other, &stew_path, s("beef"));
    set_path(&mut other, &fancy_path, s("feast"));
    set_path(&mut other, &funny_path, s("farm"));

    let mut expected = tbl(vec![]);
    set_path(&mut expected, &stew_path, s("beef"));
    set_path(&mut expected, &fancy_path, s("feast"));
    set_path(&mut expected, &funny_path, s("farm"));

    toml_merge(&mut me, &other).unwrap();

    assert_eq!(me, expected);
}

#[test]
fn merge_with_dangerously_deep_table_values() {
    let too_deep: Vec<&str> = DEEP_PATH
        .iter()
        .copied()
        .chain(["ae", "af", "stew"])
        .collect();

    let mut me = tbl(vec![]);
    set_path(&mut me, &too_deep, s("carrot"));

    let mut other = tbl(vec![]);
    set_path(&mut other, &too_deep, s("beef"));

    match toml_merge(&mut me, &other) {
        Err(e) => match e {
            CfgError::MergeDepthExceeded(bound) => assert_eq!(bound, 30),
            _ => panic!("Should fail with CfgError::MergeDepthExceeded"),
        },
        Ok(_) => panic!("Should not complete successfully"),
    }
}
