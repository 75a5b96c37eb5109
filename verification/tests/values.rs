use ergogen::error::Error;
use ergogen::value::{extend_all, extend_one, unnest, Value};

fn num(x: f64) -> Value {
    Value::Number(x.to_bits())
}

fn text(s: &str) -> Value {
    Value::String(s.to_string())
}

fn map(entries: Vec<(&str, Value)>) -> Value {
    Value::Mapping(entries.into_iter().map(|(k, v)| (k.to_string(), v)).collect())
}

#[test]
fn unnest_converts_dotted_keys() {
    let raw = map(vec![("a.b", num(1.0)), ("a.c", num(2.0))]);
    let got = unnest(&raw).unwrap();
    let want = map(vec![("a", map(vec![("b", num(1.0)), ("c", num(2.0))]))]);
    assert_eq!(got, want);
}

#[test]
fn unnest_reports_a_path_through_a_scalar() {
    let raw = map(vec![("a", num(1.0)), ("a.b", num(2.0))]);
    match unnest(&raw) {
        Err(Error::InvalidPath { path, segment }) => {
            assert_eq!(path, "a.b");
            assert_eq!(segment, "b");
        }
        other => panic!("unexpected {other:?}"),
    }
}

#[test]
fn paths_read_back_what_was_written() {
    let mut v = map(vec![]);
    v.set_path("points.zones.matrix", num(3.0)).unwrap();
    assert_eq!(v.get_path("points.zones.matrix"), Some(&num(3.0)));
    assert_eq!(v.get_path(".points..zones."), Some(&map(vec![("matrix", num(3.0))])));
    assert_eq!(v.get_path("points.missing"), None);
    assert_eq!(v.get_path(""), Some(&v));
    let before = map(vec![("points", map(vec![("zones", map(vec![("matrix", num(3.0))]))]))]);
    match v.set_path("points.zones.matrix.x", num(1.0)) {
        Err(Error::InvalidPath { path, segment }) => {
            assert_eq!(path, "points.zones.matrix.x");
            assert_eq!(segment, "x");
        }
        other => panic!("unexpected {other:?}"),
    }
    assert_eq!(v, before);
    v.set_path("", num(7.0)).unwrap();
    assert_eq!(v, num(7.0));
}

#[test]
fn set_path_replaces_in_place() {
    let mut v = map(vec![("a", num(1.0)), ("b", num(2.0))]);
    v.set_path("a", num(9.0)).unwrap();
    assert_eq!(v, map(vec![("a", num(9.0)), ("b", num(2.0))]));
}

#[test]
fn extend_merges_maps_and_unsets() {
    let base = map(vec![("x", num(1.0)), ("y", num(2.0))]);
    let over = map(vec![("y", text("$unset")), ("z", num(3.0))]);
    let got = extend_all(&[base, over]);
    assert_eq!(got, map(vec![("x", num(1.0)), ("z", num(3.0))]));
}

#[test]
fn extend_rules() {
    assert_eq!(extend_one(&num(1.0), &Value::Null), Some(num(1.0)));
    assert_eq!(extend_one(&num(1.0), &text("$unset")), None);
    assert_eq!(extend_one(&map(vec![]), &num(2.0)), Some(num(2.0)));
    let got = extend_one(
        &Value::Sequence(vec![num(1.0), num(2.0), num(3.0)]),
        &Value::Sequence(vec![Value::Null, text("$unset")]),
    );
    assert_eq!(got, Some(Value::Sequence(vec![num(1.0), Value::Null, num(3.0)])));
    let got = extend_one(&Value::Sequence(vec![]), &Value::Sequence(vec![Value::Null, num(4.0)]));
    assert_eq!(got, Some(Value::Sequence(vec![Value::Null, num(4.0)])));
    assert_eq!(extend_all(&[]), Value::Null);
    assert_eq!(extend_all(&[num(1.0), text("$unset")]), Value::Null);
}

#[test]
fn inherit_merges_and_unsets() {
    let raw = map(vec![
        ("templates", map(vec![("base", map(vec![("x", num(1.0)), ("y", num(2.0))]))])),
        (
            "thing",
            map(vec![
                ("$extends", text("templates.base")),
                ("y", text("$unset")),
                ("z", num(3.0)),
            ]),
        ),
    ]);
    let got = ergogen::inherit::inherit(&raw).unwrap();
    let thing = got.get_path("thing").unwrap();
    let m = thing.as_map().expect("thing should be map");
    let get = |k: &str| m.iter().find(|(key, _)| key == k).map(|(_, v)| v);
    assert_eq!(get("x"), Some(&num(1.0)));
    assert!(get("y").is_none());
    assert_eq!(get("z"), Some(&num(3.0)));
    assert!(get("$extends").is_none());
}

#[test]
fn inherit_reports_cycles_missing_targets_and_bad_entries() {
    let raw = map(vec![
        ("a", map(vec![("$extends", text("b"))])),
        ("b", map(vec![("$extends", text("a"))])),
    ]);
    match ergogen::inherit::inherit(&raw) {
        Err(Error::ExtendsCycle { cycle }) => assert_eq!(cycle, "a -> b -> a"),
        other => panic!("unexpected {other:?}"),
    }
    let raw = map(vec![("a", map(vec![("$extends", text("nope"))]))]);
    match ergogen::inherit::inherit(&raw) {
        Err(Error::ExtendsTargetMissing { from, path }) => {
            assert_eq!(from, "a.$extends");
            assert_eq!(path, "nope");
        }
        other => panic!("unexpected {other:?}"),
    }
    let raw = map(vec![("a", map(vec![("$extends", Value::Sequence(vec![num(1.0)]))]))]);
    match ergogen::inherit::inherit(&raw) {
        Err(Error::Parameterize { at, message }) => {
            assert_eq!(at, "a.$extends");
            assert_eq!(message, "$extends must be a string or array of strings");
        }
        other => panic!("unexpected {other:?}"),
    }
}

#[test]
fn inherit_follows_grandparents_and_sequence_breadcrumbs() {
    let raw = map(vec![
        ("g", map(vec![("w", num(1.0))])),
        ("p", map(vec![("$extends", text("g")), ("x", num(2.0))])),
        ("q", map(vec![("$extends", text("p")), ("y", num(3.0))])),
        ("list", Value::Sequence(vec![map(vec![("$extends", text("p")), ("y", num(3.0))])])),
    ]);
    let got = ergogen::inherit::inherit(&raw).unwrap();
    assert_eq!(
        got.get_path("q").unwrap(),
        &map(vec![("w", num(1.0)), ("x", num(2.0)), ("y", num(3.0))])
    );
    let item = match got.get_path("list").unwrap() {
        Value::Sequence(items) => &items[0],
        other => panic!("unexpected {other:?}"),
    };
    assert_eq!(item, &map(vec![("$extends", text("p")), ("y", num(3.0))]));
    let bad = map(vec![(
        "list",
        Value::Sequence(vec![map(vec![("inner", map(vec![("$extends", text("zz"))]))])]),
    )]);
    match ergogen::inherit::inherit(&bad) {
        Err(Error::ExtendsTargetMissing { from, .. }) => {
            assert_eq!(from, "list.[0].inner.$extends")
        }
        other => panic!("unexpected {other:?}"),
    }
}
