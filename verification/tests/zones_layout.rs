use ergogen::layout::LayoutError;
use ergogen::outline::{classify_part, outline_parts, OutlineError, OutlinePart, OutlineRefOp};
use ergogen::value::Value;
use ergogen::zones::{
    check_new_names, expand_trbl, points_sections, simplify_default_names, split_zone, zone_keys,
};

fn s(x: &str) -> Value {
    Value::String(x.to_string())
}

fn n(x: f64) -> Value {
    Value::Number(x.to_bits())
}

fn map(entries: Vec<(&str, Value)>) -> Value {
    Value::Mapping(entries.into_iter().map(|(k, v)| (k.to_string(), v)).collect())
}

fn entries(entries: Vec<(&str, Value)>) -> Vec<(String, Value)> {
    entries.into_iter().map(|(k, v)| (k.to_string(), v)).collect()
}

#[test]
fn points_sections_are_read() {
    let cfg = map(vec![(
        "points",
        map(vec![
            ("zones", map(vec![("matrix", Value::Null)])),
            ("rotate", n(5.0)),
        ]),
    )]);
    let p = points_sections(&cfg).unwrap();
    assert_eq!(p.zones, entries(vec![("matrix", Value::Null)]));
    assert_eq!(p.key, map(vec![]));
    assert_eq!(p.rotate, Some(n(5.0)));
    assert_eq!(p.mirror, None);
    assert!(matches!(points_sections(&map(vec![])), Err(LayoutError::MissingPoints)));
    assert!(matches!(
        points_sections(&map(vec![("points", map(vec![]))])),
        Err(LayoutError::ZonesNotMap)
    ));
    assert!(matches!(
        points_sections(&map(vec![("points", map(vec![("zones", s("x"))]))])),
        Err(LayoutError::ZonesNotMap)
    ));
}

#[test]
fn zones_are_taken_apart() {
    let z = map(vec![
        ("anchor", map(vec![("ref", s("a"))])),
        ("columns", map(vec![])),
        ("rotate", n(10.0)),
        ("mirror", map(vec![("ref", s("b"))])),
    ]);
    let parts = split_zone(&z).unwrap();
    assert_eq!(parts.anchor, map(vec![("ref", s("a"))]));
    assert_eq!(parts.rotate, Some(n(10.0)));
    assert_eq!(parts.mirror, Some(map(vec![("ref", s("b"))])));
    assert_eq!(parts.rest, entries(vec![("columns", map(vec![]))]));
    let empty = split_zone(&Value::Null).unwrap();
    assert_eq!(empty.anchor, map(vec![]));
    assert!(empty.rest.is_empty());
    assert!(split_zone(&s("x")).is_none());
}

#[test]
fn later_zones_may_not_reuse_names() {
    let existing = vec!["a".to_string(), "b".to_string()];
    assert!(check_new_names(&existing, &["c".to_string()]).is_ok());
    match check_new_names(&existing, &["c".to_string(), "b".to_string(), "a".to_string()]) {
        Err(LayoutError::DuplicateKey { name }) => assert_eq!(name, "b"),
        other => panic!("unexpected {other:?}"),
    }
}

#[test]
fn bind_settings_expand_to_four_sides() {
    let d = (-1.0f64).to_bits();
    assert_eq!(expand_trbl(None, "b", d).unwrap(), vec![n(-1.0), n(-1.0), n(-1.0), n(-1.0)]);
    assert_eq!(expand_trbl(Some(&n(3.0)), "b", d).unwrap(), vec![n(3.0), n(3.0), n(3.0), n(3.0)]);
    assert_eq!(
        expand_trbl(Some(&Value::Sequence(vec![n(1.0), n(2.0)])), "b", d).unwrap(),
        vec![n(2.0), n(1.0), n(2.0), n(1.0)]
    );
    assert_eq!(
        expand_trbl(Some(&Value::Sequence(vec![n(1.0), Value::Null, s("u"), n(4.0)])), "b", d).unwrap(),
        vec![n(1.0), n(-1.0), s("u"), n(4.0)]
    );
    match expand_trbl(Some(&Value::Sequence(vec![n(1.0)])), "k.bind", d) {
        Err(LayoutError::InvalidTrbl { at }) => assert_eq!(at, "k.bind"),
        other => panic!("unexpected {other:?}"),
    }
}

#[test]
fn zone_keys_merge_settings_by_column_and_row() {
    let zone = entries(vec![
        ("key", map(vec![("spread", n(20.0))])),
        ("rows", map(vec![("bottom", Value::Null), ("top", map(vec![("padding", n(1.0))]))])),
        (
            "columns",
            map(vec![
                ("pinky", Value::Null),
                ("ring", map(vec![("rows", map(vec![("top", map(vec![("padding", n(2.0))]))]))])),
            ]),
        ),
    ]);
    let global = map(vec![("tags", s("g"))]);
    let default = map(vec![("spread", n(19.0)), ("padding", n(19.0))]);
    let cols = zone_keys(&zone, &global, &default);
    assert_eq!(cols.len(), 2);
    assert_eq!(cols[0].name, "pinky");
    assert_eq!(cols[1].name, "ring");
    let rows: Vec<&str> = cols[0].rows.iter().map(|(r, _)| r.as_str()).collect();
    assert_eq!(rows, vec!["bottom", "top"]);
    assert_eq!(
        cols[0].rows[0].1,
        map(vec![("spread", n(20.0)), ("padding", n(19.0)), ("tags", s("g"))])
    );
    assert_eq!(
        cols[1].rows[1].1,
        map(vec![("spread", n(20.0)), ("padding", n(2.0)), ("tags", s("g"))])
    );

    let bare = zone_keys(&entries(vec![]), &map(vec![]), &map(vec![]));
    assert_eq!(bare.len(), 1);
    assert_eq!(bare[0].name, "default");
    assert_eq!(bare[0].rows.len(), 1);
    assert_eq!(bare[0].rows[0].0, "default");
}

#[test]
fn default_names_are_simplified() {
    let pts = vec![
        ("matrix_default_default".to_string(), 0),
        ("other".to_string(), 1),
        ("matrix".to_string(), 2),
        ("x_default".to_string(), 3),
    ];
    assert_eq!(
        simplify_default_names(pts),
        vec![("other".to_string(), 1), ("matrix".to_string(), 0), ("x".to_string(), 3)]
    );
}

#[test]
fn outline_parts_and_their_kinds() {
    let cfg = map(vec![(
        "outlines",
        map(vec![
            ("a", map(vec![("p1", s("-b")), ("p2", map(vec![("what", s("rectangle"))]))])),
            ("b", Value::Sequence(vec![map(vec![("name", s("a")), ("operation", s("subtract"))])])),
            ("c", n(1.0)),
        ]),
    )]);
    let parts = outline_parts(&cfg, "a").unwrap();
    assert_eq!(parts, vec![s("-b"), map(vec![("what", s("rectangle"))])]);
    match classify_part(&parts[0]).unwrap() {
        OutlinePart::Reference { op, name } => {
            assert_eq!(op, OutlineRefOp::Subtract);
            assert_eq!(name, "b");
        }
        other => panic!("unexpected {other:?}"),
    }
    match classify_part(&parts[1]).unwrap() {
        OutlinePart::Shape { what, op } => {
            assert_eq!(what, "rectangle");
            assert_eq!(op, "add");
        }
        other => panic!("unexpected {other:?}"),
    }
    let parts = outline_parts(&cfg, "b").unwrap();
    match classify_part(&parts[0]).unwrap() {
        OutlinePart::Outline { name, op } => {
            assert_eq!(name, "a");
            assert_eq!(op, "subtract");
        }
        other => panic!("unexpected {other:?}"),
    }
    assert!(matches!(classify_part(&n(1.0)).unwrap(), OutlinePart::Ignored));
    match classify_part(&map(vec![("what", s("outline"))])) {
        Err(OutlineError::Unsupported(m)) => assert_eq!(m, "missing name"),
        other => panic!("unexpected {other:?}"),
    }
    match classify_part(&map(vec![("name", n(1.0))])) {
        Err(OutlineError::Unsupported(m)) => assert_eq!(m, "name must be a string"),
        other => panic!("unexpected {other:?}"),
    }
    match outline_parts(&cfg, "c") {
        Err(OutlineError::Unsupported(m)) => assert_eq!(m, "outlines.<name> must be a map or sequence"),
        other => panic!("unexpected {other:?}"),
    }
    match outline_parts(&cfg, "zzz") {
        Err(OutlineError::Unsupported(m)) => assert_eq!(m, "missing outlines.<name>"),
        other => panic!("unexpected {other:?}"),
    }
}
