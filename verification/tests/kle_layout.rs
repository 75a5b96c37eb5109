use ergogen::error::Error;
use ergogen::kle::{kle_layout, kle_zones, KleItem, KleKeyText};
use ergogen::value::Value;

fn s(x: &str) -> Value {
    Value::String(x.to_string())
}

fn map(entries: Vec<(&str, Value)>) -> Value {
    Value::Mapping(entries.into_iter().map(|(k, v)| (k.to_string(), v)).collect())
}

fn entries(entries: Vec<(&str, Value)>) -> Vec<(String, Value)> {
    entries.into_iter().map(|(k, v)| (k.to_string(), v)).collect()
}

#[test]
fn kle_layouts_are_read_into_rows() {
    let kle = Value::Sequence(vec![
        map(vec![("name", s("kb")), ("notes", s("a: 1"))]),
        Value::Sequence(vec![map(vec![("w", Value::Number(2.0f64.to_bits()))]), s("1_2\nx"), Value::Null]),
        Value::Sequence(vec![]),
    ]);
    let l = kle_layout(&kle).unwrap();
    assert_eq!(l.notes, Some("a: 1".to_string()));
    assert_eq!(l.rows.len(), 2);
    match &l.rows[0][..] {
        [KleItem::Props(p), KleItem::Key(labels)] => {
            assert_eq!(p, &entries(vec![("w", Value::Number(2.0f64.to_bits()))]));
            assert_eq!(labels, &vec!["1_2".to_string(), "x".to_string()]);
        }
        other => panic!("unexpected {other:?}"),
    }
    assert!(l.rows[1].is_empty());

    // A first object with key properties is a row item, not metadata.
    let kle = Value::Sequence(vec![Value::Sequence(vec![s("a")])]);
    let l = kle_layout(&kle).unwrap();
    assert_eq!(l.notes, None);
    assert_eq!(l.rows.len(), 1);
}

#[test]
fn kle_errors_name_the_problem() {
    match kle_layout(&map(vec![])) {
        Err(Error::Json(m)) => assert_eq!(m, "KLE root must be an array"),
        other => panic!("unexpected {other:?}"),
    }
    match kle_layout(&Value::Sequence(vec![s("row")])) {
        Err(Error::Json(m)) => assert_eq!(m, "KLE rows must be arrays"),
        other => panic!("unexpected {other:?}"),
    }
    match kle_layout(&Value::Sequence(vec![Value::Sequence(vec![Value::Bool(true)])])) {
        Err(Error::Json(m)) => assert_eq!(m, "KLE row items must be objects or strings"),
        other => panic!("unexpected {other:?}"),
    }
}

#[test]
fn kle_keys_become_zones() {
    let key = KleKeyText {
        width: "1 u".to_string(),
        height: "1 u".to_string(),
        origin_x: "-0.5 u".to_string(),
        origin_y: "0.5 u".to_string(),
        shift_x: "0 u".to_string(),
        shift_y: "0 u".to_string(),
        splay: 0.0f64.to_bits(),
        labels: vec!["".to_string(), "3_4".to_string()],
    };
    let meta = entries(vec![("footprint", s("mx")), ("label", s("old"))]);
    let got = kle_zones(&[key], &meta);
    let want = map(vec![(
        "points",
        map(vec![(
            "zones",
            map(vec![(
                "key1",
                map(vec![
                    (
                        "key",
                        map(vec![
                            ("origin", Value::Sequence(vec![s("-0.5 u"), s("0.5 u")])),
                            ("splay", Value::Number(0.0f64.to_bits())),
                            ("shift", Value::Sequence(vec![s("0 u"), s("0 u")])),
                        ]),
                    ),
                    (
                        "columns",
                        map(vec![(
                            "key1col",
                            map(vec![(
                                "rows",
                                map(vec![(
                                    "key1row",
                                    map(vec![
                                        ("footprint", s("mx")),
                                        ("label", s("3_4")),
                                        ("width", s("1 u")),
                                        ("height", s("1 u")),
                                        ("column_net", s("col_4")),
                                        ("row_net", s("row_3")),
                                    ]),
                                )]),
                            )]),
                        )]),
                    ),
                ]),
            )]),
        )]),
    )]);
    assert_eq!(got, want);
}
