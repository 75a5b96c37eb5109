use ergogen::error::Error;
use ergogen::units::{default_units, merge_into, unit_definitions, ScalarExpr};
use ergogen::value::Value;

fn num(x: f64) -> Value {
    Value::Number(x.to_bits())
}

fn map(entries: Vec<(&str, Value)>) -> Value {
    Value::Mapping(entries.into_iter().map(|(k, v)| (k.to_string(), v)).collect())
}

fn names(d: &[(String, ScalarExpr)]) -> Vec<&str> {
    d.iter().map(|(k, _)| k.as_str()).collect()
}

#[test]
fn default_units_match_upstream_order_and_values() {
    let d = default_units();
    assert_eq!(
        names(&d),
        vec![
            "U",
            "u",
            "cx",
            "cy",
            "$default_stagger",
            "$default_spread",
            "$default_splay",
            "$default_height",
            "$default_width",
            "$default_padding",
            "$default_autobind"
        ]
    );
    assert_eq!(d[0].1, ScalarExpr::Number(19.05f64.to_bits()));
    assert_eq!(d[1].1, ScalarExpr::Number(19.0f64.to_bits()));
    assert_eq!(d[7].1, ScalarExpr::String("u-1".to_string()));
    assert_eq!(d[10].1, ScalarExpr::Number(10.0f64.to_bits()));
    assert_eq!(d[5].1.as_str(), Some("u"));
    assert_eq!(d[0].1.as_str(), None);
}

#[test]
fn overrides_stay_in_place_and_new_units_are_appended() {
    let cfg = map(vec![
        ("units", map(vec![("u", num(20.0)), ("cx", Value::String("u-1".to_string()))])),
        ("variables", map(vec![("foo", Value::String("u+2".to_string()))])),
    ]);
    let d = unit_definitions(&cfg).unwrap();
    assert_eq!(d.len(), 12);
    assert_eq!(d[1], ("u".to_string(), ScalarExpr::Number(20.0f64.to_bits())));
    assert_eq!(d[2], ("cx".to_string(), ScalarExpr::String("u-1".to_string())));
    assert_eq!(d[11], ("foo".to_string(), ScalarExpr::String("u+2".to_string())));
}

#[test]
fn unset_removes_a_unit() {
    let mut d = default_units();
    let from = vec![("cx".to_string(), ScalarExpr::String("$unset".to_string()))];
    merge_into(&mut d, Some(&from));
    assert!(!names(&d).contains(&"cx"));
    assert_eq!(d.len(), 10);
    merge_into(&mut d, None);
    assert_eq!(d.len(), 10);
}

#[test]
fn unit_sections_must_be_maps_of_numbers_or_strings() {
    let cfg = map(vec![("units", num(1.0))]);
    assert!(matches!(unit_definitions(&cfg), Err(Error::UnitsNotMap)));
    let cfg = map(vec![("variables", map(vec![("bad", Value::Bool(true))]))]);
    match unit_definitions(&cfg) {
        Err(Error::UnitsValueType { key }) => assert_eq!(key, "bad"),
        other => panic!("unexpected {other:?}"),
    }
}
