use ergogen::yaml_flow::{
    normalize_yaml_flow_sequence_expressions, normalize_yaml_flow_sequence_holes,
    normalize_yaml_text,
};

/// An item of a parsed flow sequence: null, a number or a string.
#[derive(Debug, PartialEq)]
enum Item {
    Null,
    Number(f64),
    Text(String),
}

/// Normalizes the text, parses it as YAML and returns the sequence at `a`.
fn seq_at_a(yaml: &str) -> Vec<Item> {
    let text = normalize_yaml_text(yaml);
    let v: serde_yaml::Value = serde_yaml::from_str(&text).unwrap();
    let a = v.get("a").expect("a should be present");
    let seq = a.as_sequence().expect("a should be seq");
    seq.iter()
        .map(|x| match x {
            serde_yaml::Value::Null => Item::Null,
            serde_yaml::Value::Number(n) => Item::Number(n.as_f64().unwrap()),
            serde_yaml::Value::String(s) => Item::Text(s.clone()),
            other => panic!("unexpected {other:?}"),
        })
        .collect()
}

#[test]
fn normalizes_flow_sequence_holes_to_nulls() {
    assert_eq!(normalize_yaml_text("a: [,10,,]\n"), "a: [null,10,null,null]\n");
    assert_eq!(
        seq_at_a("a: [,10,,]\n"),
        vec![Item::Null, Item::Number(10.0), Item::Null, Item::Null]
    );
}

#[test]
fn strips_trailing_commas_in_flow_sequences() {
    assert_eq!(normalize_yaml_text("a: [1, 2,]\n"), "a: [1, 2]\n");
    assert_eq!(seq_at_a("a: [1, 2,]\n"), vec![Item::Number(1.0), Item::Number(2.0)]);
    assert_eq!(normalize_yaml_text("a: [\n  1,\n  2,\n]\n"), "a: [\n  1,\n  2\n]\n");
    assert_eq!(
        seq_at_a("a: [\n  1,\n  2,\n]\n"),
        vec![Item::Number(1.0), Item::Number(2.0)]
    );
}

#[test]
fn normalizes_flow_sequence_expressions_to_strings() {
    assert_eq!(
        normalize_yaml_text("a: [-ks * 0.5, kp * 0.25]\n"),
        "a: ['-ks * 0.5', 'kp * 0.25']\n"
    );
    assert_eq!(
        seq_at_a("a: [-ks * 0.5, kp * 0.25]\n"),
        vec![Item::Text("-ks * 0.5".to_string()), Item::Text("kp * 0.25".to_string())]
    );
}

#[test]
fn keeps_numeric_flow_sequence_values() {
    assert_eq!(normalize_yaml_text("a: [1, -2.5, 3]\n"), "a: [1, -2.5, 3]\n");
    assert_eq!(
        seq_at_a("a: [1, -2.5, 3]\n"),
        vec![Item::Number(1.0), Item::Number(-2.5), Item::Number(3.0)]
    );
}

#[test]
fn text_without_brackets_is_unchanged() {
    let text = "points:\n  zones: {}\nname: 'x, y'\n";
    assert_eq!(normalize_yaml_flow_sequence_holes(text), text);
    assert_eq!(normalize_yaml_flow_sequence_expressions(text), text);
}

#[test]
fn quoted_brackets_and_expression_quoting() {
    let text = "a: '[,1]'\n";
    assert_eq!(normalize_yaml_flow_sequence_expressions(text), text);
    assert_eq!(normalize_yaml_flow_sequence_holes(text), text);
    let double = "a: \"[,\"\n";
    assert_eq!(normalize_yaml_flow_sequence_holes(double), double);
    assert_eq!(normalize_yaml_text(double), double);
    let word = "a: don't\nb: [,1]\n";
    assert_eq!(normalize_yaml_flow_sequence_holes(word), "a: don't\nb: [null,1]\n");
    let comment = "# it's here\nb: [1,,2]\n";
    assert_eq!(normalize_yaml_flow_sequence_holes(comment), "# it's here\nb: [1,null,2]\n");
    let after = "a: '[,'\nb: [,1]\n";
    assert_eq!(normalize_yaml_flow_sequence_holes(after), "a: '[,'\nb: [null,1]\n");
}
