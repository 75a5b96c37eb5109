use ergogen::cli::collect_names;
use ergogen::error::Error;
use ergogen::params::{check_params, param_step, strip_params, substitute_params, ParamStep};
use ergogen::value::Value;

fn s(x: &str) -> Value {
    Value::String(x.to_string())
}

fn entries(entries: Vec<(&str, Value)>) -> Vec<(String, Value)> {
    entries.into_iter().map(|(k, v)| (k.to_string(), v)).collect()
}

#[test]
fn parameterization_steps() {
    assert_eq!(param_step(&entries(vec![("a", s("x"))]), "t").unwrap(), ParamStep::Keep);
    assert_eq!(param_step(&entries(vec![("$skip", Value::Bool(true))]), "t").unwrap(), ParamStep::Omit);
    assert_eq!(
        param_step(&entries(vec![("$skip", Value::Bool(false)), ("$params", Value::Sequence(vec![]))]), "t")
            .unwrap(),
        ParamStep::Omit
    );
    assert_eq!(
        param_step(&entries(vec![("$params", Value::Null), ("$args", Value::Null)]), "t").unwrap(),
        ParamStep::Apply
    );
    match param_step(&entries(vec![("$args", Value::Null)]), "a.b") {
        Err(Error::Parameterize { at, message }) => {
            assert_eq!(at, "a.b");
            assert_eq!(message, "found $args but missing $params");
        }
        other => panic!("unexpected {other:?}"),
    }
}

#[test]
fn params_and_args_are_checked() {
    let params = Value::Sequence(vec![s("AAA"), s("BBB")]);
    let args = Value::Sequence(vec![Value::Number(42.0f64.to_bits()), s("x")]);
    let (names, vals) = check_params("t", &params, &args).unwrap();
    assert_eq!(names, vec!["AAA".to_string(), "BBB".to_string()]);
    assert_eq!(vals, vec![Value::Number(42.0f64.to_bits()), s("x")]);

    let err = |p: &Value, a: &Value| match check_params("t", p, a) {
        Err(Error::Parameterize { at, message }) => (at, message),
        other => panic!("unexpected {other:?}"),
    };
    assert_eq!(
        err(&s("AAA"), &args),
        ("t.$params".to_string(), "$params must be an array of strings".to_string())
    );
    assert_eq!(err(&params, &s("x")), ("t.$args".to_string(), "$args must be an array".to_string()));
    assert_eq!(
        err(&Value::Sequence(vec![s("A")]), &args),
        ("t".to_string(), "the number of $params and $args doesn't match".to_string())
    );
    assert_eq!(
        err(&Value::Sequence(vec![s("A"), Value::Null]), &args),
        ("t.$params".to_string(), "$params must contain strings".to_string())
    );
}

#[test]
fn instantiated_values_lose_their_parameter_keys() {
    let v = Value::Mapping(entries(vec![
        ("$params", Value::Null),
        ("name", s("42")),
        ("$args", Value::Null),
        ("$skip", Value::Bool(false)),
    ]));
    assert_eq!(strip_params(v), Value::Mapping(entries(vec![("name", s("42"))])));
    assert_eq!(strip_params(s("x")), s("x"));
}

#[test]
fn output_names_skip_private_entries() {
    let cfg = Value::Mapping(entries(vec![(
        "outlines",
        Value::Mapping(entries(vec![("_helper", Value::Null), ("plate", Value::Null)])),
    )]));
    assert_eq!(collect_names(&cfg, "outlines", false), vec!["plate".to_string()]);
    assert_eq!(
        collect_names(&cfg, "outlines", true),
        vec!["_helper".to_string(), "plate".to_string()]
    );
    assert!(collect_names(&cfg, "cases", false).is_empty());
}

#[test]
fn substitution_replaces_each_parameter_in_turn() {
    let names = vec!["W".to_string(), "H".to_string()];
    let args = vec!["42".to_string(), "W".to_string(), "extra".to_string()];
    let out = substitute_params("k", "{\"a\":\"W\",\"b\":\"H+W\"}", &names, &args).unwrap();
    assert_eq!(out, "{\"a\":\"42\",\"b\":\"W+42\"}");
}

#[test]
fn substitution_reports_invalid_parameter_regex() {
    let names = vec!["(".to_string()];
    let args = vec!["1".to_string()];
    match substitute_params("outlines.x", "{}", &names, &args) {
        Err(Error::Parameterize { at, message }) => {
            assert_eq!(at, "outlines.x.$params");
            assert!(message.starts_with("invalid regex \"(\": "));
            assert!(message.len() > "invalid regex \"(\": ".len());
        }
        other => panic!("unexpected {other:?}"),
    }
}

/// A JSON value in the library's form (numbers by their bits).
fn from_json(v: &serde_json::Value) -> Value {
    match v {
        serde_json::Value::Null => Value::Null,
        serde_json::Value::Bool(b) => Value::Bool(*b),
        serde_json::Value::Number(n) => Value::Number(n.as_f64().unwrap().to_bits()),
        serde_json::Value::String(t) => Value::String(t.clone()),
        serde_json::Value::Array(a) => Value::Sequence(a.iter().map(from_json).collect()),
        serde_json::Value::Object(o) => {
            Value::Mapping(o.iter().map(|(k, v)| (k.clone(), from_json(v))).collect())
        }
    }
}

fn lookup<'a>(m: &'a [(String, Value)], k: &str) -> Option<&'a Value> {
    m.iter().find(|(key, _)| key == k).map(|(_, v)| v)
}

#[test]
fn parameterize_replaces_and_removes_params_and_args() {
    // The mapping `t` of the configuration, and its JSON text.
    let t = entries(vec![
        ("$params", Value::Sequence(vec![s("AAA")])),
        ("$args", Value::Sequence(vec![Value::Number(42.0f64.to_bits())])),
        ("name", s("AAA")),
        ("x", s("AAA + 1")),
    ]);
    let json = r#"{"$params":["AAA"],"$args":[42],"name":"AAA","x":"AAA + 1"}"#;

    assert_eq!(param_step(&t, "t").unwrap(), ParamStep::Apply);
    let (names, vals) = check_params("t", lookup(&t, "$params").unwrap(), lookup(&t, "$args").unwrap()).unwrap();
    let arg_texts: Vec<String> = vals
        .iter()
        .map(|v| match v {
            Value::Number(bits) => format!("{}", f64::from_bits(*bits) as i64),
            other => panic!("unexpected {other:?}"),
        })
        .collect();
    let replaced = substitute_params("t", json, &names, &arg_texts).unwrap();
    let reparsed: serde_json::Value = serde_json::from_str(&replaced).unwrap();
    let got = strip_params(from_json(&reparsed));

    let Value::Mapping(m) = got else { panic!("t should be map") };
    assert_eq!(lookup(&m, "name"), Some(&Value::String("42".to_string())));
    assert_eq!(lookup(&m, "x"), Some(&Value::String("42 + 1".to_string())));
    assert!(lookup(&m, "$params").is_none());
    assert!(lookup(&m, "$args").is_none());
}
