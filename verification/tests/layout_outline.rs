use ergogen::layout::{eval_affect, eval_bool_opt, eval_string, eval_tags, LayoutError};
use ergogen::value::Value;
use ergogen::layout::{eval_asym, mirror_image_names, mirror_ref, resolve_template, template, Asymmetry, KeyNames};
use ergogen::outline::{
    enter_outline, leave_outline, looks_like_regex_literal, parse_asym, parse_outline_ref, regex_literal_pattern,
    select_points, where_regex, where_selection, Asym, OutlineError, OutlineRefOp, WhereSelection,
};

fn key() -> KeyNames {
    KeyNames {
        zone: "matrix".to_string(),
        col: "inner".to_string(),
        row: "home".to_string(),
        colrow: "inner_home".to_string(),
        name: "matrix_inner_home".to_string(),
    }
}

#[test]
fn mirrored_references() {
    assert_eq!(mirror_ref("matrix_a", false), "matrix_a");
    assert_eq!(mirror_ref("matrix_a", true), "mirror_matrix_a");
    assert_eq!(mirror_ref("mirror_matrix_a", true), "matrix_a");
}

#[test]
fn asymmetry_aliases() {
    assert_eq!(eval_asym("both"), Asymmetry::Both);
    assert_eq!(eval_asym("left"), Asymmetry::Source);
    assert_eq!(eval_asym("image"), Asymmetry::Clone);
    assert_eq!(eval_asym("whatever"), Asymmetry::Both);
    assert_eq!(parse_asym(Some("right"), false), Asym::Clone);
    assert_eq!(parse_asym(Some("whatever"), true), Asym::Both);
    assert_eq!(parse_asym(None, false), Asym::Source);
}

#[test]
fn templates_fill_in_key_names() {
    let k = key();
    assert_eq!(template("{{ zone.name }}_{{col.name}}_{{row}}", &k), "matrix_inner_home");
    assert_eq!(template("x{{unknown}}y", &k), "xy");
    assert_eq!(template("{{{name}}}", &k), "}");
    assert_eq!(template("{{name} }}", &k), "{{name} }}");
    assert_eq!(resolve_template("colrow", &k), "inner_home");
}

#[test]
fn outline_references() {
    assert_eq!(parse_outline_ref("-hole"), (OutlineRefOp::Subtract, "hole".to_string()));
    assert_eq!(parse_outline_ref("^x"), (OutlineRefOp::Stack, "x".to_string()));
    assert_eq!(parse_outline_ref("~x"), (OutlineRefOp::Intersect, "x".to_string()));
    assert_eq!(parse_outline_ref("+x"), (OutlineRefOp::Add, "x".to_string()));
    assert_eq!(parse_outline_ref("x"), (OutlineRefOp::Add, "x".to_string()));
}

#[test]
fn regex_literals() {
    assert!(looks_like_regex_literal("/abc/"));
    assert!(looks_like_regex_literal("/a/i"));
    assert!(!looks_like_regex_literal("/abc"));
    assert!(!looks_like_regex_literal("abc/"));
    assert!(!looks_like_regex_literal("/"));
    assert_eq!(regex_literal_pattern("/ab/c/i"), Some("(?i)ab/c".to_string()));
    assert_eq!(regex_literal_pattern("/ab/"), Some("ab".to_string()));
    assert_eq!(regex_literal_pattern("/ab"), None);
}

#[test]
fn where_selectors_pick_points() {
    let names: Vec<String> = vec!["matrix_a".into(), "mirror_matrix_a".into(), "thumb".into()];
    let mirrored = vec![false, true, false];
    let re = where_regex("/^MATRIX/i").unwrap().unwrap();
    assert_eq!(select_points(&names, &mirrored, Asym::Both, Some(&re)), vec![0]);
    let re = where_regex("/matrix/").unwrap().unwrap();
    assert_eq!(select_points(&names, &mirrored, Asym::Both, Some(&re)), vec![0, 1]);
    assert_eq!(select_points(&names, &mirrored, Asym::Clone, Some(&re)), vec![1]);
    assert_eq!(select_points(&names, &mirrored, Asym::Source, None), vec![0, 2]);
    assert!(where_regex("matrix").unwrap().is_none());
    match where_regex("/(/") {
        Err(OutlineError::Unsupported(m)) => assert_eq!(m, "invalid regex"),
        Err(other) => panic!("unexpected {other:?}"),
        Ok(_) => panic!("expected an error"),
    }
}

#[test]
fn layout_settings_are_checked_by_type() {
    let s = |x: &str| Value::String(x.to_string());

    assert_eq!(eval_string(&s("abc"), "k").unwrap(), "abc");
    match eval_string(&Value::Bool(true), "points.key.name") {
        Err(LayoutError::InvalidString { at }) => assert_eq!(at, "points.key.name"),
        other => panic!("unexpected {other:?}"),
    }

    assert_eq!(eval_bool_opt(None, "k").unwrap(), None);
    assert_eq!(eval_bool_opt(Some(&Value::Null), "k").unwrap(), None);
    assert_eq!(eval_bool_opt(Some(&Value::Bool(false)), "k").unwrap(), Some(false));
    assert!(matches!(
        eval_bool_opt(Some(&s("yes")), "k"),
        Err(LayoutError::InvalidBool { at }) if at == "k"
    ));

    assert!(eval_tags(None, "t").unwrap().is_empty());
    assert!(eval_tags(Some(&Value::Null), "t").unwrap().is_empty());
    assert_eq!(eval_tags(Some(&s("a")), "t").unwrap(), vec!["a".to_string()]);
    let list = Value::Sequence(vec![s("a"), s("b")]);
    assert_eq!(eval_tags(Some(&list), "t").unwrap(), vec!["a".to_string(), "b".to_string()]);
    let bad = Value::Sequence(vec![s("a"), Value::Bool(true)]);
    assert!(matches!(eval_tags(Some(&bad), "t"), Err(LayoutError::InvalidString { at }) if at == "t"));
    assert!(matches!(
        eval_tags(Some(&Value::Bool(true)), "t"),
        Err(LayoutError::InvalidString { .. })
    ));

    assert_eq!(eval_affect(&s("xyr"), "a").unwrap(), vec!['x', 'y', 'r']);
    let parts = Value::Sequence(vec![s("x"), s("yr")]);
    assert_eq!(eval_affect(&parts, "a").unwrap(), vec!['x', 'y', 'r']);
    assert!(matches!(eval_affect(&bad, "a"), Err(LayoutError::InvalidString { .. })));
    assert!(matches!(eval_affect(&Value::Null, "a"), Err(LayoutError::InvalidString { .. })));
}

#[test]
fn outline_references_detect_cycles() {
    let v = enter_outline(&Vec::new(), "a").unwrap();
    let v = enter_outline(&v, "b").unwrap();
    assert_eq!(v, vec!["a".to_string(), "b".to_string()]);
    match enter_outline(&v, "a") {
        Err(OutlineError::OutlineCycle { name }) => assert_eq!(name, "a"),
        other => panic!("unexpected {other:?}"),
    }
    let v = leave_outline(&v, "b");
    assert_eq!(v, vec!["a".to_string()]);
    assert!(enter_outline(&v, "b").is_ok());
}

#[test]
fn mirror_images_are_named_with_prefix() {
    assert_eq!(
        mirror_image_names(Asymmetry::Both, "matrix_inner_home", "inner_home"),
        Some(("mirror_matrix_inner_home".to_string(), "mirror_inner_home".to_string()))
    );
    assert_eq!(
        mirror_image_names(Asymmetry::Clone, "k", "c"),
        Some(("mirror_k".to_string(), "mirror_c".to_string()))
    );
    assert_eq!(mirror_image_names(Asymmetry::Source, "k", "c"), None);
}

#[test]
fn where_values_select_points() {
    let pts = vec![
        ("matrix_a".to_string(), false),
        ("thumb_b".to_string(), false),
        ("mirror_matrix_a".to_string(), true),
    ];
    let idx = |r: Result<WhereSelection, OutlineError>| match r {
        Ok(WhereSelection::Points(v)) => v,
        other => panic!("unexpected {other:?}"),
    };
    assert_eq!(idx(where_selection(&Value::Bool(true), &pts, Asym::Both)), vec![0, 1, 2]);
    assert_eq!(idx(where_selection(&Value::Bool(true), &pts, Asym::Source)), vec![0, 1]);
    assert_eq!(idx(where_selection(&Value::Bool(true), &pts, Asym::Clone)), vec![2]);
    assert_eq!(idx(where_selection(&Value::Bool(false), &pts, Asym::Both)), Vec::<usize>::new());
    assert_eq!(idx(where_selection(&Value::String("/matrix/".to_string()), &pts, Asym::Both)), vec![0, 2]);
    assert!(matches!(where_selection(&Value::Null, &pts, Asym::Both), Ok(WhereSelection::Origin)));
    assert!(matches!(where_selection(&Value::String("matrix_a".to_string()), &pts, Asym::Both), Ok(WhereSelection::Anchor)));
    assert!(matches!(where_selection(&Value::Mapping(vec![]), &pts, Asym::Both), Ok(WhereSelection::Anchor)));
    match where_selection(&Value::String("/(/".to_string()), &pts, Asym::Both) {
        Err(OutlineError::Unsupported(m)) => assert_eq!(m, "invalid regex"),
        other => panic!("unexpected {other:?}"),
    }
}
