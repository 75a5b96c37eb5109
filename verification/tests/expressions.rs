use ergogen::error::Error;
use ergogen::expr::{
    insert_implicit_multiplication, is_allowed_builtin_constant, is_ident_continue,
    is_ident_start, rewrite_expr, sanitize_ident,
};

#[test]
fn implicit_multiplication_between_number_and_unit() {
    assert_eq!(insert_implicit_multiplication("2u"), "2*u");
    assert_eq!(insert_implicit_multiplication("3 u"), "3 *u");
}

#[test]
fn implicit_multiplication_prefixes_leading_dot_numbers() {
    assert_eq!(insert_implicit_multiplication(".5u"), "0.5*u");
    assert_eq!(insert_implicit_multiplication("-.5u"), "-0.5*u");
}

#[test]
fn implicit_multiplication_keeps_known_function_calls() {
    assert_eq!(insert_implicit_multiplication("sin(x)"), "sin(x)");
    assert_eq!(insert_implicit_multiplication("u(2)"), "u*(2)");
    assert_eq!(insert_implicit_multiplication("2(x)"), "2*(x)");
    assert_eq!(insert_implicit_multiplication("(a)(b)"), "(a)*(b)");
}

#[test]
fn sanitize_ident_escapes_non_alphanumerics() {
    assert_eq!(sanitize_ident("$x"), "v__24_x");
    assert_eq!(sanitize_ident("key_1"), "v_key_1");
}

#[test]
fn identifier_classes() {
    assert!(is_ident_start('$'));
    assert!(is_ident_start('_'));
    assert!(!is_ident_start('1'));
    assert!(is_ident_continue('1'));
    assert!(!is_ident_continue('-'));
    assert!(is_allowed_builtin_constant("pi"));
    assert!(is_allowed_builtin_constant("e"));
    assert!(!is_allowed_builtin_constant("tau"));
}

#[test]
fn rewrite_replaces_variables_with_safe_names() {
    let names = vec!["u".to_string(), "$gap".to_string()];
    let (out, binds) = rewrite_expr("k", "u*2+$gap", &names).unwrap();
    assert_eq!(out, "v_u*2+v__24_gap");
    assert_eq!(
        binds,
        vec![
            ("v_u".to_string(), "u".to_string()),
            ("v__24_gap".to_string(), "$gap".to_string())
        ]
    );
}

#[test]
fn rewrite_keeps_function_calls_and_constants() {
    let names: Vec<String> = Vec::new();
    let (out, binds) = rewrite_expr("k", "sin (pi)", &names).unwrap();
    assert_eq!(out, "sin (pi)");
    assert!(binds.is_empty());
}

#[test]
fn rewrite_reports_unknown_variables() {
    let names = vec!["u".to_string()];
    match rewrite_expr("points.key", "u+foo", &names) {
        Err(Error::UnknownVariable { key, name }) => {
            assert_eq!(key, "points.key");
            assert_eq!(name, "foo");
        }
        other => panic!("unexpected {other:?}"),
    }
}

#[test]
fn implicit_multiplication_only_inserts_stars() {
    for e in ["(u-1)*2", "cx + cy", "sqrt(4)", "cos(u)", "$default_height + 1", "u"] {
        assert_eq!(insert_implicit_multiplication(e), e);
    }
    for e in ["2u v", "3(4)(5)", "2 sqrt(4)", "x y(1)"] {
        let out = insert_implicit_multiplication(e);
        assert_eq!(out.replace('*', ""), e.replace('*', ""));
        assert_ne!(out, e);
    }
    assert_eq!(insert_implicit_multiplication("2sin(1)"), "2*sin(1)");
}
