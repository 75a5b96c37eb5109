use ergogen::jscad::{CaseOp, JscadError, PartWhat};
use ergogen::jscad_doc::{
    circle_cag, circle_geom2, collect_outline_functions, rect_cag, rect_geom2, render_cases_v1,
    render_cases_v2, render_outline_fn, render_outline_fn_v2,
};
use ergogen::jscad_parts::{case_def_parts, case_sections, parse_case_part, CaseParts};
use ergogen::jscad_text::{render_case_fn, render_case_fn_v2, CaseDefText, PartText};
use ergogen::value::Value;

fn s(x: &str) -> Value {
    Value::String(x.to_string())
}

fn map(entries: Vec<(&str, Value)>) -> Value {
    Value::Mapping(entries.into_iter().map(|(k, v)| (k.to_string(), v)).collect())
}

fn names(v: &[&str]) -> Vec<String> {
    v.iter().map(|x| x.to_string()).collect()
}

fn part(name: &str, what: PartWhat, extrude: &str) -> PartText {
    PartText {
        name: name.to_string(),
        what,
        extrude: extrude.to_string(),
        shift: "[0,0,0]".to_string(),
        rotate_deg: "[0,0,0]".to_string(),
        rotate_rad: "[0,0,0]".to_string(),
        operation: None,
    }
}

#[test]
fn case_definitions_list_their_parts() {
    match case_def_parts("c", &Value::Sequence(vec![s("a"), s("-b")])).unwrap() {
        CaseParts::Parts(ps) => assert_eq!(ps, vec![s("a"), s("-b")]),
        other => panic!("unexpected {other:?}"),
    }
    let op = map(vec![("target", s("a")), ("tool", s("b"))]);
    match case_def_parts("c", &op).unwrap() {
        CaseParts::Op { target, tool } => {
            assert_eq!(target, s("a"));
            assert_eq!(tool, s("b"));
        }
        other => panic!("unexpected {other:?}"),
    }
    let single = map(vec![("name", s("a"))]);
    match case_def_parts("c", &single).unwrap() {
        CaseParts::Parts(ps) => assert_eq!(ps, vec![ergogen::value::copy_value(&single)]),
        other => panic!("unexpected {other:?}"),
    }
    match case_def_parts("c", &s("a")).unwrap() {
        CaseParts::Parts(ps) => assert_eq!(ps, vec![s("a")]),
        other => panic!("unexpected {other:?}"),
    }
    match case_def_parts("c", &Value::Bool(true)) {
        Err(JscadError::InvalidCase { name }) => assert_eq!(name, "c"),
        other => panic!("unexpected {other:?}"),
    }
}

#[test]
fn case_parts_name_outlines_and_cases() {
    let outlines = names(&["plate"]);
    let cases = names(&["bottom"]);
    let p = parse_case_part("c", &s("~bottom"), &outlines, &cases).unwrap();
    assert_eq!(p.part.name, "bottom");
    assert_eq!(p.part.what, PartWhat::Case);
    assert_eq!(p.part.operation, Some(CaseOp::Intersect));
    assert!(p.extrude.is_none() && p.shift.is_none() && p.rotate.is_none());

    let m = map(vec![
        ("name", s("bottom")),
        ("what", s("outline")),
        ("extrude", Value::Number(3.0f64.to_bits())),
        ("operation", s("subtract")),
    ]);
    let p = parse_case_part("c", &m, &outlines, &cases).unwrap();
    assert_eq!(p.part.name, "bottom");
    assert_eq!(p.part.what, PartWhat::Outline);
    assert_eq!(p.part.operation, Some(CaseOp::Subtract));
    assert_eq!(p.extrude, Some(Value::Number(3.0f64.to_bits())));
    assert!(p.shift.is_none());

    let m = map(vec![("name", s("bottom")), ("what", s("other"))]);
    let p = parse_case_part("c", &m, &outlines, &cases).unwrap();
    assert_eq!(p.part.what, PartWhat::Case);
    assert_eq!(p.part.operation, None);

    for bad in [map(vec![("what", s("case"))]), map(vec![("name", Value::Null)]), Value::Null] {
        match parse_case_part("c", &bad, &outlines, &cases) {
            Err(JscadError::InvalidCasePart { name }) => assert_eq!(name, "c"),
            other => panic!("unexpected {other:?}"),
        }
    }
}

#[test]
fn case_sections_must_be_mappings() {
    let cfg = map(vec![
        ("outlines", map(vec![("plate", Value::Null), ("board", Value::Null)])),
        ("cases", map(vec![("bottom", Value::Null)])),
    ]);
    let (cases, outlines) = case_sections(&cfg).unwrap();
    assert_eq!(cases, names(&["bottom"]));
    assert_eq!(outlines, names(&["plate", "board"]));
    assert!(matches!(case_sections(&map(vec![])), Err(JscadError::MissingCases)));
    assert!(matches!(
        case_sections(&map(vec![("cases", s("x"))])),
        Err(JscadError::CasesNotMap)
    ));
    assert!(matches!(
        case_sections(&map(vec![("cases", map(vec![]))])),
        Err(JscadError::MissingOutlines)
    ));
    assert!(matches!(
        case_sections(&map(vec![("cases", map(vec![])), ("outlines", Value::Null)])),
        Err(JscadError::OutlinesNotMap)
    ));
}

#[test]
fn outline_functions_are_collected_once_in_order() {
    let cases = vec![
        (
            "inner".to_string(),
            CaseDefText::Parts(vec![part("a", PartWhat::Outline, "1"), part("b", PartWhat::Outline, "2")]),
        ),
        (
            "outer".to_string(),
            CaseDefText::Op {
                target: part("a", PartWhat::Outline, "1"),
                tool: part("inner", PartWhat::Case, "0"),
            },
        ),
        ("more".to_string(), CaseDefText::Parts(vec![part("a", PartWhat::Outline, "3")])),
    ];
    let got = collect_outline_functions(&names(&["inner", "outer", "more"]), &cases).unwrap();
    assert_eq!(
        got,
        vec![
            ("a".to_string(), "1".to_string()),
            ("b".to_string(), "2".to_string()),
            ("a".to_string(), "3".to_string())
        ]
    );
    match collect_outline_functions(&names(&["inner", "nope"]), &cases) {
        Err(JscadError::UnknownCase { name }) => assert_eq!(name, "nope"),
        other => panic!("unexpected {other:?}"),
    }
}

#[test]
fn outline_functions_wrap_their_shapes() {
    let body = rect_cag("-1", "1", "-2", "2");
    assert_eq!(
        body,
        "new CSG.Path2D([[-1,-2],[1,-2]]).appendPoint([1,2]).appendPoint([-1,2]).appendPoint([-1,-2]).close().innerToCAG()"
    );
    assert_eq!(circle_cag("5"), "CAG.circle({\"center\":[0,0],\"radius\":5})");
    assert_eq!(rect_geom2("2", "4"), "const shape = rectangle({ size: [2, 4], center: [0, 0] });");
    assert_eq!(circle_geom2("5"), "const shape = circle({ radius: 5, center: [0, 0] });");

    let f = render_outline_fn("plate", "1", Some(circle_cag("5")), "[0, 0, 1]").unwrap();
    assert_eq!(
        f,
        "function plate_extrude_1_outline_fn(){\n    return CAG.circle({\"center\":[0,0],\"radius\":5})\n.extrude({ offset: [0, 0, 1] });\n}\n"
    );
    match render_outline_fn("plate", "1", None, "[0, 0, 1]") {
        Err(JscadError::UnsupportedOutline { name }) => assert_eq!(name, "plate"),
        other => panic!("unexpected {other:?}"),
    }
    let f = render_outline_fn_v2("plate", "1_5", Some(vec![circle_geom2("5")]), "1.5").unwrap();
    assert_eq!(
        f,
        "function plate_extrude_1_5_outline_fn(){\n  const shape = circle({ radius: 5, center: [0, 0] });\n  return extrudeLinear({ height: 1.5 }, shape);\n}\n"
    );
    assert!(matches!(
        render_outline_fn_v2("plate", "1", None, "1"),
        Err(JscadError::UnsupportedOutline { .. })
    ));
}

#[test]
fn case_documents_list_outlines_cases_and_main() {
    let cases = vec![
        ("inner".to_string(), CaseDefText::Parts(vec![part("a", PartWhat::Outline, "1")])),
        (
            "outer".to_string(),
            CaseDefText::Parts(vec![part("inner", PartWhat::Case, "0"), part("a", PartWhat::Outline, "1")]),
        ),
    ];
    let fns = vec!["F1".to_string(), "F2".to_string()];
    let order = names(&["inner", "outer"]);
    let doc = render_cases_v1("outer", &fns, &order, &cases).unwrap();
    let mut want = String::new();
    want += "F1\n\nF2\n\n\n\n";
    want += &render_case_fn("inner", &cases[0].1);
    want += "            \n            \n\n";
    want += &render_case_fn("outer", &cases[1].1);
    want += "            \n            \n";
    want += "        \n            function main() {\n                return outer_case_fn();\n            }\n\n        \n";
    assert_eq!(doc, want);

    let doc = render_cases_v2("outer", &fns, &order, &cases).unwrap();
    let mut want = String::new();
    want += "const { booleans, extrusions, primitives, transforms, measurements } = require('@jscad/modeling');\n";
    want += "const { union, subtract, intersect } = booleans;\n";
    want += "const { extrudeLinear } = extrusions;\n";
    want += "const { rectangle, circle, polygon } = primitives;\n";
    want += "const { translate, rotate } = transforms;\n";
    want += "const { measureBoundingBox } = measurements;\n\n";
    want += "F1\nF2\n\n";
    want += &render_case_fn_v2("inner", &cases[0].1);
    want += "\n";
    want += &render_case_fn_v2("outer", &cases[1].1);
    want += "\nconst main = () => outer_case_fn();\nmodule.exports = { main };\n";
    assert_eq!(doc, want);
    assert!(doc.starts_with("const { booleans, extrusions, primitives, transforms, measurements } = require('@jscad/modeling');\n"));
    assert!(doc.ends_with("outer_case_fn();\nmodule.exports = { main };\n"));
    assert!(!doc.contains("CSG"));

    match render_cases_v1("outer", &fns, &names(&["gone"]), &cases) {
        Err(JscadError::UnknownCase { name }) => assert_eq!(name, "gone"),
        other => panic!("unexpected {other:?}"),
    }
    assert!(matches!(
        render_cases_v2("outer", &fns, &names(&["gone"]), &cases),
        Err(JscadError::UnknownCase { .. })
    ));
}
