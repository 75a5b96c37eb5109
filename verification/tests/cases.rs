use ergogen::jscad_text::{part_fn_call, render_case_fn, render_case_fn_v2, CaseDefText, PartText};
use ergogen::jscad::{
    collect_case_order, part_what, parse_case_part_str, polyline_to_cag, polyline_to_polygon,
    region_to_cag, region_to_geom2, CaseEntry, CaseOp, CaseRef, JscadError, PartWhat, TextRegion,
};

fn names(v: &[&str]) -> Vec<String> {
    v.iter().map(|s| s.to_string()).collect()
}

fn case_ref(name: &str, what: PartWhat) -> CaseRef {
    CaseRef { name: name.to_string(), what, operation: None }
}

fn pts(v: &[(&str, &str)]) -> Vec<(String, String)> {
    v.iter().map(|(x, y)| (x.to_string(), y.to_string())).collect()
}

#[test]
fn case_operations() {
    assert_eq!(CaseOp::from_prefix('+'), Some(CaseOp::Union));
    assert_eq!(CaseOp::from_prefix('-'), Some(CaseOp::Subtract));
    assert_eq!(CaseOp::from_prefix('~'), Some(CaseOp::Intersect));
    assert_eq!(CaseOp::from_prefix('x'), None);
    assert_eq!(CaseOp::from_str("intersect"), Some(CaseOp::Intersect));
    assert_eq!(CaseOp::from_str("Union"), None);
    assert_eq!(CaseOp::Subtract.js_method(), "subtract");
}

#[test]
fn part_strings_carry_operation_and_kind() {
    let outlines = names(&["plate", "both"]);
    let cases = names(&["bottom", "both"]);
    let p = parse_case_part_str("-bottom", &outlines, &cases);
    assert_eq!(p.name, "bottom");
    assert_eq!(p.what, PartWhat::Case);
    assert_eq!(p.operation, Some(CaseOp::Subtract));
    let p = parse_case_part_str("both", &outlines, &cases);
    assert_eq!(p.what, PartWhat::Outline);
    assert_eq!(p.operation, None);
    let p = parse_case_part_str("~unknown", &outlines, &cases);
    assert_eq!(p.name, "unknown");
    assert_eq!(p.what, PartWhat::Outline);
    assert_eq!(part_what(&"bottom".to_string(), &outlines, &cases), PartWhat::Case);
}

#[test]
fn case_order_is_depth_first_then_target() {
    let cases = vec![
        CaseEntry {
            name: "top".to_string(),
            parts: vec![
                case_ref("plate", PartWhat::Outline),
                case_ref("a", PartWhat::Case),
                case_ref("b", PartWhat::Case),
            ],
        },
        CaseEntry { name: "a".to_string(), parts: vec![case_ref("b", PartWhat::Case)] },
        CaseEntry { name: "b".to_string(), parts: vec![case_ref("top", PartWhat::Case)] },
    ];
    let order = collect_case_order(&"top".to_string(), &cases).unwrap();
    assert_eq!(order, names(&["a", "b", "top"]));
}

#[test]
fn case_order_reports_unknown_case() {
    let cases = vec![CaseEntry {
        name: "top".to_string(),
        parts: vec![case_ref("missing", PartWhat::Case)],
    }];
    match collect_case_order(&"top".to_string(), &cases) {
        Err(JscadError::UnknownCase { name }) => assert_eq!(name, "missing"),
        other => panic!("unexpected {other:?}"),
    }
    match collect_case_order(&"nope".to_string(), &cases) {
        Err(JscadError::UnknownCase { name }) => assert_eq!(name, "nope"),
        other => panic!("unexpected {other:?}"),
    }
}

#[test]
fn polyline_expressions() {
    let p = pts(&[("0", "0"), ("1", "0"), ("1", "2.5")]);
    assert_eq!(
        polyline_to_cag(&p).unwrap(),
        "new CSG.Path2D([[0,0],[1,0],[1,2.5]]).close().innerToCAG()"
    );
    assert_eq!(
        polyline_to_polygon(&p).unwrap(),
        "polygon({ points: [[0,0],[1,0],[1,2.5]] })"
    );
    assert!(polyline_to_cag(&pts(&[("0", "0")])).is_none());
}

#[test]
fn region_expressions() {
    let r = TextRegion {
        pos: vec![pts(&[("0", "0"), ("1", "0")]), pts(&[("5", "5")]), pts(&[("2", "2"), ("3", "3")])],
        neg: vec![pts(&[("9", "9"), ("8", "8")])],
    };
    assert_eq!(
        region_to_cag(&r).unwrap(),
        "new CSG.Path2D([[0,0],[1,0]]).close().innerToCAG().union(new CSG.Path2D([[2,2],[3,3]]).close().innerToCAG()).subtract(new CSG.Path2D([[9,9],[8,8]]).close().innerToCAG())"
    );
    assert_eq!(
        region_to_geom2(&r).unwrap(),
        vec![
            "let shape = polygon({ points: [[0,0],[1,0]] });".to_string(),
            "shape = union(shape, polygon({ points: [[2,2],[3,3]] }));".to_string(),
            "shape = subtract(shape, polygon({ points: [[9,9],[8,8]] }));".to_string(),
        ]
    );
    let empty = TextRegion { pos: vec![pts(&[("1", "1")])], neg: vec![] };
    assert!(region_to_cag(&empty).is_none());
    assert!(region_to_geom2(&empty).is_none());
}

fn part(name: &str, what: PartWhat, op: Option<CaseOp>) -> PartText {
    PartText {
        name: name.to_string(),
        what,
        extrude: "5".to_string(),
        shift: "[1,2,0]".to_string(),
        rotate_deg: "[0,0,90]".to_string(),
        rotate_rad: "[0,0,1.5707963267948966]".to_string(),
        operation: op,
    }
}

fn block_v1(name: &str, label: &str, call: &str, first: bool, op: &str) -> String {
    let v = format!("{name}__part_{label}");
    let mut s = String::new();
    s += &format!("                // creating part {label} of case {name}\n");
    s += &format!("                let {v} = {call};\n\n");
    s += "                // make sure that rotations are relative\n";
    s += &format!("                let {v}_bounds = {v}.getBounds();\n");
    s += &format!("                let {v}_x = {v}_bounds[0].x + ({v}_bounds[1].x - {v}_bounds[0].x) / 2\n");
    s += &format!("                let {v}_y = {v}_bounds[0].y + ({v}_bounds[1].y - {v}_bounds[0].y) / 2\n");
    s += &format!("                {v} = translate([-{v}_x, -{v}_y, 0], {v});\n");
    s += &format!("                {v} = rotate([0,0,90], {v});\n");
    s += &format!("                {v} = translate([{v}_x, {v}_y, 0], {v});\n\n");
    s += &format!("                {v} = translate([1,2,0], {v});\n");
    if first {
        s += &format!("                let result = {v};\n");
    } else {
        s += &format!("                result = result.{op}({v});\n");
    }
    s += "                \n            \n";
    s
}

fn block_v2(name: &str, label: &str, call: &str, first: bool, op: &str) -> String {
    let v = format!("{name}__part_{label}");
    let mut s = String::new();
    s += &format!("  // creating part {label} of case {name}\n");
    s += &format!("  let {v} = {call};\n\n");
    s += "  // make sure that rotations are relative\n";
    s += &format!("  let {v}_bounds = measureBoundingBox({v});\n");
    s += &format!("  let {v}_x = {v}_bounds[0][0] + ({v}_bounds[1][0] - {v}_bounds[0][0]) / 2;\n");
    s += &format!("  let {v}_y = {v}_bounds[0][1] + ({v}_bounds[1][1] - {v}_bounds[0][1]) / 2;\n");
    s += &format!("  {v} = translate([-{v}_x, -{v}_y, 0], {v});\n");
    s += &format!("  {v} = rotate([0,0,1.5707963267948966], {v});\n");
    s += &format!("  {v} = translate([{v}_x, {v}_y, 0], {v});\n\n");
    s += &format!("  {v} = translate([1,2,0], {v});\n");
    if first {
        s += &format!("  let result = {v};\n");
    } else {
        s += &format!("  result = {op}(result, {v});\n");
    }
    s += "\n";
    s
}

#[test]
fn part_calls_name_outline_or_case_functions() {
    assert_eq!(part_fn_call(&part("plate", PartWhat::Outline, None)), "plate_extrude_5_outline_fn()");
    assert_eq!(part_fn_call(&part("bottom", PartWhat::Case, None)), "bottom_case_fn()");
}

#[test]
fn case_functions_create_and_combine_parts() {
    let def = CaseDefText::Parts(vec![
        part("plate", PartWhat::Outline, None),
        part("hole", PartWhat::Outline, Some(CaseOp::Subtract)),
        part("rim", PartWhat::Case, None),
    ]);
    let mut expected = String::new();
    expected += "                function c_case_fn() {\n                    \n\n";
    expected += &block_v1("c", "0", "plate_extrude_5_outline_fn()", true, "");
    expected += "\n";
    expected += &block_v1("c", "1", "hole_extrude_5_outline_fn()", false, CaseOp::Subtract.js_method());
    expected += "\n";
    expected += &block_v1("c", "2", "rim_case_fn()", false, CaseOp::Union.js_method());
    expected += "                    return result;\n                }\n";
    assert_eq!(render_case_fn("c", &def), expected);
    assert!(render_case_fn("c", &def).contains("result = result.subtract(c__part_1);"));
}

#[test]
fn case_functions_in_the_modern_dialect() {
    let def = CaseDefText::Op {
        target: part("body", PartWhat::Outline, None),
        tool: part("cut", PartWhat::Case, Some(CaseOp::Intersect)),
    };
    let mut expected = String::new();
    expected += "function d_case_fn() {\n\n";
    expected += &block_v2("d", "target", "body_extrude_5_outline_fn()", true, "");
    expected += &block_v2("d", "tool", "cut_case_fn()", false, CaseOp::Intersect.js_method());
    expected += "  return result;\n}\n";
    assert_eq!(render_case_fn_v2("d", &def), expected);
}
