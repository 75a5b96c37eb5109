use ergogen::dxf::{DxfError, NormalizedDxf, NormalizedEntity, QPoint2};
use ergogen::dxf_parse::{lines_of, parse_group_code, parse_groups, plan_dxf, EntityShape};
use ergogen::dxf_write::{int_to_text, push_pair, write_pairs, PairValue};

fn s(c: Vec<char>) -> String {
    c.into_iter().collect()
}

#[test]
fn lines_follow_str_lines() {
    let l: Vec<String> = lines_of("a\r\nb\n\nc").into_iter().map(s).collect();
    assert_eq!(l, vec!["a", "b", "", "c"]);
    let l: Vec<String> = lines_of("x\n").into_iter().map(s).collect();
    assert_eq!(l, vec!["x"]);
    let l: Vec<String> = lines_of("y\r").into_iter().map(s).collect();
    assert_eq!(l, vec!["y\r"]);
    assert!(lines_of("").is_empty());
}

#[test]
fn group_codes_parse_as_i32() {
    let c = |t: &str| parse_group_code(&t.chars().collect::<Vec<char>>());
    assert_eq!(c("0"), Some(0));
    assert_eq!(c("+70"), Some(70));
    assert_eq!(c("-2147483648"), Some(-2147483648));
    assert_eq!(c("2147483648"), None);
    assert_eq!(c("-"), None);
    assert_eq!(c(""), None);
    assert_eq!(c("1a"), None);
}

#[test]
fn groups_pair_codes_with_values() {
    let g = parse_groups(" 0 \r\nSECTION  \r\n2\nENTITIES\n").unwrap();
    assert_eq!(g.len(), 2);
    assert_eq!((g[0].code, g[0].value.as_str()), (0, "SECTION"));
    assert_eq!((g[1].code, g[1].value.as_str()), (2, "ENTITIES"));
}

#[test]
fn odd_line_count_is_an_error() {
    assert!(matches!(parse_groups("0\nSECTION\n2\n"), Err(DxfError::OddNumberOfLines)));
}

#[test]
fn invalid_group_code_reports_line() {
    match parse_groups("0\nSECTION\n x \nENTITIES\n") {
        Err(DxfError::InvalidGroupCode { raw, line }) => {
            assert_eq!(raw, "x");
            assert_eq!(line, 3);
        }
        other => panic!("unexpected {other:?}"),
    }
}

#[test]
fn plan_of_a_line() {
    let t = "0\nSECTION\n2\nENTITIES\n0\nLINE\n8\n0\n10\n0\n20\n0\n11\n100\n21\n100\n0\nENDSEC\n0\nEOF\n";
    let (plans, err) = plan_dxf(t).unwrap();
    assert!(err.is_none());
    assert_eq!(plans.len(), 1);
    let p = &plans[0];
    assert_eq!(p.kind, "LINE");
    let reads: Vec<(i32, &str)> = p.reads.iter().map(|r| (r.code, r.raw.as_str())).collect();
    assert_eq!(reads, vec![(10, "0"), (20, "0"), (11, "100"), (21, "100")]);
    assert!(p.missing.is_none());
    assert!(matches!(p.shape, EntityShape::Line));
}

#[test]
fn plan_reports_first_missing_group() {
    let t = "0\nSECTION\n2\nENTITIES\n0\nCIRCLE\n10\n 1 \n40\n2\n0\nENDSEC\n";
    let (plans, _) = plan_dxf(t).unwrap();
    assert_eq!(plans[0].missing, Some(20));
    assert_eq!(plans[0].reads.len(), 1);
    assert_eq!(plans[0].reads[0].raw, " 1");
    assert_eq!(plans[0].reads[0].text, "1");
}

#[test]
fn plan_of_a_polyline() {
    let t = "0\nSECTION\n2\nENTITIES\n0\nLWPOLYLINE\n90\n2\n70\n1\n20\n9\n10\n0\n20\n0\n42\n0.5\n10\n1\n20\n0\n0\nENDSEC\n";
    let (plans, _) = plan_dxf(t).unwrap();
    let p = &plans[0];
    let reads: Vec<(i32, &str)> = p.reads.iter().map(|r| (r.code, r.raw.as_str())).collect();
    assert_eq!(reads, vec![(10, "0"), (20, "0"), (42, "0.5"), (10, "1"), (20, "0")]);
    match &p.shape {
        EntityShape::LwPolyline { closed, vertices, bulges } => {
            assert!(*closed);
            assert_eq!(vertices, &vec![(0, 1), (3, 4)]);
            assert_eq!(bulges, &vec![Some(2), None]);
        }
        other => panic!("unexpected {other:?}"),
    }
}

#[test]
fn polyline_entity_runs_to_seqend() {
    let t = "0\nSECTION\n2\nENTITIES\n0\nPOLYLINE\n0\nVERTEX\n0\nSEQEND\n8\n0\n0\nCIRCLE\n10\n0\n20\n0\n40\n1\n0\nENDSEC\n";
    let (plans, err) = plan_dxf(t).unwrap();
    assert!(err.is_none());
    let kinds: Vec<&str> = plans.iter().map(|p| p.kind.as_str()).collect();
    assert_eq!(kinds, vec!["POLYLINE", "CIRCLE"]);
    assert!(matches!(plans[0].shape, EntityShape::Unsupported));
}

#[test]
fn structural_errors() {
    let (plans, err) = plan_dxf("0\nSECTION\n2\nHEADER\n0\nENDSEC\n0\nEOF\n").unwrap();
    assert!(plans.is_empty());
    assert!(matches!(err, Some(DxfError::MissingEntitiesSection)));
    let (_, err) = plan_dxf("0\nSECTION\n").unwrap();
    match err {
        Some(DxfError::UnexpectedEof { context }) => assert_eq!(context, "SECTION name"),
        other => panic!("unexpected {other:?}"),
    }
}

#[test]
fn integers_in_decimal() {
    assert_eq!(s(int_to_text(0)), "0");
    assert_eq!(s(int_to_text(-123)), "-123");
    assert_eq!(s(int_to_text(i64::MIN)), "-9223372036854775808");
    assert_eq!(s(int_to_text(i64::MAX)), "9223372036854775807");
}

#[test]
fn pairs_are_written_line_by_line() {
    let mut out = String::new();
    push_pair(&mut out, 0, "SECTION");
    push_pair(&mut out, -5, "x");
    assert_eq!(out, "0\nSECTION\n-5\nx\n");
    let w = write_pairs(&[(2, "ENTITIES".to_string()), (0, "EOF".to_string())]);
    assert_eq!(w, "2\nENTITIES\n0\nEOF\n");
}

#[test]
fn written_drawing_has_header_entities_and_end() {
    let d = NormalizedDxf {
        entities: vec![NormalizedEntity::Polyline {
            vertices: vec![QPoint2 { x: 0, y: 0 }, QPoint2 { x: 1, y: 2 }],
            bulges: vec![3],
            closed: true,
        }],
    };
    let pairs = d.dxf_pairs();
    assert_eq!(pairs.len(), 23 + 4 + 6 + 2);
    assert!(matches!(&pairs[0], (0, PairValue::Text(t)) if t == "SECTION"));
    assert!(matches!(&pairs[23], (0, PairValue::Text(t)) if t == "LWPOLYLINE"));
    assert!(matches!(&pairs[25], (90, PairValue::Text(t)) if t == "2"));
    assert!(matches!(&pairs[26], (70, PairValue::Text(t)) if t == "1"));
    assert!(matches!(&pairs[29], (42, PairValue::Linear { q: 3, what }) if what == "polyline bulge"));
    assert!(matches!(&pairs[32], (42, PairValue::Linear { q: 0, .. })));
    assert!(matches!(&pairs[34], (0, PairValue::Text(t)) if t == "EOF"));
}

#[test]
fn written_pairs_read_back() {
    let pairs: Vec<(i32, String)> = vec![
        (0, "SECTION".to_string()),
        (2, "ENTITIES".to_string()),
        (-5, "a b".to_string()),
        (10, "".to_string()),
        (11, "  12.5".to_string()),
        (0, "EOF".to_string()),
    ];
    let text = write_pairs(&pairs);
    let groups = parse_groups(&text).unwrap();
    let back: Vec<(i32, String)> = groups.into_iter().map(|g| (g.code, g.value)).collect();
    assert_eq!(back, pairs);
}
