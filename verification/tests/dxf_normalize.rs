use ergogen::dxf::{
    canonicalize_polyline, normalize_quantized, reversed, rotated, sort_dedup_kinds, DxfError,
    NormalizedDxf, NormalizedEntity, QPoint2, QuantizedEntity, Unsupported,
};
use ergogen::dxf_parse::{plan_dxf, EntityShape};

fn qp(x: i64, y: i64) -> QPoint2 {
    QPoint2 { x, y }
}

fn quantize(v: f64) -> i64 {
    (v / 1e-6).round() as i64
}

/// Reads and quantizes a drawing the way the command line tool does, with
/// the default epsilons.
fn normalize_text(text: &str) -> NormalizedDxf {
    let (plans, err) = plan_dxf(text).unwrap();
    assert!(err.is_none());
    let mut entities = Vec::new();
    for p in plans {
        let vals: Vec<f64> = p.reads.iter().map(|r| r.text.parse::<f64>().unwrap()).collect();
        assert!(p.missing.is_none());
        let e = match p.shape {
            EntityShape::Line => QuantizedEntity::Line {
                a: qp(quantize(vals[0]), quantize(vals[1])),
                b: qp(quantize(vals[2]), quantize(vals[3])),
            },
            EntityShape::Circle => QuantizedEntity::Circle {
                c: qp(quantize(vals[0]), quantize(vals[1])),
                r: quantize(vals[2]),
            },
            EntityShape::Arc => QuantizedEntity::Arc {
                c: qp(quantize(vals[0]), quantize(vals[1])),
                r: quantize(vals[2]),
                start: quantize(vals[3].rem_euclid(360.0)),
                end: quantize(vals[4].rem_euclid(360.0)),
            },
            EntityShape::LwPolyline { closed, vertices, bulges } => QuantizedEntity::Polyline {
                vertices: vertices
                    .iter()
                    .map(|(x, y)| qp(quantize(vals[*x]), quantize(vals[*y])))
                    .collect(),
                bulges: bulges
                    .iter()
                    .map(|b| b.map(|k| quantize(vals[k])).unwrap_or(0))
                    .collect(),
                closed,
            },
            EntityShape::Unsupported => QuantizedEntity::Unsupported(Unsupported { kind: p.kind }),
        };
        entities.push(e);
    }
    normalize_quantized(&entities, false).unwrap()
}

#[test]
fn normalization_makes_line_direction_irrelevant() {
    let a = "0\nSECTION\n2\nENTITIES\n0\nLINE\n10\n0\n20\n0\n11\n1\n21\n0\n0\nENDSEC\n0\nEOF\n";
    let b = "0\nSECTION\n2\nENTITIES\n0\nLINE\n10\n1\n20\n0\n11\n0\n21\n0\n0\nENDSEC\n0\nEOF\n";
    let left = normalize_text(a);
    let right = normalize_text(b);
    left.compare_semantic(&right).unwrap();
}

#[test]
fn normalization_ignores_entity_order() {
    let a = "0\nSECTION\n2\nENTITIES\n0\nLINE\n10\n0\n20\n0\n11\n1\n21\n0\n0\nCIRCLE\n10\n5\n20\n6\n40\n7\n0\nENDSEC\n0\nEOF\n";
    let b = "0\nSECTION\n2\nENTITIES\n0\nCIRCLE\n10\n5\n20\n6\n40\n7\n0\nLINE\n10\n1\n20\n0\n11\n0\n21\n0\n0\nENDSEC\n0\nEOF\n";
    let left = normalize_text(a);
    let right = normalize_text(b);
    left.compare_semantic(&right).unwrap();
}

#[test]
fn normalization_normalizes_negative_angles() {
    let a = "0\nSECTION\n2\nENTITIES\n0\nARC\n10\n0\n20\n0\n40\n1\n50\n-10\n51\n10\n0\nENDSEC\n0\nEOF\n";
    let b = "0\nSECTION\n2\nENTITIES\n0\nARC\n10\n0\n20\n0\n40\n1\n50\n350\n51\n10\n0\nENDSEC\n0\nEOF\n";
    let left = normalize_text(a);
    let right = normalize_text(b);
    left.compare_semantic(&right).unwrap();
}

#[test]
fn line_endpoints_are_put_in_point_order() {
    let e = vec![QuantizedEntity::Line { a: qp(5, 1), b: qp(2, 9) }];
    let d = normalize_quantized(&e, false).unwrap();
    assert_eq!(d.entities, vec![NormalizedEntity::Line { a: qp(2, 9), b: qp(5, 1) }]);
}

#[test]
fn entities_are_sorted_by_kind_then_fields() {
    let e = vec![
        QuantizedEntity::Circle { c: qp(0, 0), r: 3 },
        QuantizedEntity::Line { a: qp(0, 0), b: qp(1, 1) },
        QuantizedEntity::Circle { c: qp(0, 0), r: 1 },
    ];
    let d = normalize_quantized(&e, false).unwrap();
    assert_eq!(
        d.entities,
        vec![
            NormalizedEntity::Line { a: qp(0, 0), b: qp(1, 1) },
            NormalizedEntity::Circle { c: qp(0, 0), r: 1 },
            NormalizedEntity::Circle { c: qp(0, 0), r: 3 },
        ]
    );
}

#[test]
fn unsupported_entities_are_reported_sorted_and_distinct() {
    let e = vec![
        QuantizedEntity::Unsupported(Unsupported { kind: "SPLINE".to_string() }),
        QuantizedEntity::Circle { c: qp(0, 0), r: 1 },
        QuantizedEntity::Unsupported(Unsupported { kind: "HATCH".to_string() }),
        QuantizedEntity::Unsupported(Unsupported { kind: "SPLINE".to_string() }),
    ];
    match normalize_quantized(&e, false) {
        Err(DxfError::UnsupportedEntities { kinds }) => {
            assert_eq!(kinds, vec!["HATCH".to_string(), "SPLINE".to_string()]);
        }
        other => panic!("unexpected {other:?}"),
    }
    let d = normalize_quantized(&e, true).unwrap();
    assert_eq!(d.entities, vec![NormalizedEntity::Circle { c: qp(0, 0), r: 1 }]);
}

#[test]
fn compare_reports_count_and_first_mismatch() {
    let a = NormalizedDxf { entities: vec![NormalizedEntity::Circle { c: qp(0, 0), r: 1 }] };
    let b = NormalizedDxf { entities: vec![] };
    match a.compare_semantic(&b) {
        Err(ergogen::dxf::DxfCompareError::EntityCount { left, right }) => {
            assert_eq!((left, right), (1, 0));
        }
        other => panic!("unexpected {other:?}"),
    }
    let c = NormalizedDxf { entities: vec![NormalizedEntity::Circle { c: qp(0, 0), r: 2 }] };
    match a.compare_semantic(&c) {
        Err(ergogen::dxf::DxfCompareError::EntityMismatch { index, left, right }) => {
            assert_eq!(index, 0);
            assert_eq!(left, NormalizedEntity::Circle { c: qp(0, 0), r: 1 });
            assert_eq!(right, NormalizedEntity::Circle { c: qp(0, 0), r: 2 });
        }
        other => panic!("unexpected {other:?}"),
    }
    a.compare_semantic(&a).unwrap();
}

#[test]
fn closed_polyline_starts_at_least_vertex() {
    let mut v = vec![qp(1, 0), qp(0, 0), qp(0, 1), qp(1, 1)];
    let mut b = vec![0, 0, 0, 0];
    canonicalize_polyline(&mut v, &mut b, true);
    assert_eq!(v, vec![qp(0, 0), qp(0, 1), qp(1, 1), qp(1, 0)]);
    assert_eq!(b, vec![0, 0, 0, 0]);

    let mut v2 = vec![qp(0, 1), qp(1, 1), qp(1, 0), qp(0, 0)];
    let mut b2 = vec![0, 0, 0, 0];
    canonicalize_polyline(&mut v2, &mut b2, true);
    assert_eq!(v2, v);
}

#[test]
fn open_polyline_may_only_be_reversed() {
    let mut v = vec![qp(1, 0), qp(0, 0)];
    let mut b = vec![5, 0];
    canonicalize_polyline(&mut v, &mut b, false);
    assert_eq!(v, vec![qp(0, 0), qp(1, 0)]);
    assert_eq!(b, vec![0, 5]);
}

#[test]
fn polyline_bulges_are_fitted_to_vertex_count() {
    let mut v = vec![qp(0, 0), qp(1, 0), qp(2, 0)];
    let mut b = vec![7];
    canonicalize_polyline(&mut v, &mut b, false);
    assert_eq!(v, vec![qp(0, 0), qp(1, 0), qp(2, 0)]);
    assert_eq!(b, vec![7, 0, 0]);

    let mut one = vec![qp(3, 3)];
    let mut ob = vec![1, 2, 3];
    canonicalize_polyline(&mut one, &mut ob, true);
    assert_eq!(ob, vec![1]);
}

#[test]
fn rotation_and_reversal_helpers() {
    let v = vec![qp(0, 0), qp(1, 0), qp(2, 0)];
    let b = vec![10, 20, 30];
    let (rv, rb) = rotated(&v, &b, 1);
    assert_eq!(rv, vec![qp(1, 0), qp(2, 0), qp(0, 0)]);
    assert_eq!(rb, vec![20, 30, 10]);
    let (sv, sb) = reversed(&v, &b, true);
    assert_eq!(sv, vec![qp(2, 0), qp(1, 0), qp(0, 0)]);
    assert_eq!(sb, vec![10, 30, 20]);
    let (_, ob) = reversed(&v, &b, false);
    assert_eq!(ob, vec![30, 20, 10]);
}

#[test]
fn kinds_are_sorted_and_deduplicated() {
    let k = sort_dedup_kinds(vec!["b".to_string(), "a".to_string(), "b".to_string()]);
    assert_eq!(k, vec!["a".to_string(), "b".to_string()]);
}

#[test]
fn reversed_polylines_have_the_same_canonical_form() {
    for closed in [false, true] {
        let v = vec![qp(3, 1), qp(0, 0), qp(2, 5), qp(4, 4)];
        let b = vec![11, 0, -7, 3];
        let (mut rv, mut rb) = reversed(&v, &b, closed);
        let (mut cv, mut cb) = (v.clone(), b.clone());
        canonicalize_polyline(&mut cv, &mut cb, closed);
        canonicalize_polyline(&mut rv, &mut rb, closed);
        assert_eq!(rv, cv);
        assert_eq!(rb, cb);
    }
}
