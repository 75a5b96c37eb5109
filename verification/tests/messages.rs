use ergogen::error::Error;
use ergogen::jscad::JscadError;
use ergogen::layout::LayoutError;
use ergogen::messages::{DxfGeomError, SvgError};
use ergogen::outline::OutlineError;

#[test]
fn export_errors_have_messages() {
    assert_eq!(SvgError::Empty.to_string(), "SVG export requires at least one line entity");
    assert_eq!(
        SvgError::UnsupportedEntity { kind: "CIRCLE".to_string() }.to_string(),
        "SVG export only supports line entities (found CIRCLE)"
    );
    assert_eq!(
        DxfGeomError::InvalidPolyline.to_string(),
        "polyline must be closed with at least 2 vertices"
    );
}

#[test]
fn parser_errors_quote_their_subjects() {
    assert_eq!(
        Error::UnknownVariable { key: "k".to_string(), name: "x".to_string() }.to_string(),
        "unknown variable \"x\" referenced while evaluating \"k\""
    );
    assert_eq!(
        Error::ExtendsTargetMissing { from: "a.$extends".to_string(), path: "b".to_string() }.to_string(),
        "inheritance target \"b\" does not exist (reached from \"a.$extends\")"
    );
    assert_eq!(
        Error::ExtendsCycle { cycle: "a -> b -> a".to_string() }.to_string(),
        "circular $extends dependency detected: a -> b -> a"
    );
    assert_eq!(Error::UnitsNotMap.to_string(), "\"units\" and \"variables\" must be YAML mappings");
    assert_eq!(
        Error::Parameterize { at: "t".to_string(), message: "m".to_string() }.to_string(),
        "parameterization error at \"t\": m"
    );
}

#[test]
fn layout_case_and_outline_errors_have_messages() {
    assert_eq!(
        LayoutError::DuplicateKey { name: "k".to_string() }.to_string(),
        "Key \"k\" defined more than once!"
    );
    assert_eq!(
        LayoutError::InvalidAnchor { at: "a".to_string(), message: "bad".to_string() }.to_string(),
        "bad"
    );
    assert_eq!(JscadError::MissingCases.to_string(), "\"cases\" section is missing");
    assert_eq!(
        JscadError::UnknownCase { name: "c".to_string() }.to_string(),
        "unknown case \"c\""
    );
    assert_eq!(
        OutlineError::Points(LayoutError::MissingPoints).to_string(),
        "failed to parse points: \"points\" clause is missing"
    );
    assert_eq!(
        OutlineError::Unsupported("missing size".to_string()).to_string(),
        "unsupported outline config: missing size"
    );
}
