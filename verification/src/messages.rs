//! The messages of the library's errors, as the command line tool prints
//! them, and the errors of the SVG and region exports.
use vstd::prelude::*;
use crate::error::Error;
use crate::jscad::{push_str, JscadError};
use crate::layout::LayoutError;
use crate::outline::OutlineError;

verus! {

/// Errors of the SVG export.
#[derive(Debug)]
pub enum SvgError {
    Empty,
    UnsupportedEntity { kind: String },
}

/// Errors of turning a region into DXF entities.
#[derive(Debug)]
pub enum DxfGeomError {
    InvalidPolyline,
}

pub open spec fn quoted(s: Seq<char>) -> Seq<char> {
    "\""@ + s + "\""@
}

pub open spec fn svg_message(e: SvgError) -> Seq<char> {
    match e {
        SvgError::Empty => "SVG export requires at least one line entity"@,
        SvgError::UnsupportedEntity { kind } => "SVG export only supports line entities (found "@ + kind@ + ")"@,
    }
}

pub open spec fn geom_message(e: DxfGeomError) -> Seq<char> {
    match e {
        DxfGeomError::InvalidPolyline => "polyline must be closed with at least 2 vertices"@,
    }
}

pub open spec fn error_message(e: Error) -> Seq<char> {
    match e {
        Error::Yaml { message } => "failed to parse YAML: "@ + message@,
        Error::Json(m) => "failed to parse JSON: "@ + m@,
        Error::InvalidExpression { key, expr } => "invalid expression for "@ + quoted(key@) + ": "@ + expr@,
        Error::UnknownVariable { key, name } => "unknown variable "@ + quoted(name@)
            + " referenced while evaluating "@ + quoted(key@),
        Error::Eval { key, message } => "expression evaluation failed for "@ + quoted(key@) + ": "@
            + message@,
        Error::NonStringKey => "YAML mapping keys must be strings"@,
        Error::UnsupportedYamlValue => "unsupported YAML value (tags/anchors are not supported in IR yet)"@,
        Error::YamlNumber => "YAML number could not be represented as f64"@,
        Error::InvalidPath { path, segment } => "invalid dotted path "@ + quoted(path@) + " at segment "@
            + quoted(segment@),
        Error::ExtendsTargetMissing { from, path } => "inheritance target "@ + quoted(path@)
            + " does not exist (reached from "@ + quoted(from@) + ")"@,
        Error::ExtendsCycle { cycle } => "circular $extends dependency detected: "@ + cycle@,
        Error::Parameterize { at, message } => "parameterization error at "@ + quoted(at@) + ": "@
            + message@,
        Error::UnitsNotMap => "\"units\" and \"variables\" must be YAML mappings"@,
        Error::UnitsValueType { key } => "unit/variable "@ + quoted(key@)
            + " must be a number or string expression"@,
    }
}

pub open spec fn jscad_message(e: JscadError) -> Seq<char> {
    match e {
        JscadError::MissingCases => "\"cases\" section is missing"@,
        JscadError::MissingOutlines => "\"outlines\" section is missing"@,
        JscadError::CasesNotMap => "cases must be an object"@,
        JscadError::OutlinesNotMap => "outlines must be an object"@,
        JscadError::UnknownCase { name } => "unknown case "@ + quoted(name@),
        JscadError::UnknownOutline { name } => "unknown outline "@ + quoted(name@),
        JscadError::UnsupportedOutline { name } => "unsupported outline shape for "@ + quoted(name@),
        JscadError::InvalidNumber { at } => "invalid number at "@ + quoted(at@),
        JscadError::InvalidVector { at } => "invalid vector at "@ + quoted(at@),
        JscadError::InvalidCase { name } => "invalid case definition for "@ + quoted(name@),
        JscadError::InvalidCasePart { name } => "invalid case part for "@ + quoted(name@),
    }
}

pub open spec fn layout_message(e: LayoutError) -> Seq<char> {
    match e {
        LayoutError::MissingPoints => "\"points\" clause is missing"@,
        LayoutError::ZonesNotMap => "\"points.zones\" must be an object"@,
        LayoutError::DuplicateKey { name } => "Key "@ + quoted(name@) + " defined more than once!"@,
        LayoutError::UnknownPointRef { name, at } => "unknown point reference "@ + quoted(name@) + " at "@
            + quoted(at@),
        LayoutError::InvalidNumber { at } => "invalid number at "@ + quoted(at@),
        LayoutError::InvalidBool { at } => "invalid bool at "@ + quoted(at@),
        LayoutError::InvalidString { at } => "invalid string at "@ + quoted(at@),
        LayoutError::InvalidXy { at } => "invalid xy at "@ + quoted(at@),
        LayoutError::InvalidTrbl { at } => "invalid trbl at "@ + quoted(at@),
        LayoutError::Eval { at, message } => "expression eval failed at "@ + quoted(at@) + ": "@ + message@,
        LayoutError::InvalidAnchor { at, message } => message@,
    }
}

pub open spec fn outline_message(e: OutlineError) -> Seq<char> {
    match e {
        OutlineError::Parser(p) => "failed to parse/prepare config: "@ + error_message(p),
        OutlineError::Points(p) => "failed to parse points: "@ + layout_message(p),
        OutlineError::OutlineCycle { name } => "outline reference cycle involving "@ + quoted(name@),
        OutlineError::Unsupported(m) => "unsupported outline config: "@ + m@,
        OutlineError::Path(m) => "path error: "@ + m@,
    }
}

fn push_quoted(out: &mut Vec<char>, s: &str)
    ensures
        final(out)@ == old(out)@ + quoted(s@),
{
    push_str(out, "\"");
    push_str(out, s);
    push_str(out, "\"");
}

fn done(out: Vec<char>) -> (s: String)
    ensures
        s@ == out@,
{
    crate::text::string_of(out.as_slice())
}

fn text(s: &str) -> (r: String)
    ensures
        r@ == s@,
{
    crate::expr::str_to_string(s)
}

impl SvgError {
    /// The message of the error.
    pub fn to_string(&self) -> (s: String)
        ensures
            s@ == svg_message(*self),
    {
        match self {
            SvgError::Empty => text("SVG export requires at least one line entity"),
            SvgError::UnsupportedEntity { kind } => {
                let mut o: Vec<char> = Vec::new();
                push_str(&mut o, "SVG export only supports line entities (found ");
                push_str(&mut o, kind.as_str());
                push_str(&mut o, ")");
                done(o)
            },
        }
    }
}

impl DxfGeomError {
    /// The message of the error.
    pub fn to_string(&self) -> (s: String)
        ensures
            s@ == geom_message(*self),
    {
        text("polyline must be closed with at least 2 vertices")
    }
}

impl Error {
    /// The message of the error.
    pub fn to_string(&self) -> (s: String)
        ensures
            s@ == error_message(*self),
    {
        let mut o: Vec<char> = Vec::new();
        match self {
            Error::Yaml { message } => {
                push_str(&mut o, "failed to parse YAML: ");
                push_str(&mut o, message.as_str());
            },
            Error::Json(m) => {
                push_str(&mut o, "failed to parse JSON: ");
                push_str(&mut o, m.as_str());
            },
            Error::InvalidExpression { key, expr } => {
                push_str(&mut o, "invalid expression for ");
                push_quoted(&mut o, key.as_str());
                push_str(&mut o, ": ");
                push_str(&mut o, expr.as_str());
            },
            Error::UnknownVariable { key, name } => {
                push_str(&mut o, "unknown variable ");
                push_quoted(&mut o, name.as_str());
                push_str(&mut o, " referenced while evaluating ");
                push_quoted(&mut o, key.as_str());
            },
            Error::Eval { key, message } => {
                push_str(&mut o, "expression evaluation failed for ");
                push_quoted(&mut o, key.as_str());
                push_str(&mut o, ": ");
                push_str(&mut o, message.as_str());
            },
            Error::NonStringKey => {
                push_str(&mut o, "YAML mapping keys must be strings");
            },
            Error::UnsupportedYamlValue => {
                push_str(&mut o, "unsupported YAML value (tags/anchors are not supported in IR yet)");
            },
            Error::YamlNumber => {
                push_str(&mut o, "YAML number could not be represented as f64");
            },
            Error::InvalidPath { path, segment } => {
                push_str(&mut o, "invalid dotted path ");
                push_quoted(&mut o, path.as_str());
                push_str(&mut o, " at segment ");
                push_quoted(&mut o, segment.as_str());
            },
            Error::ExtendsTargetMissing { from, path } => {
                push_str(&mut o, "inheritance target ");
                push_quoted(&mut o, path.as_str());
                push_str(&mut o, " does not exist (reached from ");
                push_quoted(&mut o, from.as_str());
                push_str(&mut o, ")");
            },
            Error::ExtendsCycle { cycle } => {
                push_str(&mut o, "circular $extends dependency detected: ");
                push_str(&mut o, cycle.as_str());
            },
            Error::Parameterize { at, message } => {
                push_str(&mut o, "parameterization error at ");
                push_quoted(&mut o, at.as_str());
                push_str(&mut o, ": ");
                push_str(&mut o, message.as_str());
            },
            Error::UnitsNotMap => {
                push_str(&mut o, "\"units\" and \"variables\" must be YAML mappings");
            },
            Error::UnitsValueType { key } => {
                push_str(&mut o, "unit/variable ");
                push_quoted(&mut o, key.as_str());
                push_str(&mut o, " must be a number or string expression");
            },
        }
        done(o)
    }
}

impl JscadError {
    /// The message of the error.
    pub fn to_string(&self) -> (s: String)
        ensures
            s@ == jscad_message(*self),
    {
        let mut o: Vec<char> = Vec::new();
        match self {
            JscadError::MissingCases => push_str(&mut o, "\"cases\" section is missing"),
            JscadError::MissingOutlines => push_str(&mut o, "\"outlines\" section is missing"),
            JscadError::CasesNotMap => push_str(&mut o, "cases must be an object"),
            JscadError::OutlinesNotMap => push_str(&mut o, "outlines must be an object"),
            JscadError::UnknownCase { name } => {
                push_str(&mut o, "unknown case ");
                push_quoted(&mut o, name.as_str());
            },
            JscadError::UnknownOutline { name } => {
                push_str(&mut o, "unknown outline ");
                push_quoted(&mut o, name.as_str());
            },
            JscadError::UnsupportedOutline { name } => {
                push_str(&mut o, "unsupported outline shape for ");
                push_quoted(&mut o, name.as_str());
            },
            JscadError::InvalidNumber { at } => {
                push_str(&mut o, "invalid number at ");
                push_quoted(&mut o, at.as_str());
            },
            JscadError::InvalidVector { at } => {
                push_str(&mut o, "invalid vector at ");
                push_quoted(&mut o, at.as_str());
            },
            JscadError::InvalidCase { name } => {
                push_str(&mut o, "invalid case definition for ");
                push_quoted(&mut o, name.as_str());
            },
            JscadError::InvalidCasePart { name } => {
                push_str(&mut o, "invalid case part for ");
                push_quoted(&mut o, name.as_str());
            },
        }
        done(o)
    }
}

impl LayoutError {
    /// The message of the error.
    pub fn to_string(&self) -> (s: String)
        ensures
            s@ == layout_message(*self),
    {
        let mut o: Vec<char> = Vec::new();
        match self {
            LayoutError::MissingPoints => push_str(&mut o, "\"points\" clause is missing"),
            LayoutError::ZonesNotMap => push_str(&mut o, "\"points.zones\" must be an object"),
            LayoutError::DuplicateKey { name } => {
                push_str(&mut o, "Key ");
                push_quoted(&mut o, name.as_str());
                push_str(&mut o, " defined more than once!");
            },
            LayoutError::UnknownPointRef { name, at } => {
                push_str(&mut o, "unknown point reference ");
                push_quoted(&mut o, name.as_str());
                push_str(&mut o, " at ");
                push_quoted(&mut o, at.as_str());
            },
            LayoutError::InvalidNumber { at } => {
                push_str(&mut o, "invalid number at ");
                push_quoted(&mut o, at.as_str());
            },
            LayoutError::InvalidBool { at } => {
                push_str(&mut o, "invalid bool at ");
                push_quoted(&mut o, at.as_str());
            },
            LayoutError::InvalidString { at } => {
                push_str(&mut o, "invalid string at ");
                push_quoted(&mut o, at.as_str());
            },
            LayoutError::InvalidXy { at } => {
                push_str(&mut o, "invalid xy at ");
                push_quoted(&mut o, at.as_str());
            },
            LayoutError::InvalidTrbl { at } => {
                push_str(&mut o, "invalid trbl at ");
                push_quoted(&mut o, at.as_str());
            },
            LayoutError::Eval { at, message } => {
                push_str(&mut o, "expression eval failed at ");
                push_quoted(&mut o, at.as_str());
                push_str(&mut o, ": ");
                push_str(&mut o, message.as_str());
            },
            LayoutError::InvalidAnchor { at: _, message } => push_str(&mut o, message.as_str()),
        }
        done(o)
    }
}

impl OutlineError {
    /// The message of the error, with the message of the error it wraps.
    pub fn to_string(&self) -> (s: String)
        ensures
            s@ == outline_message(*self),
    {
        let mut o: Vec<char> = Vec::new();
        match self {
            OutlineError::Parser(p) => {
                push_str(&mut o, "failed to parse/prepare config: ");
                let m = p.to_string();
                push_str(&mut o, m.as_str());
            },
            OutlineError::Points(p) => {
                push_str(&mut o, "failed to parse points: ");
                let m = p.to_string();
                push_str(&mut o, m.as_str());
            },
            OutlineError::OutlineCycle { name } => {
                push_str(&mut o, "outline reference cycle involving ");
                push_quoted(&mut o, name.as_str());
            },
            OutlineError::Unsupported(m) => {
                push_str(&mut o, "unsupported outline config: ");
                push_str(&mut o, m.as_str());
            },
            OutlineError::Path(m) => {
                push_str(&mut o, "path error: ");
                push_str(&mut o, m.as_str());
            },
        }
        done(o)
    }
}

} // verus!
