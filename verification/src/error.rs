use vstd::prelude::*;

verus! {

/// Errors of configuration parsing, preprocessing and expression evaluation.
#[derive(Debug)]
pub enum Error {
    /// The YAML text could not be parsed (the parser's message).
    Yaml { message: String },
    /// The JSON text could not be parsed (the parser's message).
    Json(String),
    InvalidExpression { key: String, expr: String },
    UnknownVariable { key: String, name: String },
    Eval { key: String, message: String },
    NonStringKey,
    UnsupportedYamlValue,
    YamlNumber,
    InvalidPath { path: String, segment: String },
    ExtendsTargetMissing { from: String, path: String },
    ExtendsCycle { cycle: String },
    Parameterize { at: String, message: String },
    UnitsNotMap,
    UnitsValueType { key: String },
}

} // verus!
