//! Verified core of the Ergogen keyboard generator: configuration
//! preprocessing, expression rewriting, DXF normalization and the
//! string-level rules of the layout, outline and case stages.

pub mod cli_error;
pub mod cli;
pub mod text;
pub mod units;
pub mod error;
pub mod expr;
pub mod yaml_flow;
pub mod order;
pub mod dxf;
pub mod dxf_parse;
pub mod dxf_write;
pub mod inherit;
pub mod params;
pub mod jscad;
pub mod jscad_text;
pub mod jscad_parts;
pub mod jscad_doc;
pub mod kle;
pub mod layout;
pub mod outline;
pub mod value;
pub mod zones;
pub mod messages;
