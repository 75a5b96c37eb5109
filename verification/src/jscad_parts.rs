//! Case definitions as a configuration writes them: which values are the
//! parts of a case, and what each part names, before its numbers are
//! evaluated.
use vstd::prelude::*;
use crate::expr::{chars_eq, str_to_string};
use crate::jscad::{
    op_of_name, parse_case_part_str, part_of_str, part_what, string_views, what_of, CaseOp,
    CaseRef, JscadError, PartWhat,
};
use crate::value::{copy_value, table_get, table_lookup, table_view, vview, list_view, Value, ValueView};

verus! {

/// The values that make up a case: a list of parts, or a target and a tool.
#[derive(Debug)]
pub enum CaseParts {
    Parts(Vec<Value>),
    Op { target: Value, tool: Value },
}

/// The shape of a case definition.
pub enum PartsShape {
    List(Seq<ValueView>),
    TargetTool(ValueView, ValueView),
    Invalid,
}

/// A sequence lists its parts; a mapping with both `target` and `tool` is an
/// operation; any other mapping, and a string, is a case of one part.
pub open spec fn parts_of(v: ValueView) -> PartsShape {
    match v {
        ValueView::List(items) => PartsShape::List(items),
        ValueView::Table(m) => match (table_get(m, "target"@), table_get(m, "tool"@)) {
            (Some(t), Some(u)) => PartsShape::TargetTool(t, u),
            _ => PartsShape::List(seq![v]),
        },
        ValueView::Text(_) => PartsShape::List(seq![v]),
        _ => PartsShape::Invalid,
    }
}

/// The part values of case `name`.
pub fn case_def_parts(name: &str, v: &Value) -> (r: Result<CaseParts, JscadError>)
    ensures
        match parts_of(vview(*v)) {
            PartsShape::List(items) => r matches Ok(CaseParts::Parts(ps)) && list_view(ps@) == items,
            PartsShape::TargetTool(t, u) => r matches Ok(CaseParts::Op { target, tool }) && vview(
                target,
            ) == t && vview(tool) == u,
            PartsShape::Invalid => r matches Err(JscadError::InvalidCase { name: n }) && n@ == name@,
        },
{
    match v {
        Value::Sequence(_) => {
            let c = copy_value(v);
            match c {
                Value::Sequence(items) => Ok(CaseParts::Parts(items)),
                _ => Err(JscadError::InvalidCase { name: str_to_string(name) }),
            }
        },
        Value::Mapping(entries) => {
            match (table_lookup(entries, "target"), table_lookup(entries, "tool")) {
                (Some(t), Some(u)) => Ok(CaseParts::Op { target: copy_value(t), tool: copy_value(u) }),
                _ => {
                    let parts = vec![copy_value(v)];
                    proof {
                        crate::value::lemma_list_view(parts@);
                        assert(list_view(parts@) =~= seq![vview(*v)]);
                    }
                    Ok(CaseParts::Parts(parts))
                },
            }
        },
        Value::String(_) => {
            let parts = vec![copy_value(v)];
            proof {
                crate::value::lemma_list_view(parts@);
                assert(list_view(parts@) =~= seq![vview(*v)]);
            }
            Ok(CaseParts::Parts(parts))
        },
        _ => Err(JscadError::InvalidCase { name: str_to_string(name) }),
    }
}

/// A part as a case lists it: what it names, and the values of its
/// extrusion, shift and rotation where it gives them, not yet evaluated.
#[derive(Debug)]
pub struct PartSpec {
    pub part: CaseRef,
    pub extrude: Option<Value>,
    pub shift: Option<Value>,
    pub rotate: Option<Value>,
}

pub open spec fn opt_view(o: Option<Value>) -> Option<ValueView> {
    match o {
        Some(v) => Some(vview(v)),
        None => None,
    }
}

/// The text of a value that is a string.
pub open spec fn text_of(o: Option<ValueView>) -> Option<Seq<char>> {
    match o {
        Some(ValueView::Text(s)) => Some(s),
        _ => None,
    }
}

/// What a part written as a mapping refers to: what its `what` says when
/// that is `case` or `outline`, else what its name refers to.
pub open spec fn what_given(w: Option<Seq<char>>, name: Seq<char>, outlines: Seq<Seq<char>>, cases: Seq<Seq<char>>) -> PartWhat {
    if w == Some("case"@) {
        PartWhat::Case
    } else if w == Some("outline"@) {
        PartWhat::Outline
    } else {
        what_of(name, outlines, cases)
    }
}

/// The operation a part's `operation` names, if it names one.
pub open spec fn op_given(o: Option<Seq<char>>) -> Option<CaseOp> {
    match o {
        Some(s) => op_of_name(s),
        None => None,
    }
}

fn opt_copy(o: Option<&Value>) -> (r: Option<Value>)
    ensures
        opt_view(r) == match o {
            Some(v) => Some(vview(*v)),
            None => None::<ValueView>,
        },
{
    match o {
        Some(v) => Some(copy_value(v)),
        None => None,
    }
}

fn opt_text(o: Option<&Value>) -> (r: Option<&str>)
    ensures
        match o {
            Some(v) => match vview(*v) {
                ValueView::Text(s) => r matches Some(t) && t@ == s,
                _ => r is None,
            },
            None => r is None,
        },
{
    match o {
        Some(Value::String(s)) => Some(s.as_str()),
        _ => None,
    }
}

/// Reads a part of case `case_name`: a string (see `parse_case_part_str`),
/// or a mapping with a string `name` and optional `what`, `extrude`,
/// `shift`, `rotate` and `operation`.
pub fn parse_case_part(case_name: &str, v: &Value, outline_names: &[String], case_names: &[String]) -> (r: Result<PartSpec, JscadError>)
    ensures
        ({
            let ov = string_views(outline_names@);
            let cv = string_views(case_names@);
            match vview(*v) {
                ValueView::Text(s) => r matches Ok(p) && (p.part.name@, p.part.what, p.part.operation)
                    == part_of_str(s, ov, cv) && p.extrude is None && p.shift is None && p.rotate is None,
                ValueView::Table(m) => match table_get(m, "name"@) {
                    Some(ValueView::Text(n)) => r matches Ok(p) && p.part.name@ == n && p.part.what
                        == what_given(text_of(table_get(m, "what"@)), n, ov, cv) && p.part.operation
                        == op_given(text_of(table_get(m, "operation"@))) && opt_view(p.extrude)
                        == table_get(m, "extrude"@) && opt_view(p.shift) == table_get(m, "shift"@)
                        && opt_view(p.rotate) == table_get(m, "rotate"@),
                    _ => r matches Err(JscadError::InvalidCasePart { name: n }) && n@ == case_name@,
                },
                _ => r matches Err(JscadError::InvalidCasePart { name: n }) && n@ == case_name@,
            }
        }),
{
    match v {
        Value::String(s) => {
            let part = parse_case_part_str(s.as_str(), outline_names, case_names);
            Ok(PartSpec { part, extrude: None, shift: None, rotate: None })
        },
        Value::Mapping(entries) => {
            let name = match opt_text(table_lookup(entries, "name")) {
                Some(n) => str_to_string(n),
                None => {
                    return Err(JscadError::InvalidCasePart { name: str_to_string(case_name) });
                },
            };
            let what = match opt_text(table_lookup(entries, "what")) {
                Some(w) => {
                    let wv = crate::text::chars_of(w);
                    if chars_eq(wv.as_slice(), "case") {
                        PartWhat::Case
                    } else if chars_eq(wv.as_slice(), "outline") {
                        PartWhat::Outline
                    } else {
                        part_what(&name, outline_names, case_names)
                    }
                },
                None => part_what(&name, outline_names, case_names),
            };
            let operation = match opt_text(table_lookup(entries, "operation")) {
                Some(o) => CaseOp::from_str(o),
                None => None,
            };
            let extrude = opt_copy(table_lookup(entries, "extrude"));
            let shift = opt_copy(table_lookup(entries, "shift"));
            let rotate = opt_copy(table_lookup(entries, "rotate"));
            Ok(PartSpec { part: CaseRef { name, what, operation }, extrude, shift, rotate })
        },
        _ => Err(JscadError::InvalidCasePart { name: str_to_string(case_name) }),
    }
}

} // verus!

verus! {

/// The value of key `k` at the top of a configuration.
pub open spec fn section(v: ValueView, k: Seq<char>) -> Option<ValueView> {
    match v {
        ValueView::Table(m) => table_get(m, k),
        _ => None,
    }
}

/// The keys of a mapping, in order.
pub open spec fn table_keys(m: Seq<(Seq<char>, ValueView)>) -> Seq<Seq<char>> {
    m.map_values(|e: (Seq<char>, ValueView)| e.0)
}

pub(crate) fn keys_of(entries: &Vec<(String, Value)>) -> (r: Vec<String>)
    ensures
        string_views(r@) == table_keys(table_view(entries@)),
{
    proof {
        crate::value::lemma_table_view(entries@);
    }
    let mut out: Vec<String> = Vec::new();
    let mut i: usize = 0;
    while i < entries.len()
        invariant
            i <= entries.len(),
            out@.len() == i,
            table_view(entries@).len() == entries@.len(),
            forall|q: int| 0 <= q < entries@.len() ==> #[trigger] table_view(entries@)[q] == (entries@[q].0@, vview(entries@[q].1)),
            forall|q: int| 0 <= q < i ==> #[trigger] out@[q]@ == entries@[q].0@,
        decreases entries.len() - i,
    {
        out.push(entries[i].0.clone());
        i += 1;
    }
    assert(string_views(out@) =~= table_keys(table_view(entries@)));
    out
}

/// The names of the cases and of the outlines of a configuration, in order;
/// both sections must be mappings.
pub fn case_sections(canonical: &Value) -> (r: Result<(Vec<String>, Vec<String>), JscadError>)
    ensures
        match (section(vview(*canonical), "cases"@), section(vview(*canonical), "outlines"@)) {
            (None, _) => r matches Err(JscadError::MissingCases),
            (Some(c), _) if !(c is Table) => r matches Err(JscadError::CasesNotMap),
            (Some(_), None) => r matches Err(JscadError::MissingOutlines),
            (Some(_), Some(o)) if !(o is Table) => r matches Err(JscadError::OutlinesNotMap),
            (Some(c), Some(o)) => r matches Ok((cn, on)) && string_views(cn@) == table_keys(c->Table_0)
                && string_views(on@) == table_keys(o->Table_0),
        },
{
    let entries = match canonical {
        Value::Mapping(e) => e,
        _ => {
            return Err(JscadError::MissingCases);
        },
    };
    let cases = match table_lookup(entries, "cases") {
        Some(Value::Mapping(c)) => c,
        Some(_) => {
            return Err(JscadError::CasesNotMap);
        },
        None => {
            return Err(JscadError::MissingCases);
        },
    };
    let outlines = match table_lookup(entries, "outlines") {
        Some(Value::Mapping(o)) => o,
        Some(_) => {
            return Err(JscadError::OutlinesNotMap);
        },
        None => {
            return Err(JscadError::MissingOutlines);
        },
    };
    Ok((keys_of(cases), keys_of(outlines)))
}

} // verus!
