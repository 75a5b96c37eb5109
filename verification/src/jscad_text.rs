//! The JSCAD text of a case function: each part created, centred, rotated,
//! moved and combined with the parts before it.
use vstd::prelude::*;
use crate::jscad::{op_method, CaseOp, PartWhat};

verus! {

/// A case part with its numbers already written out: the extrusion as it
/// appears in an outline function's name, the shift vector, and the
/// rotation vector in degrees and in radians.
#[derive(Debug, Clone)]
pub struct PartText {
    pub name: String,
    pub what: PartWhat,
    pub extrude: String,
    pub shift: String,
    pub rotate_deg: String,
    pub rotate_rad: String,
    pub operation: Option<CaseOp>,
}

/// A case: a list of parts, or a target and a tool.
#[derive(Debug, Clone)]
pub enum CaseDefText {
    Parts(Vec<PartText>),
    Op { target: PartText, tool: PartText },
}

/// The call that creates a part: its outline function at its extrusion, or
/// its case function.
pub open spec fn call_text(p: PartText) -> Seq<char> {
    match p.what {
        PartWhat::Outline => p.name@ + "_extrude_"@ + p.extrude@ + "_outline_fn"@ + "()"@,
        PartWhat::Case => p.name@ + "_case_fn()"@,
    }
}

/// The operation a part combines with: its own, else union.
pub open spec fn op_of(p: PartText) -> CaseOp {
    match p.operation {
        Some(op) => op,
        None => CaseOp::Union,
    }
}

pub open spec fn ind() -> Seq<char> {
    "                "@
}

/// The line that finds the centre of a part along one axis, first dialect.
pub open spec fn centre_v1(v: Seq<char>, axis: Seq<char>) -> Seq<char> {
    ind() + "let "@ + v + "_"@ + axis + " = "@ + v + "_bounds[0]."@ + axis + " + ("@ + v + "_bounds[1]."@
        + axis + " - "@ + v + "_bounds[0]."@ + axis + ") / 2\n"@
}

/// The text of one part in the first JSCAD dialect.
#[verifier::opaque]
pub open spec fn block_v1(name: Seq<char>, label: Seq<char>, p: PartText, first: bool, more: bool) -> Seq<char> {
    let v = name + "__part_"@ + label;
    ind() + "// creating part "@ + label + " of case "@ + name + "\n"@
    + ind() + "let "@ + v + " = "@ + call_text(p) + ";\n"@
    + "\n"@
    + ind() + "// make sure that rotations are relative\n"@
    + ind() + "let "@ + v + "_bounds = "@ + v + ".getBounds();\n"@
    + centre_v1(v, "x"@)
    + centre_v1(v, "y"@)
    + ind() + v + " = translate([-"@ + v + "_x, -"@ + v + "_y, 0], "@ + v + ");\n"@
    + ind() + v + " = rotate("@ + p.rotate_deg@ + ", "@ + v + ");\n"@
    + ind() + v + " = translate(["@ + v + "_x, "@ + v + "_y, 0], "@ + v + ");\n"@
    + "\n"@
    + ind() + v + " = translate("@ + p.shift@ + ", "@ + v + ");\n"@
    + (if first {
        ind() + "let result = "@ + v + ";\n"@
    } else {
        ind() + "result = result."@ + op_method(op_of(p)) + "("@ + v + ");\n"@
    })
    + ind() + "\n"@
    + "            \n"@
    + (if more { "\n"@ } else { seq![] })
}

/// The line that finds the centre of a part along one axis (index `k` of
/// its bounds), second dialect.
pub open spec fn centre_v2(v: Seq<char>, axis: Seq<char>, k: Seq<char>) -> Seq<char> {
    "  let "@ + v + "_"@ + axis + " = "@ + v + "_bounds[0]["@ + k + "] + ("@ + v + "_bounds[1]["@ + k
        + "] - "@ + v + "_bounds[0]["@ + k + "]) / 2;\n"@
}

/// The text of one part in the second JSCAD dialect.
#[verifier::opaque]
pub open spec fn block_v2(name: Seq<char>, label: Seq<char>, p: PartText, first: bool) -> Seq<char> {
    let v = name + "__part_"@ + label;
    "  // creating part "@ + label + " of case "@ + name + "\n"@
    + "  let "@ + v + " = "@ + call_text(p) + ";\n"@
    + "\n"@
    + "  // make sure that rotations are relative\n"@
    + "  let "@ + v + "_bounds = measureBoundingBox("@ + v + ");\n"@
    + centre_v2(v, "x"@, "0"@)
    + centre_v2(v, "y"@, "1"@)
    + "  "@ + v + " = translate([-"@ + v + "_x, -"@ + v + "_y, 0], "@ + v + ");\n"@
    + "  "@ + v + " = rotate("@ + p.rotate_rad@ + ", "@ + v + ");\n"@
    + "  "@ + v + " = translate(["@ + v + "_x, "@ + v + "_y, 0], "@ + v + ");\n"@
    + "\n"@
    + "  "@ + v + " = translate("@ + p.shift@ + ", "@ + v + ");\n"@
    + (if first {
        "  let result = "@ + v + ";\n"@
    } else {
        "  result = "@ + op_method(op_of(p)) + "(result, "@ + v + ");\n"@
    })
    + "\n"@
}

/// The labelled parts of a case: indices for a list, `target` and `tool`
/// for an operation.
pub open spec fn labelled(def: CaseDefText) -> Seq<(Seq<char>, PartText)> {
    match def {
        CaseDefText::Parts(ps) => Seq::new(
            ps@.len(),
            |i: int| (crate::dxf_write::dec_str(i as nat), ps@[i]),
        ),
        CaseDefText::Op { target, tool } => seq![("target"@, target), ("tool"@, tool)],
    }
}

/// The blocks of the first `n` labelled parts, first dialect.
pub open spec fn blocks_v1(name: Seq<char>, parts: Seq<(Seq<char>, PartText)>, n: int) -> Seq<char>
    decreases n,
{
    if n <= 0 {
        seq![]
    } else {
        blocks_v1(name, parts, n - 1) + block_v1(
            name,
            parts[n - 1].0,
            parts[n - 1].1,
            n - 1 == 0,
            n < parts.len(),
        )
    }
}

/// The blocks of the first `n` labelled parts, second dialect.
pub open spec fn blocks_v2(name: Seq<char>, parts: Seq<(Seq<char>, PartText)>, n: int) -> Seq<char>
    decreases n,
{
    if n <= 0 {
        seq![]
    } else {
        blocks_v2(name, parts, n - 1) + block_v2(name, parts[n - 1].0, parts[n - 1].1, n - 1 == 0)
    }
}

/// A case function, first dialect.
pub open spec fn case_fn_v1(name: Seq<char>, def: CaseDefText) -> Seq<char> {
    let parts = labelled(def);
    ind() + "function "@ + name + "_case_fn() {\n"@ + ind() + "    \n"@ + "\n"@ + blocks_v1(
        name,
        parts,
        parts.len() as int,
    ) + ind() + "    return result;\n"@ + ind() + "}\n"@
}

/// A case function, second dialect.
pub open spec fn case_fn_v2(name: Seq<char>, def: CaseDefText) -> Seq<char> {
    let parts = labelled(def);
    "function "@ + name + "_case_fn() {\n"@ + "\n"@ + blocks_v2(name, parts, parts.len() as int)
        + "  return result;\n"@ + "}\n"@
}

} // verus!

verus! {

use crate::jscad::push_str;

fn push_string(out: &mut Vec<char>, s: &String)
    ensures
        final(out)@ == old(out)@ + s@,
{
    push_str(out, s.as_str());
}

/// The call that creates a part.
pub fn part_fn_call(part: &PartText) -> (r: String)
    ensures
        r@ == call_text(*part),
{
    let mut out: Vec<char> = Vec::new();
    push_string(&mut out, &part.name);
    match part.what {
        PartWhat::Outline => {
            push_str(&mut out, "_extrude_");
            push_string(&mut out, &part.extrude);
            push_str(&mut out, "_outline_fn");
            push_str(&mut out, "()");
        },
        PartWhat::Case => {
            push_str(&mut out, "_case_fn()");
        },
    }
    assert(out@ =~= call_text(*part));
    crate::text::string_of(out.as_slice())
}

fn op_or_union(p: &PartText) -> (r: CaseOp)
    ensures
        r == op_of(*p),
{
    match p.operation {
        Some(op) => op,
        None => CaseOp::Union,
    }
}

fn part_var(name: &str, label: &String) -> (r: Vec<char>)
    ensures
        r@ == name@ + "__part_"@ + label@,
{
    let mut v: Vec<char> = Vec::new();
    push_str(&mut v, name);
    push_str(&mut v, "__part_");
    push_string(&mut v, label);
    v
}

fn v1_head(b: &mut Vec<char>, name: &str, label: &String, v: &String, call: &String)
    ensures
        final(b)@ == old(b)@ + ind() + "// creating part "@ + label@ + " of case "@ + name@ + "\n"@
            + ind() + "let "@ + v@ + " = "@ + call@ + ";\n"@ + "\n"@ + ind()
            + "// make sure that rotations are relative\n"@,
{
    let ghost b0 = b@;
    push_str(b, "                ");
    push_str(b, "// creating part ");
    push_string(b, label);
    push_str(b, " of case ");
    push_str(b, name);
    push_str(b, "\n");
    push_str(b, "                ");
    push_str(b, "let ");
    push_string(b, v);
    push_str(b, " = ");
    push_string(b, call);
    push_str(b, ";\n");
    push_str(b, "\n");
    push_str(b, "                ");
    push_str(b, "// make sure that rotations are relative\n");
    assert(b@ =~= b0 + ind() + "// creating part "@ + label@ + " of case "@ + name@ + "\n"@ + ind()
        + "let "@ + v@ + " = "@ + call@ + ";\n"@ + "\n"@ + ind()
        + "// make sure that rotations are relative\n"@);
}

fn v1_bounds(b: &mut Vec<char>, v: &String)
    ensures
        final(b)@ == old(b)@ + ind() + "let "@ + v@ + "_bounds = "@ + v@ + ".getBounds();\n"@,
{
    let ghost b0 = b@;
    push_str(b, "                ");
    push_str(b, "let ");
    push_string(b, v);
    push_str(b, "_bounds = ");
    push_string(b, v);
    push_str(b, ".getBounds();\n");
    assert(b@ =~= b0 + ind() + "let "@ + v@ + "_bounds = "@ + v@ + ".getBounds();\n"@);
}

fn v1_centre(b: &mut Vec<char>, v: &String, axis: &str)
    ensures
        final(b)@ == old(b)@ + centre_v1(v@, axis@),
{
    let ghost b0 = b@;
    push_str(b, "                ");
    push_str(b, "let ");
    push_string(b, v);
    push_str(b, "_");
    push_str(b, axis);
    push_str(b, " = ");
    push_string(b, v);
    push_str(b, "_bounds[0].");
    push_str(b, axis);
    push_str(b, " + (");
    push_string(b, v);
    push_str(b, "_bounds[1].");
    push_str(b, axis);
    push_str(b, " - ");
    push_string(b, v);
    push_str(b, "_bounds[0].");
    push_str(b, axis);
    push_str(b, ") / 2\n");
    assert(b@ =~= b0 + centre_v1(v@, axis@));
}

fn v1_transform(b: &mut Vec<char>, v: &String, rot: &String, shift: &String)
    ensures
        final(b)@ == old(b)@ + ind() + v@ + " = translate([-"@ + v@ + "_x, -"@ + v@ + "_y, 0], "@ + v@
            + ");\n"@ + ind() + v@ + " = rotate("@ + rot@ + ", "@ + v@ + ");\n"@ + ind() + v@
            + " = translate(["@ + v@ + "_x, "@ + v@ + "_y, 0], "@ + v@ + ");\n"@ + "\n"@ + ind() + v@
            + " = translate("@ + shift@ + ", "@ + v@ + ");\n"@,
{
    let ghost b0 = b@;
    push_str(b, "                ");
    push_string(b, v);
    push_str(b, " = translate([-");
    push_string(b, v);
    push_str(b, "_x, -");
    push_string(b, v);
    push_str(b, "_y, 0], ");
    push_string(b, v);
    push_str(b, ");\n");
    let ghost b1 = b@;
    assert(b1 =~= b0 + ind() + v@ + " = translate([-"@ + v@ + "_x, -"@ + v@ + "_y, 0], "@ + v@ + ");\n"@);
    push_str(b, "                ");
    push_string(b, v);
    push_str(b, " = rotate(");
    push_string(b, rot);
    push_str(b, ", ");
    push_string(b, v);
    push_str(b, ");\n");
    let ghost b2 = b@;
    assert(b2 =~= b1 + ind() + v@ + " = rotate("@ + rot@ + ", "@ + v@ + ");\n"@);
    push_str(b, "                ");
    push_string(b, v);
    push_str(b, " = translate([");
    push_string(b, v);
    push_str(b, "_x, ");
    push_string(b, v);
    push_str(b, "_y, 0], ");
    push_string(b, v);
    push_str(b, ");\n");
    push_str(b, "\n");
    let ghost b3 = b@;
    assert(b3 =~= b2 + ind() + v@ + " = translate(["@ + v@ + "_x, "@ + v@ + "_y, 0], "@ + v@ + ");\n"@
        + "\n"@);
    push_str(b, "                ");
    push_string(b, v);
    push_str(b, " = translate(");
    push_string(b, shift);
    push_str(b, ", ");
    push_string(b, v);
    push_str(b, ");\n");
    assert(b@ =~= b3 + ind() + v@ + " = translate("@ + shift@ + ", "@ + v@ + ");\n"@);
}

fn v1_tail(b: &mut Vec<char>, v: &String, p: &PartText, first: bool, more: bool)
    ensures
        final(b)@ == old(b)@ + (if first {
            ind() + "let result = "@ + v@ + ";\n"@
        } else {
            ind() + "result = result."@ + op_method(op_of(*p)) + "("@ + v@ + ");\n"@
        }) + ind() + "\n"@ + "            \n"@ + (if more { "\n"@ } else { seq![] }),
{
    let ghost b0 = b@;
    if first {
        push_str(b, "                ");
        push_str(b, "let result = ");
        push_string(b, v);
        push_str(b, ";\n");
    } else {
        let op = op_or_union(p);
        push_str(b, "                ");
        push_str(b, "result = result.");
        push_str(b, op.js_method());
        push_str(b, "(");
        push_string(b, v);
        push_str(b, ");\n");
    }
    let ghost b1 = b@;
    assert(b1 =~= b0 + (if first {
        ind() + "let result = "@ + v@ + ";\n"@
    } else {
        ind() + "result = result."@ + op_method(op_of(*p)) + "("@ + v@ + ");\n"@
    }));
    push_str(b, "                ");
    push_str(b, "\n");
    push_str(b, "            \n");
    if more {
        push_str(b, "\n");
    }
    assert(b@ =~= b1 + ind() + "\n"@ + "            \n"@ + (if more { "\n"@ } else { seq![] }));
}

fn block_v1_exec(out: &mut Vec<char>, name: &str, label: &String, p: &PartText, first: bool, more: bool)
    ensures
        final(out)@ == old(out)@ + block_v1(name@, label@, *p, first, more),
{
    let pv = part_var(name, label);
    let v = crate::text::string_of(pv.as_slice());
    let call = part_fn_call(p);
    let mut b: Vec<char> = Vec::new();
    v1_head(&mut b, name, label, &v, &call);
    v1_bounds(&mut b, &v);
    v1_centre(&mut b, &v, "x");
    v1_centre(&mut b, &v, "y");
    v1_transform(&mut b, &v, &p.rotate_deg, &p.shift);
    v1_tail(&mut b, &v, p, first, more);
    assert(b@ =~= block_v1(name@, label@, *p, first, more)) by {
        reveal(block_v1);
    }
    crate::yaml_flow::extend(out, b.as_slice());
}

} // verus!

verus! {

fn v2_head(b: &mut Vec<char>, name: &str, label: &String, v: &String, call: &String)
    ensures
        final(b)@ == old(b)@ + "  // creating part "@ + label@ + " of case "@ + name@ + "\n"@
            + "  let "@ + v@ + " = "@ + call@ + ";\n"@ + "\n"@
            + "  // make sure that rotations are relative\n"@ + "  let "@ + v@
            + "_bounds = measureBoundingBox("@ + v@ + ");\n"@,
{
    let ghost b0 = b@;
    push_str(b, "  // creating part ");
    push_string(b, label);
    push_str(b, " of case ");
    push_str(b, name);
    push_str(b, "\n");
    push_str(b, "  let ");
    push_string(b, v);
    push_str(b, " = ");
    push_string(b, call);
    push_str(b, ";\n");
    push_str(b, "\n");
    let ghost b1 = b@;
    assert(b1 =~= b0 + "  // creating part "@ + label@ + " of case "@ + name@ + "\n"@ + "  let "@ + v@
        + " = "@ + call@ + ";\n"@ + "\n"@);
    push_str(b, "  // make sure that rotations are relative\n");
    push_str(b, "  let ");
    push_string(b, v);
    push_str(b, "_bounds = measureBoundingBox(");
    push_string(b, v);
    push_str(b, ");\n");
    assert(b@ =~= b1 + "  // make sure that rotations are relative\n"@ + "  let "@ + v@
        + "_bounds = measureBoundingBox("@ + v@ + ");\n"@);
}

fn v2_centre(b: &mut Vec<char>, v: &String, axis: &str, k: &str)
    ensures
        final(b)@ == old(b)@ + centre_v2(v@, axis@, k@),
{
    let ghost b0 = b@;
    push_str(b, "  let ");
    push_string(b, v);
    push_str(b, "_");
    push_str(b, axis);
    push_str(b, " = ");
    push_string(b, v);
    push_str(b, "_bounds[0][");
    push_str(b, k);
    push_str(b, "] + (");
    push_string(b, v);
    push_str(b, "_bounds[1][");
    push_str(b, k);
    push_str(b, "] - ");
    push_string(b, v);
    push_str(b, "_bounds[0][");
    push_str(b, k);
    push_str(b, "]) / 2;\n");
    assert(b@ =~= b0 + centre_v2(v@, axis@, k@));
}

fn v2_transform(b: &mut Vec<char>, v: &String, rot: &String, shift: &String)
    ensures
        final(b)@ == old(b)@ + "  "@ + v@ + " = translate([-"@ + v@ + "_x, -"@ + v@ + "_y, 0], "@ + v@
            + ");\n"@ + "  "@ + v@ + " = rotate("@ + rot@ + ", "@ + v@ + ");\n"@ + "  "@ + v@
            + " = translate(["@ + v@ + "_x, "@ + v@ + "_y, 0], "@ + v@ + ");\n"@ + "\n"@ + "  "@ + v@
            + " = translate("@ + shift@ + ", "@ + v@ + ");\n"@,
{
    let ghost b0 = b@;
    push_str(b, "  ");
    push_string(b, v);
    push_str(b, " = translate([-");
    push_string(b, v);
    push_str(b, "_x, -");
    push_string(b, v);
    push_str(b, "_y, 0], ");
    push_string(b, v);
    push_str(b, ");\n");
    let ghost b1 = b@;
    assert(b1 =~= b0 + "  "@ + v@ + " = translate([-"@ + v@ + "_x, -"@ + v@ + "_y, 0], "@ + v@ + ");\n"@);
    push_str(b, "  ");
    push_string(b, v);
    push_str(b, " = rotate(");
    push_string(b, rot);
    push_str(b, ", ");
    push_string(b, v);
    push_str(b, ");\n");
    let ghost b2 = b@;
    assert(b2 =~= b1 + "  "@ + v@ + " = rotate("@ + rot@ + ", "@ + v@ + ");\n"@);
    push_str(b, "  ");
    push_string(b, v);
    push_str(b, " = translate([");
    push_string(b, v);
    push_str(b, "_x, ");
    push_string(b, v);
    push_str(b, "_y, 0], ");
    push_string(b, v);
    push_str(b, ");\n");
    push_str(b, "\n");
    let ghost b3 = b@;
    assert(b3 =~= b2 + "  "@ + v@ + " = translate(["@ + v@ + "_x, "@ + v@ + "_y, 0], "@ + v@ + ");\n"@
        + "\n"@);
    push_str(b, "  ");
    push_string(b, v);
    push_str(b, " = translate(");
    push_string(b, shift);
    push_str(b, ", ");
    push_string(b, v);
    push_str(b, ");\n");
    assert(b@ =~= b3 + "  "@ + v@ + " = translate("@ + shift@ + ", "@ + v@ + ");\n"@);
}

fn v2_tail(b: &mut Vec<char>, v: &String, p: &PartText, first: bool)
    ensures
        final(b)@ == old(b)@ + (if first {
            "  let result = "@ + v@ + ";\n"@
        } else {
            "  result = "@ + op_method(op_of(*p)) + "(result, "@ + v@ + ");\n"@
        }) + "\n"@,
{
    let ghost b0 = b@;
    if first {
        push_str(b, "  let result = ");
        push_string(b, v);
        push_str(b, ";\n");
    } else {
        let op = op_or_union(p);
        push_str(b, "  result = ");
        push_str(b, op.js_method());
        push_str(b, "(result, ");
        push_string(b, v);
        push_str(b, ");\n");
    }
    push_str(b, "\n");
    assert(b@ =~= b0 + (if first {
        "  let result = "@ + v@ + ";\n"@
    } else {
        "  result = "@ + op_method(op_of(*p)) + "(result, "@ + v@ + ");\n"@
    }) + "\n"@);
}

fn block_v2_exec(out: &mut Vec<char>, name: &str, label: &String, p: &PartText, first: bool)
    ensures
        final(out)@ == old(out)@ + block_v2(name@, label@, *p, first),
{
    let pv = part_var(name, label);
    let v = crate::text::string_of(pv.as_slice());
    let call = part_fn_call(p);
    let mut b: Vec<char> = Vec::new();
    v2_head(&mut b, name, label, &v, &call);
    v2_centre(&mut b, &v, "x", "0");
    v2_centre(&mut b, &v, "y", "1");
    v2_transform(&mut b, &v, &p.rotate_rad, &p.shift);
    v2_tail(&mut b, &v, p, first);
    assert(b@ =~= block_v2(name@, label@, *p, first)) by {
        reveal(block_v2);
    }
    crate::yaml_flow::extend(out, b.as_slice());
}

} // verus!

verus! {

fn index_label(i: usize) -> (r: String)
    ensures
        r@ == crate::dxf_write::dec_str(i as nat),
{
    let mut v: Vec<char> = Vec::new();
    crate::dxf_write::push_dec(&mut v, i as u64);
    assert(v@ =~= crate::dxf_write::dec_str(i as nat));
    crate::text::string_of(v.as_slice())
}

/// The JSCAD function of a case, first dialect.
pub fn render_case_fn(name: &str, def: &CaseDefText) -> (r: String)
    ensures
        r@ == case_fn_v1(name@, *def),
{
    let ghost parts = labelled(*def);
    let mut out: Vec<char> = Vec::new();
    push_str(&mut out, "                ");
    push_str(&mut out, "function ");
    push_str(&mut out, name);
    push_str(&mut out, "_case_fn() {\n");
    push_str(&mut out, "                ");
    push_str(&mut out, "    \n");
    push_str(&mut out, "\n");
    let ghost head = out@;
    match def {
        CaseDefText::Parts(ps) => {
            let mut i: usize = 0;
            while i < ps.len()
                invariant
                    *def == CaseDefText::Parts(*ps),
                    parts == labelled(*def),
                    i <= ps.len(),
                    out@ == head + blocks_v1(name@, parts, i as int),
                decreases ps.len() - i,
            {
                let label = index_label(i);
                assert(parts[i as int] == (label@, ps@[i as int]));
                block_v1_exec(&mut out, name, &label, &ps[i], i == 0, i + 1 < ps.len());
                assert(head + blocks_v1(name@, parts, i + 1) =~= head + blocks_v1(name@, parts, i as int)
                    + block_v1(name@, label@, ps@[i as int], i == 0, i + 1 < ps.len()));
                i += 1;
            }
        },
        CaseDefText::Op { target, tool } => {
            let t = crate::expr::str_to_string("target");
            let u = crate::expr::str_to_string("tool");
            block_v1_exec(&mut out, name, &t, target, true, true);
            block_v1_exec(&mut out, name, &u, tool, false, false);
            assert(out@ =~= head + blocks_v1(name@, parts, 2)) by {
                reveal_with_fuel(blocks_v1, 3);
                assert(parts[0] == ("target"@, *target));
                assert(parts[1] == ("tool"@, *tool));
            }
        },
    }
    push_str(&mut out, "                ");
    push_str(&mut out, "    return result;\n");
    push_str(&mut out, "                ");
    push_str(&mut out, "}\n");
    assert(out@ =~= case_fn_v1(name@, *def));
    crate::text::string_of(out.as_slice())
}

/// The JSCAD function of a case, second dialect.
pub fn render_case_fn_v2(name: &str, def: &CaseDefText) -> (r: String)
    ensures
        r@ == case_fn_v2(name@, *def),
{
    let ghost parts = labelled(*def);
    let mut out: Vec<char> = Vec::new();
    push_str(&mut out, "function ");
    push_str(&mut out, name);
    push_str(&mut out, "_case_fn() {\n");
    push_str(&mut out, "\n");
    let ghost head = out@;
    match def {
        CaseDefText::Parts(ps) => {
            let mut i: usize = 0;
            while i < ps.len()
                invariant
                    *def == CaseDefText::Parts(*ps),
                    parts == labelled(*def),
                    i <= ps.len(),
                    out@ == head + blocks_v2(name@, parts, i as int),
                decreases ps.len() - i,
            {
                let label = index_label(i);
                assert(parts[i as int] == (label@, ps@[i as int]));
                block_v2_exec(&mut out, name, &label, &ps[i], i == 0);
                assert(head + blocks_v2(name@, parts, i + 1) =~= head + blocks_v2(name@, parts, i as int)
                    + block_v2(name@, label@, ps@[i as int], i == 0));
                i += 1;
            }
        },
        CaseDefText::Op { target, tool } => {
            let t = crate::expr::str_to_string("target");
            let u = crate::expr::str_to_string("tool");
            block_v2_exec(&mut out, name, &t, target, true);
            block_v2_exec(&mut out, name, &u, tool, false);
            assert(out@ =~= head + blocks_v2(name@, parts, 2)) by {
                reveal_with_fuel(blocks_v2, 3);
                assert(parts[0] == ("target"@, *target));
                assert(parts[1] == ("tool"@, *tool));
            }
        },
    }
    push_str(&mut out, "  return result;\n");
    push_str(&mut out, "}\n");
    assert(out@ =~= case_fn_v2(name@, *def));
    crate::text::string_of(out.as_slice())
}

} // verus!
