//! The JSCAD document of a case: the outline functions its parts use, each
//! once, then the case functions in dependency order, then the entry point.
use vstd::prelude::*;
use crate::jscad::{push_str, string_views, JscadError, PartWhat};
use crate::jscad_text::{case_fn_v1, case_fn_v2, render_case_fn, render_case_fn_v2, CaseDefText, PartText};

verus! {

/// The parts of a case, in order.
pub open spec fn def_parts(d: CaseDefText) -> Seq<PartText> {
    match d {
        CaseDefText::Parts(ps) => ps@,
        CaseDefText::Op { target, tool } => seq![target, tool],
    }
}

/// The outline function keys (outline name, extrusion text) of parts that
/// refer to outlines, in order.
pub open spec fn outline_keys(ps: Seq<PartText>) -> Seq<(Seq<char>, Seq<char>)>
    decreases ps.len(),
{
    if ps.len() == 0 {
        seq![]
    } else {
        let k = outline_keys(ps.drop_last());
        let p = ps.last();
        if p.what == PartWhat::Outline {
            k.push((p.name@, p.extrude@))
        } else {
            k
        }
    }
}

/// The definition of the first case named `name`.
pub open spec fn lookup_case(cases: Seq<(String, CaseDefText)>, name: Seq<char>) -> Option<CaseDefText>
    decreases cases.len(),
{
    if cases.len() == 0 {
        None
    } else if cases[0].0@ == name {
        Some(cases[0].1)
    } else {
        lookup_case(cases.drop_first(), name)
    }
}

/// The outline keys of the cases in `order`, or the first name that is no
/// case.
pub open spec fn order_keys(order: Seq<Seq<char>>, cases: Seq<(String, CaseDefText)>) -> Result<
    Seq<(Seq<char>, Seq<char>)>,
    Seq<char>,
>
    decreases order.len(),
{
    if order.len() == 0 {
        Ok(seq![])
    } else {
        match order_keys(order.drop_last(), cases) {
            Err(n) => Err(n),
            Ok(ks) => match lookup_case(cases, order.last()) {
                None => Err(order.last()),
                Some(d) => Ok(ks + outline_keys(def_parts(d))),
            },
        }
    }
}

/// Each key once, at its first occurrence.
pub open spec fn dedup(ks: Seq<(Seq<char>, Seq<char>)>) -> Seq<(Seq<char>, Seq<char>)>
    decreases ks.len(),
{
    if ks.len() == 0 {
        seq![]
    } else {
        let d = dedup(ks.drop_last());
        if d.contains(ks.last()) {
            d
        } else {
            d.push(ks.last())
        }
    }
}

pub open spec fn pair_views(v: Seq<(String, String)>) -> Seq<(Seq<char>, Seq<char>)> {
    v.map_values(|p: (String, String)| (p.0@, p.1@))
}

fn find_case<'a>(cases: &'a [(String, CaseDefText)], name: &String) -> (r: Option<&'a CaseDefText>)
    ensures
        match lookup_case(cases@, name@) {
            Some(d) => r == Some(&d),
            None => r is None,
        },
{
    let mut i: usize = 0;
    assert(cases@.skip(0) =~= cases@);
    while i < cases.len()
        invariant
            i <= cases.len(),
            lookup_case(cases@, name@) == lookup_case(cases@.skip(i as int), name@),
        decreases cases.len() - i,
    {
        assert(cases@.skip(i as int).drop_first() =~= cases@.skip(i + 1));
        assert(cases@.skip(i as int)[0] == cases@[i as int]);
        if cases[i].0 == *name {
            return Some(&cases[i].1);
        }
        i += 1;
    }
    assert(cases@.skip(i as int) =~= Seq::<(String, CaseDefText)>::empty());
    None
}

fn contains_pair(v: &Vec<(String, String)>, a: &String, b: &String) -> (r: bool)
    ensures
        r == pair_views(v@).contains((a@, b@)),
{
    let mut i: usize = 0;
    while i < v.len()
        invariant
            i <= v.len(),
            forall|k: int| 0 <= k < i ==> #[trigger] pair_views(v@)[k] != (a@, b@),
        decreases v.len() - i,
    {
        if v[i].0 == *a && v[i].1 == *b {
            assert(pair_views(v@)[i as int] == (a@, b@));
            return true;
        }
        assert(pair_views(v@)[i as int] == (v@[i as int].0@, v@[i as int].1@));
        i += 1;
    }
    false
}

proof fn lemma_outline_keys_step(ps: Seq<PartText>, j: int)
    requires
        0 <= j < ps.len(),
    ensures
        outline_keys(ps.take(j + 1)) == if ps[j].what == PartWhat::Outline {
            outline_keys(ps.take(j)).push((ps[j].name@, ps[j].extrude@))
        } else {
            outline_keys(ps.take(j))
        },
{
    assert(ps.take(j + 1).drop_last() =~= ps.take(j));
}

/// The outline functions the cases in `order` use: (outline name,
/// extrusion text), each pair once, in order of first use.
pub fn collect_outline_functions(order: &[String], cases: &[(String, CaseDefText)]) -> (r: Result<Vec<(String, String)>, JscadError>)
    ensures
        match order_keys(string_views(order@), cases@) {
            Ok(ks) => r matches Ok(v) && pair_views(v@) == dedup(ks),
            Err(n) => r matches Err(JscadError::UnknownCase { name }) && name@ == n,
        },
{
    let ghost sv = string_views(order@);
    let mut out: Vec<(String, String)> = Vec::new();
    let ghost mut ks: Seq<(Seq<char>, Seq<char>)> = seq![];
    let mut i: usize = 0;
    assert(sv.take(0) =~= Seq::<Seq<char>>::empty());
    assert(pair_views(out@) =~= dedup(ks));
    while i < order.len()
        invariant
            i <= order.len(),
            sv == string_views(order@),
            order_keys(sv.take(i as int), cases@) == Ok::<Seq<(Seq<char>, Seq<char>)>, Seq<char>>(ks),
            pair_views(out@) == dedup(ks),
        decreases order.len() - i,
    {
        assert(sv.take(i + 1).drop_last() =~= sv.take(i as int));
        assert(sv.take(i + 1).last() == order@[i as int]@);
        let def = match find_case(cases, &order[i]) {
            Some(d) => d,
            None => {
                proof {
                    lemma_order_keys_err(sv, cases@, i as int + 1);
                }
                return Err(JscadError::UnknownCase { name: order[i].clone() });
            },
        };
        let ghost ps = def_parts(*def);
        let ghost ks0 = ks;
        let parts: Vec<&PartText> = match def {
            CaseDefText::Parts(v) => {
                let mut refs: Vec<&PartText> = Vec::new();
                let mut k: usize = 0;
                while k < v.len()
                    invariant
                        k <= v.len(),
                        refs@.len() == k,
                        forall|q: int| 0 <= q < k ==> *#[trigger] refs@[q] == v@[q],
                    decreases v.len() - k,
                {
                    refs.push(&v[k]);
                    k += 1;
                }
                refs
            },
            CaseDefText::Op { target, tool } => vec![target, tool],
        };
        assert(parts@.len() == ps.len());
        assert(forall|q: int| 0 <= q < ps.len() ==> *#[trigger] parts@[q] == ps[q]);
        let mut j: usize = 0;
        assert(ps.take(0) =~= Seq::<PartText>::empty());
        assert(ks0 + outline_keys(ps.take(0)) =~= ks0);
        proof {
            ks = ks0 + outline_keys(ps.take(0));
        }
        while j < parts.len()
            invariant
                j <= parts.len(),
                parts@.len() == ps.len(),
                forall|q: int| 0 <= q < ps.len() ==> *#[trigger] parts@[q] == ps[q],
                ks == ks0 + outline_keys(ps.take(j as int)),
                pair_views(out@) == dedup(ks),
            decreases parts.len() - j,
        {
            let p = parts[j];
            proof {
                lemma_outline_keys_step(ps, j as int);
            }
            if p.what == PartWhat::Outline {
                let ghost key = (p.name@, p.extrude@);
                let ghost nks = ks.push(key);
                assert(nks.drop_last() =~= ks);
                assert(ks0 + outline_keys(ps.take(j + 1)) =~= nks);
                if !contains_pair(&out, &p.name, &p.extrude) {
                    out.push((p.name.clone(), p.extrude.clone()));
                    assert(pair_views(out@) =~= dedup(ks).push(key));
                }
                proof {
                    ks = nks;
                }
            }
            j += 1;
        }
        assert(ps.take(ps.len() as int) =~= ps);
        i += 1;
    }
    assert(sv.take(order.len() as int) =~= sv);
    Ok(out)
}

proof fn lemma_order_keys_err(order: Seq<Seq<char>>, cases: Seq<(String, CaseDefText)>, n: int)
    requires
        0 < n <= order.len(),
        order_keys(order.take(n - 1), cases) is Ok,
        lookup_case(cases, order[n - 1]) is None,
    ensures
        order_keys(order, cases) == Err::<Seq<(Seq<char>, Seq<char>)>, Seq<char>>(order[n - 1]),
    decreases order.len() - n,
{
    assert(order.take(n).drop_last() =~= order.take(n - 1));
    assert(order_keys(order.take(n), cases) == Err::<Seq<(Seq<char>, Seq<char>)>, Seq<char>>(order[n - 1]));
    lemma_order_keys_err_extends(order, cases, n);
}

proof fn lemma_order_keys_err_extends(order: Seq<Seq<char>>, cases: Seq<(String, CaseDefText)>, n: int)
    requires
        0 <= n <= order.len(),
        order_keys(order.take(n), cases) is Err,
    ensures
        order_keys(order, cases) == order_keys(order.take(n), cases),
    decreases order.len() - n,
{
    if n < order.len() {
        assert(order.take(n + 1).drop_last() =~= order.take(n));
        lemma_order_keys_err_extends(order, cases, n + 1);
    } else {
        assert(order.take(n) =~= order);
    }
}

} // verus!

verus! {

/// The opening line of an outline function.
pub open spec fn outline_fn_head(name: Seq<char>, ext: Seq<char>) -> Seq<char> {
    "function "@ + name + "_extrude_"@ + ext + "_outline_fn(){\n"@
}

/// An outline function of the first dialect: the CAG expression, extruded
/// by `offset`.
pub open spec fn outline_fn_v1(name: Seq<char>, ext: Seq<char>, body: Seq<char>, offset: Seq<char>) -> Seq<char> {
    outline_fn_head(name, ext) + "    return "@ + body + "\n"@ + ".extrude({ offset: "@ + offset + " });\n"@
        + "}\n"@
}

/// Lines indented by two spaces, each ending the line.
pub open spec fn body_lines(ls: Seq<Seq<char>>) -> Seq<char>
    decreases ls.len(),
{
    if ls.len() == 0 {
        seq![]
    } else {
        body_lines(ls.drop_last()) + "  "@ + ls.last() + "\n"@
    }
}

/// An outline function of the second dialect: the statements that build
/// `shape`, then its linear extrusion to `height`.
pub open spec fn outline_fn_v2(name: Seq<char>, ext: Seq<char>, lines: Seq<Seq<char>>, height: Seq<char>) -> Seq<char> {
    outline_fn_head(name, ext) + body_lines(lines) + "  return extrudeLinear({ height: "@ + height
        + " }, shape);\n"@ + "}\n"@
}

/// The outline function of outline `name` at extrusion `extrude_name`,
/// first dialect; its body is missing when the outline has no shape that
/// JSCAD can draw.
pub fn render_outline_fn(name: &str, extrude_name: &str, body: Option<String>, offset: &str) -> (r: Result<String, JscadError>)
    ensures
        match body {
            Some(b) => r matches Ok(s) && s@ == outline_fn_v1(name@, extrude_name@, b@, offset@),
            None => r matches Err(JscadError::UnsupportedOutline { name: n }) && n@ == name@,
        },
{
    let b = match body {
        Some(b) => b,
        None => {
            return Err(JscadError::UnsupportedOutline { name: crate::expr::str_to_string(name) });
        },
    };
    let mut out: Vec<char> = Vec::new();
    push_str(&mut out, "function ");
    push_str(&mut out, name);
    push_str(&mut out, "_extrude_");
    push_str(&mut out, extrude_name);
    push_str(&mut out, "_outline_fn(){\n");
    push_str(&mut out, "    return ");
    push_str(&mut out, b.as_str());
    push_str(&mut out, "\n");
    push_str(&mut out, ".extrude({ offset: ");
    push_str(&mut out, offset);
    push_str(&mut out, " });\n");
    push_str(&mut out, "}\n");
    assert(out@ =~= outline_fn_v1(name@, extrude_name@, b@, offset@));
    Ok(crate::text::string_of(out.as_slice()))
}

/// The outline function of outline `name` at extrusion `extrude_name`,
/// second dialect.
pub fn render_outline_fn_v2(name: &str, extrude_name: &str, body: Option<Vec<String>>, height: &str) -> (r: Result<String, JscadError>)
    ensures
        match body {
            Some(b) => r matches Ok(s) && s@ == outline_fn_v2(name@, extrude_name@, string_views(b@), height@),
            None => r matches Err(JscadError::UnsupportedOutline { name: n }) && n@ == name@,
        },
{
    let lines = match body {
        Some(b) => b,
        None => {
            return Err(JscadError::UnsupportedOutline { name: crate::expr::str_to_string(name) });
        },
    };
    let ghost lv = string_views(lines@);
    let mut out: Vec<char> = Vec::new();
    push_str(&mut out, "function ");
    push_str(&mut out, name);
    push_str(&mut out, "_extrude_");
    push_str(&mut out, extrude_name);
    push_str(&mut out, "_outline_fn(){\n");
    let ghost head = out@;
    assert(head =~= outline_fn_head(name@, extrude_name@));
    let mut i: usize = 0;
    assert(lv.take(0) =~= Seq::<Seq<char>>::empty());
    while i < lines.len()
        invariant
            i <= lines.len(),
            lv == string_views(lines@),
            out@ == head + body_lines(lv.take(i as int)),
        decreases lines.len() - i,
    {
        assert(lv.take(i + 1).drop_last() =~= lv.take(i as int));
        assert(lv.take(i + 1).last() == lines@[i as int]@);
        push_str(&mut out, "  ");
        push_str(&mut out, lines[i].as_str());
        push_str(&mut out, "\n");
        i += 1;
    }
    assert(lv.take(lines.len() as int) =~= lv);
    push_str(&mut out, "  return extrudeLinear({ height: ");
    push_str(&mut out, height);
    push_str(&mut out, " }, shape);\n");
    push_str(&mut out, "}\n");
    assert(out@ =~= outline_fn_v2(name@, extrude_name@, lv, height@));
    Ok(crate::text::string_of(out.as_slice()))
}

/// A rectangle from (x1, y1) to (x2, y2) as a CAG expression.
pub open spec fn rect_cag_text(x1: Seq<char>, x2: Seq<char>, y1: Seq<char>, y2: Seq<char>) -> Seq<char> {
    "new CSG.Path2D([["@ + x1 + ","@ + y1 + "],["@ + x2 + ","@ + y1 + "]]).appendPoint(["@ + x2 + ","@ + y2
        + "]).appendPoint(["@ + x1 + ","@ + y2 + "]).appendPoint(["@ + x1 + ","@ + y1
        + "]).close().innerToCAG()"@
}

/// The CAG expression of a rectangle with corners (x1, y1) and (x2, y2).
pub fn rect_cag(x1: &str, x2: &str, y1: &str, y2: &str) -> (r: String)
    ensures
        r@ == rect_cag_text(x1@, x2@, y1@, y2@),
{
    let mut out: Vec<char> = Vec::new();
    push_str(&mut out, "new CSG.Path2D([[");
    push_str(&mut out, x1);
    push_str(&mut out, ",");
    push_str(&mut out, y1);
    push_str(&mut out, "],[");
    push_str(&mut out, x2);
    push_str(&mut out, ",");
    push_str(&mut out, y1);
    push_str(&mut out, "]]).appendPoint([");
    push_str(&mut out, x2);
    push_str(&mut out, ",");
    push_str(&mut out, y2);
    push_str(&mut out, "]).appendPoint([");
    push_str(&mut out, x1);
    push_str(&mut out, ",");
    push_str(&mut out, y2);
    push_str(&mut out, "]).appendPoint([");
    push_str(&mut out, x1);
    push_str(&mut out, ",");
    push_str(&mut out, y1);
    push_str(&mut out, "]).close().innerToCAG()");
    assert(out@ =~= rect_cag_text(x1@, x2@, y1@, y2@));
    crate::text::string_of(out.as_slice())
}

/// The CAG expression of a circle of radius `r` about the origin.
pub fn circle_cag(r: &str) -> (s: String)
    ensures
        s@ == "CAG.circle({\"center\":[0,0],\"radius\":"@ + r@ + "})"@,
{
    let mut out: Vec<char> = Vec::new();
    push_str(&mut out, "CAG.circle({\"center\":[0,0],\"radius\":");
    push_str(&mut out, r);
    push_str(&mut out, "})");
    crate::text::string_of(out.as_slice())
}

/// The statement that makes `shape` a centred rectangle, second dialect.
pub fn rect_geom2(w: &str, h: &str) -> (s: String)
    ensures
        s@ == "const shape = rectangle({ size: ["@ + w@ + ", "@ + h@ + "], center: [0, 0] });"@,
{
    let mut out: Vec<char> = Vec::new();
    push_str(&mut out, "const shape = rectangle({ size: [");
    push_str(&mut out, w);
    push_str(&mut out, ", ");
    push_str(&mut out, h);
    push_str(&mut out, "], center: [0, 0] });");
    crate::text::string_of(out.as_slice())
}

/// The statement that makes `shape` a centred circle, second dialect.
pub fn circle_geom2(r: &str) -> (s: String)
    ensures
        s@ == "const shape = circle({ radius: "@ + r@ + ", center: [0, 0] });"@,
{
    let mut out: Vec<char> = Vec::new();
    push_str(&mut out, "const shape = circle({ radius: ");
    push_str(&mut out, r);
    push_str(&mut out, ", center: [0, 0] });");
    crate::text::string_of(out.as_slice())
}

} // verus!

verus! {

/// The first `n` outline functions, each followed by a blank line, the last
/// by three.
pub open spec fn outline_fns_v1(fs: Seq<Seq<char>>, n: int) -> Seq<char>
    decreases n,
{
    if n <= 0 {
        seq![]
    } else {
        outline_fns_v1(fs, n - 1) + fs[n - 1] + if n < fs.len() {
            "\n\n"@
        } else {
            "\n\n\n\n"@
        }
    }
}

/// The first `n` outline functions of the second dialect.
pub open spec fn outline_fns_v2(fs: Seq<Seq<char>>, n: int) -> Seq<char>
    decreases n,
{
    if n <= 0 {
        seq![]
    } else {
        outline_fns_v2(fs, n - 1) + fs[n - 1] + if n < fs.len() {
            "\n"@
        } else {
            "\n\n"@
        }
    }
}

/// The case functions of the first `n` names of `order`, first dialect, or
/// the first of them that is no case.
pub open spec fn case_fns_v1(order: Seq<Seq<char>>, cases: Seq<(String, CaseDefText)>, n: int) -> Result<Seq<char>, Seq<char>>
    decreases n,
{
    if n <= 0 {
        Ok(seq![])
    } else {
        match case_fns_v1(order, cases, n - 1) {
            Err(e) => Err(e),
            Ok(t) => match lookup_case(cases, order[n - 1]) {
                None => Err(order[n - 1]),
                Some(d) => Ok(t + case_fn_v1(order[n - 1], d) + "            \n"@ + "            \n"@
                    + if n < order.len() {
                    "\n"@
                } else {
                    seq![]
                }),
            },
        }
    }
}

/// The case functions of the first `n` names of `order`, second dialect.
pub open spec fn case_fns_v2(order: Seq<Seq<char>>, cases: Seq<(String, CaseDefText)>, n: int) -> Result<Seq<char>, Seq<char>>
    decreases n,
{
    if n <= 0 {
        Ok(seq![])
    } else {
        match case_fns_v2(order, cases, n - 1) {
            Err(e) => Err(e),
            Ok(t) => match lookup_case(cases, order[n - 1]) {
                None => Err(order[n - 1]),
                Some(d) => Ok(t + case_fn_v2(order[n - 1], d) + if n < order.len() {
                    "\n"@
                } else {
                    seq![]
                }),
            },
        }
    }
}

/// The entry point of the first dialect.
pub open spec fn main_v1(case_name: Seq<char>) -> Seq<char> {
    "        \n"@ + "            function main() {\n"@ + "                return "@ + case_name + "_case_fn();\n"@
        + "            }\n"@ + "\n"@ + "        \n"@
}

/// The module header of the second dialect.
pub open spec fn header_v2() -> Seq<char> {
    "const { booleans, extrusions, primitives, transforms, measurements } = require('@jscad/modeling');\n"@
        + "const { union, subtract, intersect } = booleans;\n"@ + "const { extrudeLinear } = extrusions;\n"@
        + "const { rectangle, circle, polygon } = primitives;\n"@
        + "const { translate, rotate } = transforms;\n"@ + "const { measureBoundingBox } = measurements;\n\n"@
}

/// The entry point of the second dialect.
pub open spec fn main_v2(case_name: Seq<char>) -> Seq<char> {
    "\nconst main = () => "@ + case_name + "_case_fn();\n"@ + "module.exports = { main };\n"@
}

/// The document of the first dialect.
pub open spec fn cases_doc_v1(case_name: Seq<char>, fs: Seq<Seq<char>>, order: Seq<Seq<char>>, cases: Seq<(String, CaseDefText)>) -> Result<Seq<char>, Seq<char>> {
    match case_fns_v1(order, cases, order.len() as int) {
        Ok(t) => Ok(outline_fns_v1(fs, fs.len() as int) + t + main_v1(case_name)),
        Err(e) => Err(e),
    }
}

/// The document of the second dialect.
pub open spec fn cases_doc_v2(case_name: Seq<char>, fs: Seq<Seq<char>>, order: Seq<Seq<char>>, cases: Seq<(String, CaseDefText)>) -> Result<Seq<char>, Seq<char>> {
    match case_fns_v2(order, cases, order.len() as int) {
        Ok(t) => Ok(header_v2() + outline_fns_v2(fs, fs.len() as int) + t + main_v2(case_name)),
        Err(e) => Err(e),
    }
}

/// A case document of the second dialect loads the modeling library first
/// and ends by calling the chosen case's function from `main` and exporting
/// `main`.
pub proof fn law_v2_document_frame(
    case_name: Seq<char>,
    fs: Seq<Seq<char>>,
    order: Seq<Seq<char>>,
    cases: Seq<(String, CaseDefText)>,
)
    ensures
        cases_doc_v2(case_name, fs, order, cases) matches Ok(t) ==> ({
            let req = "const { booleans, extrusions, primitives, transforms, measurements } = require('@jscad/modeling');\n"@;
            let tail = case_name + "_case_fn();\n"@ + "module.exports = { main };\n"@;
            &&& t.len() >= req.len() + tail.len()
            &&& t.take(req.len() as int) == req
            &&& t.skip(t.len() - tail.len()) == tail
        }),
{
    if let Ok(body) = case_fns_v2(order, cases, order.len() as int) {
        let req = "const { booleans, extrusions, primitives, transforms, measurements } = require('@jscad/modeling');\n"@;
        let rest = "const { union, subtract, intersect } = booleans;\n"@ + "const { extrudeLinear } = extrusions;\n"@
            + "const { rectangle, circle, polygon } = primitives;\n"@
            + "const { translate, rotate } = transforms;\n"@ + "const { measureBoundingBox } = measurements;\n\n"@;
        let tail = case_name + "_case_fn();\n"@ + "module.exports = { main };\n"@;
        let mid = outline_fns_v2(fs, fs.len() as int) + body + "\nconst main = () => "@;
        let t = header_v2() + outline_fns_v2(fs, fs.len() as int) + body + main_v2(case_name);
        assert(header_v2() =~= req + rest);
        assert(main_v2(case_name) =~= "\nconst main = () => "@ + tail);
        assert(t =~= req + (rest + mid) + tail);
        assert(t.take(req.len() as int) =~= req);
        assert(t.skip(t.len() - tail.len()) =~= tail);
    }
}

proof fn lemma_case_fns_v1_err(order: Seq<Seq<char>>, cases: Seq<(String, CaseDefText)>, n: int)
    requires
        0 <= n <= order.len(),
        case_fns_v1(order, cases, n) is Err,
    ensures
        case_fns_v1(order, cases, order.len() as int) == case_fns_v1(order, cases, n),
    decreases order.len() - n,
{
    if n < order.len() {
        lemma_case_fns_v1_err(order, cases, n + 1);
    }
}

proof fn lemma_case_fns_v2_err(order: Seq<Seq<char>>, cases: Seq<(String, CaseDefText)>, n: int)
    requires
        0 <= n <= order.len(),
        case_fns_v2(order, cases, n) is Err,
    ensures
        case_fns_v2(order, cases, order.len() as int) == case_fns_v2(order, cases, n),
    decreases order.len() - n,
{
    if n < order.len() {
        lemma_case_fns_v2_err(order, cases, n + 1);
    }
}

/// The JSCAD document of case `case_name`, first dialect, from its outline
/// functions (already rendered) and the cases in emission order.
pub fn render_cases_v1(case_name: &str, outline_fns: &[String], order: &[String], cases: &[(String, CaseDefText)]) -> (r: Result<String, JscadError>)
    ensures
        match cases_doc_v1(case_name@, string_views(outline_fns@), string_views(order@), cases@) {
            Ok(t) => r matches Ok(s) && s@ == t,
            Err(n) => r matches Err(JscadError::UnknownCase { name }) && name@ == n,
        },
{
    let ghost fv = string_views(outline_fns@);
    let ghost ov = string_views(order@);
    let mut out: Vec<char> = Vec::new();
    let mut i: usize = 0;
    while i < outline_fns.len()
        invariant
            i <= outline_fns.len(),
            fv == string_views(outline_fns@),
            out@ == outline_fns_v1(fv, i as int),
        decreases outline_fns.len() - i,
    {
        push_str(&mut out, outline_fns[i].as_str());
        if i + 1 < outline_fns.len() {
            push_str(&mut out, "\n\n");
        } else {
            push_str(&mut out, "\n\n\n\n");
        }
        i += 1;
    }
    let ghost head = out@;
    let mut k: usize = 0;
    while k < order.len()
        invariant
            k <= order.len(),
            ov == string_views(order@),
            case_fns_v1(ov, cases@, k as int) matches Ok(t) && out@ == head + t,
        decreases order.len() - k,
    {
        let def = match find_case(cases, &order[k]) {
            Some(d) => d,
            None => {
                proof {
                    lemma_case_fns_v1_err(ov, cases@, k + 1);
                }
                return Err(JscadError::UnknownCase { name: order[k].clone() });
            },
        };
        let f = render_case_fn(order[k].as_str(), def);
        push_str(&mut out, f.as_str());
        push_str(&mut out, "            \n");
        push_str(&mut out, "            \n");
        if k + 1 < order.len() {
            push_str(&mut out, "\n");
        }
        k += 1;
    }
    push_str(&mut out, "        \n");
    push_str(&mut out, "            function main() {\n");
    push_str(&mut out, "                return ");
    push_str(&mut out, case_name);
    push_str(&mut out, "_case_fn();\n");
    push_str(&mut out, "            }\n");
    push_str(&mut out, "\n");
    push_str(&mut out, "        \n");
    Ok(crate::text::string_of(out.as_slice()))
}

/// The JSCAD document of case `case_name`, second dialect.
pub fn render_cases_v2(case_name: &str, outline_fns: &[String], order: &[String], cases: &[(String, CaseDefText)]) -> (r: Result<String, JscadError>)
    ensures
        match cases_doc_v2(case_name@, string_views(outline_fns@), string_views(order@), cases@) {
            Ok(t) => r matches Ok(s) && s@ == t,
            Err(n) => r matches Err(JscadError::UnknownCase { name }) && name@ == n,
        },
{
    let ghost fv = string_views(outline_fns@);
    let ghost ov = string_views(order@);
    let mut out: Vec<char> = Vec::new();
    push_str(&mut out, "const { booleans, extrusions, primitives, transforms, measurements } = require('@jscad/modeling');\n");
    push_str(&mut out, "const { union, subtract, intersect } = booleans;\n");
    push_str(&mut out, "const { extrudeLinear } = extrusions;\n");
    push_str(&mut out, "const { rectangle, circle, polygon } = primitives;\n");
    push_str(&mut out, "const { translate, rotate } = transforms;\n");
    push_str(&mut out, "const { measureBoundingBox } = measurements;\n\n");
    let ghost h = out@;
    assert(h =~= header_v2());
    let mut i: usize = 0;
    while i < outline_fns.len()
        invariant
            i <= outline_fns.len(),
            fv == string_views(outline_fns@),
            out@ == h + outline_fns_v2(fv, i as int),
        decreases outline_fns.len() - i,
    {
        push_str(&mut out, outline_fns[i].as_str());
        if i + 1 < outline_fns.len() {
            push_str(&mut out, "\n");
        } else {
            push_str(&mut out, "\n\n");
        }
        i += 1;
    }
    let ghost head = out@;
    let mut k: usize = 0;
    while k < order.len()
        invariant
            k <= order.len(),
            ov == string_views(order@),
            case_fns_v2(ov, cases@, k as int) matches Ok(t) && out@ == head + t,
        decreases order.len() - k,
    {
        let def = match find_case(cases, &order[k]) {
            Some(d) => d,
            None => {
                proof {
                    lemma_case_fns_v2_err(ov, cases@, k + 1);
                }
                return Err(JscadError::UnknownCase { name: order[k].clone() });
            },
        };
        let f = render_case_fn_v2(order[k].as_str(), def);
        push_str(&mut out, f.as_str());
        if k + 1 < order.len() {
            push_str(&mut out, "\n");
        }
        k += 1;
    }
    push_str(&mut out, "\nconst main = () => ");
    push_str(&mut out, case_name);
    push_str(&mut out, "_case_fn();\n");
    push_str(&mut out, "module.exports = { main };\n");
    Ok(crate::text::string_of(out.as_slice()))
}

} // verus!
