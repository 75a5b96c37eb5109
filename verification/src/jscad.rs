//! The case side of the JSCAD export: case operations, how a part names an
//! outline or another case, and the order in which case functions are
//! emitted.
use vstd::prelude::*;
use crate::expr::str_to_string;

verus! {

/// Errors of the JSCAD export.
#[derive(Debug)]
pub enum JscadError {
    MissingCases,
    MissingOutlines,
    CasesNotMap,
    OutlinesNotMap,
    UnknownCase { name: String },
    UnknownOutline { name: String },
    UnsupportedOutline { name: String },
    InvalidNumber { at: String },
    InvalidVector { at: String },
    InvalidCase { name: String },
    InvalidCasePart { name: String },
}

/// How a part combines with the parts before it.
#[derive(Debug, Clone, Copy, PartialEq, Eq, Structural)]
pub enum CaseOp {
    Union,
    Subtract,
    Intersect,
}

/// The operation a part name's first character selects.
pub open spec fn op_of_prefix(c: char) -> Option<CaseOp> {
    if c == '+' {
        Some(CaseOp::Union)
    } else if c == '-' {
        Some(CaseOp::Subtract)
    } else if c == '~' {
        Some(CaseOp::Intersect)
    } else {
        None
    }
}

/// The operation an `operation:` value names.
pub open spec fn op_of_name(s: Seq<char>) -> Option<CaseOp> {
    if s == "union"@ {
        Some(CaseOp::Union)
    } else if s == "subtract"@ {
        Some(CaseOp::Subtract)
    } else if s == "intersect"@ {
        Some(CaseOp::Intersect)
    } else {
        None
    }
}

/// The JSCAD method that performs an operation.
pub open spec fn op_method(op: CaseOp) -> Seq<char> {
    match op {
        CaseOp::Union => "union"@,
        CaseOp::Subtract => "subtract"@,
        CaseOp::Intersect => "intersect"@,
    }
}

impl CaseOp {
    /// `+`, `-` and `~` select union, subtraction and intersection.
    pub fn from_prefix(c: char) -> (r: Option<CaseOp>)
        ensures
            r == op_of_prefix(c),
    {
        if c == '+' {
            Some(CaseOp::Union)
        } else if c == '-' {
            Some(CaseOp::Subtract)
        } else if c == '~' {
            Some(CaseOp::Intersect)
        } else {
            None
        }
    }

    /// The operation named `union`, `subtract` or `intersect`.
    pub fn from_str(s: &str) -> (r: Option<CaseOp>)
        ensures
            r == op_of_name(s@),
    {
        let v = crate::text::chars_of(s);
        if crate::expr::chars_eq(v.as_slice(), "union") {
            Some(CaseOp::Union)
        } else if crate::expr::chars_eq(v.as_slice(), "subtract") {
            Some(CaseOp::Subtract)
        } else if crate::expr::chars_eq(v.as_slice(), "intersect") {
            Some(CaseOp::Intersect)
        } else {
            None
        }
    }

    /// The name of the JSCAD method for this operation.
    pub fn js_method(self) -> (r: &'static str)
        ensures
            r@ == op_method(self),
    {
        match self {
            CaseOp::Union => "union",
            CaseOp::Subtract => "subtract",
            CaseOp::Intersect => "intersect",
        }
    }
}

/// Whether a part refers to an outline or to another case.
#[derive(Debug, Clone, Copy, PartialEq, Eq, Structural)]
pub enum PartWhat {
    Outline,
    Case,
}

/// What a part name refers to when the part does not say: an outline of
/// that name first, then a case of that name, else an outline.
pub open spec fn what_of(name: Seq<char>, outlines: Seq<Seq<char>>, cases: Seq<Seq<char>>) -> PartWhat {
    if outlines.contains(name) {
        PartWhat::Outline
    } else if cases.contains(name) {
        PartWhat::Case
    } else {
        PartWhat::Outline
    }
}

pub open spec fn string_views(v: Seq<String>) -> Seq<Seq<char>> {
    v.map_values(|s: String| s@)
}

pub(crate) fn contains_string(v: &[String], s: &String) -> (r: bool)
    ensures
        r == string_views(v@).contains(s@),
{
    let mut i: usize = 0;
    while i < v.len()
        invariant
            i <= v.len(),
            forall|k: int| 0 <= k < i ==> v@[k]@ != s@,
        decreases v.len() - i,
    {
        if v[i] == *s {
            assert(string_views(v@)[i as int] == s@);
            return true;
        }
        i += 1;
    }
    proof {
        if string_views(v@).contains(s@) {
            let k = choose|k: int| 0 <= k < string_views(v@).len() && string_views(v@)[k] == s@;
            assert(v@[k]@ == s@);
        }
    }
    false
}

/// Classifies a part name by the outlines and cases that exist.
pub fn part_what(name: &String, outline_names: &[String], case_names: &[String]) -> (r: PartWhat)
    ensures
        r == what_of(name@, string_views(outline_names@), string_views(case_names@)),
{
    if contains_string(outline_names, name) {
        PartWhat::Outline
    } else if contains_string(case_names, name) {
        PartWhat::Case
    } else {
        PartWhat::Outline
    }
}

/// A part of a case as far as the case structure goes: the name it refers
/// to, whether that is an outline or a case, and its operation.
#[derive(Debug, Clone)]
pub struct CaseRef {
    pub name: String,
    pub what: PartWhat,
    pub operation: Option<CaseOp>,
}

/// A part written as a string: an optional operation prefix, then the name.
pub open spec fn part_of_str(raw: Seq<char>, outlines: Seq<Seq<char>>, cases: Seq<Seq<char>>) -> (
    Seq<char>,
    PartWhat,
    Option<CaseOp>,
) {
    let op = if raw.len() > 0 { op_of_prefix(raw[0]) } else { None };
    let name = if op is Some { raw.drop_first() } else { raw };
    (name, what_of(name, outlines, cases), op)
}

/// Reads a part written as a string (`+name`, `-name`, `~name` or `name`).
pub fn parse_case_part_str(raw: &str, outline_names: &[String], case_names: &[String]) -> (r: CaseRef)
    ensures
        (r.name@, r.what, r.operation) == part_of_str(
            raw@,
            string_views(outline_names@),
            string_views(case_names@),
        ),
{
    let v = crate::text::chars_of(raw);
    let mut operation: Option<CaseOp> = None;
    let name = if v.len() > 0 {
        match CaseOp::from_prefix(v[0]) {
            Some(op) => {
                operation = Some(op);
                let rest = crate::yaml_flow::slice_vec(v.as_slice(), 1, v.len());
                assert(rest@ =~= raw@.drop_first());
                crate::text::string_of(rest.as_slice())
            },
            None => str_to_string(raw),
        }
    } else {
        str_to_string(raw)
    };
    let what = part_what(&name, outline_names, case_names);
    CaseRef { name, what, operation }
}

} // verus!

verus! {

/// A case as the case order sees it: its name and the parts it has.
#[derive(Debug, Clone)]
pub struct CaseEntry {
    pub name: String,
    pub parts: Vec<CaseRef>,
}

/// A case's name and its parts as (name, refers to a case).
pub open spec fn case_view(e: CaseEntry) -> (Seq<char>, Seq<(Seq<char>, bool)>) {
    (e.name@, e.parts@.map_values(|p: CaseRef| (p.name@, p.what == PartWhat::Case)))
}

pub open spec fn case_views(v: Seq<CaseEntry>) -> Seq<(Seq<char>, Seq<(Seq<char>, bool)>)> {
    v.map_values(|e: CaseEntry| case_view(e))
}

/// Index of the first case named `name` at or after `i`.
pub open spec fn find_case(cases: Seq<(Seq<char>, Seq<(Seq<char>, bool)>)>, name: Seq<char>, i: int) -> Option<int>
    decreases cases.len() - i,
{
    if i < 0 || i >= cases.len() {
        None
    } else if cases[i].0 == name {
        Some(i)
    } else {
        find_case(cases, name, i + 1)
    }
}

/// Number of cases whose name has not been visited.
pub open spec fn unvisited(cases: Seq<(Seq<char>, Seq<(Seq<char>, bool)>)>, visited: Set<Seq<char>>) -> nat
    decreases cases.len(),
{
    if cases.len() == 0 {
        0
    } else {
        unvisited(cases.drop_last(), visited) + if visited.contains(cases.last().0) {
            0nat
        } else {
            1nat
        }
    }
}

/// Depth-first visit of case `name`: a case seen before is skipped; the
/// others are marked seen, appended to the order unless they are the root,
/// and their case parts visited in turn. `Err` names an unknown case.
/// `fuel` bounds the depth.
pub open spec fn visit(
    cases: Seq<(Seq<char>, Seq<(Seq<char>, bool)>)>,
    fuel: nat,
    name: Seq<char>,
    is_root: bool,
    visited: Set<Seq<char>>,
    order: Seq<Seq<char>>,
) -> Result<(Set<Seq<char>>, Seq<Seq<char>>), Seq<char>>
    decreases fuel, 0nat,
{
    if fuel == 0 {
        Err(name)
    } else if visited.contains(name) {
        Ok((visited, order))
    } else {
        match find_case(cases, name, 0) {
            None => Err(name),
            Some(k) => visit_parts(
                cases,
                (fuel - 1) as nat,
                cases[k].1,
                0,
                visited.insert(name),
                if is_root { order } else { order.push(name) },
            ),
        }
    }
}

/// Visits the case parts of `parts` from index `i` on.
pub open spec fn visit_parts(
    cases: Seq<(Seq<char>, Seq<(Seq<char>, bool)>)>,
    fuel: nat,
    parts: Seq<(Seq<char>, bool)>,
    i: int,
    visited: Set<Seq<char>>,
    order: Seq<Seq<char>>,
) -> Result<(Set<Seq<char>>, Seq<Seq<char>>), Seq<char>>
    decreases fuel, (if i < parts.len() { parts.len() - i } else { 0 }) as nat + 1,
{
    if i < 0 || i >= parts.len() {
        Ok((visited, order))
    } else if parts[i].1 {
        match visit(cases, fuel, parts[i].0, false, visited, order) {
            Err(e) => Err(e),
            Ok((v2, o2)) => visit_parts(cases, fuel, parts, i + 1, v2, o2),
        }
    } else {
        visit_parts(cases, fuel, parts, i + 1, visited, order)
    }
}

/// The order in which case functions are emitted for `target`: the cases
/// reachable from it through case parts, in depth-first preorder, then
/// `target` itself.
pub open spec fn case_order(cases: Seq<(Seq<char>, Seq<(Seq<char>, bool)>)>, target: Seq<char>) -> Result<
    Seq<Seq<char>>,
    Seq<char>,
> {
    match visit(cases, cases.len() + 1, target, true, Set::empty(), seq![]) {
        Ok((_, order)) => Ok(order.push(target)),
        Err(e) => Err(e),
    }
}

} // verus!

verus! {

proof fn lemma_unvisited_le(cases: Seq<(Seq<char>, Seq<(Seq<char>, bool)>)>, v: Set<Seq<char>>)
    ensures
        unvisited(cases, v) <= cases.len(),
    decreases cases.len(),
{
    if cases.len() > 0 {
        lemma_unvisited_le(cases.drop_last(), v);
    }
}

proof fn lemma_unvisited_mono(
    cases: Seq<(Seq<char>, Seq<(Seq<char>, bool)>)>,
    v1: Set<Seq<char>>,
    v2: Set<Seq<char>>,
)
    requires
        v1.subset_of(v2),
    ensures
        unvisited(cases, v2) <= unvisited(cases, v1),
    decreases cases.len(),
{
    if cases.len() > 0 {
        lemma_unvisited_mono(cases.drop_last(), v1, v2);
    }
}

proof fn lemma_unvisited_insert(
    cases: Seq<(Seq<char>, Seq<(Seq<char>, bool)>)>,
    v: Set<Seq<char>>,
    k: int,
)
    requires
        0 <= k < cases.len(),
        !v.contains(cases[k].0),
    ensures
        unvisited(cases, v.insert(cases[k].0)) < unvisited(cases, v),
    decreases cases.len(),
{
    let n = cases[k].0;
    lemma_unvisited_mono(cases.drop_last(), v, v.insert(n));
    if k < cases.len() - 1 {
        assert(cases.drop_last()[k] == cases[k]);
        lemma_unvisited_insert(cases.drop_last(), v, k);
    }
}

proof fn lemma_find_case(cases: Seq<(Seq<char>, Seq<(Seq<char>, bool)>)>, name: Seq<char>, i: int)
    requires
        0 <= i,
    ensures
        match find_case(cases, name, i) {
            Some(k) => i <= k < cases.len() && cases[k].0 == name,
            None => forall|k: int| i <= k < cases.len() ==> cases[k].0 != name,
        },
    decreases cases.len() - i,
{
    if i < cases.len() && cases[i].0 != name {
        lemma_find_case(cases, name, i + 1);
    }
}

pub open spec fn visited_set(v: Seq<String>) -> Set<Seq<char>> {
    Set::new(|s: Seq<char>| string_views(v).contains(s))
}

fn find_case_exec(cases: &[CaseEntry], name: &String) -> (r: Option<usize>)
    ensures
        match find_case(case_views(cases@), name@, 0) {
            Some(k) => r matches Some(j) && j as int == k,
            None => r is None,
        },
{
    let ghost cv = case_views(cases@);
    let mut i: usize = 0;
    while i < cases.len()
        invariant
            i <= cases.len(),
            cv == case_views(cases@),
            find_case(cv, name@, 0) == find_case(cv, name@, i as int),
        decreases cases.len() - i,
    {
        assert(cv[i as int].0 == cases@[i as int].name@);
        if cases[i].name == *name {
            return Some(i);
        }
        i += 1;
    }
    None
}

fn visit_exec(
    cases: &[CaseEntry],
    name: &String,
    is_root: bool,
    visited: &mut Vec<String>,
    order: &mut Vec<String>,
    Ghost(fuel): Ghost<nat>,
) -> (r: Result<(), JscadError>)
    requires
        fuel > unvisited(case_views(cases@), visited_set(old(visited)@)),
    ensures
        visited_set(old(visited)@).subset_of(visited_set(final(visited)@)),
        match visit(
            case_views(cases@),
            fuel,
            name@,
            is_root,
            visited_set(old(visited)@),
            string_views(old(order)@),
        ) {
            Ok((v, o)) => r is Ok && visited_set(final(visited)@) == v && string_views(
                final(order)@,
            ) == o,
            Err(n) => r matches Err(JscadError::UnknownCase { name: m }) && m@ == n,
        },
    decreases fuel,
{
    let ghost cv = case_views(cases@);
    let ghost v0 = visited_set(visited@);
    if contains_string(visited.as_slice(), name) {
        assert(v0.contains(name@));
        return Ok(());
    }
    assert(!v0.contains(name@));
    let k = match find_case_exec(cases, name) {
        None => {
            return Err(JscadError::UnknownCase { name: name.clone() });
        },
        Some(k) => k,
    };
    proof {
        lemma_find_case(cv, name@, 0);
        assert(find_case(cv, name@, 0) == Some(k as int));
        assert(cv[k as int].0 == name@);
        lemma_unvisited_insert(cv, v0, k as int);
    }
    visited.push(name.clone());
    assert(visited_set(visited@) =~= v0.insert(name@)) by {
        assert forall|s: Seq<char>| visited_set(visited@).contains(s) <==> v0.insert(name@).contains(s) by {
            if string_views(visited@).contains(s) {
                let j = choose|j: int| 0 <= j < string_views(visited@).len() && string_views(visited@)[j] == s;
                if j < visited@.len() - 1 {
                    assert(string_views(old(visited)@)[j] == s);
                }
            }
            if v0.contains(s) {
                let j = choose|j: int| 0 <= j < string_views(old(visited)@).len() && string_views(old(visited)@)[j] == s;
                assert(string_views(visited@)[j] == s);
            }
            if s == name@ {
                assert(string_views(visited@)[visited@.len() - 1] == s);
            }
        }
    }
    if !is_root {
        order.push(name.clone());
        assert(string_views(order@) =~= string_views(old(order)@).push(name@));
    }
    let ghost parts = cv[k as int].1;
    let ghost f1: nat = (fuel - 1) as nat;
    let ghost v1 = visited_set(visited@);
    let ghost o1 = string_views(order@);
    let entry = &cases[k];
    assert(parts == entry.parts@.map_values(|p: CaseRef| (p.name@, p.what == PartWhat::Case)));
    assert(visit(cv, fuel, name@, is_root, v0, string_views(old(order)@)) == visit_parts(
        cv,
        f1,
        parts,
        0,
        v1,
        o1,
    ));
    let mut i: usize = 0;
    while i < entry.parts.len()
        invariant
            cv == case_views(cases@),
            v0 == visited_set(old(visited)@),
            visit(cv, fuel, name@, is_root, v0, string_views(old(order)@)) == visit_parts(
                cv,
                f1,
                parts,
                0,
                v1,
                o1,
            ),
            parts == entry.parts@.map_values(|p: CaseRef| (p.name@, p.what == PartWhat::Case)),
            i <= entry.parts.len(),
            f1 + 1 == fuel,
            f1 > unvisited(cv, visited_set(visited@)),
            v0.subset_of(visited_set(visited@)),
            visit_parts(cv, f1, parts, 0, v1, o1) == visit_parts(
                cv,
                f1,
                parts,
                i as int,
                visited_set(visited@),
                string_views(order@),
            ),
        decreases entry.parts.len() - i,
    {
        let part = &entry.parts[i];
        assert(parts[i as int] == (part.name@, part.what == PartWhat::Case));
        if part.what == PartWhat::Case {
            let ghost vb = visited_set(visited@);
            let res = visit_exec(cases, &part.name, false, visited, order, Ghost(f1));
            assert(v0.subset_of(visited_set(visited@))) by {
                assert forall|x: Seq<char>| v0.contains(x) implies visited_set(visited@).contains(x) by {
                    assert(vb.contains(x));
                }
            }
            match res {
                Err(e) => {
                    return Err(e);
                },
                Ok(()) => {
                    proof {
                        lemma_unvisited_mono(cv, vb, visited_set(visited@));
                    }
                },
            }
        }
        i += 1;
    }
    Ok(())
}

/// The order in which case functions are emitted for `target` (see
/// `case_order`); an unknown case reached through a part is an error.
pub fn collect_case_order(target: &String, cases: &[CaseEntry]) -> (r: Result<Vec<String>, JscadError>)
    ensures
        match case_order(case_views(cases@), target@) {
            Ok(o) => r matches Ok(v) && string_views(v@) == o,
            Err(n) => r matches Err(JscadError::UnknownCase { name }) && name@ == n,
        },
{
    let mut visited: Vec<String> = Vec::new();
    let mut order: Vec<String> = Vec::new();
    let ghost cv = case_views(cases@);
    proof {
        assert(visited_set(visited@) =~= Set::<Seq<char>>::empty());
        assert(string_views(order@) =~= Seq::<Seq<char>>::empty());
        lemma_unvisited_le(cv, Set::<Seq<char>>::empty());
    }
    let r = visit_exec(
        cases,
        target,
        true,
        &mut visited,
        &mut order,
        Ghost((cases.len() + 1) as nat),
    );
    match r {
        Err(e) => Err(e),
        Ok(()) => {
            let ghost before = string_views(order@);
            order.push(target.clone());
            assert(string_views(order@) =~= before.push(target@));
            Ok(order)
        },
    }
}

} // verus!

verus! {

/// A polyline with its coordinates already written as numbers.
pub type TextPoints = Vec<(String, String)>;

/// A region (outer boundaries and holes) with its coordinates already
/// written as numbers.
#[derive(Debug, Clone)]
pub struct TextRegion {
    pub pos: Vec<TextPoints>,
    pub neg: Vec<TextPoints>,
}

pub open spec fn point_views(v: Seq<(String, String)>) -> Seq<(Seq<char>, Seq<char>)> {
    v.map_values(|p: (String, String)| (p.0@, p.1@))
}

/// `[x,y]` for each point, separated by commas.
pub open spec fn points_text(p: Seq<(Seq<char>, Seq<char>)>) -> Seq<char>
    decreases p.len(),
{
    if p.len() == 0 {
        seq![]
    } else {
        let item = "["@ + p.last().0 + ","@ + p.last().1 + "]"@;
        if p.len() == 1 {
            item
        } else {
            points_text(p.drop_last()) + ","@ + item
        }
    }
}

/// The CSG expression of a polyline; none for fewer than two points.
pub open spec fn cag_of(p: Seq<(Seq<char>, Seq<char>)>) -> Option<Seq<char>> {
    if p.len() < 2 {
        None
    } else {
        Some("new CSG.Path2D(["@ + points_text(p) + "]).close().innerToCAG()"@)
    }
}

/// The polygon expression of a polyline; none for fewer than two points.
pub open spec fn polygon_of(p: Seq<(Seq<char>, Seq<char>)>) -> Option<Seq<char>> {
    if p.len() < 2 {
        None
    } else {
        Some("polygon({ points: ["@ + points_text(p) + "] })"@)
    }
}

pub(crate) fn push_str(out: &mut Vec<char>, s: &str)
    ensures
        final(out)@ == old(out)@ + s@,
{
    let v = crate::text::chars_of(s);
    crate::yaml_flow::extend(out, v.as_slice());
}

fn push_points(out: &mut Vec<char>, pts: &[(String, String)])
    ensures
        final(out)@ == old(out)@ + points_text(point_views(pts@)),
{
    let ghost pv = point_views(pts@);
    let mut i: usize = 0;
    while i < pts.len()
        invariant
            i <= pts.len(),
            pv == point_views(pts@),
            out@ == old(out)@ + points_text(pv.take(i as int)),
        decreases pts.len() - i,
    {
        let ghost before = out@;
        if i > 0 {
            out.push(',');
        }
        out.push('[');
        push_str(out, pts[i].0.as_str());
        out.push(',');
        push_str(out, pts[i].1.as_str());
        out.push(']');
        proof {
            let t = pv.take(i + 1);
            assert(t.drop_last() =~= pv.take(i as int));
            assert(t.last() == (pts@[i as int].0@, pts@[i as int].1@));
            let item = "["@ + t.last().0 + ","@ + t.last().1 + "]"@;
            reveal_strlit("[");
            reveal_strlit(",");
            reveal_strlit("]");
            if i == 0 {
                assert(pv.take(0) =~= Seq::<(Seq<char>, Seq<char>)>::empty());
                assert(out@ =~= before + item);
            } else {
                assert(out@ =~= before + ","@ + item);
            }
        }
        i += 1;
    }
    assert(pv.take(pts.len() as int) =~= pv);
}

/// The CSG expression of a polyline (`None` below two points).
pub fn polyline_to_cag(pts: &[(String, String)]) -> (r: Option<String>)
    ensures
        match cag_of(point_views(pts@)) {
            Some(t) => r matches Some(s) && s@ == t,
            None => r is None,
        },
{
    if pts.len() < 2 {
        return None;
    }
    let mut out: Vec<char> = Vec::new();
    push_str(&mut out, "new CSG.Path2D([");
    push_points(&mut out, pts);
    push_str(&mut out, "]).close().innerToCAG()");
    assert(out@ =~= "new CSG.Path2D(["@ + points_text(point_views(pts@))
        + "]).close().innerToCAG()"@);
    Some(crate::text::string_of(out.as_slice()))
}

/// The polygon expression of a polyline (`None` below two points).
pub fn polyline_to_polygon(pts: &[(String, String)]) -> (r: Option<String>)
    ensures
        match polygon_of(point_views(pts@)) {
            Some(t) => r matches Some(s) && s@ == t,
            None => r is None,
        },
{
    if pts.len() < 2 {
        return None;
    }
    let mut out: Vec<char> = Vec::new();
    push_str(&mut out, "polygon({ points: [");
    push_points(&mut out, pts);
    push_str(&mut out, "] })");
    assert(out@ =~= "polygon({ points: ["@ + points_text(point_views(pts@)) + "] })"@);
    Some(crate::text::string_of(out.as_slice()))
}

} // verus!

verus! {

pub open spec fn polyline_views(v: Seq<TextPoints>) -> Seq<Seq<(Seq<char>, Seq<char>)>> {
    v.map_values(|p: TextPoints| point_views(p@))
}

/// The expressions of the polylines that have one, in order.
pub open spec fn exprs_of(
    ps: Seq<Seq<(Seq<char>, Seq<char>)>>,
    f: spec_fn(Seq<(Seq<char>, Seq<char>)>) -> Option<Seq<char>>,
) -> Seq<Seq<char>>
    decreases ps.len(),
{
    if ps.len() == 0 {
        seq![]
    } else {
        let rest = exprs_of(ps.drop_last(), f);
        match f(ps.last()) {
            Some(e) => rest.push(e),
            None => rest,
        }
    }
}

/// `e` followed by `.method(x)` for each `x`.
pub open spec fn chain(e: Seq<char>, method: Seq<char>, xs: Seq<Seq<char>>) -> Seq<char>
    decreases xs.len(),
{
    if xs.len() == 0 {
        e
    } else {
        chain(e, method, xs.drop_last()) + "."@ + method + "("@ + xs.last() + ")"@
    }
}

/// The CSG expression of a region: its outer boundaries joined by union,
/// then its holes subtracted; none when no outer boundary has one.
pub open spec fn region_cag(pos: Seq<Seq<(Seq<char>, Seq<char>)>>, neg: Seq<Seq<(Seq<char>, Seq<char>)>>) -> Option<Seq<char>> {
    let p = exprs_of(pos, |x: Seq<(Seq<char>, Seq<char>)>| cag_of(x));
    if p.len() == 0 {
        None
    } else {
        Some(
            chain(
                chain(p[0], "union"@, p.drop_first()),
                "subtract"@,
                exprs_of(neg, |x: Seq<(Seq<char>, Seq<char>)>| cag_of(x)),
            ),
        )
    }
}

/// The statements that build a region's geometry: the first outer
/// boundary, unions with the others, then subtractions of the holes.
pub open spec fn region_geom2(pos: Seq<Seq<(Seq<char>, Seq<char>)>>, neg: Seq<Seq<(Seq<char>, Seq<char>)>>) -> Option<Seq<Seq<char>>> {
    let p = exprs_of(pos, |x: Seq<(Seq<char>, Seq<char>)>| polygon_of(x));
    let n = exprs_of(neg, |x: Seq<(Seq<char>, Seq<char>)>| polygon_of(x));
    if p.len() == 0 {
        None
    } else {
        Some(
            seq!["let shape = "@ + p[0] + ";"@] + p.drop_first().map_values(
                |x: Seq<char>| "shape = union(shape, "@ + x + ");"@,
            ) + n.map_values(|x: Seq<char>| "shape = subtract(shape, "@ + x + ");"@),
        )
    }
}

fn cag_exprs(ps: &[TextPoints]) -> (r: Vec<String>)
    ensures
        string_views(r@) == exprs_of(polyline_views(ps@), |x: Seq<(Seq<char>, Seq<char>)>| cag_of(x)),
{
    let ghost pv = polyline_views(ps@);
    let mut out: Vec<String> = Vec::new();
    let mut i: usize = 0;
    while i < ps.len()
        invariant
            i <= ps.len(),
            pv == polyline_views(ps@),
            string_views(out@) == exprs_of(pv.take(i as int), |x: Seq<(Seq<char>, Seq<char>)>| cag_of(x)),
        decreases ps.len() - i,
    {
        let ghost t = pv.take(i + 1);
        assert(t.drop_last() =~= pv.take(i as int));
        assert(t.last() == point_views(ps@[i as int]@));
        let ghost before = string_views(out@);
        match polyline_to_cag(ps[i].as_slice()) {
            Some(e) => {
                out.push(e);
                assert(string_views(out@) =~= before.push(e@));
            },
            None => {},
        }
        i += 1;
    }
    assert(pv.take(ps.len() as int) =~= pv);
    out
}

fn polygon_exprs(ps: &[TextPoints]) -> (r: Vec<String>)
    ensures
        string_views(r@) == exprs_of(polyline_views(ps@), |x: Seq<(Seq<char>, Seq<char>)>| polygon_of(x)),
{
    let ghost pv = polyline_views(ps@);
    let mut out: Vec<String> = Vec::new();
    let mut i: usize = 0;
    while i < ps.len()
        invariant
            i <= ps.len(),
            pv == polyline_views(ps@),
            string_views(out@) == exprs_of(pv.take(i as int), |x: Seq<(Seq<char>, Seq<char>)>| polygon_of(x)),
        decreases ps.len() - i,
    {
        let ghost t = pv.take(i + 1);
        assert(t.drop_last() =~= pv.take(i as int));
        assert(t.last() == point_views(ps@[i as int]@));
        let ghost before = string_views(out@);
        match polyline_to_polygon(ps[i].as_slice()) {
            Some(e) => {
                out.push(e);
                assert(string_views(out@) =~= before.push(e@));
            },
            None => {},
        }
        i += 1;
    }
    assert(pv.take(ps.len() as int) =~= pv);
    out
}

fn push_chain(out: &mut Vec<char>, method: &str, xs: &[String], Ghost(e): Ghost<Seq<char>>)
    requires
        old(out)@ == e,
    ensures
        final(out)@ == chain(e, method@, string_views(xs@)),
{
    let ghost xv = string_views(xs@);
    let mut i: usize = 0;
    while i < xs.len()
        invariant
            i <= xs.len(),
            xv == string_views(xs@),
            out@ == chain(e, method@, xv.take(i as int)),
        decreases xs.len() - i,
    {
        let ghost before = out@;
        push_str(out, ".");
        push_str(out, method);
        push_str(out, "(");
        push_str(out, xs[i].as_str());
        push_str(out, ")");
        proof {
            let t = xv.take(i + 1);
            assert(t.drop_last() =~= xv.take(i as int));
            assert(t.last() == xs@[i as int]@);
            assert(out@ =~= before + "."@ + method@ + "("@ + xs@[i as int]@ + ")"@);
        }
        i += 1;
    }
    assert(xv.take(xs.len() as int) =~= xv);
}

/// The CSG expression of a region (`None` when no outer boundary has two
/// points).
pub fn region_to_cag(region: &TextRegion) -> (r: Option<String>)
    ensures
        match region_cag(polyline_views(region.pos@), polyline_views(region.neg@)) {
            Some(t) => r matches Some(s) && s@ == t,
            None => r is None,
        },
{
    let pos = cag_exprs(region.pos.as_slice());
    if pos.len() == 0 {
        return None;
    }
    let neg = cag_exprs(region.neg.as_slice());
    let mut out = crate::text::chars_of(pos[0].as_str());
    let rest = crate::jscad::slice_strings(pos.as_slice(), 1);
    assert(string_views(rest@) =~= string_views(pos@).drop_first());
    push_chain(&mut out, "union", rest.as_slice(), Ghost(pos@[0]@));
    let ghost u = out@;
    push_chain(&mut out, "subtract", neg.as_slice(), Ghost(u));
    Some(crate::text::string_of(out.as_slice()))
}

fn slice_strings(v: &[String], from: usize) -> (r: Vec<String>)
    requires
        from <= v.len(),
    ensures
        r@ == v@.skip(from as int),
{
    let mut out: Vec<String> = Vec::new();
    let mut i = from;
    while i < v.len()
        invariant
            from <= i <= v.len(),
            out@ == v@.subrange(from as int, i as int),
        decreases v.len() - i,
    {
        out.push(v[i].clone());
        assert(out@ =~= v@.subrange(from as int, i + 1));
        i += 1;
    }
    assert(v@.subrange(from as int, v.len() as int) =~= v@.skip(from as int));
    out
}

fn wrap(prefix: &str, x: &String, suffix: &str) -> (r: String)
    ensures
        r@ == prefix@ + x@ + suffix@,
{
    let mut out: Vec<char> = Vec::new();
    push_str(&mut out, prefix);
    push_str(&mut out, x.as_str());
    push_str(&mut out, suffix);
    assert(out@ =~= prefix@ + x@ + suffix@);
    crate::text::string_of(out.as_slice())
}

/// The statements that build a region's geometry (`None` when no outer
/// boundary has two points).
pub fn region_to_geom2(region: &TextRegion) -> (r: Option<Vec<String>>)
    ensures
        match region_geom2(polyline_views(region.pos@), polyline_views(region.neg@)) {
            Some(t) => r matches Some(v) && string_views(v@) == t,
            None => r is None,
        },
{
    let pos = polygon_exprs(region.pos.as_slice());
    if pos.len() == 0 {
        return None;
    }
    let neg = polygon_exprs(region.neg.as_slice());
    let ghost pv = string_views(pos@);
    let ghost nv = string_views(neg@);
    let mut lines: Vec<String> = Vec::new();
    lines.push(wrap("let shape = ", &pos[0], ";"));
    let mut i: usize = 1;
    while i < pos.len()
        invariant
            1 <= i <= pos.len(),
            pv == string_views(pos@),
            pv.len() > 0,
            string_views(lines@) == seq!["let shape = "@ + pv[0] + ";"@] + pv.drop_first().take(
                i - 1,
            ).map_values(|x: Seq<char>| "shape = union(shape, "@ + x + ");"@),
        decreases pos.len() - i,
    {
        let ghost before = string_views(lines@);
        let w = wrap("shape = union(shape, ", &pos[i], ");");
        lines.push(w);
        assert(string_views(lines@) =~= before.push(w@));
        assert(pv.drop_first().take(i as int) =~= pv.drop_first().take(i - 1).push(pv[i as int]));
        assert(pv.drop_first().take(i as int).map_values(
            |x: Seq<char>| "shape = union(shape, "@ + x + ");"@,
        ) =~= pv.drop_first().take(i - 1).map_values(
            |x: Seq<char>| "shape = union(shape, "@ + x + ");"@,
        ).push("shape = union(shape, "@ + pv[i as int] + ");"@));
        assert(string_views(lines@) =~= seq!["let shape = "@ + pv[0] + ";"@] + pv.drop_first().take(
            i as int,
        ).map_values(|x: Seq<char>| "shape = union(shape, "@ + x + ");"@));
        i += 1;
    }
    assert(pv.drop_first().take(pos.len() - 1) =~= pv.drop_first());
    let ghost head = string_views(lines@);
    let mut j: usize = 0;
    while j < neg.len()
        invariant
            j <= neg.len(),
            nv == string_views(neg@),
            string_views(lines@) == head + nv.take(j as int).map_values(
                |x: Seq<char>| "shape = subtract(shape, "@ + x + ");"@,
            ),
        decreases neg.len() - j,
    {
        let ghost before = string_views(lines@);
        let w = wrap("shape = subtract(shape, ", &neg[j], ");");
        lines.push(w);
        assert(string_views(lines@) =~= before.push(w@));
        assert(nv.take(j + 1) =~= nv.take(j as int).push(nv[j as int]));
        assert(nv.take(j + 1).map_values(
            |x: Seq<char>| "shape = subtract(shape, "@ + x + ");"@,
        ) =~= nv.take(j as int).map_values(
            |x: Seq<char>| "shape = subtract(shape, "@ + x + ");"@,
        ).push("shape = subtract(shape, "@ + nv[j as int] + ");"@));
        assert(string_views(lines@) =~= head + nv.take(j + 1).map_values(
            |x: Seq<char>| "shape = subtract(shape, "@ + x + ");"@,
        ));
        j += 1;
    }
    assert(nv.take(neg.len() as int) =~= nv);
    Some(lines)
}

} // verus!
