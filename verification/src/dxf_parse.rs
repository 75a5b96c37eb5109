//! DXF text framing: lines, code/value groups, the entity boundaries of
//! the ENTITIES section, and which values each entity reads.
use vstd::prelude::*;
use crate::dxf::DxfError;

verus! {

/// `s` split at each `\n` (an empty string gives one empty piece).
pub open spec fn split_newlines(s: Seq<char>) -> Seq<Seq<char>>
    decreases s.len(),
{
    if s.len() == 0 {
        seq![seq![]]
    } else {
        let p = split_newlines(s.drop_last());
        if s.last() == '\n' {
            p.push(seq![])
        } else {
            p.update(p.len() - 1, p.last().push(s.last()))
        }
    }
}

pub proof fn lemma_split_nonempty(s: Seq<char>)
    ensures
        split_newlines(s).len() >= 1,
    decreases s.len(),
{
    if s.len() > 0 {
        lemma_split_nonempty(s.drop_last());
    }
}

pub open spec fn strip_cr(l: Seq<char>) -> Seq<char> {
    if l.len() > 0 && l.last() == '\r' {
        l.drop_last()
    } else {
        l
    }
}

/// The lines of `s` as `str::lines` documents them: split at `\n`, a
/// line ended by `\r\n` without its `\r`; a final line ending adds no
/// empty line, and a final `\r` with no `\n` after it stays.
pub open spec fn std_lines(s: Seq<char>) -> Seq<Seq<char>> {
    if s.len() == 0 {
        seq![]
    } else {
        let p = split_newlines(s);
        let done = p.drop_last().map_values(|l: Seq<char>| strip_cr(l));
        if s.last() == '\n' {
            done
        } else {
            done.push(p.last())
        }
    }
}

/// The views of a sequence of character vectors.
pub open spec fn line_views(v: Seq<Vec<char>>) -> Seq<Seq<char>> {
    v.map_values(|x: Vec<char>| x@)
}

fn strip_cr_exec(v: Vec<char>) -> (r: Vec<char>)
    ensures
        r@ == strip_cr(v@),
{
    let mut v = v;
    if v.len() > 0 && v[v.len() - 1] == '\r' {
        v.pop();
    }
    v
}

/// The lines of a text (`str::lines`).
pub fn lines_of(input: &str) -> (r: Vec<Vec<char>>)
    ensures
        line_views(r@) == std_lines(input@),
{
    let s = crate::text::chars_of(input);
    let mut done: Vec<Vec<char>> = Vec::new();
    let mut cur: Vec<char> = Vec::new();
    let mut i: usize = 0;
    proof {
        assert(s@.take(0) =~= Seq::<char>::empty());
    }
    while i < s.len()
        invariant
            i <= s.len(),
            split_newlines(s@.take(i as int)).len() >= 1,
            line_views(done@) == split_newlines(s@.take(i as int)).drop_last().map_values(
                |l: Seq<char>| strip_cr(l),
            ),
            cur@ == split_newlines(s@.take(i as int)).last(),
        decreases s.len() - i,
    {
        let c = s[i];
        let ghost p = split_newlines(s@.take(i as int));
        proof {
            assert(s@.take(i + 1).drop_last() =~= s@.take(i as int));
            assert(s@.take(i + 1).last() == c);
        }
        if c == '\n' {
            let line = strip_cr_exec(cur);
            let ghost before = done@;
            done.push(line);
            cur = Vec::new();
            proof {
                let q = split_newlines(s@.take(i + 1));
                assert(q == p.push(seq![]));
                assert(q.drop_last() =~= p);
                let m = p.map_values(|l: Seq<char>| strip_cr(l));
                assert(line_views(before).len() == before.len());
                assert(before.len() + 1 == p.len());
                assert(m.len() == p.len());
                assert forall|k: int| 0 <= k < done@.len() implies #[trigger] line_views(done@)[k]
                    == m[k] by {
                    if k < before.len() {
                        assert(done@[k] == before[k]);
                        assert(line_views(before)[k] == p.drop_last().map_values(
                            |l: Seq<char>| strip_cr(l),
                        )[k]);
                    } else {
                        assert(done@[k] == line);
                        assert(line@ == strip_cr(p.last()));
                    }
                }
                assert(line_views(done@) =~= m);
            }
        } else {
            cur.push(c);
            proof {
                let q = split_newlines(s@.take(i + 1));
                assert(q == p.update(p.len() - 1, p.last().push(c)));
                assert(q.drop_last() =~= p.drop_last());
            }
        }
        i += 1;
    }
    proof {
        assert(s@.take(s.len() as int) =~= s@);
    }
    if s.len() == 0 {
        return Vec::new();
    }
    if s[s.len() - 1] == '\n' {
        proof {
            let p = split_newlines(s@);
            assert(p == split_newlines(s@.drop_last()).push(seq![]));
        }
        done
    } else {
        done.push(cur);
        proof {
            let p = split_newlines(s@);
            assert(line_views(done@) =~= p.drop_last().map_values(|l: Seq<char>| strip_cr(l)).push(
                p.last(),
            ));
        }
        done
    }
}

/// `s` without trailing whitespace (`str::trim_end`).
pub open spec fn trim_end(s: Seq<char>) -> Seq<char> {
    s.take(s.len() - crate::yaml_flow::trailing_ws(s))
}

/// Decimal value of a digit string.
pub open spec fn dec_value(d: Seq<char>) -> int
    decreases d.len(),
{
    if d.len() == 0 {
        0
    } else {
        dec_value(d.drop_last()) * 10 + (d.last() as int - '0' as int)
    }
}

/// What `i32::from_str` accepts: an optional sign and at least one digit,
/// with the value in range.
pub open spec fn parse_i32(s: Seq<char>) -> Option<i32> {
    let neg = s.len() > 0 && s[0] == '-';
    let d = if s.len() > 0 && (s[0] == '-' || s[0] == '+') {
        s.drop_first()
    } else {
        s
    };
    if d.len() == 0 || !crate::yaml_flow::all_digits(d) {
        None
    } else {
        let v = if neg { -dec_value(d) } else { dec_value(d) };
        if i32::MIN <= v <= i32::MAX {
            Some(v as i32)
        } else {
            None
        }
    }
}

/// A group: an integer code and its value line.
#[derive(Debug, Clone)]
pub struct Group {
    pub code: i32,
    pub value: String,
}

/// The groups of a DXF text: its lines taken in pairs, the code line trimmed
/// and read as an integer, the value line with trailing whitespace removed.
/// `Err(None)` for an odd line count, `Err(Some(k))` when the code of pair
/// `k` (the first such) is not an integer.
pub open spec fn groups_spec(s: Seq<char>) -> Result<Seq<(i32, Seq<char>)>, Option<int>> {
    let ls = std_lines(s);
    if ls.len() % 2 != 0 {
        Err(None)
    } else {
        groups_from(ls, 0)
    }
}

pub open spec fn groups_from(ls: Seq<Seq<char>>, k: int) -> Result<Seq<(i32, Seq<char>)>, Option<int>>
    decreases ls.len() - 2 * k,
{
    if k < 0 || 2 * k + 1 >= ls.len() {
        Ok(seq![])
    } else {
        match parse_i32(crate::yaml_flow::trimmed(ls[2 * k])) {
            None => Err(Some(k)),
            Some(code) => match groups_from(ls, k + 1) {
                Ok(rest) => Ok(seq![(code, trim_end(ls[2 * k + 1]))] + rest),
                Err(e) => Err(e),
            },
        }
    }
}

proof fn lemma_dec_value_grows(d: Seq<char>, c: char)
    requires
        crate::text::is_digit(c),
        dec_value(d) >= 0,
    ensures
        dec_value(d.push(c)) >= dec_value(d),
        dec_value(d.push(c)) == dec_value(d) * 10 + (c as int - '0' as int),
{
    assert(d.push(c).drop_last() =~= d);
}

proof fn lemma_dec_value_nonneg(d: Seq<char>)
    requires
        crate::yaml_flow::all_digits(d),
    ensures
        dec_value(d) >= 0,
    decreases d.len(),
{
    if d.len() > 0 {
        assert(crate::yaml_flow::all_digits(d.drop_last())) by {
            assert forall|k: int| 0 <= k < d.drop_last().len() implies crate::text::is_digit(
                #[trigger] d.drop_last()[k],
            ) by {
                assert(d.drop_last()[k] == d[k]);
            }
        }
        lemma_dec_value_nonneg(d.drop_last());
        assert(crate::text::is_digit(d[d.len() - 1]));
    }
}

/// Parses a group code (`i32::from_str`).
pub fn parse_group_code(s: &[char]) -> (r: Option<i32>)
    ensures
        r == parse_i32(s@),
{
    let neg = s.len() > 0 && s[0] == '-';
    let start: usize = if s.len() > 0 && (s[0] == '-' || s[0] == '+') { 1 } else { 0 };
    let ghost d = if s@.len() > 0 && (s@[0] == '-' || s@[0] == '+') {
        s@.drop_first()
    } else {
        s@
    };
    assert(d =~= s@.skip(start as int));
    if start >= s.len() {
        assert(d.len() == 0);
        return None;
    }
    let mut acc: i64 = 0;
    let mut over = false;
    let mut i = start;
    assert(d.take(0) =~= Seq::<char>::empty());
    while i < s.len()
        invariant
            start <= i <= s.len(),
            d == s@.skip(start as int),
            d == (if s@.len() > 0 && (s@[0] == '-' || s@[0] == '+') {
                s@.drop_first()
            } else {
                s@
            }),
            neg == (s@.len() > 0 && s@[0] == '-'),
            forall|k: int| start <= k < i ==> crate::text::is_digit(#[trigger] s@[k]),
            crate::yaml_flow::all_digits(d.take(i - start)),
            dec_value(d.take(i - start)) >= 0,
            !over ==> acc == dec_value(d.take(i - start)) && acc <= 2147483648,
            over ==> dec_value(d.take(i - start)) > 2147483648,
        decreases s.len() - i,
    {
        let c = s[i];
        if !crate::text::digit(c) {
            assert(d[i - start] == c);
            assert(!crate::text::is_digit(d[i - start]));
            assert(!crate::yaml_flow::all_digits(d));
            return None;
        }
        proof {
            assert(d.take(i + 1 - start) =~= d.take(i - start).push(c));
            lemma_dec_value_grows(d.take(i - start), c);
            assert(crate::yaml_flow::all_digits(d.take(i + 1 - start))) by {
                assert forall|k: int| 0 <= k < d.take(i + 1 - start).len() implies crate::text::is_digit(
                    #[trigger] d.take(i + 1 - start)[k],
                ) by {
                    assert(d.take(i + 1 - start)[k] == s@[start + k]);
                }
            }
        }
        if !over {
            let digit = (c as u32 - '0' as u32) as i64;
            let next = acc * 10 + digit;
            if next > 2147483648 {
                over = true;
            } else {
                acc = next;
            }
        }
        i += 1;
    }
    assert(d.take(s.len() - start) =~= d);
    if over {
        return None;
    }
    let v: i64 = if neg { -acc } else { acc };
    if v < -2147483648 || v > 2147483647 {
        return None;
    }
    Some(v as i32)
}

} // verus!

verus! {

/// The plain view of a group.
pub open spec fn group_view(g: Group) -> (i32, Seq<char>) {
    (g.code, g.value@)
}

pub open spec fn group_views(gs: Seq<Group>) -> Seq<(i32, Seq<char>)> {
    gs.map_values(|g: Group| group_view(g))
}

/// `acc` put before a successful result.
pub open spec fn prepend_ok(
    acc: Seq<(i32, Seq<char>)>,
    r: Result<Seq<(i32, Seq<char>)>, Option<int>>,
) -> Result<Seq<(i32, Seq<char>)>, Option<int>> {
    match r {
        Ok(rest) => Ok(acc + rest),
        Err(e) => Err(e),
    }
}

/// Splits a DXF text into its code/value groups.
pub fn parse_groups(input: &str) -> (res: Result<Vec<Group>, DxfError>)
    ensures
        match groups_spec(input@) {
            Ok(gs) => res matches Ok(v) && group_views(v@) == gs,
            Err(None) => res matches Err(DxfError::OddNumberOfLines),
            Err(Some(k)) => res matches Err(DxfError::InvalidGroupCode { raw, line }) && raw@
                == crate::yaml_flow::trimmed(std_lines(input@)[2 * k]) && line == 2 * k + 1,
        },
{
    let lines = lines_of(input);
    let ghost ls = std_lines(input@);
    proof {
        assert(ls =~= line_views(lines@));
    }
    if lines.len() % 2 != 0 {
        return Err(DxfError::OddNumberOfLines);
    }
    let mut groups: Vec<Group> = Vec::new();
    let mut k: usize = 0;
    let n = lines.len() / 2;
    while k < n
        invariant
            n == lines.len() / 2,
            lines.len() % 2 == 0,
            ls == line_views(lines@),
            ls == std_lines(input@),
            k <= n,
            groups_from(ls, 0) == prepend_ok(group_views(groups@), groups_from(ls, k as int)),
        decreases n - k,
    {
        let code_line = &lines[2 * k];
        let value_line = &lines[2 * k + 1];
        assert(code_line@ == ls[2 * k]);
        assert(value_line@ == ls[2 * k + 1]);
        let (a, b) = crate::yaml_flow::trim_bounds(code_line.as_slice());
        let code_raw = crate::yaml_flow::slice_vec(code_line.as_slice(), a, b);
        let code = crate::dxf_parse::parse_group_code(code_raw.as_slice());
        match code {
            None => {
                assert(code_raw@ == crate::yaml_flow::trimmed(ls[2 * k]));
                assert(groups_from(ls, k as int) == Err::<Seq<(i32, Seq<char>)>, Option<int>>(
                    Some(k as int),
                ));
                let raw = crate::text::string_of(code_raw.as_slice());
                assert(ls.len() % 2 == 0);
                assert(groups_spec(input@) == Err::<Seq<(i32, Seq<char>)>, Option<int>>(
                    Some(k as int),
                ));
                return Err(DxfError::InvalidGroupCode { raw, line: 2 * k + 1 });
            },
            Some(c) => {
                let e = crate::yaml_flow::trailing_ws_start(value_line.as_slice());
                let value_chars = crate::yaml_flow::slice_vec(value_line.as_slice(), 0, e);
                let value = crate::text::string_of(value_chars.as_slice());
                let ghost before = group_views(groups@);
                let ghost item = (c, trim_end(ls[2 * k + 1]));
                assert(value@ == trim_end(ls[2 * k + 1]));
                groups.push(Group { code: c, value });
                proof {
                    assert(group_views(groups@) =~= before.push(item));
                    match groups_from(ls, k + 1) {
                        Ok(rest) => {
                            assert(before + (seq![item] + rest) =~= before.push(item) + rest);
                        },
                        Err(_) => {},
                    }
                }
            },
        }
        k += 1;
    }
    proof {
        assert(groups_from(ls, k as int) == Ok::<Seq<(i32, Seq<char>)>, Option<int>>(seq![]));
        assert(group_views(groups@) + seq![] =~= group_views(groups@));
    }
    Ok(groups)
}

} // verus!

verus! {

/// Whether a group is the marker `0`/`name`.
pub open spec fn is_marker(g: (i32, Seq<char>), name: Seq<char>) -> bool {
    g.0 == 0 && g.1 == name
}

/// The first index at or after `i` whose group has code 0 (or the end).
pub open spec fn next_zero(gs: Seq<(i32, Seq<char>)>, i: int) -> int
    decreases gs.len() - i,
{
    if i >= gs.len() || gs[i].0 == 0 {
        i
    } else {
        next_zero(gs, i + 1)
    }
}

/// Where the groups of a POLYLINE that start at `i` end: after its SEQEND
/// marker and the groups that follow it up to the next code 0, or at the end.
pub open spec fn polyline_end(gs: Seq<(i32, Seq<char>)>, i: int) -> int
    decreases gs.len() - i,
{
    if i >= gs.len() {
        i
    } else if is_marker(gs[i], "SEQEND"@) {
        next_zero(gs, i + 1)
    } else {
        polyline_end(gs, i + 1)
    }
}

/// Where the groups of an entity of kind `kind` that start at `start` end.
pub open spec fn entity_end(gs: Seq<(i32, Seq<char>)>, kind: Seq<char>, start: int) -> int {
    if kind == "POLYLINE"@ {
        polyline_end(gs, start)
    } else {
        next_zero(gs, start)
    }
}

pub proof fn lemma_next_zero(gs: Seq<(i32, Seq<char>)>, i: int)
    ensures
        i <= next_zero(gs, i),
        i <= gs.len() ==> next_zero(gs, i) <= gs.len(),
    decreases gs.len() - i,
{
    if !(i >= gs.len() || gs[i].0 == 0) {
        lemma_next_zero(gs, i + 1);
    }
}

pub proof fn lemma_polyline_end(gs: Seq<(i32, Seq<char>)>, i: int)
    ensures
        i <= polyline_end(gs, i),
        i <= gs.len() ==> polyline_end(gs, i) <= gs.len(),
    decreases gs.len() - i,
{
    if i < gs.len() {
        if is_marker(gs[i], "SEQEND"@) {
            lemma_next_zero(gs, i + 1);
        } else {
            lemma_polyline_end(gs, i + 1);
        }
    }
}

pub proof fn lemma_entity_end(gs: Seq<(i32, Seq<char>)>, kind: Seq<char>, start: int)
    ensures
        start <= entity_end(gs, kind, start),
        start <= gs.len() ==> entity_end(gs, kind, start) <= gs.len(),
{
    lemma_next_zero(gs, start);
    lemma_polyline_end(gs, start);
}

/// What ends a scan of the groups without an entity: the end of input
/// inside a SECTION header, or no ENTITIES section at all.
pub enum ScanEnd {
    Done,
    EofInSectionName,
    NoEntitiesSection,
}

/// The entities of the ENTITIES section as (kind, first group, end) and how
/// the scan ended, from group `i` on with the given section state.
pub open spec fn scan(gs: Seq<(i32, Seq<char>)>, i: int, in_entities: bool, saw: bool) -> (
    Seq<(Seq<char>, int, int)>,
    ScanEnd,
)
    decreases gs.len() - i,
{
    if i < 0 || i >= gs.len() {
        (seq![], if saw { ScanEnd::Done } else { ScanEnd::NoEntitiesSection })
    } else if is_marker(gs[i], "SECTION"@) {
        if i + 1 >= gs.len() {
            (seq![], ScanEnd::EofInSectionName)
        } else {
            let ent = gs[i + 1].0 == 2 && gs[i + 1].1 == "ENTITIES"@;
            scan(gs, i + 2, in_entities || ent, saw || ent)
        }
    } else if in_entities && is_marker(gs[i], "ENDSEC"@) {
        scan(gs, i + 1, false, saw)
    } else if in_entities && gs[i].0 == 0 {
        let kind = gs[i].1;
        let end = entity_end(gs, kind, i + 1);
        proof {
            lemma_entity_end(gs, kind, i + 1);
        }
        let r = scan(gs, end, in_entities, saw);
        (seq![(kind, i + 1, end)] + r.0, r.1)
    } else {
        scan(gs, i + 1, in_entities, saw)
    }
}

/// The entities of a group sequence and how the scan ended.
pub open spec fn scan_spec(gs: Seq<(i32, Seq<char>)>) -> (Seq<(Seq<char>, int, int)>, ScanEnd) {
    scan(gs, 0, false, false)
}

/// The groups of one entity: its kind and the range `start..end` of its
/// groups in the group sequence.
#[derive(Debug, Clone)]
pub struct EntitySpan {
    pub kind: String,
    pub start: usize,
    pub end: usize,
}

pub open spec fn span_view(e: EntitySpan) -> (Seq<char>, int, int) {
    (e.kind@, e.start as int, e.end as int)
}

pub open spec fn span_views(v: Seq<EntitySpan>) -> Seq<(Seq<char>, int, int)> {
    v.map_values(|e: EntitySpan| span_view(e))
}

/// The error a scan ending reports, if any.
pub open spec fn scan_error_matches(end: ScanEnd, err: Option<DxfError>) -> bool {
    match end {
        ScanEnd::Done => err is None,
        ScanEnd::EofInSectionName => err matches Some(DxfError::UnexpectedEof { context })
            && context@ == "SECTION name"@,
        ScanEnd::NoEntitiesSection => err matches Some(DxfError::MissingEntitiesSection),
    }
}

fn text_is(s: &String, lit: &str) -> (r: bool)
    ensures
        r == (s@ == lit@),
{
    let v = crate::text::chars_of(s.as_str());
    crate::expr::chars_eq(v.as_slice(), lit)
}

fn next_zero_exec(groups: &[Group], i: usize) -> (r: usize)
    requires
        i <= groups.len(),
    ensures
        r == next_zero(group_views(groups@), i as int),
        i <= r <= groups.len(),
{
    let ghost gs = group_views(groups@);
    let mut j = i;
    while j < groups.len() && groups[j].code != 0
        invariant
            i <= j <= groups.len(),
            gs == group_views(groups@),
            next_zero(gs, i as int) == next_zero(gs, j as int),
        decreases groups.len() - j,
    {
        assert(gs[j as int].0 == groups@[j as int].code);
        j += 1;
    }
    if j < groups.len() {
        assert(gs[j as int].0 == groups@[j as int].code);
    }
    j
}

fn polyline_end_exec(groups: &[Group], i: usize) -> (r: usize)
    requires
        i <= groups.len(),
    ensures
        r == polyline_end(group_views(groups@), i as int),
        i <= r <= groups.len(),
{
    let ghost gs = group_views(groups@);
    let mut j = i;
    while j < groups.len()
        invariant
            i <= j <= groups.len(),
            gs == group_views(groups@),
            polyline_end(gs, i as int) == polyline_end(gs, j as int),
        decreases groups.len() - j,
    {
        assert(gs[j as int] == group_view(groups@[j as int]));
        if groups[j].code == 0 && text_is(&groups[j].value, "SEQEND") {
            return next_zero_exec(groups, j + 1);
        }
        j += 1;
    }
    j
}

} // verus!

verus! {

/// `acc` put before the entities of a scan result.
pub open spec fn scan_prepend(
    acc: Seq<(Seq<char>, int, int)>,
    r: (Seq<(Seq<char>, int, int)>, ScanEnd),
) -> (Seq<(Seq<char>, int, int)>, ScanEnd) {
    (acc + r.0, r.1)
}

/// Finds the entities of the ENTITIES section: each one's kind and the
/// range of its groups; also the structural error that ends the scan, if
/// any (the entities found before it are returned with it).
pub fn scan_entities(groups: &[Group]) -> (r: (Vec<EntitySpan>, Option<DxfError>))
    ensures
        span_views(r.0@) == scan_spec(group_views(groups@)).0,
        scan_error_matches(scan_spec(group_views(groups@)).1, r.1),
{
    let ghost gs = group_views(groups@);
    let mut out: Vec<EntitySpan> = Vec::new();
    let mut i: usize = 0;
    let mut in_entities = false;
    let mut saw = false;
    proof {
        assert(span_views(out@) + scan(gs, 0, false, false).0 =~= scan(gs, 0, false, false).0);
    }
    while i < groups.len()
        invariant
            i <= groups.len(),
            gs == group_views(groups@),
            scan_spec(gs) == scan_prepend(span_views(out@), scan(gs, i as int, in_entities, saw)),
        decreases groups.len() - i,
    {
        let ghost before = span_views(out@);
        let ghost g = gs[i as int];
        assert(g == group_view(groups@[i as int]));
        let code = groups[i].code;
        if code == 0 && text_is(&groups[i].value, "SECTION") {
            if i + 1 >= groups.len() {
                let context = crate::expr::str_to_string("SECTION name");
                return (out, Some(DxfError::UnexpectedEof { context }));
            }
            assert(gs[i + 1] == group_view(groups@[i + 1]));
            let ent = groups[i + 1].code == 2 && text_is(&groups[i + 1].value, "ENTITIES");
            if ent {
                in_entities = true;
                saw = true;
            }
            i += 2;
        } else if in_entities && code == 0 && text_is(&groups[i].value, "ENDSEC") {
            in_entities = false;
            i += 1;
        } else if in_entities && code == 0 {
            let kind = groups[i].value.clone();
            let start = i + 1;
            let end = if text_is(&kind, "POLYLINE") {
                polyline_end_exec(groups, start)
            } else {
                next_zero_exec(groups, start)
            };
            out.push(EntitySpan { kind, start, end });
            proof {
                let r = scan(gs, end as int, in_entities, saw);
                assert(span_views(out@) =~= before.push((g.1, start as int, end as int)));
                assert(before + (seq![(g.1, start as int, end as int)] + r.0) =~= span_views(out@)
                    + r.0);
            }
            i = end;
        } else {
            i += 1;
        }
    }
    proof {
        assert(span_views(out@) + seq![] =~= span_views(out@));
    }
    if saw {
        (out, None)
    } else {
        (out, Some(DxfError::MissingEntitiesSection))
    }
}

} // verus!

verus! {

/// A float value that an entity reads: its group code, the value as it
/// stands (for error reports) and the value trimmed (the text to parse).
#[derive(Debug, Clone)]
pub struct FloatRead {
    pub code: i32,
    pub raw: String,
    pub text: String,
}

/// How an entity's values are put together once they are parsed.
/// Polyline vertices and bulges index into the entity's reads.
#[derive(Debug, Clone)]
pub enum EntityShape {
    Line,
    Circle,
    Arc,
    LwPolyline { closed: bool, vertices: Vec<(usize, usize)>, bulges: Vec<Option<usize>> },
    Unsupported,
}

/// What one entity reads from its groups, in the order it reads them, and
/// the first required group it lacks (reported after the reads parse).
#[derive(Debug, Clone)]
pub struct EntityPlan {
    pub kind: String,
    pub reads: Vec<FloatRead>,
    pub missing: Option<i32>,
    pub shape: EntityShape,
}

pub enum ShapeView {
    Line,
    Circle,
    Arc,
    LwPolyline { closed: bool, vertices: Seq<(int, int)>, bulges: Seq<Option<int>> },
    Unsupported,
}

pub open spec fn shape_view(s: EntityShape) -> ShapeView {
    match s {
        EntityShape::Line => ShapeView::Line,
        EntityShape::Circle => ShapeView::Circle,
        EntityShape::Arc => ShapeView::Arc,
        EntityShape::LwPolyline { closed, vertices, bulges } => ShapeView::LwPolyline {
            closed,
            vertices: vertices@.map_values(|p: (usize, usize)| (p.0 as int, p.1 as int)),
            bulges: bulges@.map_values(
                |b: Option<usize>|
                    match b {
                        Some(k) => Some(k as int),
                        None => None,
                    },
            ),
        },
        EntityShape::Unsupported => ShapeView::Unsupported,
    }
}

pub open spec fn read_views(v: Seq<FloatRead>) -> Seq<(i32, Seq<char>)> {
    v.map_values(|r: FloatRead| (r.code, r.raw@))
}

/// Every read's text is its raw value trimmed.
pub open spec fn reads_trimmed(v: Seq<FloatRead>) -> bool {
    forall|k: int| 0 <= k < v.len() ==> (#[trigger] v[k]).text@ == crate::yaml_flow::trimmed(v[k].raw@)
}

/// The value of the first group with the given code.
pub open spec fn first_with(gs: Seq<(i32, Seq<char>)>, code: i32) -> Option<Seq<char>>
    decreases gs.len(),
{
    if gs.len() == 0 {
        None
    } else if gs[0].0 == code {
        Some(gs[0].1)
    } else {
        first_with(gs.drop_first(), code)
    }
}

/// The reads of an entity that needs one value of each of `codes`, in that
/// order, up to the first code that no group has.
pub open spec fn fixed_reads(gs: Seq<(i32, Seq<char>)>, codes: Seq<i32>) -> (
    Seq<(i32, Seq<char>)>,
    Option<i32>,
)
    decreases codes.len(),
{
    if codes.len() == 0 {
        (seq![], None)
    } else {
        match first_with(gs, codes[0]) {
            None => (seq![], Some(codes[0])),
            Some(v) => {
                let r = fixed_reads(gs, codes.drop_first());
                (seq![(codes[0], v)] + r.0, r.1)
            },
        }
    }
}

/// A polyline's closed flag: bit 0 of the last code 70 whose value parses
/// as an integer; open when there is none.
pub open spec fn poly_closed(gs: Seq<(i32, Seq<char>)>) -> bool
    decreases gs.len(),
{
    if gs.len() == 0 {
        false
    } else {
        match (if gs.last().0 == 70 {
            crate::dxf_parse::parse_i32(crate::yaml_flow::trimmed(gs.last().1))
        } else {
            None
        }) {
            Some(f) => (f & 1) != 0,
            None => poly_closed(gs.drop_last()),
        }
    }
}

/// The state of a polyline's vertex pass: reads so far, vertices as
/// (x read, y read), each vertex's bulge read, and a pending x read.
pub struct PolyState {
    pub reads: Seq<(i32, Seq<char>)>,
    pub vertices: Seq<(int, int)>,
    pub bulges: Seq<Option<int>>,
    pub last_x: Option<int>,
}

/// One group of the vertex pass: 10 reads an x, 20 reads a y and closes a
/// vertex when an x is pending, 42 reads the bulge of the last vertex.
pub open spec fn poly_step(st: PolyState, g: (i32, Seq<char>)) -> PolyState {
    let n = st.reads.len() as int;
    if g.0 == 10 {
        PolyState { reads: st.reads.push(g), last_x: Some(n), ..st }
    } else if g.0 == 20 && st.last_x is Some {
        PolyState {
            reads: st.reads.push(g),
            vertices: st.vertices.push((st.last_x->0, n)),
            bulges: st.bulges.push(None),
            last_x: None,
        }
    } else if g.0 == 42 && st.bulges.len() > 0 {
        PolyState {
            reads: st.reads.push(g),
            bulges: st.bulges.update(st.bulges.len() - 1, Some(n)),
            ..st
        }
    } else {
        st
    }
}

pub open spec fn poly_run(gs: Seq<(i32, Seq<char>)>) -> PolyState
    decreases gs.len(),
{
    if gs.len() == 0 {
        PolyState { reads: seq![], vertices: seq![], bulges: seq![], last_x: None }
    } else {
        poly_step(poly_run(gs.drop_last()), gs.last())
    }
}

/// What an entity of kind `kind` with groups `gs` reads.
pub open spec fn plan_spec(kind: Seq<char>, gs: Seq<(i32, Seq<char>)>) -> (
    Seq<(i32, Seq<char>)>,
    Option<i32>,
    ShapeView,
) {
    if kind == "LINE"@ {
        let r = fixed_reads(gs, seq![10i32, 20, 11, 21]);
        (r.0, r.1, ShapeView::Line)
    } else if kind == "CIRCLE"@ {
        let r = fixed_reads(gs, seq![10i32, 20, 40]);
        (r.0, r.1, ShapeView::Circle)
    } else if kind == "ARC"@ {
        let r = fixed_reads(gs, seq![10i32, 20, 40, 50, 51]);
        (r.0, r.1, ShapeView::Arc)
    } else if kind == "LWPOLYLINE"@ {
        let st = poly_run(gs);
        (
            st.reads,
            None,
            ShapeView::LwPolyline {
                closed: poly_closed(gs),
                vertices: st.vertices,
                bulges: st.bulges,
            },
        )
    } else {
        (seq![], None, ShapeView::Unsupported)
    }
}

pub open spec fn plan_matches(p: EntityPlan, kind: Seq<char>, gs: Seq<(i32, Seq<char>)>) -> bool {
    let s = plan_spec(kind, gs);
    &&& p.kind@ == kind
    &&& read_views(p.reads@) == s.0
    &&& reads_trimmed(p.reads@)
    &&& p.missing == s.1
    &&& shape_view(p.shape) == s.2
}

} // verus!

verus! {

fn make_read(code: i32, value: &String) -> (r: FloatRead)
    ensures
        r.code == code,
        r.raw@ == value@,
        r.text@ == crate::yaml_flow::trimmed(value@),
{
    let v = crate::text::chars_of(value.as_str());
    let (a, b) = crate::yaml_flow::trim_bounds(v.as_slice());
    let t = crate::yaml_flow::slice_vec(v.as_slice(), a, b);
    FloatRead { code, raw: value.clone(), text: crate::text::string_of(t.as_slice()) }
}

fn first_with_exec(groups: &[Group], start: usize, end: usize, code: i32) -> (r: Option<usize>)
    requires
        start <= end <= groups.len(),
    ensures
        match first_with(group_views(groups@).subrange(start as int, end as int), code) {
            None => r is None,
            Some(v) => r matches Some(k) && start <= k < end && groups@[k as int].value@ == v
                && groups@[k as int].code == code,
        },
{
    let ghost gs = group_views(groups@);
    let mut j = start;
    while j < end
        invariant
            start <= j <= end <= groups.len(),
            gs == group_views(groups@),
            first_with(gs.subrange(start as int, end as int), code) == first_with(
                gs.subrange(j as int, end as int),
                code,
            ),
        decreases end - j,
    {
        let ghost sub = gs.subrange(j as int, end as int);
        assert(sub[0] == group_view(groups@[j as int]));
        assert(sub.drop_first() =~= gs.subrange(j + 1, end as int));
        if groups[j].code == code {
            return Some(j);
        }
        j += 1;
    }
    None
}

fn fixed_reads_exec(groups: &[Group], start: usize, end: usize, codes: &[i32]) -> (r: (
    Vec<FloatRead>,
    Option<i32>,
))
    requires
        start <= end <= groups.len(),
    ensures
        (read_views(r.0@), r.1) == fixed_reads(
            group_views(groups@).subrange(start as int, end as int),
            codes@,
        ),
        reads_trimmed(r.0@),
{
    let ghost sub = group_views(groups@).subrange(start as int, end as int);
    let mut reads: Vec<FloatRead> = Vec::new();
    let mut k: usize = 0;
    proof {
        assert(codes@.skip(0) =~= codes@);
        assert(read_views(reads@) + fixed_reads(sub, codes@).0 =~= fixed_reads(sub, codes@).0);
    }
    while k < codes.len()
        invariant
            start <= end <= groups.len(),
            sub == group_views(groups@).subrange(start as int, end as int),
            k <= codes.len(),
            reads_trimmed(reads@),
            fixed_reads(sub, codes@) == ({
                let r = fixed_reads(sub, codes@.skip(k as int));
                (read_views(reads@) + r.0, r.1)
            }),
        decreases codes.len() - k,
    {
        let ghost rest = codes@.skip(k as int);
        assert(rest[0] == codes@[k as int]);
        assert(rest.drop_first() =~= codes@.skip(k + 1));
        match first_with_exec(groups, start, end, codes[k]) {
            None => {
                proof {
                    assert(read_views(reads@) + seq![] =~= read_views(reads@));
                }
                return (reads, Some(codes[k]));
            },
            Some(j) => {
                let ghost before = read_views(reads@);
                let rd = make_read(codes[k], &groups[j].value);
                reads.push(rd);
                proof {
                    let r = fixed_reads(sub, codes@.skip(k + 1));
                    let item = (codes@[k as int], groups@[j as int].value@);
                    assert(read_views(reads@) =~= before.push(item));
                    assert(before + (seq![item] + r.0) =~= read_views(reads@) + r.0);
                }
            },
        }
        k += 1;
    }
    proof {
        assert(codes@.skip(k as int) =~= Seq::<i32>::empty());
        assert(read_views(reads@) + seq![] =~= read_views(reads@));
    }
    (reads, None)
}

} // verus!

verus! {

fn parse_int_value(value: &String) -> (r: Option<i32>)
    ensures
        r == parse_i32(crate::yaml_flow::trimmed(value@)),
{
    let v = crate::text::chars_of(value.as_str());
    let (a, b) = crate::yaml_flow::trim_bounds(v.as_slice());
    let t = crate::yaml_flow::slice_vec(v.as_slice(), a, b);
    parse_group_code(t.as_slice())
}

fn poly_closed_exec(groups: &[Group], start: usize, end: usize) -> (r: bool)
    requires
        start <= end <= groups.len(),
    ensures
        r == poly_closed(group_views(groups@).subrange(start as int, end as int)),
{
    let ghost gs = group_views(groups@);
    let mut closed = false;
    let mut j = start;
    while j < end
        invariant
            start <= j <= end <= groups.len(),
            gs == group_views(groups@),
            closed == poly_closed(gs.subrange(start as int, j as int)),
        decreases end - j,
    {
        let ghost pre = gs.subrange(start as int, j as int);
        let ghost nxt = gs.subrange(start as int, j + 1);
        assert(nxt.drop_last() =~= pre);
        assert(nxt.last() == group_view(groups@[j as int]));
        if groups[j].code == 70 {
            match parse_int_value(&groups[j].value) {
                Some(flags) => {
                    closed = (flags & 1) != 0;
                },
                None => {},
            }
        }
        j += 1;
    }
    closed
}

fn poly_run_exec(groups: &[Group], start: usize, end: usize) -> (r: (
    Vec<FloatRead>,
    Vec<(usize, usize)>,
    Vec<Option<usize>>,
))
    requires
        start <= end <= groups.len(),
    ensures
        ({
            let st = poly_run(group_views(groups@).subrange(start as int, end as int));
            &&& read_views(r.0@) == st.reads
            &&& reads_trimmed(r.0@)
            &&& shape_view(EntityShape::LwPolyline { closed: false, vertices: r.1, bulges: r.2 })
                == ShapeView::LwPolyline { closed: false, vertices: st.vertices, bulges: st.bulges }
        }),
{
    let ghost gs = group_views(groups@);
    let mut reads: Vec<FloatRead> = Vec::new();
    let mut vertices: Vec<(usize, usize)> = Vec::new();
    let mut bulges: Vec<Option<usize>> = Vec::new();
    let mut last_x: Option<usize> = None;
    let mut j = start;
    proof {
        assert(gs.subrange(start as int, start as int) =~= Seq::<(i32, Seq<char>)>::empty());
        assert(read_views(reads@) =~= Seq::<(i32, Seq<char>)>::empty());
    }
    while j < end
        invariant
            start <= j <= end <= groups.len(),
            gs == group_views(groups@),
            reads_trimmed(reads@),
            ({
                let st = poly_run(gs.subrange(start as int, j as int));
                &&& read_views(reads@) == st.reads
                &&& vertices@.map_values(|p: (usize, usize)| (p.0 as int, p.1 as int))
                    == st.vertices
                &&& bulges@.map_values(
                    |b: Option<usize>|
                        match b {
                            Some(k) => Some(k as int),
                            None => None,
                        },
                ) == st.bulges
                &&& st.last_x == match last_x {
                    Some(k) => Some(k as int),
                    None => None,
                }
            }),
        decreases end - j,
    {
        let ghost pre = gs.subrange(start as int, j as int);
        let ghost nxt = gs.subrange(start as int, j + 1);
        let ghost st = poly_run(pre);
        let ghost g = group_view(groups@[j as int]);
        assert(nxt.drop_last() =~= pre);
        assert(nxt.last() == g);
        let ghost rv = read_views(reads@);
        let ghost vv = vertices@;
        let ghost bv = bulges@;
        let n = reads.len();
        let code = groups[j].code;
        if code == 10 {
            let rd = make_read(10, &groups[j].value);
            reads.push(rd);
            last_x = Some(n);
            proof {
                assert(read_views(reads@) =~= rv.push(g));
            }
        } else if code == 20 && last_x.is_some() {
            let x = last_x.unwrap();
            let rd = make_read(20, &groups[j].value);
            reads.push(rd);
            vertices.push((x, n));
            bulges.push(None);
            last_x = None;
            proof {
                assert(read_views(reads@) =~= rv.push(g));
                assert(vertices@ =~= vv.push((x, n)));
                assert(vertices@.map_values(|p: (usize, usize)| (p.0 as int, p.1 as int))
                    =~= st.vertices.push((x as int, n as int)));
                assert(bulges@ =~= bv.push(None));
                assert(bulges@.map_values(
                    |b: Option<usize>|
                        match b {
                            Some(k) => Some(k as int),
                            None => None,
                        },
                ) =~= st.bulges.push(None));
            }
        } else if code == 42 && bulges.len() > 0 {
            let rd = make_read(42, &groups[j].value);
            reads.push(rd);
            let last = bulges.len() - 1;
            bulges.set(last, Some(n));
            proof {
                assert(read_views(reads@) =~= rv.push(g));
                assert(bulges@ =~= bv.update(last as int, Some(n)));
                assert(bulges@.map_values(
                    |b: Option<usize>|
                        match b {
                            Some(k) => Some(k as int),
                            None => None,
                        },
                ) =~= st.bulges.update(last as int, Some(n as int)));
            }
        }
        j += 1;
    }
    (reads, vertices, bulges)
}

} // verus!

verus! {

/// What an entity of kind `kind` with the groups `start..end` reads.
pub fn plan_entity(kind: &String, groups: &[Group], start: usize, end: usize) -> (p: EntityPlan)
    requires
        start <= end <= groups.len(),
    ensures
        plan_matches(p, kind@, group_views(groups@).subrange(start as int, end as int)),
{
    let ghost sub = group_views(groups@).subrange(start as int, end as int);
    if text_is(kind, "LINE") {
        let codes: Vec<i32> = vec![10, 20, 11, 21];
        assert(codes@ =~= seq![10i32, 20, 11, 21]);
        let (reads, missing) = fixed_reads_exec(groups, start, end, codes.as_slice());
        EntityPlan { kind: kind.clone(), reads, missing, shape: EntityShape::Line }
    } else if text_is(kind, "CIRCLE") {
        let codes: Vec<i32> = vec![10, 20, 40];
        assert(codes@ =~= seq![10i32, 20, 40]);
        let (reads, missing) = fixed_reads_exec(groups, start, end, codes.as_slice());
        EntityPlan { kind: kind.clone(), reads, missing, shape: EntityShape::Circle }
    } else if text_is(kind, "ARC") {
        let codes: Vec<i32> = vec![10, 20, 40, 50, 51];
        assert(codes@ =~= seq![10i32, 20, 40, 50, 51]);
        let (reads, missing) = fixed_reads_exec(groups, start, end, codes.as_slice());
        EntityPlan { kind: kind.clone(), reads, missing, shape: EntityShape::Arc }
    } else if text_is(kind, "LWPOLYLINE") {
        let closed = poly_closed_exec(groups, start, end);
        let (reads, vertices, bulges) = poly_run_exec(groups, start, end);
        EntityPlan {
            kind: kind.clone(),
            reads,
            missing: None,
            shape: EntityShape::LwPolyline { closed, vertices, bulges },
        }
    } else {
        let reads: Vec<FloatRead> = Vec::new();
        assert(read_views(reads@) =~= Seq::<(i32, Seq<char>)>::empty());
        EntityPlan { kind: kind.clone(), reads, missing: None, shape: EntityShape::Unsupported }
    }
}

/// What a DXF text's entities read, in order, and the structural error
/// found after them, if any: the text's groups scanned for the ENTITIES
/// section, each entity planned from its own groups.
pub fn plan_dxf(input: &str) -> (res: Result<(Vec<EntityPlan>, Option<DxfError>), DxfError>)
    ensures
        match groups_spec(input@) {
            Ok(gs) => res matches Ok((plans, err)) && {
                let sc = scan_spec(gs);
                &&& plans@.len() == sc.0.len()
                &&& forall|k: int|
                    0 <= k < plans@.len() ==> plan_matches(
                        #[trigger] plans@[k],
                        sc.0[k].0,
                        gs.subrange(sc.0[k].1, sc.0[k].2),
                    )
                &&& scan_error_matches(sc.1, err)
            },
            Err(None) => res matches Err(DxfError::OddNumberOfLines),
            Err(Some(k)) => res matches Err(DxfError::InvalidGroupCode { raw, line }) && raw@
                == crate::yaml_flow::trimmed(std_lines(input@)[2 * k]) && line == 2 * k + 1,
        },
{
    let groups = match parse_groups(input) {
        Ok(g) => g,
        Err(e) => {
            return Err(e);
        },
    };
    let ghost gs = group_views(groups@);
    let (spans, err) = scan_entities(groups.as_slice());
    let mut plans: Vec<EntityPlan> = Vec::new();
    let mut k: usize = 0;
    while k < spans.len()
        invariant
            gs == group_views(groups@),
            span_views(spans@) == scan_spec(gs).0,
            k <= spans.len(),
            plans@.len() == k,
            forall|m: int|
                0 <= m < k ==> plan_matches(
                    #[trigger] plans@[m],
                    scan_spec(gs).0[m].0,
                    gs.subrange(scan_spec(gs).0[m].1, scan_spec(gs).0[m].2),
                ),
        decreases spans.len() - k,
    {
        let sp = &spans[k];
        assert(span_view(spans@[k as int]) == scan_spec(gs).0[k as int]);
        proof {
            lemma_scan_ranges(gs, 0, false, false, k as int);
        }
        let p = plan_entity(&sp.kind, groups.as_slice(), sp.start, sp.end);
        plans.push(p);
        k += 1;
    }
    Ok((plans, err))
}

/// The entity ranges of a scan lie within the groups.
pub proof fn lemma_scan_ranges(gs: Seq<(i32, Seq<char>)>, i: int, in_entities: bool, saw: bool, k: int)
    requires
        0 <= i,
        0 <= k < scan(gs, i, in_entities, saw).0.len(),
    ensures
        i <= scan(gs, i, in_entities, saw).0[k].1 <= scan(gs, i, in_entities, saw).0[k].2 <= gs.len(),
    decreases gs.len() - i,
{
    if i < gs.len() {
        if is_marker(gs[i], "SECTION"@) {
            if i + 1 < gs.len() {
                let ent = gs[i + 1].0 == 2 && gs[i + 1].1 == "ENTITIES"@;
                lemma_scan_ranges(gs, i + 2, in_entities || ent, saw || ent, k);
            }
        } else if in_entities && is_marker(gs[i], "ENDSEC"@) {
            lemma_scan_ranges(gs, i + 1, false, saw, k);
        } else if in_entities && gs[i].0 == 0 {
            let kind = gs[i].1;
            let end = entity_end(gs, kind, i + 1);
            lemma_entity_end(gs, kind, i + 1);
            if k > 0 {
                lemma_scan_ranges(gs, end, in_entities, saw, k - 1);
            }
        } else {
            lemma_scan_ranges(gs, i + 1, in_entities, saw, k);
        }
    }
}

} // verus!
