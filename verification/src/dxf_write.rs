//! DXF output: the code/value pairs that describe a canonical drawing, and
//! their text form.
use vstd::prelude::*;
use crate::dxf::{NormalizedDxf, NormalizedEntity, QPoint2};
use crate::expr::str_to_string;

verus! {

/// The character of a decimal digit.
pub open spec fn digit_char(d: int) -> char {
    seq!['0', '1', '2', '3', '4', '5', '6', '7', '8', '9'][d]
}

/// Decimal digits of a natural number, without leading zeros.
pub open spec fn dec_str(n: nat) -> Seq<char>
    decreases n,
{
    if n < 10 {
        seq![digit_char(n as int)]
    } else {
        dec_str(n / 10).push(digit_char((n % 10) as int))
    }
}

/// Decimal form of an integer (`ToString` of the integer types).
pub open spec fn int_str(v: int) -> Seq<char> {
    if v < 0 {
        seq!['-'] + dec_str((-v) as nat)
    } else {
        dec_str(v as nat)
    }
}

pub(crate) fn push_dec(out: &mut Vec<char>, n: u64)
    ensures
        final(out)@ == old(out)@ + dec_str(n as nat),
    decreases n,
{
    let digits: Vec<char> = vec!['0', '1', '2', '3', '4', '5', '6', '7', '8', '9'];
    assert(digits@ =~= seq!['0', '1', '2', '3', '4', '5', '6', '7', '8', '9']);
    if n >= 10 {
        push_dec(out, n / 10);
    }
    let d = (n % 10) as usize;
    out.push(digits[d]);
    proof {
        if n < 10 {
            assert(n % 10 == n);
        }
    }
}

/// The decimal form of an `i64`.
pub fn int_to_text(v: i64) -> (r: Vec<char>)
    ensures
        r@ == int_str(v as int),
{
    let mut out: Vec<char> = Vec::new();
    if v < 0 {
        out.push('-');
        let m: u64 = if v == i64::MIN {
            9223372036854775808u64
        } else {
            (-v) as u64
        };
        push_dec(&mut out, m);
        assert(out@ =~= seq!['-'] + dec_str((-v) as nat));
    } else {
        push_dec(&mut out, v as u64);
        assert(out@ =~= dec_str(v as nat));
    }
    out
}

/// The text of one code/value pair: the code, a newline, the value, a
/// newline.
pub open spec fn pair_text(code: i32, value: Seq<char>) -> Seq<char> {
    int_str(code as int) + seq!['\n'] + value + seq!['\n']
}

/// Appends one code/value pair to `out`.
pub fn push_pair(out: &mut String, code: i32, value: &str)
    ensures
        final(out)@ == old(out)@ + pair_text(code, value@),
{
    let mut v = crate::text::chars_of(out.as_str());
    let c = int_to_text(code as i64);
    crate::yaml_flow::extend(&mut v, c.as_slice());
    v.push('\n');
    let w = crate::text::chars_of(value);
    crate::yaml_flow::extend(&mut v, w.as_slice());
    v.push('\n');
    *out = crate::text::string_of(v.as_slice());
    assert(out@ =~= old(out)@ + pair_text(code, value@));
}

/// The text of a sequence of pairs.
pub open spec fn pairs_text(p: Seq<(i32, Seq<char>)>) -> Seq<char>
    decreases p.len(),
{
    if p.len() == 0 {
        seq![]
    } else {
        pairs_text(p.drop_last()) + pair_text(p.last().0, p.last().1)
    }
}

/// The text of a sequence of code/value pairs.
pub fn write_pairs(pairs: &[(i32, String)]) -> (r: String)
    ensures
        r@ == pairs_text(pairs@.map_values(|p: (i32, String)| (p.0, p.1@))),
{
    let ghost pv = pairs@.map_values(|p: (i32, String)| (p.0, p.1@));
    let mut out = String::new();
    let mut i: usize = 0;
    while i < pairs.len()
        invariant
            i <= pairs.len(),
            pv == pairs@.map_values(|p: (i32, String)| (p.0, p.1@)),
            out@ == pairs_text(pv.take(i as int)),
        decreases pairs.len() - i,
    {
        push_pair(&mut out, pairs[i].0, pairs[i].1.as_str());
        assert(pv.take(i + 1).drop_last() =~= pv.take(i as int));
        i += 1;
    }
    assert(pv.take(pairs.len() as int) =~= pv);
    out
}

} // verus!

verus! {

/// The value of an output pair: text as it stands, or a quantized length or
/// angle that is written as a decimal number once scaled back, with the name
/// reported if that fails.
#[derive(Debug, Clone)]
pub enum PairValue {
    Text(String),
    Linear { q: i64, what: String },
    Angle { q: i64, what: String },
}

pub enum PairView {
    Text(Seq<char>),
    Linear(i64, Seq<char>),
    Angle(i64, Seq<char>),
}

pub open spec fn pair_value_view(v: PairValue) -> PairView {
    match v {
        PairValue::Text(s) => PairView::Text(s@),
        PairValue::Linear { q, what } => PairView::Linear(q, what@),
        PairValue::Angle { q, what } => PairView::Angle(q, what@),
    }
}

pub open spec fn pair_views(v: Seq<(i32, PairValue)>) -> Seq<(i32, PairView)> {
    v.map_values(|p: (i32, PairValue)| (p.0, pair_value_view(p.1)))
}

pub open spec fn tx(code: i32, s: Seq<char>) -> (i32, PairView) {
    (code, PairView::Text(s))
}

pub open spec fn lin(code: i32, q: i64, what: Seq<char>) -> (i32, PairView) {
    (code, PairView::Linear(q, what))
}

/// The header and tables that open every written drawing, up to the start
/// of the ENTITIES section.
pub open spec fn header_pairs() -> Seq<(i32, PairView)> {
    seq![
        tx(0, "SECTION"@), tx(2, "HEADER"@), tx(9, "$INSUNITS"@), tx(70, "4"@), tx(0, "ENDSEC"@),
        tx(0, "SECTION"@), tx(2, "TABLES"@), tx(0, "TABLE"@), tx(2, "LTYPE"@), tx(0, "LTYPE"@),
        tx(72, "65"@), tx(70, "64"@), tx(2, "CONTINUOUS"@), tx(3, "______"@), tx(73, "0"@),
        tx(40, "0"@), tx(0, "ENDTAB"@), tx(0, "TABLE"@), tx(2, "LAYER"@), tx(0, "ENDTAB"@),
        tx(0, "ENDSEC"@), tx(0, "SECTION"@), tx(2, "ENTITIES"@),
    ]
}

/// The pairs of the first `n` vertices of a polyline: x, y and bulge (0
/// where the vertex has no bulge).
pub open spec fn vertex_pairs(vs: Seq<QPoint2>, bs: Seq<i64>, n: int) -> Seq<(i32, PairView)>
    decreases n,
{
    if n <= 0 {
        seq![]
    } else {
        let k = n - 1;
        let b: i64 = if k < bs.len() { bs[k] } else { 0 };
        vertex_pairs(vs, bs, k) + seq![
            lin(10, vs[k].x, "polyline x"@),
            lin(20, vs[k].y, "polyline y"@),
            lin(42, b, "polyline bulge"@),
        ]
    }
}

/// The pairs that describe one entity.
pub open spec fn entity_pairs(e: NormalizedEntity) -> Seq<(i32, PairView)> {
    match e {
        NormalizedEntity::Line { a, b } => seq![
            tx(0, "LINE"@), tx(8, "0"@),
            lin(10, a.x, "line x1"@), lin(20, a.y, "line y1"@),
            lin(11, b.x, "line x2"@), lin(21, b.y, "line y2"@),
        ],
        NormalizedEntity::Circle { c, r } => seq![
            tx(0, "CIRCLE"@), tx(8, "0"@),
            lin(10, c.x, "circle cx"@), lin(20, c.y, "circle cy"@), lin(40, r, "circle r"@),
        ],
        NormalizedEntity::Arc { c, r, start, end } => seq![
            tx(0, "ARC"@), tx(8, "0"@),
            lin(10, c.x, "arc cx"@), lin(20, c.y, "arc cy"@), lin(40, r, "arc r"@),
            (50, PairView::Angle(start, "arc start"@)), (51, PairView::Angle(end, "arc end"@)),
        ],
        NormalizedEntity::Polyline { vertices, bulges, closed } => seq![
            tx(0, "LWPOLYLINE"@), tx(8, "0"@),
            tx(90, dec_str(vertices@.len())),
            tx(70, if closed { "1"@ } else { "0"@ }),
        ] + vertex_pairs(vertices@, bulges@, vertices@.len() as int),
    }
}

/// The pairs of the first `n` entities.
pub open spec fn entities_pairs(es: Seq<NormalizedEntity>, n: int) -> Seq<(i32, PairView)>
    decreases n,
{
    if n <= 0 {
        seq![]
    } else {
        entities_pairs(es, n - 1) + entity_pairs(es[n - 1])
    }
}

/// All pairs of a written drawing: header, entities, end of section and
/// end of file.
pub open spec fn dxf_pairs_spec(es: Seq<NormalizedEntity>) -> Seq<(i32, PairView)> {
    header_pairs() + entities_pairs(es, es.len() as int) + seq![tx(0, "ENDSEC"@), tx(0, "EOF"@)]
}

fn push_text(out: &mut Vec<(i32, PairValue)>, code: i32, s: &str)
    ensures
        pair_views(final(out)@) == pair_views(old(out)@).push(tx(code, s@)),
{
    out.push((code, PairValue::Text(str_to_string(s))));
    assert(pair_views(out@) =~= pair_views(old(out)@).push(tx(code, s@)));
}

fn push_lin(out: &mut Vec<(i32, PairValue)>, code: i32, q: i64, what: &str)
    ensures
        pair_views(final(out)@) == pair_views(old(out)@).push(lin(code, q, what@)),
{
    out.push((code, PairValue::Linear { q, what: str_to_string(what) }));
    assert(pair_views(out@) =~= pair_views(old(out)@).push(lin(code, q, what@)));
}

fn push_angle(out: &mut Vec<(i32, PairValue)>, code: i32, q: i64, what: &str)
    ensures
        pair_views(final(out)@) == pair_views(old(out)@).push((code, PairView::Angle(q, what@))),
{
    out.push((code, PairValue::Angle { q, what: str_to_string(what) }));
    assert(pair_views(out@) =~= pair_views(old(out)@).push((code, PairView::Angle(q, what@))));
}

fn push_header(out: &mut Vec<(i32, PairValue)>)
    ensures
        pair_views(final(out)@) == pair_views(old(out)@) + header_pairs(),
{
    push_text(out, 0, "SECTION");
    push_text(out, 2, "HEADER");
    push_text(out, 9, "$INSUNITS");
    push_text(out, 70, "4");
    push_text(out, 0, "ENDSEC");
    push_text(out, 0, "SECTION");
    push_text(out, 2, "TABLES");
    push_text(out, 0, "TABLE");
    push_text(out, 2, "LTYPE");
    push_text(out, 0, "LTYPE");
    push_text(out, 72, "65");
    push_text(out, 70, "64");
    push_text(out, 2, "CONTINUOUS");
    push_text(out, 3, "______");
    push_text(out, 73, "0");
    push_text(out, 40, "0");
    push_text(out, 0, "ENDTAB");
    push_text(out, 0, "TABLE");
    push_text(out, 2, "LAYER");
    push_text(out, 0, "ENDTAB");
    push_text(out, 0, "ENDSEC");
    push_text(out, 0, "SECTION");
    push_text(out, 2, "ENTITIES");
    assert(pair_views(out@) =~= pair_views(old(out)@) + header_pairs());
}

fn push_entity(out: &mut Vec<(i32, PairValue)>, e: &NormalizedEntity)
    ensures
        pair_views(final(out)@) == pair_views(old(out)@) + entity_pairs(*e),
{
    match e {
        NormalizedEntity::Line { a, b } => {
            push_text(out, 0, "LINE");
            push_text(out, 8, "0");
            push_lin(out, 10, a.x, "line x1");
            push_lin(out, 20, a.y, "line y1");
            push_lin(out, 11, b.x, "line x2");
            push_lin(out, 21, b.y, "line y2");
            assert(pair_views(out@) =~= pair_views(old(out)@) + entity_pairs(*e));
        },
        NormalizedEntity::Circle { c, r } => {
            push_text(out, 0, "CIRCLE");
            push_text(out, 8, "0");
            push_lin(out, 10, c.x, "circle cx");
            push_lin(out, 20, c.y, "circle cy");
            push_lin(out, 40, *r, "circle r");
            assert(pair_views(out@) =~= pair_views(old(out)@) + entity_pairs(*e));
        },
        NormalizedEntity::Arc { c, r, start, end } => {
            push_text(out, 0, "ARC");
            push_text(out, 8, "0");
            push_lin(out, 10, c.x, "arc cx");
            push_lin(out, 20, c.y, "arc cy");
            push_lin(out, 40, *r, "arc r");
            push_angle(out, 50, *start, "arc start");
            push_angle(out, 51, *end, "arc end");
            assert(pair_views(out@) =~= pair_views(old(out)@) + entity_pairs(*e));
        },
        NormalizedEntity::Polyline { vertices, bulges, closed } => {
            push_text(out, 0, "LWPOLYLINE");
            push_text(out, 8, "0");
            let ghost p0 = pair_views(out@);
            let mut count: Vec<char> = Vec::new();
            push_dec(&mut count, vertices.len() as u64);
            assert(count@ =~= dec_str(vertices@.len()));
            out.push((90, PairValue::Text(crate::text::string_of(count.as_slice()))));
            assert(pair_views(out@) =~= p0.push(tx(90, dec_str(vertices@.len()))));
            let ghost p1 = pair_views(out@);
            if *closed {
                push_text(out, 70, "1");
            } else {
                push_text(out, 70, "0");
            }
            assert(pair_views(out@) == p1.push(tx(70, if *closed { "1"@ } else { "0"@ })));
            let ghost head = pair_views(out@);
            let mut i: usize = 0;
            while i < vertices.len()
                invariant
                    i <= vertices.len(),
                    pair_views(out@) == head + vertex_pairs(vertices@, bulges@, i as int),
                decreases vertices.len() - i,
            {
                let v = vertices[i];
                push_lin(out, 10, v.x, "polyline x");
                push_lin(out, 20, v.y, "polyline y");
                let b: i64 = if i < bulges.len() { bulges[i] } else { 0 };
                push_lin(out, 42, b, "polyline bulge");
                assert(head + vertex_pairs(vertices@, bulges@, i + 1) =~= head + vertex_pairs(
                    vertices@,
                    bulges@,
                    i as int,
                ) + seq![
                    lin(10, v.x, "polyline x"@),
                    lin(20, v.y, "polyline y"@),
                    lin(42, b, "polyline bulge"@),
                ]);
                i += 1;
            }
            assert(head =~= pair_views(old(out)@) + seq![
                tx(0, "LWPOLYLINE"@), tx(8, "0"@),
                tx(90, dec_str(vertices@.len())),
                tx(70, if *closed { "1"@ } else { "0"@ }),
            ]);
            assert(pair_views(out@) =~= pair_views(old(out)@) + entity_pairs(*e));
        },
    }
    assert(pair_views(out@) =~= pair_views(old(out)@) + entity_pairs(*e));
}

impl NormalizedDxf {
    /// The code/value pairs that write this drawing as DXF text: a fixed
    /// header and tables, each entity in order, then the end markers.
    pub fn dxf_pairs(&self) -> (r: Vec<(i32, PairValue)>)
        ensures
            pair_views(r@) == dxf_pairs_spec(self.entities@),
    {
        let mut out: Vec<(i32, PairValue)> = Vec::new();
        push_header(&mut out);
        let ghost head = pair_views(out@);
        let mut i: usize = 0;
        while i < self.entities.len()
            invariant
                i <= self.entities.len(),
                head == Seq::<(i32, PairView)>::empty() + header_pairs(),
                pair_views(out@) == head + entities_pairs(self.entities@, i as int),
            decreases self.entities.len() - i,
        {
            push_entity(&mut out, &self.entities[i]);
            assert(head + entities_pairs(self.entities@, i + 1) =~= head + entities_pairs(
                self.entities@,
                i as int,
            ) + entity_pairs(self.entities@[i as int]));
            i += 1;
        }
        push_text(&mut out, 0, "ENDSEC");
        push_text(&mut out, 0, "EOF");
        assert(pair_views(out@) =~= dxf_pairs_spec(self.entities@));
        out
    }
}

} // verus!

verus! {

proof fn lemma_digit_char(d: int)
    requires
        0 <= d < 10,
    ensures
        crate::text::is_digit(digit_char(d)),
        digit_char(d) as int - '0' as int == d,
{
    let s = seq!['0', '1', '2', '3', '4', '5', '6', '7', '8', '9'];
    assert(digit_char(d) == s[d]);
    if d == 0 { assert(s[0] == '0'); }
    else if d == 1 { assert(s[1] == '1'); }
    else if d == 2 { assert(s[2] == '2'); }
    else if d == 3 { assert(s[3] == '3'); }
    else if d == 4 { assert(s[4] == '4'); }
    else if d == 5 { assert(s[5] == '5'); }
    else if d == 6 { assert(s[6] == '6'); }
    else if d == 7 { assert(s[7] == '7'); }
    else if d == 8 { assert(s[8] == '8'); }
    else { assert(s[9] == '9'); }
}

/// The decimal digits of `n` are digits and read back as `n`.
proof fn lemma_dec_str(n: nat)
    ensures
        dec_str(n).len() >= 1,
        crate::yaml_flow::all_digits(dec_str(n)),
        crate::dxf_parse::dec_value(dec_str(n)) == n,
    decreases n,
{
    if n < 10 {
        lemma_digit_char(n as int);
        let s = dec_str(n);
        assert(s == seq![digit_char(n as int)]);
        assert(s.len() == 1);
        assert(s[0] == digit_char(n as int));
        assert(s.drop_last() =~= Seq::<char>::empty());
        assert(crate::dxf_parse::dec_value(s.drop_last()) == 0);
        assert(s.last() == digit_char(n as int));
    } else {
        lemma_dec_str(n / 10);
        lemma_digit_char((n % 10) as int);
        let p = dec_str(n / 10);
        let s = dec_str(n);
        assert(s.drop_last() =~= p);
        assert(s.last() == digit_char((n % 10) as int));
        assert forall|k: int| 0 <= k < s.len() implies crate::text::is_digit(#[trigger] s[k]) by {
            if k < p.len() {
                assert(s[k] == p[k]);
            }
        }
        assert(crate::dxf_parse::dec_value(s) == crate::dxf_parse::dec_value(p) * 10 + (n % 10));
        vstd::arithmetic::div_mod::lemma_fundamental_div_mod(n as int, 10);
        assert(crate::dxf_parse::dec_value(p) * 10 == 10 * (n / 10));
    }
}

/// The text of an integer: digits, after a `-` when negative.
proof fn lemma_int_str(v: int)
    ensures
        int_str(v).len() >= 1,
        forall|k: int| 0 <= k < int_str(v).len() ==> crate::text::is_digit(#[trigger] int_str(v)[k])
            || (k == 0 && int_str(v)[k] == '-'),
        crate::text::is_digit(int_str(v).last()),
        v < 0 ==> int_str(v)[0] == '-' && int_str(v).drop_first() == dec_str((-v) as nat),
        v >= 0 ==> int_str(v) == dec_str(v as nat),
{
    let m: nat = if v < 0 { (-v) as nat } else { v as nat };
    lemma_dec_str(m);
    let d = dec_str(m);
    assert(crate::text::is_digit(d[d.len() - 1]));
    if v < 0 {
        let s = int_str(v);
        assert(s == seq!['-'] + d);
        assert(s.drop_first() =~= d);
        assert forall|k: int| 0 <= k < s.len() implies crate::text::is_digit(#[trigger] s[k]) || (k == 0
            && s[k] == '-') by {
            if k > 0 {
                assert(s[k] == d[k - 1]);
            }
        }
        assert(s.last() == d.last());
    }
}

proof fn lemma_trimmed_plain(s: Seq<char>)
    requires
        s.len() >= 1,
        !crate::text::is_ws(s[0]),
        !crate::text::is_ws(s.last()),
    ensures
        crate::yaml_flow::trimmed(s) == s,
{
    assert(crate::yaml_flow::leading_ws(s) == 0);
    assert(crate::yaml_flow::trailing_ws(s) == 0);
    assert(s.subrange(0, s.len() as int) =~= s);
}

/// A written code reads back as itself.
proof fn lemma_code_reads_back(c: i32)
    ensures
        crate::dxf_parse::parse_i32(crate::yaml_flow::trimmed(int_str(c as int))) == Some(c),
{
    let s = int_str(c as int);
    lemma_int_str(c as int);
    assert(crate::text::is_digit(s[0]) || s[0] == '-');
    lemma_trimmed_plain(s);
    if c < 0 {
        lemma_dec_str((-c) as nat);
    } else {
        lemma_dec_str(c as nat);
    }
}

proof fn lemma_split_append(t: Seq<char>, x: Seq<char>)
    requires
        !x.contains('\n'),
    ensures
        crate::dxf_parse::split_newlines(t + x) == crate::dxf_parse::split_newlines(t).update(
            crate::dxf_parse::split_newlines(t).len() - 1,
            crate::dxf_parse::split_newlines(t).last() + x,
        ),
    decreases x.len(),
{
    crate::dxf_parse::lemma_split_nonempty(t);
    let st = crate::dxf_parse::split_newlines(t);
    if x.len() == 0 {
        assert(t + x =~= t);
        assert(st.last() + x =~= st.last());
        assert(st.update(st.len() - 1, st.last()) =~= st);
    } else {
        let y = x.drop_last();
        assert(!y.contains('\n')) by {
            if y.contains('\n') {
                let k = choose|k: int| 0 <= k < y.len() && y[k] == '\n';
                assert(x[k] == '\n');
            }
        }
        lemma_split_append(t, y);
        assert(x[x.len() - 1] == x.last());
        assert(x.last() != '\n');
        assert((t + x).drop_last() =~= t + y);
        assert((t + x).last() == x.last());
        assert(st.last() + y + seq![x.last()] =~= st.last() + x);
        let p = crate::dxf_parse::split_newlines(t + y);
        assert(p.last() == st.last() + y);
        assert(p.last().push(x.last()) =~= st.last() + x);
        assert(p.update(p.len() - 1, p.last().push(x.last())) =~= st.update(st.len() - 1, st.last() + x));
    }
}

/// The lines of written pairs: each code, then its value.
pub open spec fn pair_lines(p: Seq<(i32, Seq<char>)>) -> Seq<Seq<char>>
    decreases p.len(),
{
    if p.len() == 0 {
        seq![]
    } else {
        pair_lines(p.drop_last()) + seq![int_str(p.last().0 as int), p.last().1]
    }
}

/// A value that survives reading: no line break, no trailing whitespace.
pub open spec fn plain_value(v: Seq<char>) -> bool {
    !v.contains('\n') && crate::yaml_flow::trailing_ws(v) == 0
}

proof fn lemma_pair_lines(p: Seq<(i32, Seq<char>)>)
    ensures
        pair_lines(p).len() == 2 * p.len(),
        forall|k: int| 0 <= k < p.len() ==> #[trigger] pair_lines(p)[2 * k] == int_str(p[k].0 as int)
            && pair_lines(p)[2 * k + 1] == p[k].1,
    decreases p.len(),
{
    if p.len() > 0 {
        let q = p.drop_last();
        lemma_pair_lines(q);
        assert forall|k: int| 0 <= k < p.len() implies #[trigger] pair_lines(p)[2 * k] == int_str(p[k].0 as int)
            && pair_lines(p)[2 * k + 1] == p[k].1 by {
            if k < q.len() {
                assert(pair_lines(q)[2 * k] == int_str(q[k].0 as int));
                assert(q[k] == p[k]);
            }
        }
    }
}

#[verifier::rlimit(40)]
proof fn lemma_split_pairs(p: Seq<(i32, Seq<char>)>)
    requires
        forall|i: int| 0 <= i < p.len() ==> plain_value(#[trigger] p[i].1),
    ensures
        crate::dxf_parse::split_newlines(pairs_text(p)) == pair_lines(p).push(seq![]),
    decreases p.len(),
{
    if p.len() == 0 {
        assert(pair_lines(p).push(seq![]) =~= seq![Seq::<char>::empty()]);
    } else {
        let q = p.drop_last();
        assert forall|i: int| 0 <= i < q.len() implies plain_value(#[trigger] q[i].1) by {
            assert(q[i] == p[i]);
        }
        lemma_split_pairs(q);
        let t = pairs_text(q);
        let c = int_str(p.last().0 as int);
        let v = p.last().1;
        assert(p[p.len() - 1] == p.last());
        let l = pair_lines(q);
        lemma_int_str(p.last().0 as int);
        assert(!c.contains('\n')) by {
            if c.contains('\n') {
                let k = choose|k: int| 0 <= k < c.len() && c[k] == '\n';
                assert(crate::text::is_digit(c[k]) || (k == 0 && c[k] == '-'));
            }
        }
        lemma_split_append(t, c);
        let t1 = t + c;
        assert(l.push(seq![]).update(l.len() as int, Seq::<char>::empty() + c) =~= l.push(c));
        let t2 = t1.push('\n');
        assert(t2.drop_last() =~= t1);
        lemma_split_append(t2, v);
        let t3 = t2 + v;
        assert(l.push(c).push(seq![]).update(l.len() + 1int, Seq::<char>::empty() + v) =~= l.push(c).push(v));
        let t4 = t3.push('\n');
        assert(t4.drop_last() =~= t3);
        assert(pairs_text(p) =~= t4);
        assert(pair_lines(p) =~= l.push(c).push(v));
    }
}

/// Written pairs read back: the text that `write_pairs` produces splits
/// into the same code/value groups, for values without line breaks or
/// trailing whitespace.
pub proof fn law_written_pairs_read_back(p: Seq<(i32, Seq<char>)>)
    requires
        forall|i: int| 0 <= i < p.len() ==> plain_value(#[trigger] p[i].1),
    ensures
        crate::dxf_parse::groups_spec(pairs_text(p)) == Ok::<Seq<(i32, Seq<char>)>, Option<int>>(p),
{
    let s = pairs_text(p);
    let ls = pair_lines(p);
    lemma_pair_lines(p);
    lemma_split_pairs(p);
    if p.len() == 0 {
        assert(s.len() == 0);
        assert(crate::dxf_parse::std_lines(s) =~= ls);
    } else {
        assert(s == pairs_text(p.drop_last()) + pair_text(p.last().0, p.last().1));
        assert(s.last() == '\n');
        let sp = crate::dxf_parse::split_newlines(s);
        assert(sp.drop_last() =~= ls);
        assert forall|j: int| 0 <= j < ls.len() implies crate::dxf_parse::strip_cr(#[trigger] ls[j]) == ls[j] by {
            let k = j / 2;
            vstd::arithmetic::div_mod::lemma_fundamental_div_mod(j, 2);
            vstd::arithmetic::div_mod::lemma_mod_pos_bound(j, 2);
            assert(j == 2 * k || j == 2 * k + 1);
            if j == 2 * k {
                lemma_int_str(p[k].0 as int);
                assert(ls[j] == int_str(p[k].0 as int));
            } else {
                assert(plain_value(p[k].1));
                assert(ls[2 * k] == int_str(p[k].0 as int));
                assert(ls[j] == p[k].1);
                if p[k].1.len() > 0 {
                    assert(crate::text::is_ws(p[k].1.last()) ==> crate::yaml_flow::trailing_ws(p[k].1) > 0);
                }
            }
        }
        assert(crate::dxf_parse::std_lines(s) =~= ls);
    }
    assert(ls.len() % 2 == 0);
    lemma_groups_from(p, 0);
    assert(p.skip(0) =~= p);
}

proof fn lemma_groups_from(p: Seq<(i32, Seq<char>)>, k: int)
    requires
        0 <= k <= p.len(),
        forall|i: int| 0 <= i < p.len() ==> plain_value(#[trigger] p[i].1),
    ensures
        crate::dxf_parse::groups_from(pair_lines(p), k) == Ok::<Seq<(i32, Seq<char>)>, Option<int>>(p.skip(k)),
    decreases p.len() - k,
{
    lemma_pair_lines(p);
    let ls = pair_lines(p);
    if k == p.len() {
        assert(p.skip(k) =~= Seq::<(i32, Seq<char>)>::empty());
    } else {
        lemma_groups_from(p, k + 1);
        lemma_code_reads_back(p[k].0);
        assert(ls[2 * k] == int_str(p[k].0 as int));
        assert(ls[2 * k + 1] == p[k].1);
        assert(plain_value(p[k].1));
        assert(crate::dxf_parse::trim_end(p[k].1) =~= p[k].1);
        assert(seq![p[k]] + p.skip(k + 1) =~= p.skip(k));
    }
}

} // verus!
