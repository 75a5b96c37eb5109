//! The integer core of DXF handling: group-code framing, entity
//! boundaries, and the canonical (quantized, order-independent) form used to
//! compare drawings semantically.
use vstd::prelude::*;
use crate::order::{
    key_lt, keys_of, keys_sorted, lemma_lex_antisymmetric, lemma_lex_total, lemma_lex_transitive,
    lemma_sorted_unique, lex_le, lex_lt, seq_sorted, sort_by_key,
};

verus! {

/// A point whose coordinates are multiples of the normalization epsilon.
#[derive(Debug, Clone, Copy, PartialEq, Eq, PartialOrd, Ord, Structural)]
pub struct QPoint2 {
    pub x: i64,
    pub y: i64,
}

/// A quantized entity in canonical form.
#[derive(Debug, Clone, PartialEq, Eq, PartialOrd, Ord)]
pub enum NormalizedEntity {
    Line { a: QPoint2, b: QPoint2 },
    Circle { c: QPoint2, r: i64 },
    Arc { c: QPoint2, r: i64, start: i64, end: i64 },
    Polyline { vertices: Vec<QPoint2>, bulges: Vec<i64>, closed: bool },
}

/// A drawing in canonical form: its entities sorted.
#[derive(Debug, Clone)]
pub struct NormalizedDxf {
    pub entities: Vec<NormalizedEntity>,
}

/// An entity kind that normalization does not handle.
#[derive(Debug, Clone)]
pub struct Unsupported {
    pub kind: String,
}

/// How two canonical drawings differ.
#[derive(Debug)]
#[allow(inconsistent_fields)]
pub enum DxfCompareError {
    EntityCount { left: usize, right: usize },
    EntityMismatch { index: usize, left: NormalizedEntity, right: NormalizedEntity },
}

/// Vertices as a key: each vertex as `1, x, y`, then `0`, so that the
/// lexicographic order of keys is the order of the vertex slices.
pub open spec fn points_key(vs: Seq<QPoint2>) -> Seq<i64>
    decreases vs.len(),
{
    if vs.len() == 0 {
        seq![0]
    } else {
        seq![1, vs[0].x, vs[0].y] + points_key(vs.drop_first())
    }
}

/// Integers as a key: each as `1, b`, then `0`.
pub open spec fn ints_key(bs: Seq<i64>) -> Seq<i64>
    decreases bs.len(),
{
    if bs.len() == 0 {
        seq![0]
    } else {
        seq![1, bs[0]] + ints_key(bs.drop_first())
    }
}

/// Key of a (vertices, bulges) pair: the pair order compares the vertex
/// slices first, then the bulge slices.
pub open spec fn pair_key(vs: Seq<QPoint2>, bs: Seq<i64>) -> Seq<i64> {
    points_key(vs) + ints_key(bs)
}

/// Key of an entity; the lexicographic order of keys is the entity order:
/// variants in declaration order, then fields in declaration order.
pub open spec fn entity_key(e: NormalizedEntity) -> Seq<i64> {
    match e {
        NormalizedEntity::Line { a, b } => seq![0, a.x, a.y, b.x, b.y],
        NormalizedEntity::Circle { c, r } => seq![1, c.x, c.y, r],
        NormalizedEntity::Arc { c, r, start, end } => seq![2, c.x, c.y, r, start, end],
        NormalizedEntity::Polyline { vertices, bulges, closed } => seq![3] + pair_key(
            vertices@,
            bulges@,
        ) + seq![if closed { 1 } else { 0 }],
    }
}

pub open spec fn entity_eq(a: NormalizedEntity, b: NormalizedEntity) -> bool {
    match (a, b) {
        (NormalizedEntity::Line { a: a1, b: b1 }, NormalizedEntity::Line { a: a2, b: b2 }) => a1
            == a2 && b1 == b2,
        (NormalizedEntity::Circle { c: c1, r: r1 }, NormalizedEntity::Circle { c: c2, r: r2 }) => c1
            == c2 && r1 == r2,
        (
            NormalizedEntity::Arc { c: c1, r: r1, start: s1, end: e1 },
            NormalizedEntity::Arc { c: c2, r: r2, start: s2, end: e2 },
        ) => c1 == c2 && r1 == r2 && s1 == s2 && e1 == e2,
        (
            NormalizedEntity::Polyline { vertices: v1, bulges: b1, closed: k1 },
            NormalizedEntity::Polyline { vertices: v2, bulges: b2, closed: k2 },
        ) => v1@ == v2@ && b1@ == b2@ && k1 == k2,
        _ => false,
    }
}

fn seq_eq_points(a: &Vec<QPoint2>, b: &Vec<QPoint2>) -> (r: bool)
    ensures
        r == (a@ == b@),
{
    if a.len() != b.len() {
        return false;
    }
    let mut i: usize = 0;
    while i < a.len()
        invariant
            a.len() == b.len(),
            i <= a.len(),
            forall|k: int| 0 <= k < i ==> a@[k] == b@[k],
        decreases a.len() - i,
    {
        if a[i] != b[i] {
            return false;
        }
        i += 1;
    }
    assert(a@ =~= b@);
    true
}

fn seq_eq_ints(a: &Vec<i64>, b: &Vec<i64>) -> (r: bool)
    ensures
        r == (a@ == b@),
{
    if a.len() != b.len() {
        return false;
    }
    let mut i: usize = 0;
    while i < a.len()
        invariant
            a.len() == b.len(),
            i <= a.len(),
            forall|k: int| 0 <= k < i ==> a@[k] == b@[k],
        decreases a.len() - i,
    {
        if a[i] != b[i] {
            return false;
        }
        i += 1;
    }
    assert(a@ =~= b@);
    true
}

/// Whether two canonical entities are the same.
pub fn entities_equal(a: &NormalizedEntity, b: &NormalizedEntity) -> (r: bool)
    ensures
        r == entity_eq(*a, *b),
{
    match (a, b) {
        (NormalizedEntity::Line { a: a1, b: b1 }, NormalizedEntity::Line { a: a2, b: b2 }) => *a1
            == *a2 && *b1 == *b2,
        (NormalizedEntity::Circle { c: c1, r: r1 }, NormalizedEntity::Circle { c: c2, r: r2 }) => *c1
            == *c2 && *r1 == *r2,
        (
            NormalizedEntity::Arc { c: c1, r: r1, start: s1, end: e1 },
            NormalizedEntity::Arc { c: c2, r: r2, start: s2, end: e2 },
        ) => *c1 == *c2 && *r1 == *r2 && *s1 == *s2 && *e1 == *e2,
        (
            NormalizedEntity::Polyline { vertices: v1, bulges: b1, closed: k1 },
            NormalizedEntity::Polyline { vertices: v2, bulges: b2, closed: k2 },
        ) => seq_eq_points(v1, v2) && seq_eq_ints(b1, b2) && *k1 == *k2,
        _ => false,
    }
}

fn clone_points(v: &Vec<QPoint2>) -> (r: Vec<QPoint2>)
    ensures
        r@ == v@,
{
    let mut r: Vec<QPoint2> = Vec::new();
    let mut i: usize = 0;
    while i < v.len()
        invariant
            i <= v.len(),
            r@ == v@.take(i as int),
        decreases v.len() - i,
    {
        r.push(v[i]);
        assert(v@.take(i + 1) =~= v@.take(i as int).push(v@[i as int]));
        i += 1;
    }
    assert(v@.take(v.len() as int) =~= v@);
    r
}

fn clone_ints(v: &Vec<i64>) -> (r: Vec<i64>)
    ensures
        r@ == v@,
{
    let mut r: Vec<i64> = Vec::new();
    let mut i: usize = 0;
    while i < v.len()
        invariant
            i <= v.len(),
            r@ == v@.take(i as int),
        decreases v.len() - i,
    {
        r.push(v[i]);
        assert(v@.take(i + 1) =~= v@.take(i as int).push(v@[i as int]));
        i += 1;
    }
    assert(v@.take(v.len() as int) =~= v@);
    r
}

/// A copy of a canonical entity.
pub fn copy_entity(e: &NormalizedEntity) -> (r: NormalizedEntity)
    ensures
        entity_eq(r, *e),
        entity_key(r) == entity_key(*e),
{
    match e {
        NormalizedEntity::Line { a, b } => NormalizedEntity::Line { a: *a, b: *b },
        NormalizedEntity::Circle { c, r } => NormalizedEntity::Circle { c: *c, r: *r },
        NormalizedEntity::Arc { c, r, start, end } => NormalizedEntity::Arc {
            c: *c,
            r: *r,
            start: *start,
            end: *end,
        },
        NormalizedEntity::Polyline { vertices, bulges, closed } => NormalizedEntity::Polyline {
            vertices: clone_points(vertices),
            bulges: clone_ints(bulges),
            closed: *closed,
        },
    }
}

impl NormalizedDxf {
    /// Compares two canonical drawings entity by entity: the entity counts
    /// first, then the first index at which the entities differ.
    pub fn compare_semantic(&self, other: &Self) -> (res: Result<(), DxfCompareError>)
        ensures
            self.entities.len() != other.entities.len() ==> (res matches Err(
                DxfCompareError::EntityCount { left, right },
            ) && left == self.entities.len() && right == other.entities.len()),
            self.entities.len() == other.entities.len() ==> match res {
                Ok(()) => forall|k: int|
                    0 <= k < self.entities.len() ==> entity_eq(
                        #[trigger] self.entities@[k],
                        other.entities@[k],
                    ),
                Err(DxfCompareError::EntityMismatch { index, left, right }) => index
                    < self.entities.len() && !entity_eq(
                    self.entities@[index as int],
                    other.entities@[index as int],
                ) && (forall|k: int|
                    0 <= k < index ==> entity_eq(
                        #[trigger] self.entities@[k],
                        other.entities@[k],
                    )) && entity_eq(left, self.entities@[index as int]) && entity_eq(
                    right,
                    other.entities@[index as int],
                ),
                Err(DxfCompareError::EntityCount { .. }) => false,
            },
    {
        if self.entities.len() != other.entities.len() {
            return Err(
                DxfCompareError::EntityCount {
                    left: self.entities.len(),
                    right: other.entities.len(),
                },
            );
        }
        let mut i: usize = 0;
        while i < self.entities.len()
            invariant
                self.entities.len() == other.entities.len(),
                i <= self.entities.len(),
                forall|k: int|
                    0 <= k < i ==> entity_eq(#[trigger] self.entities@[k], other.entities@[k]),
            decreases self.entities.len() - i,
        {
            if !entities_equal(&self.entities[i], &other.entities[i]) {
                return Err(
                    DxfCompareError::EntityMismatch {
                        index: i,
                        left: copy_entity(&self.entities[i]),
                        right: copy_entity(&other.entities[i]),
                    },
                );
            }
            i += 1;
        }
        Ok(())
    }
}

} // verus!

verus! {

/// The pair rotated to start at index `rot`.
pub open spec fn rot_points(vs: Seq<QPoint2>, rot: int) -> Seq<QPoint2> {
    Seq::new(vs.len(), |i: int| vs[(i + rot) % (vs.len() as int)])
}

pub open spec fn rot_ints(bs: Seq<i64>, n: nat, rot: int) -> Seq<i64> {
    Seq::new(n, |i: int| bs[(i + rot) % (n as int)])
}

/// `bs` cut or padded with zeros to length `n`.
pub open spec fn fit_len(bs: Seq<i64>, n: nat) -> Seq<i64> {
    if bs.len() >= n {
        bs.take(n as int)
    } else {
        bs + Seq::new((n - bs.len()) as nat, |i: int| 0i64)
    }
}

/// Bulges of the reversed polyline: reversed, and for a closed polyline
/// the last moved to the front, at the vertex count.
pub open spec fn rev_bulges(bs: Seq<i64>, n: nat, closed: bool) -> Seq<i64> {
    let r = bs.reverse();
    let r2 = if closed && r.len() > 0 {
        seq![r.last()] + r.drop_last()
    } else {
        r
    };
    fit_len(r2, n)
}

/// `rotated` on slices: vertices and bulges starting at index `rot`.
pub fn rotated(vertices: &[QPoint2], bulges: &[i64], rot: usize) -> (r: (Vec<QPoint2>, Vec<i64>))
    requires
        bulges.len() >= vertices.len(),
    ensures
        r.0@ == rot_points(vertices@, rot as int),
        r.1@ == rot_ints(bulges@, vertices.len() as nat, rot as int),
{
    let n = vertices.len();
    let mut v: Vec<QPoint2> = Vec::new();
    let mut b: Vec<i64> = Vec::new();
    let mut i: usize = 0;
    while i < n
        invariant
            n == vertices.len(),
            bulges.len() >= n,
            i <= n,
            v@ == rot_points(vertices@, rot as int).take(i as int),
            b@ == rot_ints(bulges@, n as nat, rot as int).take(i as int),
        decreases n - i,
    {
        let r = rot % n;
        let idx = if i < n - r { i + r } else { i - (n - r) };
        assert(idx == (i + rot) % (n as int)) by (nonlinear_arith)
            requires
                r == rot % n,
                0 <= i < n,
                idx == (if i < n - r { i + r } else { i - (n - r) }),
        ;
        v.push(vertices[idx]);
        b.push(bulges[idx]);
        assert(v@ =~= rot_points(vertices@, rot as int).take(i + 1));
        assert(b@ =~= rot_ints(bulges@, n as nat, rot as int).take(i + 1));
        i += 1;
    }
    assert(v@ =~= rot_points(vertices@, rot as int));
    assert(b@ =~= rot_ints(bulges@, n as nat, rot as int));
    (v, b)
}

fn fit_exec(b: &mut Vec<i64>, n: usize)
    ensures
        final(b)@ == fit_len(old(b)@, n as nat),
{
    if b.len() >= n {
        b.truncate(n);
        assert(b@ =~= fit_len(old(b)@, n as nat));
    } else {
        while b.len() < n
            invariant
                old(b)@.len() < n,
                old(b)@.len() <= b@.len() <= n,
                b@ == old(b)@ + Seq::new((b@.len() - old(b)@.len()) as nat, |i: int| 0i64),
            decreases n - b.len(),
        {
            let ghost prev = b@;
            b.push(0);
            assert(b@ =~= old(b)@ + Seq::new((b@.len() - old(b)@.len()) as nat, |i: int| 0i64));
        }
    }
}

/// `reversed`: vertices reversed; bulges reversed, the last moved to the
/// front when closed, at the vertex count.
pub fn reversed(vertices: &[QPoint2], bulges: &[i64], closed: bool) -> (r: (Vec<QPoint2>, Vec<i64>))
    ensures
        r.0@ == vertices@.reverse(),
        r.1@ == rev_bulges(bulges@, vertices.len() as nat, closed),
{
    let mut v: Vec<QPoint2> = Vec::new();
    let mut i = vertices.len();
    while i > 0
        invariant
            i <= vertices.len(),
            v@ == vertices@.reverse().take(vertices.len() - i),
        decreases i,
    {
        i -= 1;
        v.push(vertices[i]);
        assert(v@ =~= vertices@.reverse().take(vertices.len() - i));
    }
    assert(v@ =~= vertices@.reverse());
    let mut b: Vec<i64> = Vec::new();
    let mut j = bulges.len();
    while j > 0
        invariant
            j <= bulges.len(),
            b@ == bulges@.reverse().take(bulges.len() - j),
        decreases j,
    {
        j -= 1;
        b.push(bulges[j]);
        assert(b@ =~= bulges@.reverse().take(bulges.len() - j));
    }
    assert(b@ =~= bulges@.reverse());
    if closed {
        if let Some(last) = b.pop() {
            b.insert(0, last);
            assert(b@ =~= seq![bulges@.reverse().last()] + bulges@.reverse().drop_last());
        }
    }
    fit_exec(&mut b, v.len());
    (v, b)
}

/// Number of starting points tried: every vertex of a closed polyline, only
/// the first of an open one.
pub open spec fn candidates(n: nat, closed: bool) -> nat {
    if closed {
        n
    } else {
        1
    }
}

/// The least pair among the rotations `r..` and their reversals, starting
/// from `best`, keeping the earlier pair on ties.
pub open spec fn canon_from(
    vs: Seq<QPoint2>,
    bs: Seq<i64>,
    closed: bool,
    r: int,
    best: (Seq<QPoint2>, Seq<i64>),
) -> (Seq<QPoint2>, Seq<i64>)
    decreases candidates(vs.len(), closed) - r,
{
    if r < 0 || r >= candidates(vs.len(), closed) {
        best
    } else {
        let v1 = rot_points(vs, r);
        let b1 = rot_ints(bs, vs.len(), r);
        let v2 = v1.reverse();
        let b2 = rev_bulges(b1, vs.len(), closed);
        let best1 = if lex_lt(pair_key(v1, b1), pair_key(best.0, best.1)) {
            (v1, b1)
        } else {
            best
        };
        let best2 = if lex_lt(pair_key(v2, b2), pair_key(best1.0, best1.1)) {
            (v2, b2)
        } else {
            best1
        };
        canon_from(vs, bs, closed, r + 1, best2)
    }
}

/// The canonical (vertices, bulges) of a polyline: bulges fitted to the
/// vertex count, then the least of the candidate starting points and
/// directions.
pub open spec fn canon_polyline(vs: Seq<QPoint2>, bs: Seq<i64>, closed: bool) -> (Seq<QPoint2>, Seq<i64>) {
    if vs.len() == 0 {
        (vs, bs)
    } else if vs.len() == 1 {
        (vs, if bs.len() > 1 { bs.take(1) } else { bs })
    } else {
        let fb = fit_len(bs, vs.len());
        canon_from(vs, fb, closed, 0, (vs, fb))
    }
}

fn points_key_exec(out: &mut Vec<i64>, vs: &[QPoint2])
    ensures
        final(out)@ == old(out)@ + points_key(vs@),
    decreases vs.len(),
{
    let mut i: usize = 0;
    assert(vs@.skip(0) =~= vs@);
    while i < vs.len()
        invariant
            i <= vs.len(),
            old(out)@ + points_key(vs@) == out@ + points_key(vs@.skip(i as int)),
        decreases vs.len() - i,
    {
        let ghost o = out@;
        out.push(1);
        out.push(vs[i].x);
        out.push(vs[i].y);
        proof {
            let r = vs@.skip(i as int);
            assert(r[0] == vs@[i as int]);
            assert(r.drop_first() =~= vs@.skip(i + 1));
            assert(out@ =~= o + seq![1, vs@[i as int].x, vs@[i as int].y]);
        }
        i += 1;
    }
    out.push(0);
    assert(vs@.skip(vs.len() as int) =~= Seq::<QPoint2>::empty());
}

fn ints_key_exec(out: &mut Vec<i64>, bs: &[i64])
    ensures
        final(out)@ == old(out)@ + ints_key(bs@),
{
    let mut i: usize = 0;
    assert(bs@.skip(0) =~= bs@);
    while i < bs.len()
        invariant
            i <= bs.len(),
            old(out)@ + ints_key(bs@) == out@ + ints_key(bs@.skip(i as int)),
        decreases bs.len() - i,
    {
        let ghost o = out@;
        out.push(1);
        out.push(bs[i]);
        proof {
            let r = bs@.skip(i as int);
            assert(r[0] == bs@[i as int]);
            assert(r.drop_first() =~= bs@.skip(i + 1));
            assert(out@ =~= o + seq![1, bs@[i as int]]);
        }
        i += 1;
    }
    out.push(0);
    assert(bs@.skip(bs.len() as int) =~= Seq::<i64>::empty());
}

fn pair_key_exec(vs: &[QPoint2], bs: &[i64]) -> (k: Vec<i64>)
    ensures
        k@ == pair_key(vs@, bs@),
{
    let mut k: Vec<i64> = Vec::new();
    points_key_exec(&mut k, vs);
    ints_key_exec(&mut k, bs);
    assert(k@ =~= pair_key(vs@, bs@));
    k
}

fn pair_lt(v1: &Vec<QPoint2>, b1: &Vec<i64>, v2: &Vec<QPoint2>, b2: &Vec<i64>) -> (r: bool)
    ensures
        r == lex_lt(pair_key(v1@, b1@), pair_key(v2@, b2@)),
{
    let k1 = pair_key_exec(v1.as_slice(), b1.as_slice());
    let k2 = pair_key_exec(v2.as_slice(), b2.as_slice());
    key_lt(k1.as_slice(), k2.as_slice())
}

/// Puts a quantized polyline in canonical form: bulges fitted to the vertex
/// count, and, among the starting vertices (all of them when closed, the
/// first otherwise) and both directions, the least (vertices, bulges).
pub fn canonicalize_polyline(vertices: &mut Vec<QPoint2>, bulges: &mut Vec<i64>, closed: bool)
    ensures
        (final(vertices)@, final(bulges)@) == canon_polyline(old(vertices)@, old(bulges)@, closed),
{
    if vertices.len() == 0 {
        return;
    }
    if vertices.len() == 1 {
        bulges.truncate(1);
        assert(bulges@ =~= (if old(bulges)@.len() > 1 { old(bulges)@.take(1) } else { old(bulges)@ }));
        return;
    }
    let n = vertices.len();
    fit_exec(bulges, n);
    let ghost vs = vertices@;
    let ghost fb = bulges@;
    let mut best_v = clone_points(vertices);
    let mut best_b = clone_ints(bulges);
    let cand = if closed { n } else { 1 };
    let mut rot: usize = 0;
    while rot < cand
        invariant
            vertices@ == vs,
            bulges@ == fb,
            vs.len() == n,
            fb.len() == n,
            n >= 2,
            cand == candidates(n as nat, closed),
            rot <= cand,
            canon_from(vs, fb, closed, 0, (vs, fb)) == canon_from(
                vs,
                fb,
                closed,
                rot as int,
                (best_v@, best_b@),
            ),
        decreases cand - rot,
    {
        let (v1, b1) = rotated(vertices.as_slice(), bulges.as_slice(), rot);
        let (v2, b2) = reversed(v1.as_slice(), b1.as_slice(), closed);
        if pair_lt(&v1, &b1, &best_v, &best_b) {
            best_v = clone_points(&v1);
            best_b = clone_ints(&b1);
        }
        if pair_lt(&v2, &b2, &best_v, &best_b) {
            best_v = v2;
            best_b = b2;
        }
        rot += 1;
    }
    *vertices = best_v;
    *bulges = best_b;
}

} // verus!

verus! {

/// Errors of DXF parsing and normalization (the ones that do not concern
/// floating-point values).
#[derive(Debug)]
pub enum DxfError {
    OddNumberOfLines,
    InvalidGroupCode { raw: String, line: usize },
    MissingEntitiesSection,
    UnexpectedEof { context: String },
    MissingRequiredGroup { entity: String, code: i32 },
    InvalidFloat { entity: String, code: i32, raw: String },
    NonFinite { what: String },
    QuantizeOutOfRange { what: String },
    UnsupportedEntities { kinds: Vec<String> },
}

/// An entity with its coordinates already quantized, before canonical
/// ordering.
#[derive(Debug, Clone)]
pub enum QuantizedEntity {
    Line { a: QPoint2, b: QPoint2 },
    Circle { c: QPoint2, r: i64 },
    Arc { c: QPoint2, r: i64, start: i64, end: i64 },
    Polyline { vertices: Vec<QPoint2>, bulges: Vec<i64>, closed: bool },
    Unsupported(Unsupported),
}

/// The point order (`x`, then `y`).
pub open spec fn qp_le(a: QPoint2, b: QPoint2) -> bool {
    a.x < b.x || (a.x == b.x && a.y <= b.y)
}

/// Key of the canonical form of a supported entity: a line's endpoints
/// in point order, a polyline canonicalized; `None` for an unsupported one.
pub open spec fn normalized_key(e: QuantizedEntity) -> Option<Seq<i64>> {
    match e {
        QuantizedEntity::Line { a, b } => Some(
            if qp_le(a, b) {
                seq![0, a.x, a.y, b.x, b.y]
            } else {
                seq![0, b.x, b.y, a.x, a.y]
            },
        ),
        QuantizedEntity::Circle { c, r } => Some(seq![1, c.x, c.y, r]),
        QuantizedEntity::Arc { c, r, start, end } => Some(seq![2, c.x, c.y, r, start, end]),
        QuantizedEntity::Polyline { vertices, bulges, closed } => {
            let p = canon_polyline(vertices@, bulges@, closed);
            Some(seq![3] + pair_key(p.0, p.1) + seq![if closed { 1 } else { 0 }])
        },
        QuantizedEntity::Unsupported(_) => None,
    }
}

/// Keys of the canonical forms of the supported entities, in input order.
pub open spec fn supported_keys(s: Seq<QuantizedEntity>) -> Seq<Seq<i64>>
    decreases s.len(),
{
    if s.len() == 0 {
        seq![]
    } else {
        let rest = supported_keys(s.drop_last());
        match normalized_key(s.last()) {
            Some(k) => rest.push(k),
            None => rest,
        }
    }
}

/// The kinds of the unsupported entities, in input order.
pub open spec fn unsupported_kinds(s: Seq<QuantizedEntity>) -> Seq<Seq<char>>
    decreases s.len(),
{
    if s.len() == 0 {
        seq![]
    } else {
        let rest = unsupported_kinds(s.drop_last());
        match s.last() {
            QuantizedEntity::Unsupported(u) => rest.push(u.kind@),
            _ => rest,
        }
    }
}

/// Code of a character as a key element.
pub open spec fn char_code(c: char) -> i64 {
    c as u32 as i64
}

/// Key of a string: its character codes (the order of `String`).
pub open spec fn str_key(s: Seq<char>) -> Seq<i64> {
    s.map_values(|c: char| char_code(c))
}

/// The views of a sequence of strings.
pub open spec fn views(s: Seq<String>) -> Seq<Seq<char>> {
    s.map_values(|x: String| x@)
}

/// Every element of each sequence occurs in the other.
pub open spec fn same_members(a: Seq<Seq<char>>, b: Seq<Seq<char>>) -> bool {
    &&& forall|i: int| 0 <= i < a.len() ==> b.contains(#[trigger] a[i])
    &&& forall|j: int| 0 <= j < b.len() ==> a.contains(#[trigger] b[j])
}

pub open spec fn entity_keys(s: Seq<NormalizedEntity>) -> Seq<Seq<i64>> {
    s.map_values(|e: NormalizedEntity| entity_key(e))
}

/// Sorted by key.
pub open spec fn entities_sorted(s: Seq<NormalizedEntity>) -> bool {
    forall|i: int, j: int| 0 <= i < j < s.len() ==> lex_le(entity_key(s[i]), entity_key(s[j]))
}

fn entity_key_exec(e: &NormalizedEntity) -> (k: Vec<i64>)
    ensures
        k@ == entity_key(*e),
{
    match e {
        NormalizedEntity::Line { a, b } => {
            let k = vec![0, a.x, a.y, b.x, b.y];
            assert(k@ =~= entity_key(*e));
            k
        },
        NormalizedEntity::Circle { c, r } => {
            let k = vec![1, c.x, c.y, *r];
            assert(k@ =~= entity_key(*e));
            k
        },
        NormalizedEntity::Arc { c, r, start, end } => {
            let k = vec![2, c.x, c.y, *r, *start, *end];
            assert(k@ =~= entity_key(*e));
            k
        },
        NormalizedEntity::Polyline { vertices, bulges, closed } => {
            let mut k: Vec<i64> = vec![3];
            let pk = pair_key_exec(vertices.as_slice(), bulges.as_slice());
            let mut i: usize = 0;
            while i < pk.len()
                invariant
                    i <= pk.len(),
                    k@ == seq![3i64] + pk@.take(i as int),
                decreases pk.len() - i,
            {
                k.push(pk[i]);
                assert(pk@.take(i + 1) =~= pk@.take(i as int).push(pk@[i as int]));
                i += 1;
            }
            assert(pk@.take(pk.len() as int) =~= pk@);
            k.push(if *closed { 1 } else { 0 });
            assert(k@ =~= entity_key(*e));
            k
        },
    }
}

fn str_key_exec(s: &String) -> (k: Vec<i64>)
    ensures
        k@ == str_key(s@),
{
    let cs = crate::text::chars_of(s.as_str());
    let mut k: Vec<i64> = Vec::new();
    let mut i: usize = 0;
    while i < cs.len()
        invariant
            cs@ == s@,
            i <= cs.len(),
            k@ == str_key(s@).take(i as int),
        decreases cs.len() - i,
    {
        k.push(cs[i] as u32 as i64);
        assert(str_key(s@).take(i + 1) =~= str_key(s@).take(i as int).push(cs@[i as int] as u32 as i64));
        i += 1;
    }
    assert(str_key(s@).take(cs.len() as int) =~= str_key(s@));
    k
}

proof fn lemma_char_code_injective(a: char, b: char)
    requires
        char_code(a) == char_code(b),
    ensures
        a == b,
{
}

proof fn lemma_str_key_injective(a: Seq<char>, b: Seq<char>)
    requires
        str_key(a) == str_key(b),
    ensures
        a == b,
{
    assert(a.len() == str_key(a).len());
    assert(b.len() == str_key(b).len());
    assert forall|i: int| 0 <= i < a.len() implies a[i] == b[i] by {
        assert(str_key(a)[i] == char_code(a[i]));
        assert(str_key(b)[i] == char_code(b[i]));
        lemma_char_code_injective(a[i], b[i]);
    }
    assert(a =~= b);
}

/// The strings keyed by their character codes.
fn key_strings(kinds: Vec<String>) -> (keyed: Vec<(Vec<i64>, String)>)
    ensures
        keyed@.len() == kinds@.len(),
        forall|k: int| 0 <= k < keyed@.len() ==> (#[trigger] keyed@[k]).1 == kinds@[k] && keyed@[k].0@ == str_key(kinds@[k]@),
{
    let mut keyed: Vec<(Vec<i64>, String)> = Vec::new();
    let mut kinds = kinds;
    let ghost orig = kinds@;
    while kinds.len() > 0
        invariant
            kinds@ == orig.skip(keyed@.len() as int),
            keyed@.len() <= orig.len(),
            forall|k: int| 0 <= k < keyed@.len() ==> (#[trigger] keyed@[k]).1 == orig[k] && keyed@[k].0@ == str_key(orig[k]@),
        decreases kinds.len(),
    {
        let s = kinds.remove(0);
        assert(s == orig[keyed@.len() as int]);
        let k = str_key_exec(&s);
        keyed.push((k, s));
        assert(kinds@ =~= orig.skip(keyed@.len() as int));
    }
    assert(orig.skip(keyed@.len() as int).len() == 0);
    keyed
}

pub open spec fn keyed_by_str(s: Seq<(Vec<i64>, String)>) -> bool {
    forall|k: int| 0 <= k < s.len() ==> (#[trigger] s[k]).0@ == str_key(s[k].1@)
}

proof fn lemma_keyed_by_str_mset(a: Seq<(Vec<i64>, String)>, b: Seq<(Vec<i64>, String)>)
    requires
        keyed_by_str(a),
        a.to_multiset() == b.to_multiset(),
    ensures
        keyed_by_str(b),
{
    assert forall|k: int| 0 <= k < b.len() implies (#[trigger] b[k]).0@ == str_key(b[k].1@) by {
        crate::order::lemma_mset_has(b, a, k);
    }
}

pub open spec fn second_views(s: Seq<(Vec<i64>, String)>) -> Seq<Seq<char>> {
    s.map_values(|p: (Vec<i64>, String)| p.1@)
}

pub open spec fn strictly_sorted(s: Seq<Seq<char>>) -> bool {
    forall|a: int, b: int| 0 <= a < b < s.len() ==> lex_lt(str_key(s[a]), str_key(s[b]))
}

proof fn lemma_dedup_step(out: Seq<Seq<char>>, prev: Seq<char>, next: Seq<char>)
    requires
        strictly_sorted(out),
        out.len() > 0,
        out.last() == prev,
        lex_le(str_key(prev), str_key(next)),
        prev != next,
    ensures
        strictly_sorted(out.push(next)),
{
    if str_key(prev) == str_key(next) {
        lemma_str_key_injective(prev, next);
    }
    assert forall|a: int, b: int| 0 <= a < b < out.push(next).len() implies lex_lt(
        str_key(out.push(next)[a]),
        str_key(out.push(next)[b]),
    ) by {
        if b == out.len() {
            if a < out.len() - 1 {
                crate::order::lemma_lex_transitive(str_key(out[a]), str_key(prev), str_key(next));
            }
        }
    }
}

/// Adjacent duplicates removed from a key-sorted sequence.
fn dedup_sorted(sorted: &Vec<(Vec<i64>, String)>) -> (out: Vec<String>)
    requires
        keys_sorted(sorted@),
        keyed_by_str(sorted@),
    ensures
        strictly_sorted(views(out@)),
        same_members(views(out@), second_views(sorted@)),
{
    let mut out: Vec<String> = Vec::new();
    let mut j: usize = 0;
    let ghost sv = second_views(sorted@);
    while j < sorted.len()
        invariant
            j <= sorted.len(),
            sv == second_views(sorted@),
            keys_sorted(sorted@),
            keyed_by_str(sorted@),
            strictly_sorted(views(out@)),
            out@.len() > 0 ==> j > 0 && views(out@).last() == sv[j - 1],
            j > 0 ==> out@.len() > 0,
            same_members(views(out@), sv.take(j as int)),
        decreases sorted.len() - j,
    {
        let ghost ov = views(out@);
        let push = if out.len() == 0 {
            true
        } else {
            let n = out.len();
            !(out[n - 1] == sorted[j].1)
        };
        assert(sv[j as int] == sorted@[j as int].1@);
        if push {
            proof {
                if ov.len() > 0 {
                    assert(sorted@[j - 1].0@ == str_key(sorted@[j - 1].1@));
                    assert(sorted@[j as int].0@ == str_key(sorted@[j as int].1@));
                    assert(lex_le(sorted@[j - 1].0@, sorted@[j as int].0@));
                    assert(sv[j - 1] == sorted@[j - 1].1@);
                    lemma_dedup_step(ov, sv[j - 1], sv[j as int]);
                }
            }
            out.push(sorted[j].1.clone());
            assert(views(out@) =~= ov.push(sv[j as int]));
        }
        proof {
            let nv = views(out@);
            let st = sv.take(j + 1);
            assert(st =~= sv.take(j as int).push(sv[j as int]));
            assert forall|i: int| 0 <= i < nv.len() implies st.contains(#[trigger] nv[i]) by {
                if i < ov.len() {
                    assert(nv[i] == ov[i]);
                    assert(sv.take(j as int).contains(ov[i]));
                    let k = choose|k: int| 0 <= k < j && sv.take(j as int)[k] == ov[i];
                    assert(st[k] == ov[i]);
                } else {
                    assert(st[j as int] == nv[i]);
                }
            }
            assert forall|k: int| 0 <= k < st.len() implies nv.contains(#[trigger] st[k]) by {
                if k < j {
                    assert(st[k] == sv.take(j as int)[k]);
                    assert(ov.contains(st[k]));
                    let i = choose|i: int| 0 <= i < ov.len() && ov[i] == st[k];
                    assert(nv[i] == ov[i]);
                } else {
                    assert(nv[nv.len() - 1] == st[k]);
                }
            }
        }
        j += 1;
    }
    assert(sv.take(sorted.len() as int) =~= sv);
    out
}

/// The distinct kinds, sorted (`sort` then `dedup`).
pub fn sort_dedup_kinds(kinds: Vec<String>) -> (r: Vec<String>)
    ensures
        strictly_sorted(views(r@)),
        same_members(views(r@), views(kinds@)),
{
    let ghost orig = kinds@;
    let keyed = key_strings(kinds);
    let ghost before = keyed@;
    let sorted = sort_by_key(keyed);
    proof {
        lemma_keyed_by_str_mset(before, sorted@);
    }
    let out = dedup_sorted(&sorted);
    proof {
        let ov = views(out@);
        let sv = second_views(sorted@);
        let kv = views(orig);
        assert forall|i: int| 0 <= i < ov.len() implies kv.contains(#[trigger] ov[i]) by {
            assert(sv.contains(ov[i]));
            let b = choose|b: int| 0 <= b < sv.len() && sv[b] == ov[i];
            crate::order::lemma_mset_has(sorted@, before, b);
            let c = choose|c: int| 0 <= c < before.len() && before[c] == sorted@[b];
            assert(before[c].1 == orig[c]);
            assert(kv[c] == ov[i]);
        }
        assert forall|c: int| 0 <= c < kv.len() implies ov.contains(#[trigger] kv[c]) by {
            assert(before[c].1 == orig[c]);
            crate::order::lemma_mset_has(before, sorted@, c);
            let b = choose|b: int| 0 <= b < sorted@.len() && sorted@[b] == before[c];
            assert(sv[b] == kv[c]);
            assert(ov.contains(sv[b]));
        }
    }
    out
}

} // verus!

verus! {

fn qp_le_exec(a: QPoint2, b: QPoint2) -> (r: bool)
    ensures
        r == qp_le(a, b),
{
    a.x < b.x || (a.x == b.x && a.y <= b.y)
}

pub open spec fn keyed_by_entity(s: Seq<(Vec<i64>, NormalizedEntity)>) -> bool {
    forall|k: int| 0 <= k < s.len() ==> (#[trigger] s[k]).0@ == entity_key(s[k].1)
}

proof fn lemma_keyed_by_entity_mset(a: Seq<(Vec<i64>, NormalizedEntity)>, b: Seq<(Vec<i64>, NormalizedEntity)>)
    requires
        keyed_by_entity(a),
        a.to_multiset() == b.to_multiset(),
    ensures
        keyed_by_entity(b),
{
    assert forall|k: int| 0 <= k < b.len() implies (#[trigger] b[k]).0@ == entity_key(b[k].1) by {
        crate::order::lemma_mset_has(b, a, k);
    }
}

/// The canonical form of one supported entity, with its key.
fn normalize_one(e: &QuantizedEntity) -> (r: Option<(Vec<i64>, NormalizedEntity)>)
    ensures
        match (r, normalized_key(*e)) {
            (Some(p), Some(k)) => p.0@ == k && entity_key(p.1) == k,
            (None, None) => true,
            _ => false,
        },
{
    match e {
        QuantizedEntity::Line { a, b } => {
            let n = if qp_le_exec(*a, *b) {
                NormalizedEntity::Line { a: *a, b: *b }
            } else {
                NormalizedEntity::Line { a: *b, b: *a }
            };
            let k = entity_key_exec(&n);
            Some((k, n))
        },
        QuantizedEntity::Circle { c, r } => {
            let n = NormalizedEntity::Circle { c: *c, r: *r };
            let k = entity_key_exec(&n);
            Some((k, n))
        },
        QuantizedEntity::Arc { c, r, start, end } => {
            let n = NormalizedEntity::Arc { c: *c, r: *r, start: *start, end: *end };
            let k = entity_key_exec(&n);
            Some((k, n))
        },
        QuantizedEntity::Polyline { vertices, bulges, closed } => {
            let mut v = clone_points(vertices);
            let mut b = clone_ints(bulges);
            canonicalize_polyline(&mut v, &mut b, *closed);
            let n = NormalizedEntity::Polyline { vertices: v, bulges: b, closed: *closed };
            let k = entity_key_exec(&n);
            Some((k, n))
        },
        QuantizedEntity::Unsupported(_) => None,
    }
}

/// `d` is a canonical form of `e`: sorted, with one entity per supported
/// entity of `e`, each keyed by the canonical key of that entity.
pub open spec fn normalized_from(e: Seq<QuantizedEntity>, d: Seq<NormalizedEntity>) -> bool {
    &&& entities_sorted(d)
    &&& entity_keys(d).to_multiset() == supported_keys(e).to_multiset()
}

/// Canonical form of a quantized drawing: each line with its endpoints in
/// point order, each polyline canonicalized, and the entities sorted. With
/// unsupported entities present and not allowed, fails with their distinct
/// kinds, sorted.
pub fn normalize_quantized(entities: &Vec<QuantizedEntity>, allow_unsupported: bool) -> (res: Result<
    NormalizedDxf,
    DxfError,
>)
    ensures
        (!allow_unsupported && unsupported_kinds(entities@).len() > 0) ==> (res matches Err(
            DxfError::UnsupportedEntities { kinds },
        ) && strictly_sorted(views(kinds@)) && same_members(
            views(kinds@),
            unsupported_kinds(entities@),
        )),
        !(!allow_unsupported && unsupported_kinds(entities@).len() > 0) ==> (res matches Ok(d)
            && normalized_from(entities@, d.entities@)),
{
    let mut pairs: Vec<(Vec<i64>, NormalizedEntity)> = Vec::new();
    let mut kinds: Vec<String> = Vec::new();
    let mut i: usize = 0;
    assert(entities@.take(0) =~= Seq::<QuantizedEntity>::empty());
    while i < entities.len()
        invariant
            i <= entities.len(),
            keys_of(pairs@) == supported_keys(entities@.take(i as int)),
            keyed_by_entity(pairs@),
            views(kinds@) == unsupported_kinds(entities@.take(i as int)),
        decreases entities.len() - i,
    {
        let ghost prefix = entities@.take(i + 1);
        assert(prefix.drop_last() =~= entities@.take(i as int));
        assert(prefix.last() == entities@[i as int]);
        let ghost op = pairs@;
        let ghost ok = kinds@;
        match normalize_one(&entities[i]) {
            Some(p) => {
                pairs.push(p);
                assert(keys_of(pairs@) =~= keys_of(op).push(p.0@));
                assert forall|k: int| 0 <= k < pairs@.len() implies (#[trigger] pairs@[k]).0@
                    == entity_key(pairs@[k].1) by {
                    if k < op.len() {
                        assert(pairs@[k] == op[k]);
                    }
                }
            },
            None => {},
        }
        match &entities[i] {
            QuantizedEntity::Unsupported(u) => {
                kinds.push(u.kind.clone());
                assert(views(kinds@) =~= views(ok).push(u.kind@));
            },
            _ => {},
        }
        i += 1;
    }
    assert(entities@.take(entities.len() as int) =~= entities@);
    if !allow_unsupported && kinds.len() > 0 {
        let sorted_kinds = sort_dedup_kinds(kinds);
        return Err(DxfError::UnsupportedEntities { kinds: sorted_kinds });
    }
    proof {
        if !allow_unsupported {
            assert(views(kinds@).len() == 0);
        }
    }
    let ghost before = pairs@;
    let sorted = sort_by_key(pairs);
    proof {
        lemma_keyed_by_entity_mset(before, sorted@);
    }
    let mut out: Vec<NormalizedEntity> = Vec::new();
    let mut sorted = sorted;
    let ghost all = sorted@;
    while sorted.len() > 0
        invariant
            keyed_by_entity(all),
            keys_sorted(all),
            out@.len() + sorted@.len() == all.len(),
            sorted@ == all.skip(out@.len() as int),
            forall|k: int| 0 <= k < out@.len() ==> entity_key(#[trigger] out@[k]) == all[k].0@,
        decreases sorted.len(),
    {
        let p = sorted.remove(0);
        assert(p == all[out@.len() as int]);
        out.push(p.1);
        assert(sorted@ =~= all.skip(out@.len() as int));
    }
    assert(entity_keys(out@) =~= keys_of(all));
    Ok(NormalizedDxf { entities: out })
}

} // verus!

verus! {

/// The canonical key of one entity, as a sequence of at most one key.
pub open spec fn key_opt(e: QuantizedEntity) -> Seq<Seq<i64>> {
    match normalized_key(e) {
        Some(k) => seq![k],
        None => seq![],
    }
}

proof fn lemma_supported_keys_push(s: Seq<QuantizedEntity>, e: QuantizedEntity)
    ensures
        supported_keys(s.push(e)) == supported_keys(s) + key_opt(e),
{
    assert(s.push(e).drop_last() =~= s);
    assert(supported_keys(s) + seq![] =~= supported_keys(s));
}

proof fn lemma_supported_keys_concat(a: Seq<QuantizedEntity>, b: Seq<QuantizedEntity>)
    ensures
        supported_keys(a + b) == supported_keys(a) + supported_keys(b),
    decreases b.len(),
{
    if b.len() == 0 {
        assert(a + b =~= a);
        assert(supported_keys(a) + supported_keys(b) =~= supported_keys(a));
    } else {
        lemma_supported_keys_concat(a, b.drop_last());
        assert(a + b =~= (a + b.drop_last()).push(b.last()));
        assert(b =~= b.drop_last().push(b.last()));
        lemma_supported_keys_push(a + b.drop_last(), b.last());
        lemma_supported_keys_push(b.drop_last(), b.last());
        assert(supported_keys(a) + supported_keys(b.drop_last()) + key_opt(b.last())
            =~= supported_keys(a) + (supported_keys(b.drop_last()) + key_opt(b.last())));
    }
}

/// Entities with the same multiset have canonical keys with the same
/// multiset.
proof fn lemma_supported_keys_perm(s1: Seq<QuantizedEntity>, s2: Seq<QuantizedEntity>)
    requires
        s1.to_multiset() == s2.to_multiset(),
    ensures
        supported_keys(s1).to_multiset() == supported_keys(s2).to_multiset(),
    decreases s1.len(),
{
    broadcast use vstd::seq_lib::group_to_multiset_ensures;
    broadcast use vstd::seq_lib::lemma_multiset_commutative;

    assert(s1.len() == s1.to_multiset().len());
    assert(s2.len() == s2.to_multiset().len());
    if s1.len() == 0 {
        assert(s2 =~= Seq::<QuantizedEntity>::empty());
        assert(s1 =~= s2);
    } else {
        let x = s1.last();
        crate::order::lemma_mset_has(s1, s2, s1.len() - 1);
        let j = choose|j: int| 0 <= j < s2.len() && s2[j] == x;
        let s2r = s2.remove(j);
        assert(s1.remove(s1.len() - 1) =~= s1.drop_last());
        assert(s1.drop_last().to_multiset() == s2r.to_multiset());
        lemma_supported_keys_perm(s1.drop_last(), s2r);
        assert(s1 =~= s1.drop_last().push(x));
        lemma_supported_keys_push(s1.drop_last(), x);
        let a = s2.take(j);
        let b = s2.skip(j + 1);
        assert(s2r =~= a + b);
        assert(s2 =~= a.push(x) + b);
        lemma_supported_keys_concat(a, b);
        lemma_supported_keys_concat(a.push(x), b);
        lemma_supported_keys_push(a, x);
        let ka = supported_keys(a);
        let kb = supported_keys(b);
        let kx = key_opt(x);
        assert(supported_keys(s2) == ka + kx + kb);
        assert(supported_keys(s2r) == ka + kb);
        assert((ka + kx + kb).to_multiset() =~= ka.to_multiset().add(kx.to_multiset()).add(
            kb.to_multiset(),
        ));
        assert((ka + kb).to_multiset() =~= ka.to_multiset().add(kb.to_multiset()));
        assert((supported_keys(s1.drop_last()) + kx).to_multiset() =~= supported_keys(
            s1.drop_last(),
        ).to_multiset().add(kx.to_multiset()));
    }
}

proof fn lemma_points_key_prefix(v1: Seq<QPoint2>, v2: Seq<QPoint2>, r1: Seq<i64>, r2: Seq<i64>)
    requires
        points_key(v1) + r1 == points_key(v2) + r2,
    ensures
        v1 == v2,
        r1 == r2,
    decreases v1.len(),
{
    let k1 = points_key(v1) + r1;
    let k2 = points_key(v2) + r2;
    if v1.len() == 0 {
        if v2.len() > 0 {
            assert(k1[0] == 0);
            assert(k2[0] == 1);
        }
        assert(v1 =~= v2);
        assert(r1 =~= k1.drop_first());
        assert(r2 =~= k2.drop_first());
    } else {
        if v2.len() == 0 {
            assert(k1[0] == 1);
            assert(k2[0] == 0);
        }
        assert(k1[1] == v1[0].x && k2[1] == v2[0].x);
        assert(k1[2] == v1[0].y && k2[2] == v2[0].y);
        assert(points_key(v1.drop_first()) + r1 =~= k1.skip(3));
        assert(points_key(v2.drop_first()) + r2 =~= k2.skip(3));
        lemma_points_key_prefix(v1.drop_first(), v2.drop_first(), r1, r2);
        assert(v1 =~= seq![v1[0]] + v1.drop_first());
        assert(v2 =~= seq![v2[0]] + v2.drop_first());
    }
}

proof fn lemma_ints_key_prefix(b1: Seq<i64>, b2: Seq<i64>, r1: Seq<i64>, r2: Seq<i64>)
    requires
        ints_key(b1) + r1 == ints_key(b2) + r2,
    ensures
        b1 == b2,
        r1 == r2,
    decreases b1.len(),
{
    let k1 = ints_key(b1) + r1;
    let k2 = ints_key(b2) + r2;
    if b1.len() == 0 {
        if b2.len() > 0 {
            assert(k1[0] == 0);
            assert(k2[0] == 1);
        }
        assert(b1 =~= b2);
        assert(r1 =~= k1.drop_first());
        assert(r2 =~= k2.drop_first());
    } else {
        if b2.len() == 0 {
            assert(k1[0] == 1);
            assert(k2[0] == 0);
        }
        assert(k1[1] == b1[0] && k2[1] == b2[0]);
        assert(ints_key(b1.drop_first()) + r1 =~= k1.skip(2));
        assert(ints_key(b2.drop_first()) + r2 =~= k2.skip(2));
        lemma_ints_key_prefix(b1.drop_first(), b2.drop_first(), r1, r2);
        assert(b1 =~= seq![b1[0]] + b1.drop_first());
        assert(b2 =~= seq![b2[0]] + b2.drop_first());
    }
}

/// Equal keys mean equal entities.
pub proof fn lemma_entity_key_injective(a: NormalizedEntity, b: NormalizedEntity)
    requires
        entity_key(a) == entity_key(b),
    ensures
        entity_eq(a, b),
{
    let ka = entity_key(a);
    let kb = entity_key(b);
    assert(ka[0] == kb[0]);
    match (a, b) {
        (NormalizedEntity::Line { a: a1, b: b1 }, NormalizedEntity::Line { a: a2, b: b2 }) => {
            assert(ka[1] == kb[1] && ka[2] == kb[2] && ka[3] == kb[3] && ka[4] == kb[4]);
        },
        (NormalizedEntity::Circle { c: c1, r: r1 }, NormalizedEntity::Circle { c: c2, r: r2 }) => {
            assert(ka[1] == kb[1] && ka[2] == kb[2] && ka[3] == kb[3]);
        },
        (
            NormalizedEntity::Arc { c: c1, r: r1, start: s1, end: e1 },
            NormalizedEntity::Arc { c: c2, r: r2, start: s2, end: e2 },
        ) => {
            assert(ka[1] == kb[1] && ka[2] == kb[2] && ka[3] == kb[3] && ka[4] == kb[4] && ka[5]
                == kb[5]);
        },
        (
            NormalizedEntity::Polyline { vertices: v1, bulges: b1, closed: c1 },
            NormalizedEntity::Polyline { vertices: v2, bulges: b2, closed: c2 },
        ) => {
            let t1 = seq![if c1 { 1i64 } else { 0i64 }];
            let t2 = seq![if c2 { 1i64 } else { 0i64 }];
            assert(points_key(v1@) + (ints_key(b1@) + t1) =~= ka.drop_first());
            assert(points_key(v2@) + (ints_key(b2@) + t2) =~= kb.drop_first());
            lemma_points_key_prefix(v1@, v2@, ints_key(b1@) + t1, ints_key(b2@) + t2);
            lemma_ints_key_prefix(b1@, b2@, t1, t2);
            assert(t1[0] == t2[0]);
        },
        _ => {},
    }
}

/// Swapping the endpoints of a line does not change its canonical form.
pub proof fn law_line_direction_irrelevant(a: QPoint2, b: QPoint2)
    ensures
        normalized_key(QuantizedEntity::Line { a, b }) == normalized_key(
            QuantizedEntity::Line { a: b, b: a },
        ),
{
}

/// Canonical forms do not depend on the order of the entities: two
/// drawings whose entities are a permutation of each other have canonical
/// forms that are equal entity by entity (so they compare equal).
pub proof fn law_normalize_ignores_entity_order(
    e1: Seq<QuantizedEntity>,
    e2: Seq<QuantizedEntity>,
    d1: Seq<NormalizedEntity>,
    d2: Seq<NormalizedEntity>,
)
    requires
        e1.to_multiset() == e2.to_multiset(),
        normalized_from(e1, d1),
        normalized_from(e2, d2),
    ensures
        d1.len() == d2.len(),
        forall|k: int| 0 <= k < d1.len() ==> entity_eq(#[trigger] d1[k], d2[k]),
{
    lemma_supported_keys_perm(e1, e2);
    let k1 = entity_keys(d1);
    let k2 = entity_keys(d2);
    assert(seq_sorted(k1)) by {
        assert forall|i: int, j: int| 0 <= i < j < k1.len() implies lex_le(
            #[trigger] k1[i],
            #[trigger] k1[j],
        ) by {
            assert(lex_le(entity_key(d1[i]), entity_key(d1[j])));
        }
    }
    assert(seq_sorted(k2)) by {
        assert forall|i: int, j: int| 0 <= i < j < k2.len() implies lex_le(
            #[trigger] k2[i],
            #[trigger] k2[j],
        ) by {
            assert(lex_le(entity_key(d2[i]), entity_key(d2[j])));
        }
    }
    lemma_sorted_unique(k1, k2);
    assert forall|k: int| 0 <= k < d1.len() implies entity_eq(#[trigger] d1[k], d2[k]) by {
        assert(k1[k] == k2[k]);
        lemma_entity_key_injective(d1[k], d2[k]);
    }
}

/// Two canonical entities compare equal exactly when they have the same
/// key: the same variant with every field equal (for an arc: centre,
/// radius, start and end angle).
pub proof fn law_entity_eq_is_key_eq(a: NormalizedEntity, b: NormalizedEntity)
    ensures
        entity_eq(a, b) <==> entity_key(a) == entity_key(b),
{
    if entity_key(a) == entity_key(b) {
        lemma_entity_key_injective(a, b);
    }
    if entity_eq(a, b) {
        match (a, b) {
            (
                NormalizedEntity::Polyline { vertices: v1, bulges: b1, closed: c1 },
                NormalizedEntity::Polyline { vertices: v2, bulges: b2, closed: c2 },
            ) => {
                assert(pair_key(v1@, b1@) == pair_key(v2@, b2@));
            },
            _ => {},
        }
    }
}

/// Every entity equals itself, so a canonical drawing compares equal to
/// itself.
pub proof fn law_entity_eq_reflexive(e: NormalizedEntity)
    ensures
        entity_eq(e, e),
{
}

} // verus!

verus! {

proof fn lemma_lex_le_trans(a: Seq<i64>, b: Seq<i64>, c: Seq<i64>)
    requires
        lex_le(a, b),
        lex_le(b, c),
    ensures
        lex_le(a, c),
{
    if lex_lt(a, b) && lex_lt(b, c) {
        lemma_lex_transitive(a, b, c);
    }
}

/// Rotation `r` of a polyline, as vertices and bulges.
pub open spec fn rotation(vs: Seq<QPoint2>, bs: Seq<i64>, r: int) -> (Seq<QPoint2>, Seq<i64>) {
    (rot_points(vs, r), rot_ints(bs, vs.len(), r))
}

/// The reversal of rotation `r` of a polyline.
pub open spec fn reversal(vs: Seq<QPoint2>, bs: Seq<i64>, closed: bool, r: int) -> (
    Seq<QPoint2>,
    Seq<i64>,
) {
    let (v1, b1) = rotation(vs, bs, r);
    (v1.reverse(), rev_bulges(b1, vs.len(), closed))
}

pub open spec fn pkey(p: (Seq<QPoint2>, Seq<i64>)) -> Seq<i64> {
    pair_key(p.0, p.1)
}

proof fn lemma_canon_from_least(
    vs: Seq<QPoint2>,
    bs: Seq<i64>,
    closed: bool,
    r: int,
    best: (Seq<QPoint2>, Seq<i64>),
    t: int,
)
    requires
        0 <= r,
    ensures
        lex_le(pkey(canon_from(vs, bs, closed, r, best)), pkey(best)),
        r <= t < candidates(vs.len(), closed) ==> lex_le(
            pkey(canon_from(vs, bs, closed, r, best)),
            pkey(rotation(vs, bs, t)),
        ) && lex_le(
            pkey(canon_from(vs, bs, closed, r, best)),
            pkey(reversal(vs, bs, closed, t)),
        ),
    decreases candidates(vs.len(), closed) - r,
{
    if r >= candidates(vs.len(), closed) {
    } else {
        let v1 = rot_points(vs, r);
        let b1 = rot_ints(bs, vs.len(), r);
        let v2 = v1.reverse();
        let b2 = rev_bulges(b1, vs.len(), closed);
        let best1 = if lex_lt(pair_key(v1, b1), pair_key(best.0, best.1)) {
            (v1, b1)
        } else {
            best
        };
        let best2 = if lex_lt(pair_key(v2, b2), pair_key(best1.0, best1.1)) {
            (v2, b2)
        } else {
            best1
        };
        let res = canon_from(vs, bs, closed, r, best);
        assert(res == canon_from(vs, bs, closed, r + 1, best2));
        lemma_lex_total(pair_key(v1, b1), pair_key(best.0, best.1));
        lemma_lex_total(pair_key(v2, b2), pair_key(best1.0, best1.1));
        assert(lex_le(pkey(best1), pkey(best)));
        assert(lex_le(pkey(best1), pair_key(v1, b1)));
        assert(lex_le(pkey(best2), pkey(best1)));
        assert(lex_le(pkey(best2), pair_key(v2, b2)));
        lemma_canon_from_least(vs, bs, closed, r + 1, best2, t);
        lemma_lex_le_trans(pkey(res), pkey(best2), pkey(best1));
        lemma_lex_le_trans(pkey(res), pkey(best1), pkey(best));
        if t == r {
            lemma_lex_le_trans(pkey(res), pkey(best1), pair_key(v1, b1));
            lemma_lex_le_trans(pkey(res), pkey(best2), pair_key(v2, b2));
        }
    }
}

/// The canonical form of a polyline with two or more vertices is no greater
/// than any form it was chosen from: each rotation considered (every
/// rotation of a closed polyline, the unrotated form of an open one) and its
/// reversal, with bulges fitted to the vertex count.
pub proof fn law_canonical_polyline_is_least(vs: Seq<QPoint2>, bs: Seq<i64>, closed: bool, t: int)
    requires
        vs.len() >= 2,
        0 <= t < candidates(vs.len(), closed),
    ensures
        lex_le(
            pkey(canon_polyline(vs, bs, closed)),
            pkey(rotation(vs, fit_len(bs, vs.len()), t)),
        ),
        lex_le(
            pkey(canon_polyline(vs, bs, closed)),
            pkey(reversal(vs, fit_len(bs, vs.len()), closed, t)),
        ),
{
    let fb = fit_len(bs, vs.len());
    lemma_canon_from_least(vs, fb, closed, 0, (vs, fb), t);
}

} // verus!

verus! {

/// The result of the candidate search is the starting pair or one of the
/// candidates it went through.
proof fn lemma_canon_from_member(
    vs: Seq<QPoint2>,
    bs: Seq<i64>,
    closed: bool,
    r: int,
    best: (Seq<QPoint2>, Seq<i64>),
)
    requires
        0 <= r,
    ensures
        canon_from(vs, bs, closed, r, best) == best || exists|t: int|
            r <= t < candidates(vs.len(), closed) && (canon_from(vs, bs, closed, r, best) == rotation(
                vs,
                bs,
                t,
            ) || canon_from(vs, bs, closed, r, best) == reversal(vs, bs, closed, t)),
    decreases candidates(vs.len(), closed) - r,
{
    if r < candidates(vs.len(), closed) {
        let v1 = rot_points(vs, r);
        let b1 = rot_ints(bs, vs.len(), r);
        let v2 = v1.reverse();
        let b2 = rev_bulges(b1, vs.len(), closed);
        let best1 = if lex_lt(pair_key(v1, b1), pair_key(best.0, best.1)) {
            (v1, b1)
        } else {
            best
        };
        let best2 = if lex_lt(pair_key(v2, b2), pair_key(best1.0, best1.1)) {
            (v2, b2)
        } else {
            best1
        };
        lemma_canon_from_member(vs, bs, closed, r + 1, best2);
        let res = canon_from(vs, bs, closed, r, best);
        assert(res == canon_from(vs, bs, closed, r + 1, best2));
        assert(rotation(vs, bs, r) == (v1, b1));
        assert(reversal(vs, bs, closed, r) == (v2, b2));
    }
}

proof fn lemma_mod_shift(i: int, r: int, s: int, n: int)
    requires
        0 < n,
        0 <= i < n,
        0 <= r < n,
        0 <= s < n,
    ensures
        ((i + r) % n + s) % n == (i + (s + r) % n) % n,
        0 <= (i + r) % n < n,
{
    vstd::arithmetic::div_mod::lemma_add_mod_noop_right(s, i + r, n);
    vstd::arithmetic::div_mod::lemma_add_mod_noop_right(i, s + r, n);
    assert(((i + r) % n + s) % n == (s + (i + r) % n) % n);
    assert(s + (i + r) == i + (s + r));
}

/// A rotation of a rotation is a rotation.
proof fn lemma_rotation_compose(vs: Seq<QPoint2>, bs: Seq<i64>, s: int, r: int)
    requires
        vs.len() >= 1,
        bs.len() == vs.len(),
        0 <= s < vs.len(),
        0 <= r < vs.len(),
    ensures
        rotation(rot_points(vs, s), rot_ints(bs, vs.len(), s), r) == rotation(
            vs,
            bs,
            (s + r) % (vs.len() as int),
        ),
{
    let n = vs.len() as int;
    let vs2 = rot_points(vs, s);
    let bs2 = rot_ints(bs, vs.len(), s);
    let t = (s + r) % n;
    assert forall|i: int| 0 <= i < n implies #[trigger] rot_points(vs2, r)[i] == rot_points(vs, t)[i] by {
        lemma_mod_shift(i, r, s, n);
    }
    assert forall|i: int| 0 <= i < n implies #[trigger] rot_ints(bs2, vs2.len(), r)[i] == rot_ints(
        bs,
        vs.len(),
        t,
    )[i] by {
        lemma_mod_shift(i, r, s, n);
    }
    assert(rot_points(vs2, r) =~= rot_points(vs, t));
    assert(rot_ints(bs2, vs2.len(), r) =~= rot_ints(bs, vs.len(), t));
}

proof fn lemma_pair_key_injective(v1: Seq<QPoint2>, b1: Seq<i64>, v2: Seq<QPoint2>, b2: Seq<i64>)
    requires
        pair_key(v1, b1) == pair_key(v2, b2),
    ensures
        v1 == v2,
        b1 == b2,
{
    lemma_points_key_prefix(v1, v2, ints_key(b1), ints_key(b2));
    assert(ints_key(b1) + Seq::<i64>::empty() =~= ints_key(b1));
    assert(ints_key(b2) + Seq::<i64>::empty() =~= ints_key(b2));
    lemma_ints_key_prefix(b1, b2, Seq::<i64>::empty(), Seq::<i64>::empty());
}

/// The canonical form of a polyline with two or more vertices (bulges
/// fitted) is one of its candidates, no greater than any of them.
proof fn lemma_canon_shape(vs: Seq<QPoint2>, bs: Seq<i64>, closed: bool)
    requires
        vs.len() >= 2,
        bs.len() == vs.len(),
    ensures
        exists|t: int|
            0 <= t < candidates(vs.len(), closed) && (canon_polyline(vs, bs, closed) == rotation(vs, bs, t)
                || canon_polyline(vs, bs, closed) == reversal(vs, bs, closed, t)),
        forall|t: int|
            0 <= t < candidates(vs.len(), closed) ==> lex_le(
                pkey(canon_polyline(vs, bs, closed)),
                pkey(rotation(vs, bs, t)),
            ) && lex_le(pkey(canon_polyline(vs, bs, closed)), pkey(reversal(vs, bs, closed, t))),
{
    let n = vs.len();
    assert(fit_len(bs, n) =~= bs);
    lemma_canon_from_member(vs, bs, closed, 0, (vs, bs));
    lemma_rotation_zero(vs, bs);
    assert forall|t: int| 0 <= t < candidates(vs.len(), closed) implies lex_le(
        pkey(canon_polyline(vs, bs, closed)),
        pkey(rotation(vs, bs, t)),
    ) && lex_le(pkey(canon_polyline(vs, bs, closed)), pkey(reversal(vs, bs, closed, t))) by {
        law_canonical_polyline_is_least(vs, bs, closed, t);
    }
}

/// Rotation zero leaves a polyline as it is.
proof fn lemma_rotation_zero(vs: Seq<QPoint2>, bs: Seq<i64>)
    requires
        vs.len() >= 1,
        bs.len() == vs.len(),
    ensures
        rotation(vs, bs, 0) == (vs, bs),
{
    let n = vs.len();
    assert forall|i: int| 0 <= i < n implies #[trigger] rot_points(vs, 0)[i] == vs[i] by {
        vstd::arithmetic::div_mod::lemma_small_mod(i as nat, n);
    }
    assert forall|i: int| 0 <= i < n implies #[trigger] rot_ints(bs, n, 0)[i] == bs[i] by {
        vstd::arithmetic::div_mod::lemma_small_mod(i as nat, n);
    }
    assert(rot_points(vs, 0) =~= vs);
    assert(rot_ints(bs, n, 0) =~= bs);
}

/// A closed polyline's canonical form does not depend on which vertex it
/// starts at: rotating the vertices (with the bulges fitted to them) gives
/// the same canonical form.
pub proof fn law_closed_polyline_rotation_invariant(vs: Seq<QPoint2>, bs: Seq<i64>, s: int)
    requires
        vs.len() >= 2,
        0 <= s < vs.len(),
    ensures
        canon_polyline(
            rot_points(vs, s),
            rot_ints(fit_len(bs, vs.len()), vs.len(), s),
            true,
        ) == canon_polyline(vs, bs, true),
{
    let n = vs.len() as int;
    let fb = fit_len(bs, vs.len());
    let vs2 = rot_points(vs, s);
    let bs2 = rot_ints(fb, vs.len(), s);
    assert(canon_polyline(vs, bs, true) == canon_polyline(vs, fb, true)) by {
        assert(fit_len(fb, vs.len()) =~= fb);
    }
    let x = canon_polyline(vs, fb, true);
    let y = canon_polyline(vs2, bs2, true);
    lemma_canon_shape(vs, fb, true);
    lemma_canon_shape(vs2, bs2, true);
    // y is no greater than x: x is a candidate of the rotated polyline too.
    let tx = choose|t: int|
        0 <= t < vs.len() && (x == rotation(vs, fb, t) || x == reversal(vs, fb, true, t));
    let tx2 = (tx - s + n) % n;
    assert(0 <= tx2 < n);
    lemma_rotation_compose(vs, fb, s, tx2);
    assert((s + tx2) % n == tx) by {
        vstd::arithmetic::div_mod::lemma_add_mod_noop_right(s, tx - s + n, n);
        vstd::arithmetic::div_mod::lemma_mod_add_multiples_vanish(tx, n);
        vstd::arithmetic::div_mod::lemma_small_mod(tx as nat, n as nat);
        assert(s + (tx - s + n) == n + tx);
    }
    assert(lex_le(pkey(y), pkey(x)));
    // x is no greater than y: y is a candidate of the unrotated polyline.
    let ty = choose|t: int|
        0 <= t < vs2.len() && (y == rotation(vs2, bs2, t) || y == reversal(vs2, bs2, true, t));
    lemma_rotation_compose(vs, fb, s, ty);
    let t3 = (s + ty) % n;
    assert(0 <= t3 < n);
    assert(lex_le(pkey(x), pkey(rotation(vs, fb, t3))) && lex_le(pkey(x), pkey(reversal(vs, fb, true, t3))));
    assert(lex_le(pkey(x), pkey(y)));
    lemma_lex_antisymmetric(pkey(x), pkey(y));
    lemma_pair_key_injective(x.0, x.1, y.0, y.1);
}


proof fn lemma_mod_below_twice(x: int, n: int)
    requires
        0 < n,
        0 <= x < 2 * n,
    ensures
        x % n == (if x < n { x } else { x - n }),
{
    if x < n {
        vstd::arithmetic::div_mod::lemma_small_mod(x as nat, n as nat);
    } else {
        vstd::arithmetic::div_mod::lemma_small_mod((x - n) as nat, n as nat);
        vstd::arithmetic::div_mod::lemma_mod_add_multiples_vanish(x - n, n);
    }
}

/// The bulges of a reversed polyline, index by index: the reversed order,
/// shifted by one when closed.
proof fn lemma_rev_bulges_index(bs: Seq<i64>, n: nat, closed: bool)
    requires
        n >= 1,
        bs.len() == n,
    ensures
        rev_bulges(bs, n, closed).len() == n,
        forall|k: int|
            0 <= k < n ==> #[trigger] rev_bulges(bs, n, closed)[k] == (if closed {
                bs[(n - k) % (n as int)]
            } else {
                bs[n - 1 - k]
            }),
{
    let r = bs.reverse();
    let r2 = if closed && r.len() > 0 {
        seq![r.last()] + r.drop_last()
    } else {
        r
    };
    assert(r2.len() == n);
    assert(fit_len(r2, n) =~= r2);
    assert forall|k: int| 0 <= k < n implies #[trigger] rev_bulges(bs, n, closed)[k] == (if closed {
        bs[(n - k) % (n as int)]
    } else {
        bs[n - 1 - k]
    }) by {
        lemma_mod_below_twice(n - k, n as int);
    }
}

/// Reversing a polyline twice, as the library reverses it, gives it back.
proof fn lemma_reverse_twice(vs: Seq<QPoint2>, bs: Seq<i64>, closed: bool)
    requires
        vs.len() >= 1,
        bs.len() == vs.len(),
    ensures
        vs.reverse().reverse() == vs,
        rev_bulges(rev_bulges(bs, vs.len(), closed), vs.len(), closed) == bs,
{
    let n = vs.len();
    let rb = rev_bulges(bs, n, closed);
    lemma_rev_bulges_index(bs, n, closed);
    lemma_rev_bulges_index(rb, n, closed);
    assert forall|k: int| 0 <= k < n implies #[trigger] rev_bulges(rb, n, closed)[k] == bs[k] by {
        lemma_mod_below_twice(n - k, n as int);
        if closed {
            lemma_mod_below_twice(n - (n - k) % (n as int), n as int);
        }
    }
    assert(rev_bulges(rb, n, closed) =~= bs);
    assert(vs.reverse().reverse() =~= vs);
}

/// The candidates of a reversed polyline are the candidates of the
/// polyline: rotation `t` of the reversal is the reversal of rotation
/// `(n - t) % n`, and the other way round.
proof fn lemma_rotation_of_reversed(vs: Seq<QPoint2>, bs: Seq<i64>, closed: bool, t: int)
    requires
        vs.len() >= 1,
        bs.len() == vs.len(),
        0 <= t < candidates(vs.len(), closed),
    ensures
        0 <= (vs.len() - t) % (vs.len() as int) < candidates(vs.len(), closed),
        rotation(vs.reverse(), rev_bulges(bs, vs.len(), closed), t) == reversal(
            vs,
            bs,
            closed,
            (vs.len() - t) % (vs.len() as int),
        ),
        reversal(vs.reverse(), rev_bulges(bs, vs.len(), closed), closed, t) == rotation(
            vs,
            bs,
            (vs.len() - t) % (vs.len() as int),
        ),
{
    let n = vs.len() as int;
    let rv = vs.reverse();
    let rb = rev_bulges(bs, vs.len(), closed);
    let s = (n - t) % n;
    lemma_mod_below_twice(n - t, n);
    lemma_rev_bulges_index(bs, vs.len(), closed);
    let lhs = rotation(rv, rb, t);
    let rhs = reversal(vs, bs, closed, s);
    let (v1, b1) = rotation(vs, bs, s);
    lemma_rev_bulges_index(b1, vs.len(), closed);
    assert forall|i: int| 0 <= i < n implies #[trigger] lhs.0[i] == rhs.0[i] by {
        lemma_mod_below_twice(i + t, n);
        lemma_mod_below_twice(n - 1 - i + s, n);
    }
    assert forall|i: int| 0 <= i < n implies #[trigger] lhs.1[i] == rhs.1[i] by {
        lemma_mod_below_twice(i + t, n);
        lemma_mod_below_twice(n - (i + t) % n, n);
        lemma_mod_below_twice(n - i, n);
        lemma_mod_below_twice((n - i) % n + s, n);
        lemma_mod_below_twice(n - 1 - i + s, n);
    }
    assert(lhs.0 =~= rhs.0);
    assert(lhs.1 =~= rhs.1);
    // Reversing both sides of the first equation gives the second.
    lemma_reverse_twice(v1, b1, closed);
    assert(reversal(rv, rb, closed, t) == (lhs.0.reverse(), rev_bulges(lhs.1, vs.len(), closed)));
}

/// Reversing a polyline, as the library reverses it (vertices in reverse
/// order, bulges via `rev_bulges` at the vertex count), does not change its
/// canonical form.
pub proof fn law_polyline_reversal_invariant(vs: Seq<QPoint2>, bs: Seq<i64>, closed: bool)
    requires
        vs.len() >= 2,
    ensures
        canon_polyline(vs.reverse(), rev_bulges(fit_len(bs, vs.len()), vs.len(), closed), closed)
            == canon_polyline(vs, bs, closed),
{
    let n = vs.len();
    let fb = fit_len(bs, n);
    let rv = vs.reverse();
    let rb = rev_bulges(fb, n, closed);
    assert(fb.len() == n);
    lemma_rev_bulges_index(fb, n, closed);
    assert(canon_polyline(vs, bs, closed) == canon_polyline(vs, fb, closed)) by {
        assert(fit_len(fb, n) =~= fb);
    }
    lemma_reverse_twice(vs, fb, closed);
    let x = canon_polyline(vs, fb, closed);
    let y = canon_polyline(rv, rb, closed);
    lemma_canon_shape(vs, fb, closed);
    lemma_canon_shape(rv, rb, closed);
    // x is a candidate of the reversed polyline, so y is no greater.
    let tx = choose|t: int|
        0 <= t < candidates(n, closed) && (x == rotation(vs, fb, t) || x == reversal(vs, fb, closed, t));
    lemma_rotation_of_reversed(rv, rb, closed, tx);
    let sx = (n - tx) % (n as int);
    assert(lex_le(pkey(y), pkey(rotation(rv, rb, sx))) && lex_le(pkey(y), pkey(reversal(rv, rb, closed, sx))));
    assert(lex_le(pkey(y), pkey(x)));
    // y is a candidate of the polyline, so x is no greater.
    let ty = choose|t: int|
        0 <= t < candidates(n, closed) && (y == rotation(rv, rb, t) || y == reversal(rv, rb, closed, t));
    lemma_rotation_of_reversed(vs, fb, closed, ty);
    let sy = (n - ty) % (n as int);
    assert(lex_le(pkey(x), pkey(rotation(vs, fb, sy))) && lex_le(pkey(x), pkey(reversal(vs, fb, closed, sy))));
    assert(lex_le(pkey(x), pkey(y)));
    lemma_lex_antisymmetric(pkey(x), pkey(y));
    lemma_pair_key_injective(x.0, x.1, y.0, y.1);
}

} // verus!
