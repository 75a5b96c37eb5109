//! Unit and variable definitions: the built-in units and how a
//! configuration's `units` and `variables` override and extend them.
use vstd::prelude::*;
use crate::error::Error;
use crate::expr::str_to_string;
use crate::value::{table_insert, table_remove, table_view, vview, Value, ValueView};

verus! {

/// A unit definition: a number (the bits of its IEEE 754 double) or an
/// expression over the units defined before it.
#[derive(Debug, PartialEq)]
pub enum ScalarExpr {
    Number(u64),
    String(String),
}

impl ScalarExpr {
    /// The expression text of a definition, if it is one.
    pub fn as_str(&self) -> (r: Option<&str>)
        ensures
            match *self {
                ScalarExpr::String(s) => r matches Some(x) && x@ == s@,
                ScalarExpr::Number(_) => r is None,
            },
    {
        match self {
            ScalarExpr::String(s) => Some(s.as_str()),
            ScalarExpr::Number(_) => None,
        }
    }
}

/// A definition as a value view.
pub open spec fn scalar_view(e: ScalarExpr) -> ValueView {
    match e {
        ScalarExpr::Number(n) => ValueView::Number(n),
        ScalarExpr::String(s) => ValueView::Text(s@),
    }
}

pub open spec fn defs_view(d: Seq<(String, ScalarExpr)>) -> Seq<(Seq<char>, ValueView)> {
    d.map_values(|p: (String, ScalarExpr)| (p.0@, scalar_view(p.1)))
}

fn copy_scalar(e: &ScalarExpr) -> (r: ScalarExpr)
    ensures
        scalar_view(r) == scalar_view(*e),
{
    match e {
        ScalarExpr::Number(n) => ScalarExpr::Number(*n),
        ScalarExpr::String(s) => ScalarExpr::String(s.clone()),
    }
}

/// The built-in units, in definition order.
pub open spec fn default_units_spec() -> Seq<(Seq<char>, ValueView)> {
    seq![
        ("U"@, ValueView::Number(0x40330ccccccccccdu64)),
        ("u"@, ValueView::Number(0x4033000000000000u64)),
        ("cx"@, ValueView::Number(0x4032000000000000u64)),
        ("cy"@, ValueView::Number(0x4031000000000000u64)),
        ("$default_stagger"@, ValueView::Number(0u64)),
        ("$default_spread"@, ValueView::Text("u"@)),
        ("$default_splay"@, ValueView::Number(0u64)),
        ("$default_height"@, ValueView::Text("u-1"@)),
        ("$default_width"@, ValueView::Text("u-1"@)),
        ("$default_padding"@, ValueView::Text("u"@)),
        ("$default_autobind"@, ValueView::Number(0x4024000000000000u64)),
    ]
}

fn push_def(d: &mut Vec<(String, ScalarExpr)>, k: &str, e: ScalarExpr)
    ensures
        defs_view(final(d)@) == defs_view(old(d)@).push((k@, scalar_view(e))),
{
    let ghost ev = scalar_view(e);
    d.push((str_to_string(k), e));
    assert(defs_view(d@) =~= defs_view(old(d)@).push((k@, ev)));
}

/// The built-in units: `U` 19.05, `u` 19, `cx` 18, `cy` 17 and the
/// `$default_*` settings.
pub fn default_units() -> (r: Vec<(String, ScalarExpr)>)
    ensures
        defs_view(r@) == default_units_spec(),
{
    let mut d: Vec<(String, ScalarExpr)> = Vec::new();
    push_def(&mut d, "U", ScalarExpr::Number(0x40330ccccccccccdu64));
    push_def(&mut d, "u", ScalarExpr::Number(0x4033000000000000u64));
    push_def(&mut d, "cx", ScalarExpr::Number(0x4032000000000000u64));
    push_def(&mut d, "cy", ScalarExpr::Number(0x4031000000000000u64));
    push_def(&mut d, "$default_stagger", ScalarExpr::Number(0u64));
    push_def(&mut d, "$default_spread", ScalarExpr::String(str_to_string("u")));
    push_def(&mut d, "$default_splay", ScalarExpr::Number(0u64));
    push_def(&mut d, "$default_height", ScalarExpr::String(str_to_string("u-1")));
    push_def(&mut d, "$default_width", ScalarExpr::String(str_to_string("u-1")));
    push_def(&mut d, "$default_padding", ScalarExpr::String(str_to_string("u")));
    push_def(&mut d, "$default_autobind", ScalarExpr::Number(0x4024000000000000u64));
    assert(defs_view(d@) =~= default_units_spec());
    d
}

/// `target` with the first `n` definitions of `from` merged in: `$unset`
/// removes a unit, any other definition replaces it in place or is
/// appended.
pub open spec fn merge_spec(
    target: Seq<(Seq<char>, ValueView)>,
    from: Seq<(Seq<char>, ValueView)>,
    n: nat,
) -> Seq<(Seq<char>, ValueView)>
    decreases n,
{
    if n == 0 || n > from.len() {
        target
    } else {
        let t = merge_spec(target, from, (n - 1) as nat);
        let (k, v) = from[n - 1];
        if v == ValueView::Text("$unset"@) {
            table_remove(t, k)
        } else {
            table_insert(t, k, v)
        }
    }
}

fn find_def(d: &Vec<(String, ScalarExpr)>, k: &String) -> (r: Option<usize>)
    ensures
        match crate::value::entry_index(defs_view(d@), k@, 0) {
            Some(i) => r matches Some(j) && j as int == i,
            None => r is None,
        },
{
    let ghost dv = defs_view(d@);
    let mut i: usize = 0;
    while i < d.len()
        invariant
            i <= d.len(),
            dv == defs_view(d@),
            crate::value::entry_index(dv, k@, 0) == crate::value::entry_index(dv, k@, i as int),
        decreases d.len() - i,
    {
        assert(dv[i as int].0 == d@[i as int].0@);
        if d[i].0 == *k {
            return Some(i);
        }
        i += 1;
    }
    None
}

/// Sets definition `k`: in place when it exists, else appended.
fn insert_def(d: &mut Vec<(String, ScalarExpr)>, k: &String, e: ScalarExpr)
    ensures
        defs_view(final(d)@) == table_insert(defs_view(old(d)@), k@, scalar_view(e)),
{
    let ghost tv = defs_view(d@);
    let ghost ev = scalar_view(e);
    proof {
        crate::value::lemma_entry_index(tv, k@, 0);
    }
    match find_def(d, k) {
        Some(j) => {
            d.set(j, (k.clone(), e));
            assert(defs_view(d@) =~= tv.update(j as int, (k@, ev)));
        },
        None => {
            d.push((k.clone(), e));
            assert(defs_view(d@) =~= tv.push((k@, ev)));
        },
    }
}

/// Merges definitions into `target` in order (see `merge_spec`).
pub fn merge_into(target: &mut Vec<(String, ScalarExpr)>, from: Option<&Vec<(String, ScalarExpr)>>)
    ensures
        match from {
            None => defs_view(final(target)@) == defs_view(old(target)@),
            Some(f) => defs_view(final(target)@) == merge_spec(defs_view(old(target)@), defs_view(f@), f@.len()),
        },
{
    let f = match from {
        None => {
            return;
        },
        Some(f) => f,
    };
    let ghost fv = defs_view(f@);
    let mut i: usize = 0;
    while i < f.len()
        invariant
            i <= f.len(),
            fv == defs_view(f@),
            defs_view(target@) == merge_spec(defs_view(old(target)@), fv, i as nat),
        decreases f.len() - i,
    {
        let k = &f[i].0;
        assert(fv[i as int] == (f@[i as int].0@, scalar_view(f@[i as int].1)));
        let is_unset = match &f[i].1 {
            ScalarExpr::String(s) => {
                let c = crate::text::chars_of(s.as_str());
                crate::expr::chars_eq(c.as_slice(), "$unset")
            },
            _ => false,
        };
        let ghost tv = defs_view(target@);
        proof {
            crate::value::lemma_entry_index(tv, k@, 0);
        }
        let idx = find_def(target, k);
        if is_unset {
            match idx {
                Some(j) => {
                    target.remove(j);
                    assert(defs_view(target@) =~= tv.remove(j as int));
                },
                None => {},
            }
        } else {
            let e = copy_scalar(&f[i].1);
            let ghost ev = scalar_view(e);
            match idx {
                Some(j) => {
                    target.set(j, (k.clone(), e));
                    assert(defs_view(target@) =~= tv.update(j as int, (k@, ev)));
                },
                None => {
                    target.push((k.clone(), e));
                    assert(defs_view(target@) =~= tv.push((k@, ev)));
                },
            }
        }
        i += 1;
    }
}

/// The definitions of a mapping of units: each value a number or a string.
pub open spec fn defs_of(m: Seq<(Seq<char>, ValueView)>, n: nat) -> Result<Seq<(Seq<char>, ValueView)>, Seq<char>>
    decreases n,
{
    if n == 0 || n > m.len() {
        Ok(seq![])
    } else {
        match defs_of(m, (n - 1) as nat) {
            Err(k) => Err(k),
            Ok(out) => match m[n - 1].1 {
                ValueView::Number(_) | ValueView::Text(_) => Ok(table_insert(out, m[n - 1].0, m[n - 1].1)),
                _ => Err(m[n - 1].0),
            },
        }
    }
}

proof fn lemma_defs_of_err(m: Seq<(Seq<char>, ValueView)>, n: nat, n2: nat)
    requires
        n <= n2 <= m.len(),
        defs_of(m, n) is Err,
    ensures
        defs_of(m, n2) == defs_of(m, n),
    decreases n2 - n,
{
    if n2 > n {
        lemma_defs_of_err(m, n, (n2 - 1) as nat);
    }
}

/// Reads a mapping of unit definitions.
pub fn value_map_to_scalar_expr_map(v: &Value) -> (r: Result<Vec<(String, ScalarExpr)>, Error>)
    ensures
        match vview(*v) {
            ValueView::Table(m) => match defs_of(m, m.len()) {
                Ok(d) => r matches Ok(x) && defs_view(x@) == d,
                Err(k) => r matches Err(Error::UnitsValueType { key }) && key@ == k,
            },
            _ => r matches Err(Error::UnitsNotMap),
        },
{
    let entries = match v {
        Value::Mapping(m) => m,
        _ => {
            return Err(Error::UnitsNotMap);
        },
    };
    let ghost tv = table_view(entries@);
    proof {
        crate::value::lemma_table_view(entries@);
    }
    let mut out: Vec<(String, ScalarExpr)> = Vec::new();
    let mut i: usize = 0;
    assert(defs_view(out@) =~= Seq::<(Seq<char>, ValueView)>::empty());
    while i < entries.len()
        invariant
            *v == Value::Mapping(*entries),
            i <= entries.len(),
            tv == table_view(entries@),
            tv.len() == entries@.len(),
            forall|q: int| 0 <= q < entries@.len() ==> #[trigger] tv[q] == (entries@[q].0@, vview(entries@[q].1)),
            defs_of(tv, i as nat) == Ok::<Seq<(Seq<char>, ValueView)>, Seq<char>>(defs_view(out@)),
        decreases entries.len() - i,
    {
        let e = match &entries[i].1 {
            Value::Number(n) => ScalarExpr::Number(*n),
            Value::String(s) => ScalarExpr::String(s.clone()),
            _ => {
                proof {
                    lemma_defs_of_err(tv, (i + 1) as nat, tv.len());
                }
                return Err(Error::UnitsValueType { key: entries[i].0.clone() });
            },
        };
        insert_def(&mut out, &entries[i].0, e);
        i += 1;
    }
    Ok(out)
}

} // verus!

verus! {

/// Why reading unit definitions failed.
pub enum UnitsFailure {
    NotMap,
    ValueType(Seq<char>),
}

/// The definitions of a configuration section (`units` or `variables`):
/// none when it is absent.
pub open spec fn section_defs(c: ValueView, name: Seq<char>) -> Result<Seq<(Seq<char>, ValueView)>, UnitsFailure> {
    match crate::value::get_path_spec(c, crate::value::path_segments(name)) {
        None => Ok(seq![]),
        Some(ValueView::Table(m)) => match defs_of(m, m.len()) {
            Ok(d) => Ok(d),
            Err(k) => Err(UnitsFailure::ValueType(k)),
        },
        Some(_) => Err(UnitsFailure::NotMap),
    }
}

/// The unit definitions of a configuration in evaluation order: the
/// built-in units with `units`, then `variables`, merged in.
pub open spec fn unit_defs_spec(c: ValueView) -> Result<Seq<(Seq<char>, ValueView)>, UnitsFailure> {
    match section_defs(c, "units"@) {
        Err(e) => Err(e),
        Ok(u) => match section_defs(c, "variables"@) {
            Err(e) => Err(e),
            Ok(v) => Ok(merge_spec(merge_spec(default_units_spec(), u, u.len()), v, v.len())),
        },
    }
}

pub open spec fn units_failure_matches(f: UnitsFailure, e: Error) -> bool {
    match f {
        UnitsFailure::NotMap => e matches Error::UnitsNotMap,
        UnitsFailure::ValueType(k) => e matches Error::UnitsValueType { key } && key@ == k,
    }
}

fn section(c: &Value, name: &str) -> (r: Result<Vec<(String, ScalarExpr)>, Error>)
    ensures
        match section_defs(vview(*c), name@) {
            Ok(d) => r matches Ok(x) && defs_view(x@) == d,
            Err(f) => r matches Err(e) && units_failure_matches(f, e),
        },
{
    match c.get_path(name) {
        None => {
            let v: Vec<(String, ScalarExpr)> = Vec::new();
            assert(defs_view(v@) =~= Seq::<(Seq<char>, ValueView)>::empty());
            Ok(v)
        },
        Some(x) => value_map_to_scalar_expr_map(x),
    }
}

/// The unit definitions of a configuration, in the order they are
/// evaluated (see `unit_defs_spec`).
pub fn unit_definitions(canonical: &Value) -> (r: Result<Vec<(String, ScalarExpr)>, Error>)
    ensures
        match unit_defs_spec(vview(*canonical)) {
            Ok(d) => r matches Ok(x) && defs_view(x@) == d,
            Err(f) => r matches Err(e) && units_failure_matches(f, e),
        },
{
    let units = match section(canonical, "units") {
        Ok(u) => u,
        Err(e) => {
            return Err(e);
        },
    };
    let vars = match section(canonical, "variables") {
        Ok(v) => v,
        Err(e) => {
            return Err(e);
        },
    };
    let mut merged = default_units();
    merge_into(&mut merged, Some(&units));
    merge_into(&mut merged, Some(&vars));
    Ok(merged)
}

proof fn lemma_insert_keeps_keys(t: Seq<(Seq<char>, ValueView)>, k: Seq<char>, v: ValueView)
    ensures
        table_insert(t, k, v).len() >= t.len(),
        forall|i: int| 0 <= i < t.len() ==> #[trigger] table_insert(t, k, v)[i].0 == t[i].0,
{
    crate::value::lemma_entry_index(t, k, 0);
}

/// Without `$unset`, merging definitions keeps every existing unit at its
/// place in the definition order; overrides replace values in place and new
/// units come after.
pub proof fn law_unit_overrides_keep_order(
    target: Seq<(Seq<char>, ValueView)>,
    from: Seq<(Seq<char>, ValueView)>,
    n: nat,
)
    requires
        n <= from.len(),
        forall|j: int| 0 <= j < from.len() ==> (#[trigger] from[j]).1 != ValueView::Text("$unset"@),
    ensures
        merge_spec(target, from, n).len() >= target.len(),
        forall|i: int| 0 <= i < target.len() ==> #[trigger] merge_spec(target, from, n)[i].0 == target[i].0,
    decreases n,
{
    if n > 0 {
        law_unit_overrides_keep_order(target, from, (n - 1) as nat);
        let t = merge_spec(target, from, (n - 1) as nat);
        lemma_insert_keeps_keys(t, from[n - 1].0, from[n - 1].1);
        assert(from[n - 1].1 != ValueView::Text("$unset"@));
    }
}

} // verus!

verus! {

/// Whether `$unset` is among the values of `m`.
pub open spec fn has_unset(m: Seq<(Seq<char>, ValueView)>) -> bool {
    exists|j: int| 0 <= j < m.len() && (#[trigger] m[j]).1 == ValueView::Text("$unset"@)
}

proof fn lemma_defs_of_unique(m: Seq<(Seq<char>, ValueView)>, n: nat)
    ensures
        defs_of(m, n) matches Ok(d) ==> crate::value::keys_unique(d),
    decreases n,
{
    if n > 0 && n <= m.len() {
        lemma_defs_of_unique(m, (n - 1) as nat);
        if let Ok(out) = defs_of(m, (n - 1) as nat) {
            crate::value::lemma_insert_unique(out, m[n - 1].0, m[n - 1].1);
        }
    }
}

proof fn lemma_section_unique(c: ValueView, name: Seq<char>)
    ensures
        section_defs(c, name) matches Ok(d) ==> crate::value::keys_unique(d),
{
    match crate::value::get_path_spec(c, crate::value::path_segments(name)) {
        Some(ValueView::Table(m)) => lemma_defs_of_unique(m, m.len()),
        _ => {},
    }
}

/// Reading a key of a table with one more entry.
proof fn lemma_table_get_push(s: Seq<(Seq<char>, ValueView)>, e: (Seq<char>, ValueView), k: Seq<char>)
    ensures
        crate::value::table_get(s.push(e), k) == if crate::value::table_get(s, k) is Some {
            crate::value::table_get(s, k)
        } else if e.0 == k {
            Some(e.1)
        } else {
            None
        },
{
    let s2 = s.push(e);
    crate::value::lemma_entry_index(s, k, 0);
    crate::value::lemma_entry_index(s2, k, 0);
    match crate::value::entry_index(s, k, 0) {
        Some(i) => {
            assert(s2[i] == s[i]);
            match crate::value::entry_index(s2, k, 0) {
                Some(j) => {
                    if j < i {
                        assert(s2[j] == s[j]);
                    }
                },
                None => {},
            }
        },
        None => {
            match crate::value::entry_index(s2, k, 0) {
                Some(j) => {
                    if j < s.len() {
                        assert(s2[j] == s[j]);
                    }
                },
                None => {
                    assert(s2[s.len() as int] == e);
                },
            }
        },
    }
}

/// Reading a key after merging definitions without `$unset`: the merged
/// value when the merged definitions have the key, else the old one.
proof fn lemma_merge_get(t: Seq<(Seq<char>, ValueView)>, f: Seq<(Seq<char>, ValueView)>, n: nat, k: Seq<char>)
    requires
        n <= f.len(),
        crate::value::keys_unique(f),
        !has_unset(f),
    ensures
        crate::value::table_get(merge_spec(t, f, n), k) == if crate::value::table_get(f.take(n as int), k) is Some {
            crate::value::table_get(f.take(n as int), k)
        } else {
            crate::value::table_get(t, k)
        },
    decreases n,
{
    if n > 0 {
        lemma_merge_get(t, f, (n - 1) as nat, k);
        let m = merge_spec(t, f, (n - 1) as nat);
        let e = f[n - 1];
        assert(e.1 != ValueView::Text("$unset"@));
        assert(f.take(n as int) =~= f.take(n - 1).push(e));
        lemma_table_get_push(f.take(n - 1), e, k);
        if e.0 == k {
            crate::value::lemma_table_get_insert(m, e.0, e.1);
            crate::value::lemma_entry_index(f.take(n - 1), k, 0);
            if let Some(q) = crate::value::entry_index(f.take(n - 1), k, 0) {
                assert(f[q].0 == f[n - 1].0);
            }
        } else {
            crate::value::lemma_table_get_insert_other(m, e.0, e.1, k);
        }
    }
}

/// A merged key that the old definitions lack comes after all of them.
proof fn lemma_merge_new_key_after(t: Seq<(Seq<char>, ValueView)>, f: Seq<(Seq<char>, ValueView)>, k: Seq<char>)
    requires
        crate::value::keys_unique(f),
        !has_unset(f),
        crate::value::table_get(f, k) is Some,
        crate::value::table_get(t, k) is None,
    ensures
        crate::value::entry_index(merge_spec(t, f, f.len()), k, 0) matches Some(i) && i >= t.len(),
{
    let m = merge_spec(t, f, f.len());
    assert(f.take(f.len() as int) =~= f);
    lemma_merge_get(t, f, f.len(), k);
    assert forall|j: int| 0 <= j < f.len() implies (#[trigger] f[j]).1 != ValueView::Text("$unset"@) by {}
    law_unit_overrides_keep_order(t, f, f.len());
    crate::value::lemma_entry_index(m, k, 0);
    crate::value::lemma_entry_index(t, k, 0);
    if let Some(i) = crate::value::entry_index(m, k, 0) {
        if i < t.len() {
            assert(m[i].0 == t[i].0);
        }
    }
}

/// An old key keeps an entry within the old definitions' places.
proof fn lemma_merge_old_key_before(t: Seq<(Seq<char>, ValueView)>, f: Seq<(Seq<char>, ValueView)>, k: Seq<char>)
    requires
        !has_unset(f),
        crate::value::table_get(t, k) is Some,
    ensures
        crate::value::entry_index(merge_spec(t, f, f.len()), k, 0) matches Some(i) && i < t.len(),
{
    let m = merge_spec(t, f, f.len());
    assert forall|j: int| 0 <= j < f.len() implies (#[trigger] f[j]).1 != ValueView::Text("$unset"@) by {}
    law_unit_overrides_keep_order(t, f, f.len());
    crate::value::lemma_entry_index(t, k, 0);
    let i0 = crate::value::entry_index(t, k, 0)->0;
    assert(m[i0].0 == k);
    crate::value::lemma_entry_index(m, k, 0);
}

/// A variable's value wins over a built-in unit and over a unit of the
/// same name: the definitions give the key the value `variables` gives it
/// (sections without `$unset`).
pub proof fn law_variable_wins(c: ValueView, k: Seq<char>)
    requires
        section_defs(c, "units"@) matches Ok(u) && !has_unset(u),
        section_defs(c, "variables"@) matches Ok(v) && !has_unset(v) && crate::value::table_get(v, k) is Some,
    ensures
        unit_defs_spec(c) matches Ok(d) && crate::value::table_get(d, k) == crate::value::table_get(
            section_defs(c, "variables"@)->Ok_0,
            k,
        ),
{
    let u = section_defs(c, "units"@)->Ok_0;
    let v = section_defs(c, "variables"@)->Ok_0;
    lemma_section_unique(c, "units"@);
    lemma_section_unique(c, "variables"@);
    let t1 = merge_spec(default_units_spec(), u, u.len());
    lemma_merge_get(t1, v, v.len(), k);
    assert(v.take(v.len() as int) =~= v);
}

/// A unit that no variable overrides keeps the value `units` gives it.
pub proof fn law_unit_kept_without_variable(c: ValueView, k: Seq<char>)
    requires
        section_defs(c, "units"@) matches Ok(u) && !has_unset(u) && crate::value::table_get(u, k) is Some,
        section_defs(c, "variables"@) matches Ok(v) && !has_unset(v) && crate::value::table_get(v, k) is None,
    ensures
        unit_defs_spec(c) matches Ok(d) && crate::value::table_get(d, k) == crate::value::table_get(
            section_defs(c, "units"@)->Ok_0,
            k,
        ),
{
    let u = section_defs(c, "units"@)->Ok_0;
    let v = section_defs(c, "variables"@)->Ok_0;
    lemma_section_unique(c, "units"@);
    lemma_section_unique(c, "variables"@);
    let t1 = merge_spec(default_units_spec(), u, u.len());
    lemma_merge_get(default_units_spec(), u, u.len(), k);
    lemma_merge_get(t1, v, v.len(), k);
    assert(v.take(v.len() as int) =~= v);
    assert(u.take(u.len() as int) =~= u);
}

/// Units are merged before variables: a unit that is new (not built in)
/// comes before a variable that is new (neither built in nor a unit), so
/// the variable can be evaluated over the unit.
pub proof fn law_units_before_variables(c: ValueView, ku: Seq<char>, kv: Seq<char>)
    requires
        section_defs(c, "units"@) matches Ok(u) && !has_unset(u) && crate::value::table_get(u, ku) is Some
            && crate::value::table_get(u, kv) is None,
        section_defs(c, "variables"@) matches Ok(v) && !has_unset(v) && crate::value::table_get(v, kv) is Some,
        crate::value::table_get(default_units_spec(), ku) is None,
        crate::value::table_get(default_units_spec(), kv) is None,
    ensures
        unit_defs_spec(c) matches Ok(d) && (crate::value::entry_index(d, ku, 0) matches Some(i) && (
        crate::value::entry_index(d, kv, 0) matches Some(j) && i < j)),
{
    let u = section_defs(c, "units"@)->Ok_0;
    let v = section_defs(c, "variables"@)->Ok_0;
    lemma_section_unique(c, "units"@);
    lemma_section_unique(c, "variables"@);
    let t0 = default_units_spec();
    let t1 = merge_spec(t0, u, u.len());
    let d = merge_spec(t1, v, v.len());
    assert(u.take(u.len() as int) =~= u);
    lemma_merge_get(t0, u, u.len(), ku);
    lemma_merge_get(t0, u, u.len(), kv);
    assert(crate::value::table_get(t1, ku) is Some);
    assert(crate::value::table_get(t1, kv) is None);
    crate::value::lemma_entry_index(t1, ku, 0);
    lemma_merge_old_key_before(t1, v, ku);
    lemma_merge_new_key_after(t1, v, kv);
}

} // verus!
