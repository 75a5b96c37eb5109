//! The structure of the `points` section: its zones and their settings,
//! the columns and rows of a zone and the merged key settings of each of
//! its keys, before any position is computed.
use vstd::prelude::*;
use crate::expr::str_to_string;
use crate::jscad::string_views;
use crate::jscad_parts::section;
use crate::layout::LayoutError;
use crate::value::{
    copy_value, extend_all, extend_all_spec, list_view, table_get, table_lookup, table_remove,
    table_view, vview, Value, ValueView,
};

verus! {

/// The parts of the `points` section the layout reads: its zones, the key
/// settings shared by all zones, and its rotation and mirror settings.
#[derive(Debug)]
pub struct PointsSections {
    pub zones: Vec<(String, Value)>,
    pub key: Value,
    pub rotate: Option<Value>,
    pub mirror: Option<Value>,
}

pub open spec fn opt_view(o: Option<Value>) -> Option<ValueView> {
    match o {
        Some(v) => Some(vview(v)),
        None => None,
    }
}

/// A value, or an empty mapping when absent.
pub open spec fn or_empty_table(o: Option<ValueView>) -> ValueView {
    match o {
        Some(v) => v,
        None => ValueView::Table(seq![]),
    }
}

fn opt_copy(o: Option<&Value>) -> (r: Option<Value>)
    ensures
        opt_view(r) == match o {
            Some(v) => Some(vview(*v)),
            None => None::<ValueView>,
        },
{
    match o {
        Some(v) => Some(copy_value(v)),
        None => None,
    }
}

fn empty_table() -> (r: Value)
    ensures
        vview(r) == ValueView::Table(seq![]),
{
    let v: Vec<(String, Value)> = Vec::new();
    proof {
        crate::value::lemma_table_view(v@);
        assert(table_view(v@) =~= Seq::<(Seq<char>, ValueView)>::empty());
    }
    Value::Mapping(v)
}

fn copy_or_empty(o: Option<&Value>) -> (r: Value)
    ensures
        vview(r) == or_empty_table(
            match o {
                Some(v) => Some(vview(*v)),
                None => None::<ValueView>,
            },
        ),
{
    match o {
        Some(v) => copy_value(v),
        None => empty_table(),
    }
}

/// Reads the `points` section: it must be there, and its `zones` must be a
/// mapping.
pub fn points_sections(canonical: &Value) -> (r: Result<PointsSections, LayoutError>)
    ensures
        match section(vview(*canonical), "points"@) {
            None => r matches Err(LayoutError::MissingPoints),
            Some(p) => match section(p, "zones"@) {
                Some(ValueView::Table(z)) => r matches Ok(s) && table_view(s.zones@) == z && vview(s.key)
                    == or_empty_table(section(p, "key"@)) && opt_view(s.rotate) == section(p, "rotate"@)
                    && opt_view(s.mirror) == section(p, "mirror"@),
                _ => r matches Err(LayoutError::ZonesNotMap),
            },
        },
{
    let root = match canonical {
        Value::Mapping(e) => e,
        _ => {
            return Err(LayoutError::MissingPoints);
        },
    };
    let points = match table_lookup(root, "points") {
        Some(p) => p,
        None => {
            return Err(LayoutError::MissingPoints);
        },
    };
    let pm = match points {
        Value::Mapping(pm) => pm,
        _ => {
            return Err(LayoutError::ZonesNotMap);
        },
    };
    let zones = match table_lookup(pm, "zones") {
        Some(Value::Mapping(z)) => z,
        _ => {
            return Err(LayoutError::ZonesNotMap);
        },
    };
    let zc = copy_shallow(zones);
    Ok(
        PointsSections {
            zones: zc,
            key: copy_or_empty(table_lookup(pm, "key")),
            rotate: opt_copy(table_lookup(pm, "rotate")),
            mirror: opt_copy(table_lookup(pm, "mirror")),
        },
    )
}

fn copy_shallow(m: &Vec<(String, Value)>) -> (r: Vec<(String, Value)>)
    ensures
        table_view(r@) == table_view(m@),
{
    proof {
        crate::value::lemma_table_view(m@);
    }
    let mut out: Vec<(String, Value)> = Vec::new();
    let mut i: usize = 0;
    while i < m.len()
        invariant
            i <= m.len(),
            out@.len() == i,
            forall|q: int| 0 <= q < i ==> (#[trigger] out@[q]).0@ == m@[q].0@ && vview(out@[q].1) == vview(m@[q].1),
        decreases m.len() - i,
    {
        out.push((m[i].0.clone(), copy_value(&m[i].1)));
        i += 1;
    }
    proof {
        crate::value::lemma_table_view_ext(out@, m@);
    }
    out
}

/// A zone's own settings taken apart: its anchor (an empty mapping when
/// absent), its rotation and mirror settings, and the rest.
#[derive(Debug)]
pub struct ZoneParts {
    pub anchor: Value,
    pub rotate: Option<Value>,
    pub mirror: Option<Value>,
    pub rest: Vec<(String, Value)>,
}

/// The entries of a zone: a mapping's, none for null; other values are no
/// zone.
pub open spec fn zone_entries(v: ValueView) -> Option<Seq<(Seq<char>, ValueView)>> {
    match v {
        ValueView::Table(m) => Some(m),
        ValueView::Null => Some(seq![]),
        _ => None,
    }
}

/// Takes a zone apart; `None` for a value that is neither a mapping nor
/// null, which the layout skips.
pub fn split_zone(v: &Value) -> (r: Option<ZoneParts>)
    ensures
        match zone_entries(vview(*v)) {
            None => r is None,
            Some(m) => r matches Some(z) && vview(z.anchor) == or_empty_table(table_get(m, "anchor"@))
                && opt_view(z.rotate) == table_get(m, "rotate"@) && opt_view(z.mirror) == table_get(
                m,
                "mirror"@,
            ) && table_view(z.rest@) == table_remove(
                table_remove(table_remove(m, "anchor"@), "rotate"@),
                "mirror"@,
            ),
        },
{
    let entries: Vec<(String, Value)> = match v {
        Value::Mapping(m) => copy_shallow(m),
        Value::Null => {
            let e: Vec<(String, Value)> = Vec::new();
            proof {
                crate::value::lemma_table_view(e@);
                assert(table_view(e@) =~= Seq::<(Seq<char>, ValueView)>::empty());
            }
            e
        },
        _ => {
            return None;
        },
    };
    let anchor = copy_or_empty(table_lookup(&entries, "anchor"));
    let rotate = opt_copy(table_lookup(&entries, "rotate"));
    let mirror = opt_copy(table_lookup(&entries, "mirror"));
    let r1 = crate::value::table_remove_exec(&entries, &str_to_string("anchor"));
    let r2 = crate::value::table_remove_exec(&r1, &str_to_string("rotate"));
    let r3 = crate::value::table_remove_exec(&r2, &str_to_string("mirror"));
    Some(ZoneParts { anchor, rotate, mirror, rest: r3 })
}

/// The first of `new` that `existing` already has.
pub open spec fn first_dup(existing: Seq<Seq<char>>, new: Seq<Seq<char>>, i: int) -> Option<Seq<char>>
    decreases new.len() - i,
{
    if i < 0 || i >= new.len() {
        None
    } else if existing.contains(new[i]) {
        Some(new[i])
    } else {
        first_dup(existing, new, i + 1)
    }
}

/// A zone's keys may not reuse a name of an earlier zone: the first name
/// of `new` that `existing` has is a duplicate key.
pub fn check_new_names(existing: &[String], new: &[String]) -> (r: Result<(), LayoutError>)
    ensures
        match first_dup(string_views(existing@), string_views(new@), 0) {
            None => r is Ok,
            Some(n) => r matches Err(LayoutError::DuplicateKey { name }) && name@ == n,
        },
{
    let ghost ev = string_views(existing@);
    let ghost nv = string_views(new@);
    let mut i: usize = 0;
    while i < new.len()
        invariant
            i <= new.len(),
            ev == string_views(existing@),
            nv == string_views(new@),
            first_dup(ev, nv, 0) == first_dup(ev, nv, i as int),
        decreases new.len() - i,
    {
        assert(nv[i as int] == new@[i as int]@);
        if crate::jscad::contains_string(existing, &new[i]) {
            return Err(LayoutError::DuplicateKey { name: new[i].clone() });
        }
        i += 1;
    }
    Ok(())
}

/// The four sides of a `bind` setting (top, right, bottom, left), before
/// evaluation: null or absent is the default on every side, a value other
/// than a sequence is that value on every side, two values are vertical
/// and horizontal, four are the sides; a null side is the default.
pub open spec fn trbl_spec(v: Option<ValueView>, default: ValueView) -> Option<Seq<ValueView>> {
    let s = match v {
        None => seq![default, default, default, default],
        Some(ValueView::Null) => seq![default, default, default, default],
        Some(ValueView::List(items)) => items,
        Some(other) => seq![other, other, other, other],
    };
    let expanded = if s.len() == 2 {
        Some(seq![s[1], s[0], s[1], s[0]])
    } else if s.len() == 4 {
        Some(s)
    } else {
        None
    };
    match expanded {
        Some(e) => Some(
            e.map_values(
                |x: ValueView|
                    if x is Null {
                        default
                    } else {
                        x
                    },
            ),
        ),
        None => None,
    }
}

fn default_if_null(x: &Value, default: u64) -> (r: Value)
    ensures
        vview(r) == if vview(*x) is Null {
            ValueView::Number(default)
        } else {
            vview(*x)
        },
{
    match x {
        Value::Null => Value::Number(default),
        _ => copy_value(x),
    }
}

/// Expands a `bind` setting at `at` into its four sides, the default given
/// by the bits of a number; any other count of values is an error.
pub fn expand_trbl(v: Option<&Value>, at: &str, default: u64) -> (r: Result<Vec<Value>, LayoutError>)
    ensures
        match trbl_spec(
            match v {
                Some(x) => Some(vview(*x)),
                None => None,
            },
            ValueView::Number(default),
        ) {
            Some(e) => r matches Ok(s) && list_view(s@) == e,
            None => r matches Err(LayoutError::InvalidTrbl { at: a }) && a@ == at@,
        },
{
    let four: Vec<Value> = match v {
        None | Some(Value::Null) => vec![Value::Number(default), Value::Number(default), Value::Number(default), Value::Number(default)],
        Some(Value::Sequence(items)) => copy_list(items),
        Some(other) => vec![copy_value(other), copy_value(other), copy_value(other), copy_value(other)],
    };
    proof {
        crate::value::lemma_list_view(four@);
    }
    let ghost fv = list_view(four@);
    let expanded: Vec<&Value> = if four.len() == 2 {
        vec![&four[1], &four[0], &four[1], &four[0]]
    } else if four.len() == 4 {
        vec![&four[0], &four[1], &four[2], &four[3]]
    } else {
        return Err(LayoutError::InvalidTrbl { at: str_to_string(at) });
    };
    let out = vec![
        default_if_null(expanded[0], default),
        default_if_null(expanded[1], default),
        default_if_null(expanded[2], default),
        default_if_null(expanded[3], default),
    ];
    proof {
        crate::value::lemma_list_view(out@);
        let e = if fv.len() == 2 {
            seq![fv[1], fv[0], fv[1], fv[0]]
        } else {
            fv
        };
        assert(list_view(out@) =~= e.map_values(
            |x: ValueView|
                if x is Null {
                    ValueView::Number(default)
                } else {
                    x
                },
        ));
    }
    Ok(out)
}

fn copy_list(items: &Vec<Value>) -> (r: Vec<Value>)
    ensures
        list_view(r@) == list_view(items@),
{
    let mut out: Vec<Value> = Vec::new();
    let mut i: usize = 0;
    while i < items.len()
        invariant
            i <= items.len(),
            out@.len() == i,
            forall|q: int| 0 <= q < i ==> vview(#[trigger] out@[q]) == vview(items@[q]),
        decreases items.len() - i,
    {
        out.push(copy_value(&items[i]));
        i += 1;
    }
    proof {
        crate::value::lemma_list_view_ext(out@, items@);
    }
    out
}

} // verus!

verus! {

/// The entries of a mapping; none for any other value or when absent.
pub open spec fn entries_or_empty(o: Option<ValueView>) -> Seq<(Seq<char>, ValueView)> {
    match o {
        Some(ValueView::Table(m)) => m,
        _ => seq![],
    }
}

/// A value, or null when absent.
pub open spec fn or_null(o: Option<ValueView>) -> ValueView {
    match o {
        Some(v) => v,
        None => ValueView::Null,
    }
}

/// The columns of a zone: its `columns` mapping, or one column `default`
/// when that is empty or not a mapping.
pub open spec fn zone_columns(zone: Seq<(Seq<char>, ValueView)>) -> Seq<(Seq<char>, ValueView)> {
    let c = entries_or_empty(table_get(zone, "columns"@));
    if c.len() == 0 {
        seq![("default"@, ValueView::Table(seq![]))]
    } else {
        c
    }
}

/// The rows of a column: the keys of the zone's rows merged with the
/// column's, or one row `default` when there are none.
pub open spec fn row_names(zone_rows: Seq<(Seq<char>, ValueView)>, col_rows: Seq<(Seq<char>, ValueView)>) -> Seq<Seq<char>> {
    match extend_all_spec(seq![ValueView::Table(zone_rows), ValueView::Table(col_rows)]) {
        ValueView::Table(m) => if m.len() > 0 {
            m.map_values(|e: (Seq<char>, ValueView)| e.0)
        } else {
            seq!["default"@]
        },
        _ => seq!["default"@],
    }
}

/// The key settings of each row of a column: the default key, the global
/// key, the zone's key, the column's key, the zone's row and the column's
/// row, merged in that order.
pub open spec fn column_keys(
    colv: ValueView,
    zone_rows: Seq<(Seq<char>, ValueView)>,
    zone_key: ValueView,
    global_key: ValueView,
    default_key: ValueView,
) -> Seq<(Seq<char>, ValueView)> {
    let col = entries_or_empty(Some(colv));
    let col_rows = entries_or_empty(table_get(col, "rows"@));
    let col_key = or_empty_table(table_get(col, "key"@));
    row_names(zone_rows, col_rows).map_values(
        |r: Seq<char>|
            (r, extend_all_spec(
                seq![
                    default_key,
                    global_key,
                    zone_key,
                    col_key,
                    or_null(table_get(zone_rows, r)),
                    or_null(table_get(col_rows, r)),
                ],
            )),
    )
}

/// The columns of a zone, each with the merged settings of its keys.
pub open spec fn zone_keys_spec(zone: Seq<(Seq<char>, ValueView)>, global_key: ValueView, default_key: ValueView) -> Seq<(Seq<char>, Seq<(Seq<char>, ValueView)>)> {
    let zone_rows = entries_or_empty(table_get(zone, "rows"@));
    let zone_key = or_empty_table(table_get(zone, "key"@));
    zone_columns(zone).map_values(
        |c: (Seq<char>, ValueView)| (c.0, column_keys(c.1, zone_rows, zone_key, global_key, default_key)),
    )
}

/// A column of a zone with the merged key settings of its rows, in order.
#[derive(Debug)]
pub struct ZoneColumn {
    pub name: String,
    pub rows: Vec<(String, Value)>,
}

pub open spec fn columns_view(cs: Seq<ZoneColumn>) -> Seq<(Seq<char>, Seq<(Seq<char>, ValueView)>)> {
    cs.map_values(|c: ZoneColumn| (c.name@, table_view(c.rows@)))
}

fn entries_of_opt(o: Option<&Value>) -> (r: Vec<(String, Value)>)
    ensures
        table_view(r@) == entries_or_empty(
            match o {
                Some(v) => Some(vview(*v)),
                None => None::<ValueView>,
            },
        ),
{
    match o {
        Some(Value::Mapping(m)) => copy_shallow(m),
        _ => {
            let e: Vec<(String, Value)> = Vec::new();
            proof {
                crate::value::lemma_table_view(e@);
                assert(table_view(e@) =~= Seq::<(Seq<char>, ValueView)>::empty());
            }
            e
        },
    }
}

fn or_null_exec(o: Option<&Value>) -> (r: Value)
    ensures
        vview(r) == or_null(
            match o {
                Some(v) => Some(vview(*v)),
                None => None::<ValueView>,
            },
        ),
{
    match o {
        Some(v) => copy_value(v),
        None => Value::Null,
    }
}

fn rows_of(zone_rows: &Vec<(String, Value)>, col_rows: &Vec<(String, Value)>) -> (r: Vec<String>)
    ensures
        string_views(r@) == row_names(table_view(zone_rows@), table_view(col_rows@)),
{
    let arr = vec![Value::Mapping(copy_shallow(zone_rows)), Value::Mapping(copy_shallow(col_rows))];
    proof {
        crate::value::lemma_list_view(arr@);
        assert(list_view(arr@) =~= seq![
            ValueView::Table(table_view(zone_rows@)),
            ValueView::Table(table_view(col_rows@)),
        ]);
    }
    let merged = extend_all(arr.as_slice());
    match merged {
        Value::Mapping(m) => {
            proof {
                crate::value::lemma_table_view(m@);
            }
            if m.len() > 0 {
                crate::jscad_parts::keys_of(&m)
            } else {
                default_row()
            }
        },
        _ => default_row(),
    }
}

fn default_row() -> (r: Vec<String>)
    ensures
        string_views(r@) == seq!["default"@],
{
    let r = vec![str_to_string("default")];
    assert(string_views(r@) =~= seq!["default"@]);
    r
}

fn column_keys_exec(
    colv: &Value,
    zone_rows: &Vec<(String, Value)>,
    zone_key: &Value,
    global_key: &Value,
    default_key: &Value,
) -> (r: Vec<(String, Value)>)
    ensures
        table_view(r@) == column_keys(
            vview(*colv),
            table_view(zone_rows@),
            vview(*zone_key),
            vview(*global_key),
            vview(*default_key),
        ),
{
    let col = entries_of_opt(Some(colv));
    let col_rows = entries_of_opt(table_lookup(&col, "rows"));
    let col_key = copy_or_empty(table_lookup(&col, "key"));
    let rows = rows_of(zone_rows, &col_rows);
    let ghost rv = string_views(rows@);
    let ghost zr = table_view(zone_rows@);
    let ghost cr = table_view(col_rows@);
    let ghost want = column_keys(vview(*colv), zr, vview(*zone_key), vview(*global_key), vview(*default_key));
    let mut out: Vec<(String, Value)> = Vec::new();
    let mut i: usize = 0;
    while i < rows.len()
        invariant
            i <= rows.len(),
            rv == string_views(rows@),
            zr == table_view(zone_rows@),
            cr == table_view(col_rows@),
            want == column_keys(vview(*colv), zr, vview(*zone_key), vview(*global_key), vview(*default_key)),
            want.len() == rv.len(),
            cr == entries_or_empty(table_get(entries_or_empty(Some(vview(*colv))), "rows"@)),
            vview(col_key) == or_empty_table(table_get(entries_or_empty(Some(vview(*colv))), "key"@)),
            rv == row_names(zr, cr),
            out@.len() == i,
            forall|q: int| 0 <= q < i ==> #[trigger] table_view(out@)[q] == want[q],
        decreases rows.len() - i,
    {
        proof {
            crate::value::lemma_table_view(out@);
        }
        let zrow = or_null_exec(table_lookup(zone_rows, rows[i].as_str()));
        let crow = or_null_exec(table_lookup(&col_rows, rows[i].as_str()));
        let parts = vec![
            copy_value(default_key),
            copy_value(global_key),
            copy_value(zone_key),
            copy_value(&col_key),
            zrow,
            crow,
        ];
        proof {
            crate::value::lemma_list_view(parts@);
            assert(list_view(parts@) =~= seq![
                vview(*default_key),
                vview(*global_key),
                vview(*zone_key),
                vview(col_key),
                or_null(table_get(zr, rv[i as int])),
                or_null(table_get(cr, rv[i as int])),
            ]);
        }
        let merged = extend_all(parts.as_slice());
        let ghost before = out@;
        out.push((rows[i].clone(), merged));
        proof {
            crate::value::lemma_table_view(out@);
            assert(table_view(out@)[i as int] == (rows@[i as int]@, vview(merged)));
            assert(rows@[i as int]@ == rv[i as int]);
            assert(want[i as int] == (rv[i as int], extend_all_spec(
                seq![
                    vview(*default_key),
                    vview(*global_key),
                    vview(*zone_key),
                    vview(col_key),
                    or_null(table_get(zr, rv[i as int])),
                    or_null(table_get(cr, rv[i as int])),
                ],
            )));
            assert forall|q: int| 0 <= q < i + 1 implies #[trigger] table_view(out@)[q] == want[q] by {
                if q < i {
                    assert(out@[q] == before[q]);
                    assert(table_view(before)[q] == want[q]);
                }
            }
        }
        i += 1;
    }
    proof {
        crate::value::lemma_table_view(out@);
        assert(table_view(out@) =~= want);
    }
    out
}

/// The columns of a zone (its settings without anchor, rotation and
/// mirror), each with the merged key settings of its rows; the default key
/// is the layout's defaults as a value.
pub fn zone_keys(zone: &Vec<(String, Value)>, global_key: &Value, default_key: &Value) -> (r: Vec<ZoneColumn>)
    ensures
        columns_view(r@) == zone_keys_spec(table_view(zone@), vview(*global_key), vview(*default_key)),
{
    let ghost zv = table_view(zone@);
    let zone_rows = entries_of_opt(table_lookup(zone, "rows"));
    let zone_key = copy_or_empty(table_lookup(zone, "key"));
    let mut cols = entries_of_opt(table_lookup(zone, "columns"));
    if cols.len() == 0 {
        proof {
            crate::value::lemma_table_view(cols@);
        }
        cols.push((str_to_string("default"), empty_table()));
        proof {
            crate::value::lemma_table_view(cols@);
            assert(table_view(cols@) =~= seq![("default"@, ValueView::Table(seq![]))]);
        }
    } else {
        proof {
            crate::value::lemma_table_view(cols@);
        }
    }
    assert(table_view(cols@) == zone_columns(zv));
    let ghost want = zone_keys_spec(zv, vview(*global_key), vview(*default_key));
    let mut out: Vec<ZoneColumn> = Vec::new();
    let mut i: usize = 0;
    while i < cols.len()
        invariant
            i <= cols.len(),
            zv == table_view(zone@),
            table_view(cols@) == zone_columns(zv),
            table_view(cols@).len() == cols@.len(),
            forall|q: int| 0 <= q < cols@.len() ==> #[trigger] table_view(cols@)[q] == (cols@[q].0@, vview(cols@[q].1)),
            table_view(zone_rows@) == entries_or_empty(table_get(zv, "rows"@)),
            vview(zone_key) == or_empty_table(table_get(zv, "key"@)),
            want == zone_keys_spec(zv, vview(*global_key), vview(*default_key)),
            out@.len() == i,
            forall|q: int| 0 <= q < i ==> #[trigger] columns_view(out@)[q] == want[q],
        decreases cols.len() - i,
    {
        let rows = column_keys_exec(&cols[i].1, &zone_rows, &zone_key, global_key, default_key);
        let ghost before = out@;
        assert(table_view(cols@)[i as int] == (cols@[i as int].0@, vview(cols@[i as int].1)));
        assert(want[i as int] == (cols@[i as int].0@, column_keys(
            vview(cols@[i as int].1),
            table_view(zone_rows@),
            vview(zone_key),
            vview(*global_key),
            vview(*default_key),
        )));
        out.push(ZoneColumn { name: cols[i].0.clone(), rows });
        proof {
            assert(columns_view(out@)[i as int] == want[i as int]);
            assert forall|q: int| 0 <= q < i + 1 implies #[trigger] columns_view(out@)[q] == want[q] by {
                if q < i {
                    assert(out@[q] == before[q]);
                    assert(columns_view(before)[q] == want[q]);
                }
            }
        }
        i += 1;
    }
    assert(columns_view(out@) =~= want);
    out
}

} // verus!

verus! {

/// Whether a name ends with `_default`.
pub open spec fn ends_default(s: Seq<char>) -> bool {
    s.len() >= 8 && s.skip(s.len() - 8) == "_default"@
}

/// A name without every trailing `_default`.
pub open spec fn trim_default(s: Seq<char>) -> Seq<char>
    decreases s.len(),
{
    if ends_default(s) {
        trim_default(s.take(s.len() - 8))
    } else {
        s
    }
}

/// Index of the entry named `k`.
pub open spec fn name_index(m: Seq<(Seq<char>, usize)>, k: Seq<char>) -> Option<int> {
    if exists|i: int| 0 <= i < m.len() && m[i].0 == k {
        Some(choose|i: int| 0 <= i < m.len() && m[i].0 == k)
    } else {
        None
    }
}

/// Each name at most once.
pub open spec fn names_unique(m: Seq<(Seq<char>, usize)>) -> bool {
    forall|i: int, j: int| 0 <= i < m.len() && 0 <= j < m.len() && i != j ==> m[i].0 != m[j].0
}

/// Renames entry `k` to its trimmed name: the entry leaves its place, and
/// its value goes to the entry of the trimmed name when there is one (in
/// that entry's place), else to a new entry at the end.
pub open spec fn rename_default(m: Seq<(Seq<char>, usize)>, k: Seq<char>) -> Seq<(Seq<char>, usize)> {
    match name_index(m, k) {
        None => m,
        Some(i) => {
            let v = m[i].1;
            let rest = m.remove(i);
            let nk = trim_default(k);
            match name_index(rest, nk) {
                Some(j) => rest.update(j, (nk, v)),
                None => rest.push((nk, v)),
            }
        },
    }
}

/// The names renamed in order.
pub open spec fn rename_all(m: Seq<(Seq<char>, usize)>, keys: Seq<Seq<char>>) -> Seq<(Seq<char>, usize)>
    decreases keys.len(),
{
    if keys.len() == 0 {
        m
    } else {
        rename_default(rename_all(m, keys.drop_last()), keys.last())
    }
}

/// The points of a zone (name, index of the point) after the names ending
/// in `_default` lose that ending, in the order they had.
pub open spec fn simplify_spec(m: Seq<(Seq<char>, usize)>) -> Seq<(Seq<char>, usize)> {
    rename_all(m, m.map_values(|e: (Seq<char>, usize)| e.0).filter(|n: Seq<char>| ends_default(n)))
}

pub proof fn lemma_trim_default(s: Seq<char>)
    ensures
        !ends_default(trim_default(s)),
    decreases s.len(),
{
    if ends_default(s) {
        lemma_trim_default(s.take(s.len() - 8));
    }
}

fn ends_default_exec(s: &String) -> (b: bool)
    ensures
        b == ends_default(s@),
{
    let v = crate::text::chars_of(s.as_str());
    if v.len() < 8 {
        return false;
    }
    let tail = crate::yaml_flow::slice_vec(v.as_slice(), v.len() - 8, v.len());
    assert(tail@ =~= s@.skip(s@.len() - 8));
    crate::expr::chars_eq(tail.as_slice(), "_default")
}

fn trim_default_exec(s: &String) -> (r: String)
    ensures
        r@ == trim_default(s@),
{
    let mut v = crate::text::chars_of(s.as_str());
    loop
        invariant
            trim_default(v@) == trim_default(s@),
        ensures
            v@ == trim_default(s@),
        decreases v.len(),
    {
        if v.len() < 8 {
            break;
        }
        let tail = crate::yaml_flow::slice_vec(v.as_slice(), v.len() - 8, v.len());
        assert(tail@ =~= v@.skip(v@.len() - 8));
        if !crate::expr::chars_eq(tail.as_slice(), "_default") {
            break;
        }
        let n = v.len() - 8;
        let ghost pre = v@;
        v.truncate(n);
        assert(v@ =~= pre.take(pre.len() - 8));
    }
    crate::text::string_of(v.as_slice())
}

pub open spec fn entry_views(m: Seq<(String, usize)>) -> Seq<(Seq<char>, usize)> {
    m.map_values(|e: (String, usize)| (e.0@, e.1))
}

proof fn lemma_name_index(m: Seq<(Seq<char>, usize)>, k: Seq<char>, i: int)
    requires
        names_unique(m),
        0 <= i < m.len(),
        m[i].0 == k,
    ensures
        name_index(m, k) == Some(i),
{
}

fn find_name(m: &Vec<(String, usize)>, k: &String) -> (r: Option<usize>)
    ensures
        match r {
            Some(i) => i < m.len() && m@[i as int].0@ == k@,
            None => forall|q: int| 0 <= q < m@.len() ==> #[trigger] m@[q].0@ != k@,
        },
{
    let mut i: usize = 0;
    while i < m.len()
        invariant
            i <= m.len(),
            forall|q: int| 0 <= q < i ==> #[trigger] m@[q].0@ != k@,
        decreases m.len() - i,
    {
        if m[i].0 == *k {
            return Some(i);
        }
        i += 1;
    }
    None
}

fn rename_one(m: &mut Vec<(String, usize)>, k: &String)
    requires
        names_unique(entry_views(old(m)@)),
    ensures
        entry_views(final(m)@) == rename_default(entry_views(old(m)@), k@),
        names_unique(entry_views(final(m)@)),
{
    let ghost mv = entry_views(m@);
    match find_name(m, k) {
        None => {
            assert(name_index(mv, k@) is None) by {
                if exists|i: int| 0 <= i < mv.len() && mv[i].0 == k@ {
                    let i = choose|i: int| 0 <= i < mv.len() && mv[i].0 == k@;
                    assert(m@[i].0@ != k@);
                }
            }
        },
        Some(i) => {
            proof {
                lemma_name_index(mv, k@, i as int);
            }
            let (_, v) = m.remove(i);
            let ghost rest = entry_views(m@);
            assert(rest =~= mv.remove(i as int));
            let nk = trim_default_exec(k);
            match find_name(m, &nk) {
                Some(j) => {
                    proof {
                        lemma_name_index(rest, nk@, j as int);
                    }
                    m.set(j, (nk, v));
                    assert(entry_views(m@) =~= rest.update(j as int, (trim_default(k@), v)));
                },
                None => {
                    assert(name_index(rest, nk@) is None) by {
                        if exists|q: int| 0 <= q < rest.len() && rest[q].0 == nk@ {
                            let q = choose|q: int| 0 <= q < rest.len() && rest[q].0 == nk@;
                            assert(m@[q].0@ != nk@);
                        }
                    }
                    m.push((nk, v));
                    assert(entry_views(m@) =~= rest.push((trim_default(k@), v)));
                },
            }
        },
    }
}

/// Names ending in `_default` lose that ending (all of it), in order; a
/// renamed point replaces a point that already has the new name, in that
/// point's place. Points are given as (name, index of the point).
pub fn simplify_default_names(points: Vec<(String, usize)>) -> (r: Vec<(String, usize)>)
    requires
        names_unique(entry_views(points@)),
    ensures
        entry_views(r@) == simplify_spec(entry_views(points@)),
        names_unique(entry_views(r@)),
{
    let ghost pv = entry_views(points@);
    let ghost names = pv.map_values(|e: (Seq<char>, usize)| e.0);
    let ghost keep = |n: Seq<char>| ends_default(n);
    let mut to_rename: Vec<String> = Vec::new();
    let mut i: usize = 0;
    assert(names.take(0).filter(keep) =~= Seq::<Seq<char>>::empty()) by {
        reveal(Seq::filter);
    }
    while i < points.len()
        invariant
            i <= points.len(),
            pv == entry_views(points@),
            names == pv.map_values(|e: (Seq<char>, usize)| e.0),
            keep == (|n: Seq<char>| ends_default(n)),
            string_views(to_rename@) == names.take(i as int).filter(keep),
        decreases points.len() - i,
    {
        assert(names.take(i + 1).drop_last() =~= names.take(i as int));
        assert(names.take(i + 1).last() == points@[i as int].0@);
        assert(names.take(i + 1).filter(keep) == if keep(points@[i as int].0@) {
            names.take(i as int).filter(keep).push(points@[i as int].0@)
        } else {
            names.take(i as int).filter(keep)
        }) by {
            reveal(Seq::filter);
        }
        let ghost before = string_views(to_rename@);
        if ends_default_exec(&points[i].0) {
            to_rename.push(points[i].0.clone());
            assert(string_views(to_rename@) =~= before.push(points@[i as int].0@));
        }
        i += 1;
    }
    assert(names.take(points.len() as int) =~= names);
    let ghost keys = string_views(to_rename@);
    let mut m = points;
    let mut k: usize = 0;
    assert(keys.take(0) =~= Seq::<Seq<char>>::empty());
    while k < to_rename.len()
        invariant
            k <= to_rename.len(),
            keys == string_views(to_rename@),
            names_unique(entry_views(m@)),
            entry_views(m@) == rename_all(pv, keys.take(k as int)),
        decreases to_rename.len() - k,
    {
        assert(keys.take(k + 1).drop_last() =~= keys.take(k as int));
        assert(keys.take(k + 1).last() == to_rename@[k as int]@);
        rename_one(&mut m, &to_rename[k]);
        k += 1;
    }
    assert(keys.take(to_rename.len() as int) =~= keys);
    m
}

/// After the names ending in `_default` are simplified, no name ends in
/// `_default`.
pub proof fn law_simplified_names_lose_default(m: Seq<(Seq<char>, usize)>)
    requires
        names_unique(m),
    ensures
        forall|i: int| 0 <= i < simplify_spec(m).len() ==> !ends_default(#[trigger] simplify_spec(m)[i].0),
{
    let names = m.map_values(|e: (Seq<char>, usize)| e.0);
    let keep = |n: Seq<char>| ends_default(n);
    let keys = names.filter(keep);
    assert forall|i: int| 0 <= i < m.len() && ends_default(m[i].0) implies keys.contains(m[i].0) by {
        assert(names[i] == m[i].0);
        names.lemma_filter_contains(keep, i);
    }
    assert(keys.skip(0) =~= keys);
    assert(keys.take(0) =~= Seq::<Seq<char>>::empty());
    lemma_rename_prefix(m, keys, 0);
    assert(keys.take(keys.len() as int) =~= keys);
    assert(keys.skip(keys.len() as int) =~= Seq::<Seq<char>>::empty());
}

/// Renaming the first `k` keys leaves names ending in `_default` only
/// among the keys still to rename.
proof fn lemma_rename_prefix(m: Seq<(Seq<char>, usize)>, keys: Seq<Seq<char>>, k: int)
    requires
        0 <= k <= keys.len(),
        names_unique(rename_all(m, keys.take(k))),
        forall|i: int|
            0 <= i < rename_all(m, keys.take(k)).len() && ends_default(rename_all(m, keys.take(k))[i].0)
                ==> keys.skip(k).contains(#[trigger] rename_all(m, keys.take(k))[i].0),
    ensures
        forall|i: int|
            0 <= i < rename_all(m, keys).len() ==> !ends_default(#[trigger] rename_all(m, keys)[i].0),
    decreases keys.len() - k,
{
    if k == keys.len() {
        assert(keys.take(k) =~= keys);
        assert forall|i: int| 0 <= i < rename_all(m, keys).len() implies !ends_default(
            #[trigger] rename_all(m, keys)[i].0,
        ) by {
            if ends_default(rename_all(m, keys)[i].0) {
                assert(keys.skip(k).len() == 0);
            }
        }
    } else {
        let cur = rename_all(m, keys.take(k));
        let kk = keys[k];
        assert(keys.take(k + 1).drop_last() =~= keys.take(k));
        assert(keys.take(k + 1).last() == kk);
        let next = rename_all(m, keys.take(k + 1));
        assert(next == rename_default(cur, kk));
        lemma_rename_default(cur, kk);
        assert(keys.skip(k) =~= seq![kk] + keys.skip(k + 1));
        assert forall|i: int| 0 <= i < next.len() && ends_default(next[i].0) implies keys.skip(k + 1).contains(
            #[trigger] next[i].0,
        ) by {
            let j = choose|j: int| 0 <= j < cur.len() && cur[j].0 == next[i].0 && cur[j].0 != kk;
            assert(keys.skip(k).contains(cur[j].0));
            let w = choose|w: int| 0 <= w < keys.skip(k).len() && keys.skip(k)[w] == cur[j].0;
            assert(w != 0);
            assert(keys.skip(k + 1)[w - 1] == cur[j].0);
        }
        lemma_rename_prefix(m, keys, k + 1);
    }
}

/// Renaming keeps the names unique, and each name ending in `_default`
/// afterwards was there before, other than the renamed name.
proof fn lemma_rename_default(m: Seq<(Seq<char>, usize)>, k: Seq<char>)
    requires
        names_unique(m),
    ensures
        names_unique(rename_default(m, k)),
        forall|i: int|
            0 <= i < rename_default(m, k).len() && ends_default(rename_default(m, k)[i].0) ==> exists|j: int|
                0 <= j < m.len() && m[j].0 == #[trigger] rename_default(m, k)[i].0 && m[j].0 != k,
{
    let r = rename_default(m, k);
    match name_index(m, k) {
        None => {
            assert forall|i: int| 0 <= i < r.len() && ends_default(r[i].0) implies exists|j: int|
                0 <= j < m.len() && m[j].0 == #[trigger] r[i].0 && m[j].0 != k by {
                if m[i].0 == k {
                    assert(exists|q: int| 0 <= q < m.len() && m[q].0 == k);
                }
                assert(m[i].0 == r[i].0);
            }
        },
        Some(ix) => {
            let v = m[ix].1;
            let rest = m.remove(ix);
            let nk = trim_default(k);
            lemma_trim_default(k);
            assert forall|i: int| 0 <= i < rest.len() implies (#[trigger] rest[i]).0 != k && exists|j: int|
                0 <= j < m.len() && j != ix && m[j] == rest[i] by {
                if i < ix {
                    assert(m[i] == rest[i]);
                } else {
                    assert(m[i + 1] == rest[i]);
                }
            }
            assert(names_unique(rest)) by {
                assert forall|a: int, b: int| 0 <= a < rest.len() && 0 <= b < rest.len() && a != b implies rest[a].0
                    != rest[b].0 by {
                    let a2 = if a < ix { a } else { a + 1 };
                    let b2 = if b < ix { b } else { b + 1 };
                    assert(rest[a] == m[a2]);
                    assert(rest[b] == m[b2]);
                }
            }
            match name_index(rest, nk) {
                Some(jx) => {
                    assert(r == rest.update(jx, (nk, v)));
                    assert forall|a: int, b: int| 0 <= a < r.len() && 0 <= b < r.len() && a != b implies r[a].0
                        != r[b].0 by {
                        if a == jx {
                            assert(r[a].0 == rest[jx].0);
                        }
                        if b == jx {
                            assert(r[b].0 == rest[jx].0);
                        }
                    }
                    assert forall|i: int| 0 <= i < r.len() && ends_default(r[i].0) implies exists|j: int|
                        0 <= j < m.len() && m[j].0 == #[trigger] r[i].0 && m[j].0 != k by {
                        assert(i != jx);
                        assert(r[i] == rest[i]);
                        let j = choose|j: int| 0 <= j < m.len() && j != ix && m[j] == rest[i];
                        assert(m[j].0 == r[i].0);
                    }
                },
                None => {
                    assert(r == rest.push((nk, v)));
                    assert forall|a: int, b: int| 0 <= a < r.len() && 0 <= b < r.len() && a != b implies r[a].0
                        != r[b].0 by {
                        if a == rest.len() && b < rest.len() {
                            assert(rest[b].0 != nk);
                        }
                        if b == rest.len() && a < rest.len() {
                            assert(rest[a].0 != nk);
                        }
                    }
                    assert forall|i: int| 0 <= i < r.len() && ends_default(r[i].0) implies exists|j: int|
                        0 <= j < m.len() && m[j].0 == #[trigger] r[i].0 && m[j].0 != k by {
                        assert(i < rest.len());
                        assert(r[i] == rest[i]);
                        let j = choose|j: int| 0 <= j < m.len() && j != ix && m[j] == rest[i];
                        assert(m[j].0 == r[i].0);
                    }
                },
            }
        },
    }
}

} // verus!
