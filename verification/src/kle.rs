//! The string-level rules of KLE import: key labels, metadata rows and the
//! row and column nets a label names.
use vstd::prelude::*;
use crate::expr::str_to_string;
use crate::jscad::string_views;

verus! {

/// The first label that is not empty, or the empty string.
pub open spec fn first_label(labels: Seq<Seq<char>>) -> Seq<char>
    decreases labels.len(),
{
    if labels.len() == 0 {
        seq![]
    } else if labels[0].len() > 0 {
        labels[0]
    } else {
        first_label(labels.drop_first())
    }
}

/// The first non-empty label of a key.
pub fn first_non_empty_label(labels: &[String]) -> (r: String)
    ensures
        r@ == first_label(string_views(labels@)),
{
    let ghost lv = string_views(labels@);
    let mut i: usize = 0;
    assert(lv.skip(0) =~= lv);
    while i < labels.len()
        invariant
            i <= labels.len(),
            lv == string_views(labels@),
            first_label(lv) == first_label(lv.skip(i as int)),
        decreases labels.len() - i,
    {
        let ghost rest = lv.skip(i as int);
        assert(rest[0] == labels@[i as int]@);
        assert(rest.drop_first() =~= lv.skip(i + 1));
        if labels[i].as_str().is_empty() == false {
            return labels[i].clone();
        }
        i += 1;
    }
    assert(lv.skip(i as int) =~= Seq::<Seq<char>>::empty());
    String::new()
}

/// The labels of a key: its legend split at each newline.
pub fn split_labels(label: &str) -> (r: Vec<String>)
    ensures
        string_views(r@) == crate::dxf_parse::split_newlines(label@),
{
    let s = crate::text::chars_of(label);
    let mut out: Vec<String> = Vec::new();
    let mut cur: Vec<char> = Vec::new();
    let mut i: usize = 0;
    assert(s@.take(0) =~= Seq::<char>::empty());
    while i < s.len()
        invariant
            i <= s.len(),
            s@ == label@,
            string_views(out@) + seq![cur@] == crate::dxf_parse::split_newlines(s@.take(i as int)),
        decreases s.len() - i,
    {
        let ghost p = crate::dxf_parse::split_newlines(s@.take(i as int));
        let ghost before = string_views(out@);
        assert(s@.take(i + 1).drop_last() =~= s@.take(i as int));
        if s[i] == '\n' {
            let piece = crate::text::string_of(cur.as_slice());
            out.push(piece);
            cur = Vec::new();
            assert(string_views(out@) =~= before.push(piece@));
            assert(string_views(out@) + seq![cur@] =~= p.push(seq![]));
        } else {
            cur.push(s[i]);
            assert(string_views(out@) + seq![cur@] =~= p.update(p.len() - 1, p.last().push(s@[i as int])));
        }
        i += 1;
    }
    assert(s@.take(s.len() as int) =~= s@);
    let ghost before = string_views(out@);
    let piece = crate::text::string_of(cur.as_slice());
    out.push(piece);
    assert(string_views(out@) =~= before + seq![cur@]);
    out
}

/// Whether the first row of a KLE layout is metadata: it has none of the
/// key properties `x y w h r rx ry` and has `notes`, `name` or `author`.
pub open spec fn kle_meta(keys: Seq<Seq<char>>) -> bool {
    let prop = |k: Seq<char>|
        k == "x"@ || k == "y"@ || k == "w"@ || k == "h"@ || k == "r"@ || k == "rx"@ || k == "ry"@;
    let meta = |k: Seq<char>| k == "notes"@ || k == "name"@ || k == "author"@;
    !(exists|i: int| 0 <= i < keys.len() && prop(#[trigger] keys[i])) && (exists|i: int|
        0 <= i < keys.len() && meta(#[trigger] keys[i]))
}

fn is_key_prop(k: &String) -> (b: bool)
    ensures
        b == (k@ == "x"@ || k@ == "y"@ || k@ == "w"@ || k@ == "h"@ || k@ == "r"@ || k@ == "rx"@
            || k@ == "ry"@),
{
    let v = crate::text::chars_of(k.as_str());
    let t = v.as_slice();
    crate::expr::chars_eq(t, "x") || crate::expr::chars_eq(t, "y") || crate::expr::chars_eq(t, "w")
        || crate::expr::chars_eq(t, "h") || crate::expr::chars_eq(t, "r") || crate::expr::chars_eq(
        t,
        "rx",
    ) || crate::expr::chars_eq(t, "ry")
}

fn is_meta_key(k: &String) -> (b: bool)
    ensures
        b == (k@ == "notes"@ || k@ == "name"@ || k@ == "author"@),
{
    let v = crate::text::chars_of(k.as_str());
    let t = v.as_slice();
    crate::expr::chars_eq(t, "notes") || crate::expr::chars_eq(t, "name") || crate::expr::chars_eq(
        t,
        "author",
    )
}

/// Whether a first row with these keys is KLE metadata.
pub fn is_kle_meta_map(keys: &[String]) -> (b: bool)
    ensures
        b == kle_meta(string_views(keys@)),
{
    let ghost kv = string_views(keys@);
    let mut any_prop = false;
    let mut any_meta = false;
    let mut i: usize = 0;
    while i < keys.len()
        invariant
            i <= keys.len(),
            kv == string_views(keys@),
            any_prop == exists|j: int|
                0 <= j < i && (#[trigger] kv[j] == "x"@ || kv[j] == "y"@ || kv[j] == "w"@ || kv[j]
                    == "h"@ || kv[j] == "r"@ || kv[j] == "rx"@ || kv[j] == "ry"@),
            any_meta == exists|j: int|
                0 <= j < i && (#[trigger] kv[j] == "notes"@ || kv[j] == "name"@ || kv[j]
                    == "author"@),
        decreases keys.len() - i,
    {
        assert(kv[i as int] == keys@[i as int]@);
        if is_key_prop(&keys[i]) {
            any_prop = true;
        }
        if is_meta_key(&keys[i]) {
            any_meta = true;
        }
        i += 1;
    }
    !any_prop && any_meta
}

/// The nets a key label names: `R_C` with both parts decimal digits gives
/// `row_R` and `col_C`; otherwise the key's own name and `GND`.
pub open spec fn label_nets(key_name: Seq<char>, label: Seq<char>) -> (Seq<char>, Seq<char>) {
    if exists|u: int| 0 <= u < label.len() && label[u] == '_' {
        let u = choose|u: int|
            0 <= u < label.len() && label[u] == '_' && forall|j: int| 0 <= j < u ==> label[j] != '_';
        let r = label.take(u);
        let c = label.skip(u + 1);
        if r.len() > 0 && c.len() > 0 && crate::yaml_flow::all_digits(r)
            && crate::yaml_flow::all_digits(c) {
            ("row_"@ + r, "col_"@ + c)
        } else {
            (key_name, "GND"@)
        }
    } else {
        (key_name, "GND"@)
    }
}

fn all_digits_exec(s: &[char]) -> (b: bool)
    ensures
        b == crate::yaml_flow::all_digits(s@),
{
    let mut i: usize = 0;
    while i < s.len()
        invariant
            i <= s.len(),
            forall|k: int| 0 <= k < i ==> crate::text::is_digit(#[trigger] s@[k]),
        decreases s.len() - i,
    {
        if !crate::text::digit(s[i]) {
            return false;
        }
        i += 1;
    }
    true
}

/// The row and column nets of a key named `key_name` with label `label`.
pub fn key_nets(key_name: &str, label: &str) -> (r: (String, String))
    ensures
        (r.0@, r.1@) == label_nets(key_name@, label@),
{
    let s = crate::text::chars_of(label);
    let mut u: usize = 0;
    while u < s.len() && s[u] != '_'
        invariant
            u <= s.len(),
            s@ == label@,
            forall|j: int| 0 <= j < u ==> s@[j] != '_',
        decreases s.len() - u,
    {
        u += 1;
    }
    if u < s.len() {
        proof {
            let w = choose|w: int|
                0 <= w < label@.len() && label@[w] == '_' && forall|j: int| 0 <= j < w ==> label@[j] != '_';
            if w < u {
                assert(s@[w] != '_');
            }
            if w > u {
                assert(label@[u as int] == '_');
            }
        }
        let r = crate::yaml_flow::slice_vec(s.as_slice(), 0, u);
        let c = crate::yaml_flow::slice_vec(s.as_slice(), u + 1, s.len());
        assert(r@ =~= label@.take(u as int));
        assert(c@ =~= label@.skip(u + 1));
        if r.len() > 0 && c.len() > 0 && all_digits_exec(r.as_slice()) && all_digits_exec(c.as_slice()) {
            let mut rn = crate::text::chars_of("row_");
            crate::yaml_flow::extend(&mut rn, r.as_slice());
            let mut cn = crate::text::chars_of("col_");
            crate::yaml_flow::extend(&mut cn, c.as_slice());
            return (crate::text::string_of(rn.as_slice()), crate::text::string_of(cn.as_slice()));
        }
    }
    (str_to_string(key_name), str_to_string("GND"))
}

} // verus!

verus! {

use crate::error::Error;
use crate::value::{copy_value, table_get, table_lookup, table_view, vview, Value, ValueView};

/// An item of a KLE row: a property object that changes the cursor, or a
/// key with its labels.
#[derive(Debug)]
pub enum KleItem {
    Props(Vec<(String, Value)>),
    Key(Vec<String>),
}

pub enum KleItemView {
    Props(Seq<(Seq<char>, ValueView)>),
    Key(Seq<Seq<char>>),
}

pub open spec fn item_view(i: KleItem) -> KleItemView {
    match i {
        KleItem::Props(m) => KleItemView::Props(table_view(m@)),
        KleItem::Key(ls) => KleItemView::Key(string_views(ls@)),
    }
}

pub open spec fn rows_view(rows: Seq<Vec<KleItem>>) -> Seq<Seq<KleItemView>> {
    rows.map_values(|r: Vec<KleItem>| r@.map_values(|i: KleItem| item_view(i)))
}

/// The items of a row: objects and strings, nulls left out; `None` when an
/// item is anything else.
pub open spec fn row_items(items: Seq<ValueView>) -> Option<Seq<KleItemView>>
    decreases items.len(),
{
    if items.len() == 0 {
        Some(seq![])
    } else {
        match row_items(items.drop_last()) {
            None => None,
            Some(r) => match items.last() {
                ValueView::Table(m) => Some(r.push(KleItemView::Props(m))),
                ValueView::Text(s) => Some(r.push(KleItemView::Key(crate::dxf_parse::split_newlines(s)))),
                ValueView::Null => Some(r),
                _ => None,
            },
        }
    }
}

/// The rows of a layout, or the message of the first error.
pub open spec fn kle_rows(rows: Seq<ValueView>) -> Result<Seq<Seq<KleItemView>>, Seq<char>>
    decreases rows.len(),
{
    if rows.len() == 0 {
        Ok(seq![])
    } else {
        match kle_rows(rows.drop_last()) {
            Err(e) => Err(e),
            Ok(rs) => match rows.last() {
                ValueView::List(items) => match row_items(items) {
                    Some(r) => Ok(rs.push(r)),
                    None => Err("KLE row items must be objects or strings"@),
                },
                _ => Err("KLE rows must be arrays"@),
            },
        }
    }
}

/// Whether the first element of a layout is its metadata.
pub open spec fn has_meta(top: Seq<ValueView>) -> bool {
    top.len() > 0 && (top[0] matches ValueView::Table(m) && kle_meta(
        m.map_values(|e: (Seq<char>, ValueView)| e.0),
    ))
}

/// The notes of the metadata, when they are a string.
pub open spec fn meta_notes(top: Seq<ValueView>) -> Option<Seq<char>> {
    if has_meta(top) {
        match top[0] {
            ValueView::Table(m) => match table_get(m, "notes"@) {
                Some(ValueView::Text(s)) => Some(s),
                _ => None,
            },
            _ => None,
        }
    } else {
        None
    }
}

/// A KLE layout read into rows of items, with the notes of its metadata.
#[derive(Debug)]
pub struct KleLayout {
    pub notes: Option<String>,
    pub rows: Vec<Vec<KleItem>>,
}

fn meta_keys(m: &Vec<(String, Value)>) -> (r: Vec<String>)
    ensures
        string_views(r@) == table_view(m@).map_values(|e: (Seq<char>, ValueView)| e.0),
{
    proof {
        crate::value::lemma_table_view(m@);
    }
    let mut out: Vec<String> = Vec::new();
    let mut i: usize = 0;
    while i < m.len()
        invariant
            i <= m.len(),
            out@.len() == i,
            table_view(m@).len() == m@.len(),
            forall|q: int| 0 <= q < m@.len() ==> #[trigger] table_view(m@)[q] == (m@[q].0@, vview(m@[q].1)),
            forall|q: int| 0 <= q < i ==> #[trigger] out@[q]@ == m@[q].0@,
        decreases m.len() - i,
    {
        out.push(m[i].0.clone());
        i += 1;
    }
    assert(string_views(out@) =~= table_view(m@).map_values(|e: (Seq<char>, ValueView)| e.0));
    out
}

fn read_row(items: &Vec<Value>) -> (r: Option<Vec<KleItem>>)
    ensures
        match row_items(crate::value::list_view(items@)) {
            Some(iv) => r matches Some(v) && v@.map_values(|i: KleItem| item_view(i)) == iv,
            None => r is None,
        },
{
    let ghost lv = crate::value::list_view(items@);
    proof {
        crate::value::lemma_list_view(items@);
    }
    let mut out: Vec<KleItem> = Vec::new();
    let mut i: usize = 0;
    assert(lv.take(0) =~= Seq::<ValueView>::empty());
    assert(out@.map_values(|i: KleItem| item_view(i)) =~= Seq::<KleItemView>::empty());
    while i < items.len()
        invariant
            i <= items.len(),
            lv == crate::value::list_view(items@),
            lv.len() == items@.len(),
            forall|q: int| 0 <= q < items@.len() ==> #[trigger] lv[q] == vview(items@[q]),
            row_items(lv.take(i as int)) == Some(out@.map_values(|i: KleItem| item_view(i))),
        decreases items.len() - i,
    {
        assert(lv.take(i + 1).drop_last() =~= lv.take(i as int));
        assert(lv.take(i + 1).last() == vview(items@[i as int]));
        let ghost before = out@.map_values(|i: KleItem| item_view(i));
        match &items[i] {
            Value::Mapping(m) => {
                let c = copy_value(&items[i]);
                match c {
                    Value::Mapping(mc) => {
                        out.push(KleItem::Props(mc));
                    },
                    _ => {
                        return None;
                    },
                }
                assert(out@.map_values(|i: KleItem| item_view(i)) =~= before.push(KleItemView::Props(table_view(m@))));
            },
            Value::String(s) => {
                let ls = split_labels(s.as_str());
                out.push(KleItem::Key(ls));
                assert(out@.map_values(|i: KleItem| item_view(i)) =~= before.push(
                    KleItemView::Key(crate::dxf_parse::split_newlines(s@)),
                ));
            },
            Value::Null => {},
            _ => {
                proof {
                    lemma_row_items_none(lv, (i + 1) as nat);
                }
                return None;
            },
        }
        i += 1;
    }
    assert(lv.take(items.len() as int) =~= lv);
    Some(out)
}

proof fn lemma_row_items_none(s: Seq<ValueView>, n: nat)
    requires
        n <= s.len(),
        row_items(s.take(n as int)) is None,
    ensures
        row_items(s) is None,
    decreases s.len() - n,
{
    if n < s.len() {
        assert(s.take(n + 1 as int).drop_last() =~= s.take(n as int));
        lemma_row_items_none(s, (n + 1) as nat);
    } else {
        assert(s.take(n as int) =~= s);
    }
}

proof fn lemma_kle_rows_err(s: Seq<ValueView>, n: nat)
    requires
        n <= s.len(),
        kle_rows(s.take(n as int)) is Err,
    ensures
        kle_rows(s) == kle_rows(s.take(n as int)),
    decreases s.len() - n,
{
    if n < s.len() {
        assert(s.take(n + 1 as int).drop_last() =~= s.take(n as int));
        lemma_kle_rows_err(s, (n + 1) as nat);
    } else {
        assert(s.take(n as int) =~= s);
    }
}

/// Reads a KLE layout: an array whose first element may be metadata and
/// whose other elements are rows of property objects, key labels and nulls.
pub fn kle_layout(kle: &Value) -> (r: Result<KleLayout, Error>)
    ensures
        match vview(*kle) {
            ValueView::List(top) => {
                let start: int = if has_meta(top) { 1 } else { 0 };
                match kle_rows(top.skip(start)) {
                    Ok(rs) => r matches Ok(l) && rows_view(l.rows@) == rs && (match l.notes {
                        Some(n) => meta_notes(top) == Some(n@),
                        None => meta_notes(top) is None,
                    }),
                    Err(m) => r matches Err(Error::Json(e)) && e@ == m,
                }
            },
            _ => r matches Err(Error::Json(e)) && e@ == "KLE root must be an array"@,
        },
{
    let top = match kle {
        Value::Sequence(t) => t,
        _ => {
            return Err(Error::Json(str_to_string("KLE root must be an array")));
        },
    };
    let ghost tv = crate::value::list_view(top@);
    proof {
        crate::value::lemma_list_view(top@);
    }
    let mut start: usize = 0;
    let mut notes: Option<String> = None;
    if top.len() > 0 {
        if let Value::Mapping(m) = &top[0] {
            let keys = meta_keys(m);
            if is_kle_meta_map(keys.as_slice()) {
                start = 1;
                if let Some(Value::String(n)) = table_lookup(m, "notes") {
                    notes = Some(n.clone());
                }
            }
        }
    }
    assert(start == if has_meta(tv) { 1int } else { 0int });
    let ghost rows = tv.skip(start as int);
    let mut out: Vec<Vec<KleItem>> = Vec::new();
    let mut i: usize = start;
    assert(rows.take(0) =~= Seq::<ValueView>::empty());
    assert(rows_view(out@) =~= Seq::<Seq<KleItemView>>::empty());
    while i < top.len()
        invariant
            start <= i <= top.len(),
            *kle == Value::Sequence(*top),
            start as int == if has_meta(tv) { 1int } else { 0int },
            tv == crate::value::list_view(top@),
            tv.len() == top@.len(),
            forall|q: int| 0 <= q < top@.len() ==> #[trigger] tv[q] == vview(top@[q]),
            rows == tv.skip(start as int),
            kle_rows(rows.take(i - start)) == Ok::<Seq<Seq<KleItemView>>, Seq<char>>(rows_view(out@)),
        decreases top.len() - i,
    {
        assert(rows.take(i - start + 1).drop_last() =~= rows.take(i - start));
        assert(rows.take(i - start + 1).last() == vview(top@[i as int]));
        let ghost before = rows_view(out@);
        match &top[i] {
            Value::Sequence(items) => {
                match read_row(items) {
                    Some(row) => {
                        out.push(row);
                        assert(rows_view(out@) =~= before.push(
                            row_items(crate::value::list_view(items@)).unwrap(),
                        ));
                    },
                    None => {
                        assert(vview(top@[i as int]) == ValueView::List(crate::value::list_view(items@)));
                        assert(kle_rows(rows.take(i - start + 1)) == Err::<Seq<Seq<KleItemView>>, Seq<char>>(
                            "KLE row items must be objects or strings"@,
                        ));
                        proof {
                            lemma_kle_rows_err(rows, (i - start + 1) as nat);
                        }
                        return Err(Error::Json(str_to_string("KLE row items must be objects or strings")));
                    },
                }
            },
            _ => {
                assert(!(vview(top@[i as int]) is List));
                assert(kle_rows(rows.take(i - start + 1)) == Err::<Seq<Seq<KleItemView>>, Seq<char>>(
                    "KLE rows must be arrays"@,
                ));
                proof {
                    lemma_kle_rows_err(rows, (i - start + 1) as nat);
                }
                return Err(Error::Json(str_to_string("KLE rows must be arrays")));
            },
        }
        i += 1;
    }
    assert(rows.take(top.len() - start) =~= rows);
    Ok(KleLayout { notes, rows: out })
}

} // verus!

verus! {

use crate::value::{table_insert, list_view};

/// A key of a KLE layout with its numbers written out: its size and the
/// origin and shift of its zone (each `"<n> u"`), its splay (the bits of
/// the number) and its labels.
#[derive(Debug, Clone)]
pub struct KleKeyText {
    pub width: String,
    pub height: String,
    pub origin_x: String,
    pub origin_y: String,
    pub shift_x: String,
    pub shift_y: String,
    pub splay: u64,
    pub labels: Vec<String>,
}

/// The name of key `n` (counting from 1).
pub open spec fn key_id(n: nat) -> Seq<char> {
    "key"@ + crate::dxf_write::dec_str(n)
}

/// The row metadata of a key: the layout's metadata with the key's size,
/// label and nets set.
pub open spec fn row_meta(k: KleKeyText, id: Seq<char>, meta: Seq<(Seq<char>, ValueView)>) -> Seq<(Seq<char>, ValueView)> {
    let label = first_label(string_views(k.labels@));
    let nets = label_nets(id, label);
    table_insert(
        table_insert(
            table_insert(
                table_insert(table_insert(meta, "width"@, ValueView::Text(k.width@)), "height"@, ValueView::Text(k.height@)),
                "label"@,
                ValueView::Text(label),
            ),
            "column_net"@,
            ValueView::Text(nets.1),
        ),
        "row_net"@,
        ValueView::Text(nets.0),
    )
}

/// The zone of key `n`: one column of one row, placed by the key's origin,
/// splay and shift.
pub open spec fn zone_view(k: KleKeyText, n: nat, meta: Seq<(Seq<char>, ValueView)>) -> ValueView {
    let id = key_id(n);
    ValueView::Table(
        seq![
            ("key"@, ValueView::Table(seq![
                ("origin"@, ValueView::List(seq![ValueView::Text(k.origin_x@), ValueView::Text(k.origin_y@)])),
                ("splay"@, ValueView::Number(k.splay)),
                ("shift"@, ValueView::List(seq![ValueView::Text(k.shift_x@), ValueView::Text(k.shift_y@)])),
            ])),
            ("columns"@, ValueView::Table(seq![
                (id + "col"@, ValueView::Table(seq![
                    ("rows"@, ValueView::Table(seq![(id + "row"@, ValueView::Table(row_meta(k, id, meta)))])),
                ])),
            ])),
        ],
    )
}

/// The configuration a KLE layout becomes: a zone per key, in order.
pub open spec fn kle_config(keys: Seq<KleKeyText>, meta: Seq<(Seq<char>, ValueView)>) -> ValueView {
    ValueView::Table(
        seq![("points"@, ValueView::Table(seq![("zones"@, ValueView::Table(
            Seq::new(keys.len(), |i: int| (key_id((i + 1) as nat), zone_view(keys[i], (i + 1) as nat, meta))),
        ))]))],
    )
}

fn entry(k: &str, v: Value) -> (r: (String, Value))
    ensures
        r.0@ == k@,
        r.1 == v,
{
    (str_to_string(k), v)
}

fn table1(a: (String, Value)) -> (r: Value)
    ensures
        vview(r) == ValueView::Table(seq![(a.0@, vview(a.1))]),
{
    let v = vec![a];
    proof {
        crate::value::lemma_table_view(v@);
        assert(table_view(v@) =~= seq![(v@[0].0@, vview(v@[0].1))]);
    }
    Value::Mapping(v)
}

fn text_pair(a: &String, b: &String) -> (r: Value)
    ensures
        vview(r) == ValueView::List(seq![ValueView::Text(a@), ValueView::Text(b@)]),
{
    let v = vec![Value::String(a.clone()), Value::String(b.clone())];
    proof {
        crate::value::lemma_list_view(v@);
        assert(list_view(v@) =~= seq![ValueView::Text(a@), ValueView::Text(b@)]);
    }
    Value::Sequence(v)
}

fn zone_of(k: &KleKeyText, n: u64, meta: &Vec<(String, Value)>) -> (r: (String, Value))
    requires
        n >= 1,
    ensures
        r.0@ == key_id(n as nat),
        vview(r.1) == zone_view(*k, n as nat, table_view(meta@)),
{
    let mut idv = crate::text::chars_of("key");
    crate::dxf_write::push_dec(&mut idv, n);
    let id = crate::text::string_of(idv.as_slice());
    let label = first_non_empty_label(k.labels.as_slice());
    let (row_net, col_net) = key_nets(id.as_str(), label.as_str());
    let ghost mv = table_view(meta@);
    let m1 = crate::value::table_insert_exec(meta, &str_to_string("width"), Value::String(k.width.clone()));
    let m2 = crate::value::table_insert_exec(&m1, &str_to_string("height"), Value::String(k.height.clone()));
    let m3 = crate::value::table_insert_exec(&m2, &str_to_string("label"), Value::String(label));
    let m4 = crate::value::table_insert_exec(&m3, &str_to_string("column_net"), Value::String(col_net));
    let m5 = crate::value::table_insert_exec(&m4, &str_to_string("row_net"), Value::String(row_net));
    assert(table_view(m5@) == row_meta(*k, id@, mv));
    let mut rowid_v = crate::text::chars_of(id.as_str());
    crate::jscad::push_str(&mut rowid_v, "row");
    let mut colid_v = crate::text::chars_of(id.as_str());
    crate::jscad::push_str(&mut colid_v, "col");
    let rows = table1((crate::text::string_of(rowid_v.as_slice()), Value::Mapping(m5)));
    let column = table1(entry("rows", rows));
    let columns = table1((crate::text::string_of(colid_v.as_slice()), column));
    let key_entries = vec![
        entry("origin", text_pair(&k.origin_x, &k.origin_y)),
        entry("splay", Value::Number(k.splay)),
        entry("shift", text_pair(&k.shift_x, &k.shift_y)),
    ];
    proof {
        crate::value::lemma_table_view(key_entries@);
        assert(table_view(key_entries@) =~= seq![
            ("origin"@, ValueView::List(seq![ValueView::Text(k.origin_x@), ValueView::Text(k.origin_y@)])),
            ("splay"@, ValueView::Number(k.splay)),
            ("shift"@, ValueView::List(seq![ValueView::Text(k.shift_x@), ValueView::Text(k.shift_y@)])),
        ]);
    }
    let key_obj = Value::Mapping(key_entries);
    let zone_entries = vec![entry("key", key_obj), entry("columns", columns)];
    proof {
        crate::value::lemma_table_view(zone_entries@);
        assert(table_view(zone_entries@) =~= zone_view(*k, n as nat, mv)->Table_0);
    }
    (id, Value::Mapping(zone_entries))
}

/// The configuration a KLE layout becomes, from its keys (numbers already
/// written out) and the metadata from its notes.
pub fn kle_zones(keys: &[KleKeyText], meta: &Vec<(String, Value)>) -> (r: Value)
    requires
        keys@.len() < u64::MAX,
    ensures
        vview(r) == kle_config(keys@, table_view(meta@)),
{
    let ghost mv = table_view(meta@);
    let mut zones: Vec<(String, Value)> = Vec::new();
    let mut i: usize = 0;
    while i < keys.len()
        invariant
            i <= keys.len(),
            keys@.len() < u64::MAX,
            mv == table_view(meta@),
            zones@.len() == i,
            forall|q: int| 0 <= q < i ==> (#[trigger] zones@[q]).0@ == key_id((q + 1) as nat) && vview(
                zones@[q].1,
            ) == zone_view(keys@[q], (q + 1) as nat, mv),
        decreases keys.len() - i,
    {
        let z = zone_of(&keys[i], (i + 1) as u64, meta);
        zones.push(z);
        i += 1;
    }
    proof {
        crate::value::lemma_table_view(zones@);
        assert(table_view(zones@) =~= Seq::new(
            keys@.len(),
            |q: int| (key_id((q + 1) as nat), zone_view(keys@[q], (q + 1) as nat, mv)),
        ));
    }
    let points = table1(entry("zones", Value::Mapping(zones)));
    table1(entry("points", points))
}

} // verus!
