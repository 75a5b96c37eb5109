//! Inheritance between configuration mappings: a mapping with `$extends`
//! is merged over the mappings it names, parents first.
use vstd::prelude::*;
use crate::error::Error;
use crate::expr::str_to_string;
use crate::jscad::string_views;
use crate::value::{
    copy_value, extend_all_spec, get_path_spec, list_view, path_segments, table_get, table_remove,
    table_view, vview, Value, ValueView,
};

verus! {

/// Why inheritance failed.
pub enum InheritFailure {
    /// An `$extends` entry that is not a string, at the given path.
    NotAString { at: Seq<char> },
    /// An `$extends` target that does not exist or is not a mapping.
    Missing { from: Seq<char>, path: Seq<char> },
    /// A target reached twice: the chain of paths.
    Cycle { chain: Seq<Seq<char>> },
}

/// The pieces joined with `sep` between them.
pub open spec fn join(pieces: Seq<Seq<char>>, sep: Seq<char>) -> Seq<char>
    decreases pieces.len(),
{
    if pieces.len() == 0 {
        seq![]
    } else if pieces.len() == 1 {
        pieces[0]
    } else {
        join(pieces.drop_last(), sep) + sep + pieces.last()
    }
}

/// The parents a mapping names: the elements of its `$extends` sequence,
/// or its single `$extends` value.
pub open spec fn parents_of(m: Seq<(Seq<char>, ValueView)>) -> Seq<ValueView> {
    match table_get(m, "$extends"@) {
        Some(ValueView::List(arr)) => arr,
        Some(v) => seq![v],
        None => seq![],
    }
}

/// The `$extends` resolution loop: the next candidate must be a string
/// naming a mapping of the root not seen before; its parents join the end
/// of the queue and the mapping the chain. Each step uses one unit of
/// `fuel`; `inherit_fuel` gives enough for the loop to finish.
pub open spec fn extends_loop(
    fuel: nat,
    from: Seq<char>,
    cands: Seq<ValueView>,
    chain: Seq<Seq<(Seq<char>, ValueView)>>,
    seen: Seq<Seq<char>>,
    root: ValueView,
) -> Result<Seq<Seq<(Seq<char>, ValueView)>>, InheritFailure>
    decreases fuel,
{
    if cands.len() == 0 {
        Ok(chain)
    } else if fuel == 0 {
        Err(InheritFailure::Cycle { chain: seen })
    } else {
        match cands[0] {
            ValueView::Text(path) => match get_path_spec(root, path_segments(path)) {
                Some(ValueView::Table(om)) => if seen.contains(path) {
                    Err(InheritFailure::Cycle { chain: seen.push(path) })
                } else {
                    extends_loop(
                        (fuel - 1) as nat,
                        from,
                        cands.drop_first() + parents_of(om),
                        chain.push(om),
                        seen.push(path),
                        root,
                    )
                },
                _ => Err(InheritFailure::Missing { from: from + ".$extends"@, path }),
            },
            _ => Err(InheritFailure::NotAString { at: from + ".$extends"@ }),
        }
    }
}

/// The strings that stand in `$extends` positions anywhere in a value.
pub open spec fn ext_strings(v: ValueView) -> Set<Seq<char>>
    decreases v,
{
    match v {
        ValueView::Table(m) => table_ext_strings(m),
        ValueView::List(s) => list_ext_strings(s),
        _ => Set::empty(),
    }
}

pub open spec fn table_ext_strings(m: Seq<(Seq<char>, ValueView)>) -> Set<Seq<char>>
    decreases m,
{
    if m.len() == 0 {
        Set::empty()
    } else {
        let here = if m[0].0 == "$extends"@ {
            texts_in(m[0].1)
        } else {
            Set::empty()
        };
        here + ext_strings(m[0].1) + table_ext_strings(m.drop_first())
    }
}

pub open spec fn list_ext_strings(s: Seq<ValueView>) -> Set<Seq<char>>
    decreases s,
{
    if s.len() == 0 {
        Set::empty()
    } else {
        ext_strings(s[0]) + list_ext_strings(s.drop_first())
    }
}

/// The strings among a sequence of values.
pub open spec fn list_texts(items: Seq<ValueView>) -> Set<Seq<char>>
    decreases items.len(),
{
    if items.len() == 0 {
        Set::empty()
    } else {
        let here = match items[0] {
            ValueView::Text(s) => set![s],
            _ => Set::empty(),
        };
        here + list_texts(items.drop_first())
    }
}

/// The strings of a value: itself when it is one, the strings among its
/// elements when it is a sequence.
pub open spec fn texts_in(v: ValueView) -> Set<Seq<char>> {
    match v {
        ValueView::Text(s) => set![s],
        ValueView::List(items) => list_texts(items),
        _ => Set::empty(),
    }
}

/// Enough steps for the `$extends` loop: one more than the number of
/// strings that can ever be queued.
pub open spec fn inherit_fuel(root: ValueView, cands: Seq<ValueView>) -> nat {
    (ext_strings(root) + list_texts(cands)).len() + 1
}

/// A mapping `obj` at path `from` merged over the mappings its `$extends`
/// names (recursively, parents before children, the mapping itself last),
/// without its `$extends` key.
pub open spec fn apply_extends_spec(
    from: Seq<char>,
    obj: Seq<(Seq<char>, ValueView)>,
    extends: ValueView,
    root: ValueView,
) -> Result<ValueView, InheritFailure> {
    let cands = match extends {
        ValueView::List(a) => a,
        other => seq![other],
    };
    match extends_loop(inherit_fuel(root, cands), from, cands, seq![obj], seq![from], root) {
        Ok(chain) => {
            let merged = extend_all_spec(
                chain.reverse().map_values(|m: Seq<(Seq<char>, ValueView)>| ValueView::Table(m)),
            );
            Ok(
                match merged {
                    ValueView::Table(m) => ValueView::Table(table_remove(m, "$extends"@)),
                    other => other,
                },
            )
        },
        Err(e) => Err(e),
    }
}

} // verus!

verus! {

pub proof fn lemma_list_texts_finite(items: Seq<ValueView>)
    ensures
        list_texts(items).finite(),
    decreases items.len(),
{
    if items.len() > 0 {
        lemma_list_texts_finite(items.drop_first());
    }
}

pub proof fn lemma_list_texts_concat(a: Seq<ValueView>, b: Seq<ValueView>)
    ensures
        list_texts(a + b) == list_texts(a) + list_texts(b),
    decreases a.len(),
{
    if a.len() == 0 {
        assert(a + b =~= b);
        assert(list_texts(a) + list_texts(b) =~= list_texts(b));
    } else {
        lemma_list_texts_concat(a.drop_first(), b);
        assert((a + b).drop_first() =~= a.drop_first() + b);
        assert((a + b)[0] == a[0]);
        let here = match a[0] {
            ValueView::Text(s) => set![s],
            _ => Set::<Seq<char>>::empty(),
        };
        assert(here + (list_texts(a.drop_first()) + list_texts(b)) =~= here + list_texts(
            a.drop_first(),
        ) + list_texts(b));
    }
}

pub proof fn lemma_texts_in_finite(v: ValueView)
    ensures
        texts_in(v).finite(),
{
    match v {
        ValueView::List(items) => lemma_list_texts_finite(items),
        _ => {},
    }
}

pub proof fn lemma_ext_finite(v: ValueView)
    ensures
        ext_strings(v).finite(),
    decreases v, 0nat,
{
    match v {
        ValueView::Table(m) => lemma_table_ext_finite(m),
        ValueView::List(s) => lemma_list_ext_finite(s),
        _ => {},
    }
}

pub proof fn lemma_table_ext_finite(m: Seq<(Seq<char>, ValueView)>)
    ensures
        table_ext_strings(m).finite(),
    decreases m, 1nat,
{
    if m.len() > 0 {
        lemma_texts_in_finite(m[0].1);
        lemma_ext_finite(m[0].1);
        lemma_table_ext_finite(m.drop_first());
    }
}

pub proof fn lemma_list_ext_finite(s: Seq<ValueView>)
    ensures
        list_ext_strings(s).finite(),
    decreases s, 1nat,
{
    if s.len() > 0 {
        lemma_ext_finite(s[0]);
        lemma_list_ext_finite(s.drop_first());
    }
}

/// The `$extends` strings of an entry's value, and those of an `$extends`
/// entry itself, are among the mapping's.
pub proof fn lemma_table_ext_entry(m: Seq<(Seq<char>, ValueView)>, i: int)
    requires
        0 <= i < m.len(),
    ensures
        ext_strings(m[i].1).subset_of(table_ext_strings(m)),
        m[i].0 == "$extends"@ ==> texts_in(m[i].1).subset_of(table_ext_strings(m)),
    decreases m.len(),
{
    if i > 0 {
        lemma_table_ext_entry(m.drop_first(), i - 1);
        assert(m.drop_first()[i - 1] == m[i]);
    }
}

/// What a path leads to has no `$extends` strings that the root lacks.
pub proof fn lemma_get_path_ext(root: ValueView, segs: Seq<Seq<char>>)
    requires
        get_path_spec(root, segs) is Some,
    ensures
        ext_strings(get_path_spec(root, segs)->0).subset_of(ext_strings(root)),
    decreases segs.len(),
{
    if segs.len() > 0 {
        match root {
            ValueView::Table(m) => {
                crate::value::lemma_entry_index(m, segs[0], 0);
                let i = crate::value::entry_index(m, segs[0], 0)->0;
                lemma_get_path_ext(m[i].1, segs.drop_first());
                lemma_table_ext_entry(m, i);
            },
            _ => {},
        }
    }
}

/// The parents a mapping names are among its `$extends` strings, as far as
/// they are strings.
pub proof fn lemma_parents_ext(m: Seq<(Seq<char>, ValueView)>)
    ensures
        list_texts(parents_of(m)).subset_of(table_ext_strings(m)),
{
    crate::value::lemma_entry_index(m, "$extends"@, 0);
    match crate::value::entry_index(m, "$extends"@, 0) {
        Some(i) => {
            lemma_table_ext_entry(m, i);
            let v = m[i].1;
            match v {
                ValueView::List(arr) => {},
                _ => {
                    let one = seq![v];
                    assert(one.drop_first().len() == 0);
                    assert(list_texts(one.drop_first()) == Set::<Seq<char>>::empty());
                    assert(one[0] == v);
                    assert(list_texts(one) =~= texts_in(v));
                },
            }
        },
        None => {},
    }
}

} // verus!

verus! {

/// The error an inheritance failure is reported as.
pub open spec fn failure_matches(f: InheritFailure, e: Error) -> bool {
    match f {
        InheritFailure::NotAString { at } => e matches Error::Parameterize { at: a, message: m }
            && a@ == at && m@ == "$extends must be a string or array of strings"@,
        InheritFailure::Missing { from, path } => e matches Error::ExtendsTargetMissing {
            from: f2,
            path: p,
        } && f2@ == from && p@ == path,
        InheritFailure::Cycle { chain } => e matches Error::ExtendsCycle { cycle } && cycle@ == join(
            chain,
            " -> "@,
        ),
    }
}

pub open spec fn chain_views(c: Seq<Vec<(String, Value)>>) -> Seq<Seq<(Seq<char>, ValueView)>> {
    c.map_values(|m: Vec<(String, Value)>| table_view(m@))
}

/// The pieces joined with `sep`.
pub fn join_strings(pieces: &[String], sep: &str) -> (r: String)
    ensures
        r@ == join(string_views(pieces@), sep@),
{
    let ghost pv = string_views(pieces@);
    let mut out: Vec<char> = Vec::new();
    let mut i: usize = 0;
    assert(pv.take(0) =~= Seq::<Seq<char>>::empty());
    while i < pieces.len()
        invariant
            i <= pieces.len(),
            pv == string_views(pieces@),
            out@ == join(pv.take(i as int), sep@),
        decreases pieces.len() - i,
    {
        let ghost before = out@;
        if i > 0 {
            let sv = crate::text::chars_of(sep);
            crate::yaml_flow::extend(&mut out, sv.as_slice());
        }
        let pc = crate::text::chars_of(pieces[i].as_str());
        crate::yaml_flow::extend(&mut out, pc.as_slice());
        proof {
            let t = pv.take(i + 1);
            assert(t.drop_last() =~= pv.take(i as int));
            assert(t.last() == pieces@[i as int]@);
            if i == 0 {
                assert(out@ =~= t[0]);
            } else {
                assert(out@ =~= before + sep@ + t.last());
            }
        }
        i += 1;
    }
    assert(pv.take(pieces.len() as int) =~= pv);
    crate::text::string_of(out.as_slice())
}

fn extends_at(from: &str) -> (r: String)
    ensures
        r@ == from@ + ".$extends"@,
{
    let mut v = crate::text::chars_of(from);
    let t = crate::text::chars_of(".$extends");
    crate::yaml_flow::extend(&mut v, t.as_slice());
    crate::text::string_of(v.as_slice())
}

fn copy_entries(m: &Vec<(String, Value)>) -> (r: Vec<(String, Value)>)
    ensures
        table_view(r@) == table_view(m@),
{
    let mut out: Vec<(String, Value)> = Vec::new();
    let mut i: usize = 0;
    while i < m.len()
        invariant
            i <= m.len(),
            out@.len() == i,
            forall|q: int| 0 <= q < i ==> (#[trigger] out@[q]).0@ == m@[q].0@ && vview(out@[q].1) == vview(m@[q].1),
        decreases m.len() - i,
    {
        let c = copy_value(&m[i].1);
        out.push((m[i].0.clone(), c));
        i += 1;
    }
    proof {
        crate::value::lemma_table_view_ext(out@, m@);
    }
    out
}

proof fn lemma_list_view_push(s: Seq<Value>, x: Value)
    ensures
        list_view(s.push(x)) == list_view(s).push(vview(x)),
{
    crate::value::lemma_list_view(s);
    crate::value::lemma_list_view(s.push(x));
    assert(list_view(s.push(x)) =~= list_view(s).push(vview(x)));
}

proof fn lemma_list_view_remove0(s: Seq<Value>)
    requires
        s.len() > 0,
    ensures
        list_view(s.remove(0)) == list_view(s).drop_first(),
{
    crate::value::lemma_list_view(s);
    crate::value::lemma_list_view(s.remove(0));
    assert(list_view(s.remove(0)) =~= list_view(s).drop_first());
}

/// Adds copies of the parents a mapping names to the queue.
fn push_parents(cands: &mut Vec<Value>, om: &Vec<(String, Value)>)
    ensures
        list_view(final(cands)@) == list_view(old(cands)@) + parents_of(table_view(om@)),
{
    proof {
        crate::value::lemma_table_view(om@);
        crate::value::lemma_entry_index(table_view(om@), "$extends"@, 0);
    }
    match crate::value::find_entry(om.as_slice(), "$extends") {
        None => {
            assert(list_view(cands@) =~= list_view(old(cands)@) + Seq::<ValueView>::empty());
        },
        Some(j) => {
            match &om[j].1 {
                Value::Sequence(arr) => {
                    proof {
                        crate::value::lemma_list_view(arr@);
                    }
                    let mut i: usize = 0;
                    while i < arr.len()
                        invariant
                            i <= arr.len(),
                            list_view(cands@) == list_view(old(cands)@) + list_view(arr@).take(i as int),
                            list_view(arr@).len() == arr@.len(),
                            forall|q: int| 0 <= q < arr@.len() ==> #[trigger] list_view(arr@)[q] == vview(arr@[q]),
                        decreases arr.len() - i,
                    {
                        let c = copy_value(&arr[i]);
                        let ghost before = cands@;
                        cands.push(c);
                        proof {
                            lemma_list_view_push(before, c);
                            assert(list_view(arr@).take(i + 1) =~= list_view(arr@).take(i as int).push(vview(arr@[i as int])));
                        }
                        i += 1;
                    }
                    assert(list_view(arr@).take(arr.len() as int) =~= list_view(arr@));
                },
                other => {
                    let c = copy_value(other);
                    let ghost before = cands@;
                    cands.push(c);
                    proof {
                        lemma_list_view_push(before, c);
                        assert(list_view(cands@) =~= list_view(old(cands)@) + seq![vview(c)]);
                    }
                },
            }
        },
    }
}

} // verus!

verus! {

proof fn lemma_fuel_step(u: Set<Seq<char>>, seen: Seq<Seq<char>>, path: Seq<char>)
    requires
        u.finite(),
        u.contains(path),
        !seen.contains(path),
    ensures
        (u - seen.push(path).to_set()).len() + 1 == (u - seen.to_set()).len(),
{
    let a = u - seen.to_set();
    let b = u - seen.push(path).to_set();
    assert forall|x: Seq<char>| b.contains(x) <==> a.remove(path).contains(x) by {
        if seen.push(path).contains(x) && x != path {
            let k = choose|k: int| 0 <= k < seen.push(path).len() && seen.push(path)[k] == x;
            assert(seen[k] == x);
        }
        if seen.contains(x) {
            let k = choose|k: int| 0 <= k < seen.len() && seen[k] == x;
            assert(seen.push(path)[k] == x);
        }
        if x == path {
            assert(seen.push(path)[seen.len() as int] == x);
        }
    }
    assert(b =~= a.remove(path));
    assert(a.finite());
    assert(a.contains(path));
}

/// Resolves `$extends` for the mapping `val_obj` at path `from_path`:
/// merges it over its ancestors, parents first, and drops `$extends`.
pub fn apply_extends(from_path: &str, val_obj: &Vec<(String, Value)>, extends: &Value, root: &Value) -> (r: Result<Value, Error>)
    ensures
        match apply_extends_spec(from_path@, table_view(val_obj@), vview(*extends), vview(*root)) {
            Ok(x) => r matches Ok(y) && vview(y) == x,
            Err(f) => r matches Err(e) && failure_matches(f, e),
        },
{
    let ghost rootv = vview(*root);
    let mut cands: Vec<Value> = Vec::new();
    match extends {
        Value::Sequence(a) => {
            let c = copy_value(extends);
            cands = match c {
                Value::Sequence(x) => x,
                _ => Vec::new(),
            };
        },
        other => {
            let c = copy_value(other);
            cands.push(c);
            proof {
                lemma_list_view_push(Seq::<Value>::empty(), c);
                assert(Seq::<Value>::empty().push(c) =~= cands@);
                assert(list_view(Seq::<Value>::empty()) =~= Seq::<ValueView>::empty());
            }
        },
    }
    let ghost c0 = list_view(cands@);
    assert(c0 == match vview(*extends) {
        ValueView::List(a) => a,
        other => seq![other],
    });
    let ghost u = ext_strings(rootv) + list_texts(c0);
    let ghost fuel0 = inherit_fuel(rootv, c0);
    proof {
        lemma_ext_finite(rootv);
        lemma_list_texts_finite(c0);
    }
    let mut chain: Vec<Vec<(String, Value)>> = Vec::new();
    let first = copy_entries(val_obj);
    chain.push(first);
    let mut seen: Vec<String> = Vec::new();
    seen.push(str_to_string(from_path));
    let ghost mut fuel: nat = fuel0;
    proof {
        assert(chain_views(chain@) =~= seq![table_view(val_obj@)]);
        assert(string_views(seen@) =~= seq![from_path@]);
        assert((u - string_views(seen@).to_set()).subset_of(u));
        vstd::set_lib::lemma_len_subset(u - string_views(seen@).to_set(), u);
    }
    while cands.len() > 0
        invariant
            rootv == vview(*root),
            c0 == match vview(*extends) {
                ValueView::List(a) => a,
                other => seq![other],
            },
            fuel0 == inherit_fuel(rootv, c0),
            u.finite(),
            u == ext_strings(rootv) + list_texts(c0),
            list_texts(list_view(cands@)).subset_of(u),
            fuel > (u - string_views(seen@).to_set()).len(),
            extends_loop(fuel0, from_path@, c0, seq![table_view(val_obj@)], seq![from_path@], rootv)
                == extends_loop(fuel, from_path@, list_view(cands@), chain_views(chain@), string_views(seen@), rootv),
        decreases fuel,
    {
        let ghost cv = list_view(cands@);
        proof {
            crate::value::lemma_list_view(cands@);
        }
        let ghost before_cands = cands@;
        let p = cands.remove(0);
        proof {
            lemma_list_view_remove0(before_cands);
        }
        proof {
            crate::value::lemma_list_view(before_cands);
            assert(cv[0] == vview(p));
            assert(fuel > 0);
        }
        let path = match p {
            Value::String(s) => s,
            _ => {
                let at = extends_at(from_path);
                return Err(
                    Error::Parameterize {
                        at,
                        message: str_to_string("$extends must be a string or array of strings"),
                    },
                );
            },
        };
        proof {
            crate::value::lemma_list_view(before_cands);
            assert(cv[0] == ValueView::Text(path@));
            assert(list_texts(cv).contains(path@));
        }
        let om: &Vec<(String, Value)> = match root.get_path(path.as_str()) {
            Some(Value::Mapping(om)) => om,
            _ => {
                let from = extends_at(from_path);
                return Err(Error::ExtendsTargetMissing { from, path });
            },
        };
        if crate::jscad::contains_string(seen.as_slice(), &path) {
            let ghost sv = string_views(seen@);
            seen.push(path);
            assert(string_views(seen@) =~= sv.push(path@));
            let cycle = join_strings(seen.as_slice(), " -> ");
            return Err(Error::ExtendsCycle { cycle });
        }
        proof {
            let ov = get_path_spec(rootv, path_segments(path@))->0;
            lemma_get_path_ext(rootv, path_segments(path@));
            lemma_parents_ext(table_view(om@));
            lemma_fuel_step(u, string_views(seen@), path@);
            lemma_list_texts_concat(cv.drop_first(), parents_of(table_view(om@)));
            assert(list_texts(cv.drop_first()).subset_of(list_texts(cv))) by {
                assert(cv =~= seq![cv[0]] + cv.drop_first());
                lemma_list_texts_concat(seq![cv[0]], cv.drop_first());
            }
        }
        let ghost sv = string_views(seen@);
        let ghost chv = chain_views(chain@);
        push_parents(&mut cands, om);
        let ghost pth = path@;
        seen.push(path);
        let c = copy_entries(om);
        chain.push(c);
        proof {
            assert(string_views(seen@) =~= sv.push(pth));
            assert(chain_views(chain@) =~= chv.push(table_view(om@)));
            fuel = (fuel - 1) as nat;
        }
    }
    let ghost chv = chain_views(chain@);
    let mut merged_list: Vec<Value> = Vec::new();
    let mut k = chain.len();
    while k > 0
        invariant
            k <= chain.len(),
            chv == chain_views(chain@),
            list_view(merged_list@) == chv.reverse().map_values(
                |m: Seq<(Seq<char>, ValueView)>| ValueView::Table(m),
            ).take(chain.len() - k),
        decreases k,
    {
        k -= 1;
        let c = copy_entries(&chain[k]);
        let ghost before = merged_list@;
        let v = Value::Mapping(c);
        merged_list.push(v);
        proof {
            lemma_list_view_push(before, v);
            let t = chv.reverse().map_values(|m: Seq<(Seq<char>, ValueView)>| ValueView::Table(m));
            assert(t.take(chain.len() - k) =~= t.take(chain.len() - k - 1).push(t[chain.len() - k - 1]));
        }
    }
    proof {
        let t = chv.reverse().map_values(|m: Seq<(Seq<char>, ValueView)>| ValueView::Table(m));
        assert(t.take(chain.len() as int) =~= t);
    }
    let merged = crate::value::extend_all(merged_list.as_slice());
    match merged {
        Value::Mapping(m) => {
            let key = str_to_string("$extends");
            let cleaned = crate::value::table_remove_exec(&m, &key);
            Ok(Value::Mapping(cleaned))
        },
        other => Ok(other),
    }
}

} // verus!

verus! {

/// The breadcrumb of element `i` of a sequence: `[i]`.
pub open spec fn crumb_index(i: int) -> Seq<char> {
    "["@ + crate::dxf_write::dec_str(i as nat) + "]"@
}

/// A value whose mapping has `$extends` merged over its ancestors.
pub open spec fn resolve_extends(next: ValueView, from: Seq<char>, root: ValueView) -> Result<ValueView, InheritFailure> {
    match next {
        ValueView::Table(obj) => match table_get(obj, "$extends"@) {
            Some(ext) => apply_extends_spec(from, obj, ext, root),
            None => Ok(next),
        },
        _ => Ok(next),
    }
}

/// Inheritance resolved throughout a value at breadcrumbs `bc`, innermost
/// mappings first; `root` is what `$extends` paths are read from.
pub open spec fn inherit_spec(v: ValueView, root: ValueView, bc: Seq<Seq<char>>) -> Result<ValueView, InheritFailure>
    decreases v, 0nat,
{
    match v {
        ValueView::Table(m) => match inherit_entries(m, m.len(), root, bc) {
            Ok(out) => Ok(ValueView::Table(out)),
            Err(e) => Err(e),
        },
        ValueView::List(s) => match inherit_list(s, s.len(), root, bc) {
            Ok(out) => Ok(ValueView::List(out)),
            Err(e) => Err(e),
        },
        _ => Ok(v),
    }
}

/// The first `n` entries of a mapping, each resolved at its key's
/// breadcrumb.
pub open spec fn inherit_entries(
    m: Seq<(Seq<char>, ValueView)>,
    n: nat,
    root: ValueView,
    bc: Seq<Seq<char>>,
) -> Result<Seq<(Seq<char>, ValueView)>, InheritFailure>
    decreases m, n,
{
    if n == 0 || n > m.len() {
        Ok(seq![])
    } else {
        match inherit_entries(m, (n - 1) as nat, root, bc) {
            Err(e) => Err(e),
            Ok(out) => {
                let k = m[n - 1].0;
                let bc2 = bc.push(k);
                match inherit_spec(m[n - 1].1, root, bc2) {
                    Err(e) => Err(e),
                    Ok(next) => match resolve_extends(next, join(bc2, "."@), root) {
                        Ok(x) => Ok(crate::value::table_insert(out, k, x)),
                        Err(e) => Err(e),
                    },
                }
            },
        }
    }
}

/// The first `n` elements of a sequence, each resolved at its index's
/// breadcrumb.
pub open spec fn inherit_list(s: Seq<ValueView>, n: nat, root: ValueView, bc: Seq<Seq<char>>) -> Result<Seq<ValueView>, InheritFailure>
    decreases s, n,
{
    if n == 0 || n > s.len() {
        Ok(seq![])
    } else {
        match inherit_list(s, (n - 1) as nat, root, bc) {
            Err(e) => Err(e),
            Ok(out) => match inherit_spec(s[n - 1], root, bc.push(crumb_index(n - 1))) {
                Err(e) => Err(e),
                Ok(x) => Ok(out.push(x)),
            },
        }
    }
}

proof fn lemma_inherit_entries_err(m: Seq<(Seq<char>, ValueView)>, n: nat, n2: nat, root: ValueView, bc: Seq<Seq<char>>)
    requires
        n <= n2 <= m.len(),
        inherit_entries(m, n, root, bc) is Err,
    ensures
        inherit_entries(m, n2, root, bc) == inherit_entries(m, n, root, bc),
    decreases n2 - n,
{
    if n2 > n {
        lemma_inherit_entries_err(m, n, (n2 - 1) as nat, root, bc);
    }
}

proof fn lemma_inherit_list_err(s: Seq<ValueView>, n: nat, n2: nat, root: ValueView, bc: Seq<Seq<char>>)
    requires
        n <= n2 <= s.len(),
        inherit_list(s, n, root, bc) is Err,
    ensures
        inherit_list(s, n2, root, bc) == inherit_list(s, n, root, bc),
    decreases n2 - n,
{
    if n2 > n {
        lemma_inherit_list_err(s, n, (n2 - 1) as nat, root, bc);
    }
}

fn push_string(v: &Vec<String>, s: String) -> (r: Vec<String>)
    ensures
        string_views(r@) == string_views(v@).push(s@),
{
    let mut out: Vec<String> = Vec::new();
    let mut i: usize = 0;
    while i < v.len()
        invariant
            i <= v.len(),
            string_views(out@) == string_views(v@).take(i as int),
        decreases v.len() - i,
    {
        let ghost before = out@;
        let c = v[i].clone();
        out.push(c);
        assert(out@ == before.push(c));
        assert(string_views(out@) =~= string_views(before).push(c@));
        assert(string_views(v@).take(i + 1) =~= string_views(v@).take(i as int).push(v@[i as int]@));
        i += 1;
    }
    assert(string_views(v@).take(v.len() as int) =~= string_views(v@));
    let ghost before = out@;
    let ghost sv = s@;
    out.push(s);
    assert(string_views(out@) =~= string_views(before).push(sv));
    out
}

fn crumb_of_index(i: usize) -> (r: String)
    ensures
        r@ == crumb_index(i as int),
{
    let mut v: Vec<char> = Vec::new();
    v.push('[');
    crate::dxf_write::push_dec(&mut v, i as u64);
    v.push(']');
    assert(v@ =~= "["@ + crate::dxf_write::dec_str(i as nat) + "]"@) by {
        reveal_strlit("[");
        reveal_strlit("]");
    }
    crate::text::string_of(v.as_slice())
}

fn resolve_extends_exec(next: Value, from: &str, root: &Value) -> (r: Result<Value, Error>)
    ensures
        match resolve_extends(vview(next), from@, vview(*root)) {
            Ok(x) => r matches Ok(y) && vview(y) == x,
            Err(f) => r matches Err(e) && failure_matches(f, e),
        },
{
    match &next {
        Value::Mapping(obj) => {
            proof {
                crate::value::lemma_table_view(obj@);
                crate::value::lemma_entry_index(table_view(obj@), "$extends"@, 0);
            }
            match crate::value::find_entry(obj.as_slice(), "$extends") {
                Some(j) => apply_extends(from, obj, &obj[j].1, root),
                None => Ok(next),
            }
        },
        _ => Ok(next),
    }
}

/// Resolves inheritance throughout `config` at breadcrumbs `bc`, reading
/// `$extends` targets from `root`.
pub fn inherit_with_root(config: &Value, root: &Value, bc: &Vec<String>) -> (r: Result<Value, Error>)
    ensures
        match inherit_spec(vview(*config), vview(*root), string_views(bc@)) {
            Ok(x) => r matches Ok(y) && vview(y) == x,
            Err(f) => r matches Err(e) && failure_matches(f, e),
        },
    decreases config,
{
    match config {
        Value::Mapping(m) => {
            let ghost tv = table_view(m@);
            proof {
                crate::value::lemma_table_view(m@);
            }
            let mut out: Vec<(String, Value)> = Vec::new();
            let mut i: usize = 0;
            assert(table_view(out@) =~= Seq::<(Seq<char>, ValueView)>::empty());
            while i < m.len()
                invariant
                    *config == Value::Mapping(*m),
                    tv == table_view(m@),
                    tv.len() == m@.len(),
                    forall|q: int| 0 <= q < m@.len() ==> #[trigger] tv[q] == (m@[q].0@, vview(m@[q].1)),
                    i <= m.len(),
                    inherit_entries(tv, i as nat, vview(*root), string_views(bc@)) == Ok::<
                        Seq<(Seq<char>, ValueView)>,
                        InheritFailure,
                    >(table_view(out@)),
                decreases m.len() - i,
            {
                let bc2 = push_string(bc, m[i].0.clone());
                assert(decreases_to!(*config => (*config)->Mapping_0));
                assert(decreases_to!(*m => m@));
                assert(decreases_to!(m@ => m@[i as int]));
                assert(decreases_to!(m@[i as int] => m@[i as int].1));
                let next = match inherit_with_root(&m[i].1, root, &bc2) {
                    Ok(x) => x,
                    Err(e) => {
                        proof {
                            lemma_inherit_entries_err(tv, (i + 1) as nat, tv.len(), vview(*root), string_views(bc@));
                        }
                        return Err(e);
                    },
                };
                let from = join_strings(bc2.as_slice(), ".");
                let resolved = match resolve_extends_exec(next, from.as_str(), root) {
                    Ok(x) => x,
                    Err(e) => {
                        proof {
                            lemma_inherit_entries_err(tv, (i + 1) as nat, tv.len(), vview(*root), string_views(bc@));
                        }
                        return Err(e);
                    },
                };
                out = crate::value::table_insert_exec(&out, &m[i].0, resolved);
                i += 1;
            }
            Ok(Value::Mapping(out))
        },
        Value::Sequence(s) => {
            let ghost lv = list_view(s@);
            proof {
                crate::value::lemma_list_view(s@);
            }
            let mut out: Vec<Value> = Vec::new();
            let mut i: usize = 0;
            assert(list_view(out@) =~= Seq::<ValueView>::empty());
            while i < s.len()
                invariant
                    *config == Value::Sequence(*s),
                    lv == list_view(s@),
                    lv.len() == s@.len(),
                    forall|q: int| 0 <= q < s@.len() ==> #[trigger] lv[q] == vview(s@[q]),
                    i <= s.len(),
                    inherit_list(lv, i as nat, vview(*root), string_views(bc@)) == Ok::<Seq<ValueView>, InheritFailure>(
                        list_view(out@),
                    ),
                decreases s.len() - i,
            {
                let crumb = crumb_of_index(i);
                let bc2 = push_string(bc, crumb);
                assert(decreases_to!(*config => (*config)->Sequence_0));
                assert(decreases_to!(*s => s@));
                assert(decreases_to!(s@ => s@[i as int]));
                let x = match inherit_with_root(&s[i], root, &bc2) {
                    Ok(x) => x,
                    Err(e) => {
                        proof {
                            lemma_inherit_list_err(lv, (i + 1) as nat, lv.len(), vview(*root), string_views(bc@));
                        }
                        return Err(e);
                    },
                };
                let ghost before = out@;
                out.push(x);
                proof {
                    lemma_list_view_push(before, x);
                }
                i += 1;
            }
            Ok(Value::Sequence(out))
        },
        _ => Ok(copy_value(config)),
    }
}

/// Resolves `$extends` throughout a configuration, reading targets from the
/// configuration itself.
pub fn inherit(config: &Value) -> (r: Result<Value, Error>)
    ensures
        match inherit_spec(vview(*config), vview(*config), seq![]) {
            Ok(x) => r matches Ok(y) && vview(y) == x,
            Err(f) => r matches Err(e) && failure_matches(f, e),
        },
{
    let bc: Vec<String> = Vec::new();
    assert(string_views(bc@) =~= Seq::<Seq<char>>::empty());
    inherit_with_root(config, config, &bc)
}

} // verus!
