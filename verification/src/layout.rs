//! The string-level rules of point layout: errors, zone and column
//! metadata, mirrored reference names, asymmetry settings and name
//! templates.
use vstd::prelude::*;
use crate::expr::str_to_string;
use crate::value::{list_view, vview, Value, ValueView};

verus! {

/// Errors of point layout.
#[derive(Debug)]
pub enum LayoutError {
    MissingPoints,
    ZonesNotMap,
    DuplicateKey { name: String },
    UnknownPointRef { name: String, at: String },
    InvalidNumber { at: String },
    InvalidBool { at: String },
    InvalidString { at: String },
    InvalidXy { at: String },
    InvalidTrbl { at: String },
    Eval { at: String, message: String },
    InvalidAnchor { at: String, message: String },
}

/// The zone a key belongs to, with its columns in order.
#[derive(Debug, Clone)]
pub struct ZoneMeta {
    pub name: String,
    pub columns_order: Vec<String>,
}

/// The column a key belongs to.
#[derive(Debug, Clone)]
pub struct ColMeta {
    pub name: String,
}

/// Which side of a mirrored layout a setting applies to.
#[derive(Debug, Clone, Copy, PartialEq, Eq, Structural)]
pub enum Asymmetry {
    Both,
    Source,
    Clone,
}

/// The name of a point's mirror image: `mirror_` added, or removed when
/// the name has it.
pub open spec fn mirror_name(name: Seq<char>) -> Seq<char> {
    if name.len() >= 7 && name.take(7) == "mirror_"@ {
        name.skip(7)
    } else {
        "mirror_"@ + name
    }
}

/// A reference to a point, taken on the mirrored side when `mirror` holds.
pub fn mirror_ref(ref_name: &str, mirror: bool) -> (r: String)
    ensures
        r@ == if mirror { mirror_name(ref_name@) } else { ref_name@ },
{
    if !mirror {
        return str_to_string(ref_name);
    }
    let v = crate::text::chars_of(ref_name);
    let prefix = crate::text::chars_of("mirror_");
    proof {
        reveal_strlit("mirror_");
    }
    if v.len() >= 7 {
        let head = crate::yaml_flow::slice_vec(v.as_slice(), 0, 7);
        if crate::expr::chars_eq(head.as_slice(), "mirror_") {
            let rest = crate::yaml_flow::slice_vec(v.as_slice(), 7, v.len());
            assert(head@ =~= ref_name@.take(7));
            assert(rest@ =~= ref_name@.skip(7));
            return crate::text::string_of(rest.as_slice());
        }
        assert(head@ =~= ref_name@.take(7));
    }
    let mut out = prefix;
    crate::yaml_flow::extend(&mut out, v.as_slice());
    crate::text::string_of(out.as_slice())
}

/// The asymmetry an `asym` string names: `both`; a source alias; a clone
/// alias; anything else is `both`.
pub open spec fn asym_of(s: Seq<char>) -> Asymmetry {
    if s == "both"@ {
        Asymmetry::Both
    } else if s == "source"@ || s == "origin"@ || s == "base"@ || s == "primary"@ || s == "left"@ {
        Asymmetry::Source
    } else if s == "clone"@ || s == "image"@ || s == "derived"@ || s == "secondary"@ || s
        == "right"@ {
        Asymmetry::Clone
    } else {
        Asymmetry::Both
    }
}

/// Reads an `asym` setting.
pub fn eval_asym(s: &str) -> (r: Asymmetry)
    ensures
        r == asym_of(s@),
{
    let v = crate::text::chars_of(s);
    let t = v.as_slice();
    if crate::expr::chars_eq(t, "both") {
        Asymmetry::Both
    } else if crate::expr::chars_eq(t, "source") || crate::expr::chars_eq(t, "origin")
        || crate::expr::chars_eq(t, "base") || crate::expr::chars_eq(t, "primary")
        || crate::expr::chars_eq(t, "left") {
        Asymmetry::Source
    } else if crate::expr::chars_eq(t, "clone") || crate::expr::chars_eq(t, "image")
        || crate::expr::chars_eq(t, "derived") || crate::expr::chars_eq(t, "secondary")
        || crate::expr::chars_eq(t, "right") {
        Asymmetry::Clone
    } else {
        Asymmetry::Both
    }
}

/// Mirroring the name of a point twice gives the name back, unless the name
/// carries the prefix twice.
pub proof fn law_mirror_name_involution(name: Seq<char>)
    requires
        !(name.len() >= 14 && name.take(14) == "mirror_mirror_"@),
    ensures
        mirror_name(mirror_name(name)) == name,
{
    reveal_strlit("mirror_");
    reveal_strlit("mirror_mirror_");
    if name.len() >= 7 && name.take(7) == "mirror_"@ {
        let r = name.skip(7);
        if r.len() >= 7 && r.take(7) == "mirror_"@ {
            assert forall|k: int| 0 <= k < 14 implies name.take(14)[k] == "mirror_mirror_"@[k] by {
                if k < 7 {
                    assert(name.take(7)[k] == "mirror_"@[k]);
                } else {
                    assert(r.take(7)[k - 7] == "mirror_"@[k - 7]);
                }
            }
            assert(name.take(14) =~= "mirror_mirror_"@);
        }
        assert(name =~= "mirror_"@ + name.skip(7));
    } else {
        let m = "mirror_"@ + name;
        assert(m.take(7) =~= "mirror_"@);
        assert(m.skip(7) =~= name);
    }
}

} // verus!

verus! {

/// The names a key template can refer to.
#[derive(Debug, Clone)]
pub struct KeyNames {
    pub zone: String,
    pub col: String,
    pub row: String,
    pub colrow: String,
    pub name: String,
}

/// What a template reference resolves to: one of the key's names, or
/// nothing for an unknown reference.
pub open spec fn resolve_spec(path: Seq<char>, k: KeyNames) -> Seq<char> {
    if path == "zone.name"@ {
        k.zone@
    } else if path == "col.name"@ {
        k.col@
    } else if path == "row"@ {
        k.row@
    } else if path == "colrow"@ {
        k.colrow@
    } else if path == "name"@ {
        k.name@
    } else {
        seq![]
    }
}

/// The value a template reference resolves to.
pub fn resolve_template(path: &str, key: &KeyNames) -> (r: String)
    ensures
        r@ == resolve_spec(path@, *key),
{
    let v = crate::text::chars_of(path);
    let t = v.as_slice();
    if crate::expr::chars_eq(t, "zone.name") {
        key.zone.clone()
    } else if crate::expr::chars_eq(t, "col.name") {
        key.col.clone()
    } else if crate::expr::chars_eq(t, "row") {
        key.row.clone()
    } else if crate::expr::chars_eq(t, "colrow") {
        key.colrow.clone()
    } else if crate::expr::chars_eq(t, "name") {
        key.name.clone()
    } else {
        String::new()
    }
}

/// The pattern of a reference in a key name template: `{{`, anything but
/// `}`, `}}`.
pub open spec fn template_pattern() -> Seq<char> {
    "\\{\\{([^}]*)\\}\\}"@
}

/// The first `n` pieces of a template, each followed by what the reference
/// after it resolves to (its path trimmed), if there is one.
pub open spec fn fill_spec(pieces: Seq<Seq<char>>, paths: Seq<Seq<char>>, k: KeyNames, n: int) -> Seq<char>
    decreases n,
{
    if n <= 0 {
        seq![]
    } else {
        fill_spec(pieces, paths, k, n - 1) + pieces[n - 1] + if n - 1 < paths.len() {
            resolve_spec(crate::yaml_flow::trimmed(paths[n - 1]), k)
        } else {
            seq![]
        }
    }
}

/// Fills in a template split at its references: the pieces around the
/// references, and the path inside each reference.
pub fn fill_template(pieces: &[String], paths: &[String], key: &KeyNames) -> (r: String)
    ensures
        r@ == fill_spec(
            crate::jscad::string_views(pieces@),
            crate::jscad::string_views(paths@),
            *key,
            pieces.len() as int,
        ),
{
    let ghost pv = crate::jscad::string_views(pieces@);
    let ghost qv = crate::jscad::string_views(paths@);
    let mut out: Vec<char> = Vec::new();
    let mut i: usize = 0;
    while i < pieces.len()
        invariant
            i <= pieces.len(),
            pv == crate::jscad::string_views(pieces@),
            qv == crate::jscad::string_views(paths@),
            out@ == fill_spec(pv, qv, *key, i as int),
        decreases pieces.len() - i,
    {
        crate::jscad::push_str(&mut out, pieces[i].as_str());
        if i < paths.len() {
            let pc = crate::text::chars_of(paths[i].as_str());
            let (a, b) = crate::yaml_flow::trim_bounds(pc.as_slice());
            let path = crate::yaml_flow::slice_vec(pc.as_slice(), a, b);
            let path_s = crate::text::string_of(path.as_slice());
            let r = resolve_template(path_s.as_str(), key);
            crate::jscad::push_str(&mut out, r.as_str());
        }
        i += 1;
    }
    crate::text::string_of(out.as_slice())
}

/// Whether every reference's group took part in its match.
pub open spec fn all_groups(g: Seq<Option<Seq<char>>>) -> bool {
    forall|i: int| 0 <= i < g.len() ==> #[trigger] g[i] is Some
}

/// Fills in a key name template: each `{{ path }}` is replaced by the key
/// name it refers to. The references are found with the regex crate; where
/// it would not compile the pattern or report a reference's path, the
/// template is returned as it is.
pub fn template(input: &str, key: &KeyNames) -> (r: String)
    ensures
        ({
            let p = template_pattern();
            let g = crate::outline::regex_group1(p, input@);
            if crate::outline::regex_accepts(p) && all_groups(g) {
                r@ == fill_spec(
                    crate::outline::regex_split(p, input@),
                    g.map_values(|o: Option<Seq<char>>| o.unwrap()),
                    *key,
                    crate::outline::regex_split(p, input@).len() as int,
                )
            } else {
                r@ == input@
            }
        }),
{
    let re = match crate::outline::compile_regex("\\{\\{([^}]*)\\}\\}") {
        Ok(re) => re,
        Err(_) => {
            return str_to_string(input);
        },
    };
    let pieces = crate::outline::regex_split_text(&re, input);
    let groups = crate::outline::regex_first_groups(&re, input);
    let ghost gv = crate::outline::opt_string_views(groups@);
    assert(re.pattern() == template_pattern());
    let mut paths: Vec<String> = Vec::new();
    let mut i: usize = 0;
    while i < groups.len()
        invariant
            i <= groups.len(),
            gv == crate::outline::opt_string_views(groups@),
            gv.len() == groups@.len(),
            gv == crate::outline::regex_group1(template_pattern(), input@),
            paths@.len() == i,
            forall|q: int| 0 <= q < i ==> #[trigger] gv[q] == Some(paths@[q]@),
        decreases groups.len() - i,
    {
        match &groups[i] {
            Some(g) => {
                paths.push(g.clone());
            },
            None => {
                assert(gv[i as int] is None);
                assert(!all_groups(gv));
                return str_to_string(input);
            },
        }
        i += 1;
    }
    assert(crate::jscad::string_views(paths@) =~= gv.map_values(|o: Option<Seq<char>>| o.unwrap()));
    fill_template(pieces.as_slice(), paths.as_slice(), key)
}

} // verus!

verus! {

/// A string setting.
pub fn eval_string(v: &Value, at: &str) -> (r: Result<String, LayoutError>)
    ensures
        match vview(*v) {
            ValueView::Text(s) => r matches Ok(x) && x@ == s,
            _ => r matches Err(LayoutError::InvalidString { at: a }) && a@ == at@,
        },
{
    match v {
        Value::String(s) => Ok(s.clone()),
        _ => Err(LayoutError::InvalidString { at: str_to_string(at) }),
    }
}

/// An optional boolean setting: absent or null is `None`.
pub fn eval_bool_opt(v: Option<&Value>, at: &str) -> (r: Result<Option<bool>, LayoutError>)
    ensures
        match v {
            None => r matches Ok(None),
            Some(x) => match vview(*x) {
                ValueView::Bool(b) => r == Ok::<Option<bool>, LayoutError>(Some(b)),
                ValueView::Null => r matches Ok(None),
                _ => r matches Err(LayoutError::InvalidBool { at: a }) && a@ == at@,
            },
        },
{
    match v {
        None => Ok(None),
        Some(Value::Bool(b)) => Ok(Some(*b)),
        Some(Value::Null) => Ok(None),
        Some(_) => Err(LayoutError::InvalidBool { at: str_to_string(at) }),
    }
}

/// The texts of a sequence of values, if all are strings; otherwise the
/// index of the first that is not.
pub open spec fn all_texts(s: Seq<ValueView>) -> Option<Seq<Seq<char>>>
    decreases s.len(),
{
    if s.len() == 0 {
        Some(seq![])
    } else {
        match (all_texts(s.drop_last()), s.last()) {
            (Some(t), ValueView::Text(x)) => Some(t.push(x)),
            _ => None,
        }
    }
}

fn texts_of(items: &Vec<Value>, at: &str) -> (r: Result<Vec<String>, LayoutError>)
    ensures
        match all_texts(list_view(items@)) {
            Some(t) => r matches Ok(x) && crate::jscad::string_views(x@) == t,
            None => r matches Err(LayoutError::InvalidString { at: a }) && a@ == at@,
        },
{
    proof {
        crate::value::lemma_list_view(items@);
    }
    let ghost lv = list_view(items@);
    let mut out: Vec<String> = Vec::new();
    let mut i: usize = 0;
    assert(lv.take(0) =~= Seq::<ValueView>::empty());
    while i < items.len()
        invariant
            i <= items.len(),
            lv == list_view(items@),
            lv.len() == items@.len(),
            forall|q: int| 0 <= q < items@.len() ==> #[trigger] lv[q] == vview(items@[q]),
            all_texts(lv.take(i as int)) == Some(crate::jscad::string_views(out@)),
        decreases items.len() - i,
    {
        assert(lv.take(i + 1).drop_last() =~= lv.take(i as int));
        let ghost before = crate::jscad::string_views(out@);
        match &items[i] {
            Value::String(s) => {
                out.push(s.clone());
                assert(crate::jscad::string_views(out@) =~= before.push(s@));
            },
            _ => {
                proof {
                    lemma_all_texts_none(lv, (i + 1) as nat);
                }
                return Err(LayoutError::InvalidString { at: str_to_string(at) });
            },
        }
        i += 1;
    }
    assert(lv.take(items.len() as int) =~= lv);
    Ok(out)
}

proof fn lemma_all_texts_none(s: Seq<ValueView>, n: nat)
    requires
        n <= s.len(),
        all_texts(s.take(n as int)) is None,
    ensures
        all_texts(s) is None,
    decreases s.len() - n,
{
    if n < s.len() {
        assert(s.take(n + 1 as int).drop_last() =~= s.take(n as int));
        lemma_all_texts_none(s, (n + 1) as nat);
    } else {
        assert(s.take(n as int) =~= s);
    }
}

/// Tags: absent or null is none, a string is one tag, a sequence of
/// strings its tags.
pub fn eval_tags(v: Option<&Value>, at: &str) -> (r: Result<Vec<String>, LayoutError>)
    ensures
        match v {
            None => r matches Ok(x) && x@.len() == 0,
            Some(x) => match vview(*x) {
                ValueView::Null => r matches Ok(t) && t@.len() == 0,
                ValueView::Text(s) => r matches Ok(t) && crate::jscad::string_views(t@) == seq![s],
                ValueView::List(items) => match all_texts(items) {
                    Some(ts) => r matches Ok(t) && crate::jscad::string_views(t@) == ts,
                    None => r matches Err(LayoutError::InvalidString { at: a }) && a@ == at@,
                },
                _ => r matches Err(LayoutError::InvalidString { at: a }) && a@ == at@,
            },
        },
{
    match v {
        None => Ok(Vec::new()),
        Some(Value::Null) => Ok(Vec::new()),
        Some(Value::String(s)) => {
            let out = vec![s.clone()];
            assert(crate::jscad::string_views(out@) =~= seq![s@]);
            Ok(out)
        },
        Some(Value::Sequence(items)) => texts_of(items, at),
        Some(_) => Err(LayoutError::InvalidString { at: str_to_string(at) }),
    }
}

/// The concatenation of texts.
pub open spec fn concat_texts(t: Seq<Seq<char>>) -> Seq<char>
    decreases t.len(),
{
    if t.len() == 0 {
        seq![]
    } else {
        concat_texts(t.drop_last()) + t.last()
    }
}

/// The sides a rotation affects: the characters of a string, or of the
/// strings of a sequence joined.
pub fn eval_affect(v: &Value, at: &str) -> (r: Result<Vec<char>, LayoutError>)
    ensures
        match vview(*v) {
            ValueView::Text(s) => r matches Ok(c) && c@ == s,
            ValueView::List(items) => match all_texts(items) {
                Some(ts) => r matches Ok(c) && c@ == concat_texts(ts),
                None => r matches Err(LayoutError::InvalidString { at: a }) && a@ == at@,
            },
            _ => r matches Err(LayoutError::InvalidString { at: a }) && a@ == at@,
        },
{
    match v {
        Value::String(s) => Ok(crate::text::chars_of(s.as_str())),
        Value::Sequence(items) => {
            let ts = match texts_of(items, at) {
                Ok(t) => t,
                Err(e) => {
                    return Err(e);
                },
            };
            let ghost tv = crate::jscad::string_views(ts@);
            let mut out: Vec<char> = Vec::new();
            let mut i: usize = 0;
            assert(tv.take(0) =~= Seq::<Seq<char>>::empty());
            while i < ts.len()
                invariant
                    i <= ts.len(),
                    tv == crate::jscad::string_views(ts@),
                    out@ == concat_texts(tv.take(i as int)),
                decreases ts.len() - i,
            {
                let c = crate::text::chars_of(ts[i].as_str());
                crate::yaml_flow::extend(&mut out, c.as_slice());
                assert(tv.take(i + 1).drop_last() =~= tv.take(i as int));
                i += 1;
            }
            assert(tv.take(ts.len() as int) =~= tv);
            Ok(out)
        },
        _ => Err(LayoutError::InvalidString { at: str_to_string(at) }),
    }
}

} // verus!

verus! {

/// The names of a point's mirror image, `mirror_` put before its name and
/// its column-row name; a point whose settings apply only to the source
/// side has no mirror image.
pub fn mirror_image_names(asym: Asymmetry, name: &str, colrow: &str) -> (r: Option<(String, String)>)
    ensures
        asym == Asymmetry::Source ==> r is None,
        asym != Asymmetry::Source ==> (r matches Some(p) && p.0@ == "mirror_"@ + name@ && p.1@
            == "mirror_"@ + colrow@),
{
    if asym == Asymmetry::Source {
        return None;
    }
    let mut a = crate::text::chars_of("mirror_");
    crate::jscad::push_str(&mut a, name);
    let mut b = crate::text::chars_of("mirror_");
    crate::jscad::push_str(&mut b, colrow);
    Some((crate::text::string_of(a.as_slice()), crate::text::string_of(b.as_slice())))
}

} // verus!

verus! {

/// What the source aliases are: `source`, `origin`, `base`, `primary`,
/// `left`.
pub open spec fn source_alias(s: Seq<char>) -> bool {
    s == "source"@ || s == "origin"@ || s == "base"@ || s == "primary"@ || s == "left"@
}

/// What the clone aliases are: `clone`, `image`, `derived`, `secondary`,
/// `right`.
pub open spec fn clone_alias(s: Seq<char>) -> bool {
    s == "clone"@ || s == "image"@ || s == "derived"@ || s == "secondary"@ || s == "right"@
}

/// Each source alias names the source side (the key has no mirror image),
/// each clone alias the clone side, `both` both sides, and any other text
/// both sides.
pub proof fn law_asym_aliases(s: Seq<char>)
    ensures
        s == "both"@ ==> asym_of(s) == Asymmetry::Both,
        source_alias(s) ==> asym_of(s) == Asymmetry::Source,
        clone_alias(s) ==> asym_of(s) == Asymmetry::Clone,
        !source_alias(s) && !clone_alias(s) ==> asym_of(s) == Asymmetry::Both,
{
    reveal_strlit("both");
    reveal_strlit("source");
    reveal_strlit("origin");
    reveal_strlit("base");
    reveal_strlit("primary");
    reveal_strlit("left");
    reveal_strlit("clone");
    reveal_strlit("image");
    reveal_strlit("derived");
    reveal_strlit("secondary");
    reveal_strlit("right");
    if s == "both"@ {
        assert(s.len() == 4 && s[0] == 'b' && s[1] == 'o');
    }
    if s == "source"@ {
        assert(s.len() == 6 && s[0] == 's' && s[1] == 'o');
    }
    if s == "origin"@ {
        assert(s.len() == 6 && s[0] == 'o' && s[1] == 'r');
    }
    if s == "base"@ {
        assert(s.len() == 4 && s[0] == 'b' && s[1] == 'a');
    }
    if s == "primary"@ {
        assert(s.len() == 7 && s[0] == 'p' && s[1] == 'r');
    }
    if s == "left"@ {
        assert(s.len() == 4 && s[0] == 'l' && s[1] == 'e');
    }
    if s == "clone"@ {
        assert(s.len() == 5 && s[0] == 'c' && s[1] == 'l');
    }
    if s == "image"@ {
        assert(s.len() == 5 && s[0] == 'i' && s[1] == 'm');
    }
    if s == "derived"@ {
        assert(s.len() == 7 && s[0] == 'd' && s[1] == 'e');
    }
    if s == "secondary"@ {
        assert(s.len() == 9 && s[0] == 's' && s[1] == 'e');
    }
    if s == "right"@ {
        assert(s.len() == 5 && s[0] == 'r' && s[1] == 'i');
    }
}

} // verus!
