//! The string-level rules of outlines: references to other outlines,
//! asymmetry settings, `where` selectors written as regular expressions,
//! and which points a selector places a shape on.
use vstd::prelude::*;
use crate::error::Error;
use crate::expr::str_to_string;
use crate::layout::LayoutError;

verus! {

/// Errors of outline generation.
#[derive(Debug)]
pub enum OutlineError {
    Parser(Error),
    Points(LayoutError),
    OutlineCycle { name: String },
    Unsupported(String),
    Path(String),
}

/// How a referenced outline combines with the outline being built.
#[derive(Debug, Clone, Copy, PartialEq, Eq, Structural)]
pub enum OutlineRefOp {
    Add,
    Subtract,
    Intersect,
    Stack,
}

/// A reference `-name`, `+name`, `~name`, `^name` or `name`: its operation
/// and the name without the prefix.
pub open spec fn outline_ref(raw: Seq<char>) -> (OutlineRefOp, Seq<char>) {
    if raw.len() > 0 && raw[0] == '-' {
        (OutlineRefOp::Subtract, raw.drop_first())
    } else if raw.len() > 0 && raw[0] == '+' {
        (OutlineRefOp::Add, raw.drop_first())
    } else if raw.len() > 0 && raw[0] == '~' {
        (OutlineRefOp::Intersect, raw.drop_first())
    } else if raw.len() > 0 && raw[0] == '^' {
        (OutlineRefOp::Stack, raw.drop_first())
    } else {
        (OutlineRefOp::Add, raw)
    }
}

/// Splits a reference to another outline into its operation and name.
pub fn parse_outline_ref(raw: &str) -> (r: (OutlineRefOp, String))
    ensures
        (r.0, r.1@) == outline_ref(raw@),
{
    let v = crate::text::chars_of(raw);
    if v.len() > 0 {
        let op = if v[0] == '-' {
            Some(OutlineRefOp::Subtract)
        } else if v[0] == '+' {
            Some(OutlineRefOp::Add)
        } else if v[0] == '~' {
            Some(OutlineRefOp::Intersect)
        } else if v[0] == '^' {
            Some(OutlineRefOp::Stack)
        } else {
            None
        };
        match op {
            Some(o) => {
                let rest = crate::yaml_flow::slice_vec(v.as_slice(), 1, v.len());
                assert(rest@ =~= raw@.drop_first());
                return (o, crate::text::string_of(rest.as_slice()));
            },
            None => {},
        }
    }
    (OutlineRefOp::Add, str_to_string(raw))
}

/// Which points a shape with a point selector goes on.
#[derive(Debug, Clone, Copy, PartialEq, Eq, Structural)]
pub enum Asym {
    Both,
    Source,
    Clone,
}

/// The asymmetry of a shape: from its `asym` string when that names one,
/// else `Both` for a shape on every point and `Source` otherwise.
pub open spec fn asym_spec(text: Option<Seq<char>>, where_all: bool) -> Asym {
    let default = if where_all { Asym::Both } else { Asym::Source };
    match text {
        None => default,
        Some(s) => if s == "both"@ {
            Asym::Both
        } else if s == "source"@ || s == "origin"@ || s == "base"@ || s == "primary"@ || s
            == "left"@ {
            Asym::Source
        } else if s == "clone"@ || s == "image"@ || s == "derived"@ || s == "secondary"@ || s
            == "right"@ {
            Asym::Clone
        } else {
            default
        },
    }
}

/// Reads a shape's asymmetry: `text` is its `asym` value when that is a
/// string, `where_all` whether its `where` is `true`.
pub fn parse_asym(text: Option<&str>, where_all: bool) -> (r: Asym)
    ensures
        r == asym_spec(
            match text {
                Some(t) => Some(t@),
                None => None,
            },
            where_all,
        ),
{
    let default = if where_all { Asym::Both } else { Asym::Source };
    match text {
        None => default,
        Some(s) => {
            let v = crate::text::chars_of(s);
            let t = v.as_slice();
            if crate::expr::chars_eq(t, "both") {
                Asym::Both
            } else if crate::expr::chars_eq(t, "source") || crate::expr::chars_eq(t, "origin")
                || crate::expr::chars_eq(t, "base") || crate::expr::chars_eq(t, "primary")
                || crate::expr::chars_eq(t, "left") {
                Asym::Source
            } else if crate::expr::chars_eq(t, "clone") || crate::expr::chars_eq(t, "image")
                || crate::expr::chars_eq(t, "derived") || crate::expr::chars_eq(t, "secondary")
                || crate::expr::chars_eq(t, "right") {
                Asym::Clone
            } else {
                default
            }
        },
    }
}

/// A selector written `/pattern/flags`: a slash first, and another slash
/// somewhere after it.
pub open spec fn regex_literal(s: Seq<char>) -> bool {
    s.len() >= 2 && s[0] == '/' && s.drop_first().contains('/')
}

/// Whether a selector is written as a regular expression literal.
pub fn looks_like_regex_literal(s: &str) -> (b: bool)
    ensures
        b == regex_literal(s@),
{
    let v = crate::text::chars_of(s);
    if v.len() < 2 || v[0] != '/' {
        return false;
    }
    let mut i: usize = 1;
    while i < v.len()
        invariant
            1 <= i <= v.len(),
            v@ == s@,
            v@.len() >= 2,
            v@[0] == '/',
            forall|k: int| 1 <= k < i ==> v@[k] != '/',
        decreases v.len() - i,
    {
        if v[i] == '/' {
            assert(s@.drop_first()[i - 1] == '/');
            return true;
        }
        i += 1;
    }
    proof {
        if s@.drop_first().contains('/') {
            let k = choose|k: int| 0 <= k < s@.drop_first().len() && s@.drop_first()[k] == '/';
            assert(v@[k + 1] == '/');
        }
    }
    false
}

/// Index of the last `/` in `s`, if any.
pub open spec fn last_slash(s: Seq<char>) -> Option<int>
    decreases s.len(),
{
    if s.len() == 0 {
        None
    } else if s.last() == '/' {
        Some(s.len() - 1)
    } else {
        last_slash(s.drop_last())
    }
}

/// The pattern of a literal `/pattern/flags`: the text between the first
/// and the last slash, made case-insensitive when the flags hold `i`.
pub open spec fn literal_pattern(s: Seq<char>) -> Option<Seq<char>> {
    if s.len() == 0 || s[0] != '/' {
        None
    } else {
        match last_slash(s) {
            None => None,
            Some(k) => if k == 0 {
                None
            } else {
                let pat = s.subrange(1, k);
                if s.skip(k + 1).contains('i') {
                    Some("(?i)"@ + pat)
                } else {
                    Some(pat)
                }
            },
        }
    }
}

proof fn lemma_last_slash(s: Seq<char>)
    ensures
        match last_slash(s) {
            Some(k) => 0 <= k < s.len() && s[k] == '/' && forall|j: int| k < j < s.len() ==> s[j] != '/',
            None => forall|j: int| 0 <= j < s.len() ==> s[j] != '/',
        },
    decreases s.len(),
{
    if s.len() > 0 && s.last() != '/' {
        lemma_last_slash(s.drop_last());
        assert forall|j: int| 0 <= j < s.len() - 1 implies s.drop_last()[j] == s[j] by {}
    }
}

/// The regular expression a literal `/pattern/flags` stands for.
pub fn regex_literal_pattern(raw: &str) -> (r: Option<String>)
    ensures
        match literal_pattern(raw@) {
            Some(p) => r matches Some(s) && s@ == p,
            None => r is None,
        },
{
    let v = crate::text::chars_of(raw);
    if v.len() == 0 || v[0] != '/' {
        return None;
    }
    let mut k = v.len();
    while k > 0 && v[k - 1] != '/'
        invariant
            k <= v.len(),
            v@ == raw@,
            forall|j: int| k <= j < v.len() ==> v@[j] != '/',
        decreases k,
    {
        k -= 1;
    }
    proof {
        lemma_last_slash(raw@);
    }
    assert(k >= 1);
    let k = k - 1;
    assert(last_slash(raw@) == Some(k as int)) by {
        match last_slash(raw@) {
            Some(m) => {
                if m < k {
                    assert(v@[k as int] == '/');
                }
                if m > k {
                    assert(v@[m] == '/');
                }
            },
            None => {
                assert(v@[k as int] == '/');
            },
        }
    }
    if k == 0 {
        return None;
    }
    let pat = crate::yaml_flow::slice_vec(v.as_slice(), 1, k);
    let mut has_i = false;
    let mut j = k + 1;
    while j < v.len()
        invariant
            k + 1 <= j <= v.len(),
            v@ == raw@,
            has_i == raw@.subrange(k + 1, j as int).contains('i'),
        decreases v.len() - j,
    {
        if v[j] == 'i' {
            has_i = true;
        }
        proof {
            let a = raw@.subrange(k + 1, j as int);
            let b = raw@.subrange(k + 1, j + 1);
            assert(b =~= a.push(v@[j as int]));
            if b.contains('i') && !a.contains('i') {
                let q = choose|q: int| 0 <= q < b.len() && b[q] == 'i';
                if q < a.len() {
                    assert(a[q] == 'i');
                }
            }
            if a.contains('i') {
                let q = choose|q: int| 0 <= q < a.len() && a[q] == 'i';
                assert(b[q] == 'i');
            }
            if v[j as int] == 'i' {
                assert(b[b.len() - 1] == 'i');
            }
        }
        j += 1;
    }
    assert(raw@.subrange(k + 1, v.len() as int) =~= raw@.skip(k + 1));
    if has_i {
        let mut out = crate::text::chars_of("(?i)");
        crate::yaml_flow::extend(&mut out, pat.as_slice());
        Some(crate::text::string_of(out.as_slice()))
    } else {
        Some(crate::text::string_of(pat.as_slice()))
    }
}

} // verus!

verus! {

#[verifier::external_type_specification]
#[verifier::external_body]
pub struct ExRegex(regex::Regex);

/// Whether the regex crate accepts `pattern` (its syntax and size limit).
pub uninterp spec fn regex_accepts(pattern: Seq<char>) -> bool;

/// Whether the regular expression `pattern` matches somewhere in `text`.
pub uninterp spec fn regex_finds(pattern: Seq<char>, text: Seq<char>) -> bool;

/// A compiled regular expression, with the pattern it was compiled from.
pub struct CompiledRegex {
    re: regex::Regex,
    pattern: String,
}

impl CompiledRegex {
    /// The pattern this expression was compiled from.
    pub closed spec fn pattern(&self) -> Seq<char> {
        self.pattern@
    }
}

/// The message of the error the regex crate reports for a pattern it
/// rejects (its `Display` text).
pub uninterp spec fn regex_error_text(pattern: Seq<char>) -> Seq<char>;

/// `regex::Regex::new`: compiles `pattern`, keeping the pattern beside the
/// compiled form; an error, with the crate's message, exactly when the
/// crate rejects the pattern.
#[verifier::external_body]
pub(crate) fn compile_regex(pattern: &str) -> (r: Result<CompiledRegex, String>)
    ensures
        r is Ok <==> regex_accepts(pattern@),
        r matches Ok(p) ==> p.pattern() == pattern@,
        r matches Err(m) ==> m@ == regex_error_text(pattern@),
{
    match regex::Regex::new(pattern) {
        Ok(re) => Ok(CompiledRegex { re, pattern: pattern.to_string() }),
        Err(e) => Err(e.to_string()),
    }
}

/// `regex::Regex::is_match`: whether the selector's pattern matches
/// somewhere in `text`. The claim rests on `re` having been compiled from
/// `pattern`, which `compile_regex` alone constructs.
#[verifier::external_body]
fn regex_is_match(re: &CompiledRegex, text: &str) -> (r: bool)
    ensures
        r == regex_finds(re.pattern(), text@),
{
    re.re.is_match(text)
}

/// `text` with every match of `pattern` replaced by `rep`, as
/// `Regex::replace_all` writes it (`$` references in `rep` expanded).
pub uninterp spec fn regex_replace(pattern: Seq<char>, text: Seq<char>, rep: Seq<char>) -> Seq<char>;

/// `regex::Regex::replace_all`: every match of the compiled pattern in
/// `text` replaced by `rep`.
#[verifier::external_body]
pub(crate) fn regex_replace_all(re: &CompiledRegex, text: &str, rep: &str) -> (r: String)
    ensures
        r@ == regex_replace(re.pattern(), text@, rep@),
{
    re.re.replace_all(text, rep).to_string()
}

/// The pieces of `text` between the matches of `pattern`, in order, the
/// text before the first match and after the last included.
pub uninterp spec fn regex_split(pattern: Seq<char>, text: Seq<char>) -> Seq<Seq<char>>;

/// For each match of `pattern` in `text`, in order, the text of its first
/// group when that group took part in the match.
pub uninterp spec fn regex_group1(pattern: Seq<char>, text: Seq<char>) -> Seq<Option<Seq<char>>>;

pub open spec fn opt_string_views(v: Seq<Option<String>>) -> Seq<Option<Seq<char>>> {
    v.map_values(
        |o: Option<String>|
            match o {
                Some(s) => Some(s@),
                None => None,
            },
    )
}

/// `regex::Regex::split`: the pieces of `text` around the matches of the
/// compiled pattern; the claim rests on `re` having been compiled from its
/// pattern, as with `regex_is_match`.
#[verifier::external_body]
pub(crate) fn regex_split_text(re: &CompiledRegex, text: &str) -> (r: Vec<String>)
    ensures
        crate::jscad::string_views(r@) == regex_split(re.pattern(), text@),
{
    re.re.split(text).map(|s| s.to_string()).collect()
}

/// `regex::Regex::captures_iter`: the text of the first group of each match
/// of the compiled pattern in `text`, in order.
#[verifier::external_body]
pub(crate) fn regex_first_groups(re: &CompiledRegex, text: &str) -> (r: Vec<Option<String>>)
    ensures
        opt_string_views(r@) == regex_group1(re.pattern(), text@),
{
    re.re.captures_iter(text).map(|c| c.get(1).map(|m| m.as_str().to_string())).collect()
}

/// Compiles a `where` selector written as `/pattern/flags`; a selector of
/// another form gives `None`, an unusable pattern an error.
pub fn where_regex(s: &str) -> (r: Result<Option<CompiledRegex>, OutlineError>)
    ensures
        !regex_literal(s@) ==> r matches Ok(None),
        regex_literal(s@) ==> match literal_pattern(s@) {
            Some(p) => if regex_accepts(p) {
                r matches Ok(Some(re)) && re.pattern() == p
            } else {
                r matches Err(OutlineError::Unsupported(m)) && m@ == "invalid regex"@
            },
            None => r matches Err(OutlineError::Unsupported(m)) && m@ == "invalid regex"@,
        },
{
    if !looks_like_regex_literal(s) {
        return Ok(None);
    }
    match regex_literal_pattern(s) {
        None => Err(OutlineError::Unsupported(str_to_string("invalid regex"))),
        Some(p) => match compile_regex(p.as_str()) {
            Ok(re) => Ok(Some(re)),
            Err(_) => Err(OutlineError::Unsupported(str_to_string("invalid regex"))),
        },
    }
}

/// Whether a point is on the side a shape's asymmetry selects.
pub open spec fn on_side(asym: Asym, mirrored: bool) -> bool {
    !(asym == Asym::Source && mirrored) && !(asym == Asym::Clone && !mirrored)
}

/// Indices of the first `n` points that are on the selected side and,
/// with a pattern, whose name it matches.
pub open spec fn selected(
    names: Seq<Seq<char>>,
    mirrored: Seq<bool>,
    asym: Asym,
    pattern: Option<Seq<char>>,
    n: int,
) -> Seq<usize>
    decreases n,
{
    if n <= 0 {
        seq![]
    } else {
        let k = n - 1;
        let keep = on_side(asym, mirrored[k]) && match pattern {
            Some(p) => regex_finds(p, names[k]),
            None => true,
        };
        selected(names, mirrored, asym, pattern, k) + if keep {
            seq![k as usize]
        } else {
            seq![]
        }
    }
}

/// The points a shape is placed on when its `where` is `true` (no
/// pattern) or a regular expression: those on the selected side whose name
/// the pattern matches, in order.
pub fn select_points(names: &[String], mirrored: &[bool], asym: Asym, re: Option<&CompiledRegex>) -> (r: Vec<usize>)
    requires
        names.len() == mirrored.len(),
    ensures
        r@ == selected(
            crate::jscad::string_views(names@),
            mirrored@,
            asym,
            match re {
                Some(x) => Some(x.pattern()),
                None => None,
            },
            names.len() as int,
        ),
{
    let ghost nv = crate::jscad::string_views(names@);
    let ghost pat = match re {
        Some(x) => Some(x.pattern()),
        None => None,
    };
    let mut out: Vec<usize> = Vec::new();
    let mut k: usize = 0;
    while k < names.len()
        invariant
            k <= names.len(),
            names.len() == mirrored.len(),
            nv == crate::jscad::string_views(names@),
            pat == match re {
                Some(x) => Some(x.pattern()),
                None => None,
            },
            out@ == selected(nv, mirrored@, asym, pat, k as int),
        decreases names.len() - k,
    {
        let m = mirrored[k];
        let side = !(asym == Asym::Source && m) && !(asym == Asym::Clone && !m);
        let matches = match re {
            Some(x) => regex_is_match(x, names[k].as_str()),
            None => true,
        };
        assert(nv[k as int] == names@[k as int]@);
        let ghost before = out@;
        if side && matches {
            out.push(k);
            assert(out@ =~= before + seq![k]);
        } else {
            assert(out@ =~= before + Seq::<usize>::empty());
        }
        k += 1;
    }
    out
}

} // verus!

verus! {

use crate::value::{get_path_spec, path_segments, table_get, table_lookup, table_view, list_view, vview, copy_value, Value, ValueView};

/// The parts of an outline, from the value at `outlines.<name>`: a mapping's
/// values or a sequence's items, in order.
pub open spec fn outline_parts_spec(v: Option<ValueView>) -> Result<Seq<ValueView>, Seq<char>> {
    match v {
        None => Err("missing outlines.<name>"@),
        Some(ValueView::Table(m)) => Ok(m.map_values(|e: (Seq<char>, ValueView)| e.1)),
        Some(ValueView::List(items)) => Ok(items),
        Some(_) => Err("outlines.<name> must be a map or sequence"@),
    }
}

/// The parts of outline `name` of a configuration.
pub fn outline_parts(canonical: &Value, name: &str) -> (r: Result<Vec<Value>, OutlineError>)
    ensures
        match outline_parts_spec(get_path_spec(vview(*canonical), path_segments("outlines."@ + name@))) {
            Ok(ps) => r matches Ok(v) && list_view(v@) == ps,
            Err(m) => r matches Err(OutlineError::Unsupported(e)) && e@ == m,
        },
{
    let mut path = crate::text::chars_of("outlines.");
    crate::jscad::push_str(&mut path, name);
    let p = crate::text::string_of(path.as_slice());
    match canonical.get_path(p.as_str()) {
        None => Err(OutlineError::Unsupported(str_to_string("missing outlines.<name>"))),
        Some(Value::Mapping(m)) => {
            proof {
                crate::value::lemma_table_view(m@);
            }
            let mut out: Vec<Value> = Vec::new();
            let mut i: usize = 0;
            while i < m.len()
                invariant
                    i <= m.len(),
                    out@.len() == i,
                    table_view(m@).len() == m@.len(),
                    forall|q: int| 0 <= q < m@.len() ==> #[trigger] table_view(m@)[q] == (m@[q].0@, vview(m@[q].1)),
                    forall|q: int| 0 <= q < i ==> vview(#[trigger] out@[q]) == vview(m@[q].1),
                decreases m.len() - i,
            {
                out.push(copy_value(&m[i].1));
                i += 1;
            }
            proof {
                crate::value::lemma_list_view(out@);
                assert(list_view(out@) =~= table_view(m@).map_values(|e: (Seq<char>, ValueView)| e.1));
            }
            Ok(out)
        },
        Some(v) => match copy_value(v) {
            Value::Sequence(items) => Ok(items),
            _ => Err(OutlineError::Unsupported(str_to_string("outlines.<name> must be a map or sequence"))),
        },
    }
}

/// What a part of an outline is.
#[derive(Debug)]
pub enum OutlinePart {
    /// A string: another outline, combined by the operation its prefix names.
    Reference { op: OutlineRefOp, name: String },
    /// A mapping that names another outline (`what: outline`, or a `name`
    /// without `what`), with the operation it is combined by.
    Outline { name: String, op: String },
    /// A shape placed on points, with the operation it is combined by.
    Shape { what: String, op: String },
    /// Anything else, which adds nothing.
    Ignored,
}

pub enum OutlinePartView {
    Reference(OutlineRefOp, Seq<char>),
    Outline(Seq<char>, Seq<char>),
    Shape(Seq<char>, Seq<char>),
    Ignored,
}

pub open spec fn part_view(p: OutlinePart) -> OutlinePartView {
    match p {
        OutlinePart::Reference { op, name } => OutlinePartView::Reference(op, name@),
        OutlinePart::Outline { name, op } => OutlinePartView::Outline(name@, op@),
        OutlinePart::Shape { what, op } => OutlinePartView::Shape(what@, op@),
        OutlinePart::Ignored => OutlinePartView::Ignored,
    }
}

/// The text of a string value at key `k`, or `d`.
pub open spec fn text_or(m: Seq<(Seq<char>, ValueView)>, k: Seq<char>, d: Seq<char>) -> Seq<char> {
    match table_get(m, k) {
        Some(ValueView::Text(s)) => s,
        _ => d,
    }
}

/// How an outline part is read, or the message of its error: a mapping
/// that refers to another outline must give its name as a string.
pub open spec fn classify_spec(v: ValueView) -> Result<OutlinePartView, Seq<char>> {
    match v {
        ValueView::Text(s) => Ok(OutlinePartView::Reference(outline_ref(s).0, outline_ref(s).1)),
        ValueView::Table(m) => {
            let what = text_or(m, "what"@, seq![]);
            let op = text_or(m, "operation"@, "add"@);
            if (what.len() == 0 && table_get(m, "name"@) is Some) || what == "outline"@ {
                match table_get(m, "name"@) {
                    None => Err("missing name"@),
                    Some(ValueView::Text(n)) => Ok(OutlinePartView::Outline(n, op)),
                    Some(_) => Err("name must be a string"@),
                }
            } else {
                Ok(OutlinePartView::Shape(what, op))
            }
        },
        _ => Ok(OutlinePartView::Ignored),
    }
}

fn text_or_exec(m: &Vec<(String, Value)>, k: &str, d: &str) -> (r: String)
    ensures
        r@ == text_or(table_view(m@), k@, d@),
{
    match table_lookup(m, k) {
        Some(Value::String(s)) => s.clone(),
        _ => str_to_string(d),
    }
}

/// Reads a part of an outline.
pub fn classify_part(v: &Value) -> (r: Result<OutlinePart, OutlineError>)
    ensures
        match classify_spec(vview(*v)) {
            Ok(p) => r matches Ok(q) && part_view(q) == p,
            Err(m) => r matches Err(OutlineError::Unsupported(e)) && e@ == m,
        },
{
    match v {
        Value::String(s) => {
            let pr = parse_outline_ref(s.as_str());
            assert((pr.0, pr.1@) == outline_ref(s@));
            Ok(OutlinePart::Reference { op: pr.0, name: pr.1 })
        },
        Value::Mapping(m) => {
            proof {
                reveal_strlit("");
            }
            let what = text_or_exec(m, "what", "");
            let op = text_or_exec(m, "operation", "add");
            let wv = crate::text::chars_of(what.as_str());
            let name_v = table_lookup(m, "name");
            if (wv.len() == 0 && name_v.is_some()) || crate::expr::chars_eq(wv.as_slice(), "outline") {
                assert(what@ == text_or(table_view(m@), "what"@, seq![]));
                assert(vview(*v) == ValueView::Table(table_view(m@)));
                assert((what@.len() == 0 && table_get(table_view(m@), "name"@) is Some) || what@ == "outline"@);
                match name_v {
                    None => Err(OutlineError::Unsupported(str_to_string("missing name"))),
                    Some(Value::String(n)) => Ok(OutlinePart::Outline { name: n.clone(), op }),
                    Some(_) => Err(OutlineError::Unsupported(str_to_string("name must be a string"))),
                }
            } else {
                assert(what@ == text_or(table_view(m@), "what"@, seq![]));
                assert(!((what@.len() == 0 && table_get(table_view(m@), "name"@) is Some) || what@ == "outline"@));
                assert(vview(*v) == ValueView::Table(table_view(m@)));
                assert(op@ == text_or(table_view(m@), "operation"@, "add"@));
                assert(classify_spec(vview(*v)) == Ok::<OutlinePartView, Seq<char>>(OutlinePartView::Shape(what@, op@)));
                let r = OutlinePart::Shape { what, op };
                assert(part_view(r) == OutlinePartView::Shape(what@, op@));
                Ok(r)
            }
        },
        _ => Ok(OutlinePart::Ignored),
    }
}

} // verus!

verus! {

/// `s` without the entries equal to `n`.
pub open spec fn without_name(s: Seq<Seq<char>>, n: Seq<char>) -> Seq<Seq<char>>
    decreases s.len(),
{
    if s.len() == 0 {
        seq![]
    } else {
        let r = without_name(s.drop_last(), n);
        if s.last() == n {
            r
        } else {
            r.push(s.last())
        }
    }
}

/// Starts building outline `name` while the outlines in `visiting` are
/// being built: an outline that is already being built refers back to
/// itself, a cycle; otherwise `name` joins the outlines being built.
pub fn enter_outline(visiting: &Vec<String>, name: &str) -> (r: Result<Vec<String>, OutlineError>)
    ensures
        crate::jscad::string_views(visiting@).contains(name@) ==> (r matches Err(
            OutlineError::OutlineCycle { name: n },
        ) && n@ == name@),
        !crate::jscad::string_views(visiting@).contains(name@) ==> (r matches Ok(v)
            && crate::jscad::string_views(v@) == crate::jscad::string_views(visiting@).push(name@)),
{
    let ghost vs = crate::jscad::string_views(visiting@);
    let mut out: Vec<String> = Vec::new();
    let mut i: usize = 0;
    while i < visiting.len()
        invariant
            i <= visiting.len(),
            vs == crate::jscad::string_views(visiting@),
            crate::jscad::string_views(out@) == vs.take(i as int),
            forall|k: int| 0 <= k < i ==> vs[k] != name@,
        decreases visiting.len() - i,
    {
        let c = crate::text::chars_of(visiting[i].as_str());
        if crate::expr::chars_eq(c.as_slice(), name) {
            assert(vs[i as int] == name@);
            return Err(OutlineError::OutlineCycle { name: str_to_string(name) });
        }
        let ghost prev = out@;
        let item = str_to_string(visiting[i].as_str());
        out.push(item);
        assert(out@ == prev.push(item));
        assert(crate::jscad::string_views(prev.push(item)) =~= crate::jscad::string_views(prev).push(item@));
        assert(vs.take(i + 1) =~= vs.take(i as int).push(vs[i as int]));
        assert(crate::jscad::string_views(out@) =~= vs.take(i + 1));
        i += 1;
    }
    assert(vs.take(i as int) =~= vs);
    assert(!vs.contains(name@));
    out.push(str_to_string(name));
    assert(crate::jscad::string_views(out@) =~= vs.push(name@));
    Ok(out)
}

/// Finishes building outline `name`: it leaves the outlines being built.
pub fn leave_outline(visiting: &Vec<String>, name: &str) -> (r: Vec<String>)
    ensures
        crate::jscad::string_views(r@) == without_name(crate::jscad::string_views(visiting@), name@),
{
    let ghost vs = crate::jscad::string_views(visiting@);
    let mut out: Vec<String> = Vec::new();
    let mut i: usize = 0;
    while i < visiting.len()
        invariant
            i <= visiting.len(),
            vs == crate::jscad::string_views(visiting@),
            crate::jscad::string_views(out@) == without_name(vs.take(i as int), name@),
        decreases visiting.len() - i,
    {
        assert(vs.take(i + 1).drop_last() =~= vs.take(i as int));
        let c = crate::text::chars_of(visiting[i].as_str());
        if !crate::expr::chars_eq(c.as_slice(), name) {
            out.push(str_to_string(visiting[i].as_str()));
            assert(crate::jscad::string_views(out@) =~= without_name(vs.take(i as int), name@).push(vs[i as int]));
        }
        i += 1;
    }
    assert(vs.take(i as int) =~= vs);
    out
}

proof fn lemma_without_absent(s: Seq<Seq<char>>, n: Seq<char>)
    requires
        !s.contains(n),
    ensures
        without_name(s, n) == s,
    decreases s.len(),
{
    if s.len() > 0 {
        assert(!s.drop_last().contains(n)) by {
            if s.drop_last().contains(n) {
                let k = choose|k: int| 0 <= k < s.drop_last().len() && s.drop_last()[k] == n;
                assert(s[k] == n);
            }
        }
        lemma_without_absent(s.drop_last(), n);
        assert(s[s.len() - 1] == s.last());
        assert(s.drop_last().push(s.last()) =~= s);
    }
}

/// Leaving an outline undoes entering it: the outlines being built are
/// those before.
pub proof fn law_leave_undoes_enter(visiting: Seq<Seq<char>>, name: Seq<char>)
    requires
        !visiting.contains(name),
    ensures
        without_name(visiting.push(name), name) == visiting,
{
    lemma_without_absent(visiting, name);
    assert(visiting.push(name).drop_last() =~= visiting);
}

} // verus!

verus! {

/// What a shape's `where` places it on.
#[derive(Debug)]
pub enum WhereSelection {
    /// The points at these indices, in order.
    Points(Vec<usize>),
    /// One placement at the origin.
    Origin,
    /// A placement at the anchor the `where` value describes.
    Anchor,
}

pub open spec fn pair_names(ps: Seq<(String, bool)>) -> Seq<Seq<char>> {
    ps.map_values(|p: (String, bool)| p.0@)
}

pub open spec fn pair_flags(ps: Seq<(String, bool)>) -> Seq<bool> {
    ps.map_values(|p: (String, bool)| p.1)
}

/// Decides what a shape's `where` places it on, given the points (name,
/// whether it is a mirror image) in order: `true` selects every point on
/// the shape's side, a `/pattern/` those whose name it matches, `false`
/// none, no `where` the origin; any other value is an anchor.
pub fn where_selection(where_v: &Value, points: &[(String, bool)], asym: Asym) -> (r: Result<WhereSelection, OutlineError>)
    ensures
        ({
            let names = pair_names(points@);
            let flags = pair_flags(points@);
            let n = points.len() as int;
            match vview(*where_v) {
                ValueView::Bool(true) => r matches Ok(WhereSelection::Points(v)) && v@ == selected(
                    names,
                    flags,
                    asym,
                    None,
                    n,
                ),
                ValueView::Bool(false) => r matches Ok(WhereSelection::Points(v)) && v@.len() == 0,
                ValueView::Null => r matches Ok(WhereSelection::Origin),
                ValueView::Text(s) => if !regex_literal(s) {
                    r matches Ok(WhereSelection::Anchor)
                } else {
                    match literal_pattern(s) {
                        Some(p) => if regex_accepts(p) {
                            r matches Ok(WhereSelection::Points(v)) && v@ == selected(names, flags, asym, Some(p), n)
                        } else {
                            r matches Err(OutlineError::Unsupported(m)) && m@ == "invalid regex"@
                        },
                        None => r matches Err(OutlineError::Unsupported(m)) && m@ == "invalid regex"@,
                    }
                },
                _ => r matches Ok(WhereSelection::Anchor),
            }
        }),
{
    let ghost pv = points@;
    let mut names: Vec<String> = Vec::new();
    let mut flags: Vec<bool> = Vec::new();
    let mut i: usize = 0;
    while i < points.len()
        invariant
            i <= points.len(),
            pv == points@,
            names.len() == i,
            flags.len() == i,
            crate::jscad::string_views(names@) == pair_names(pv).take(i as int),
            flags@ == pair_flags(pv).take(i as int),
        decreases points.len() - i,
    {
        let ghost before = names@;
        let item = str_to_string(points[i].0.as_str());
        names.push(item);
        flags.push(points[i].1);
        assert(names@ == before.push(item));
        assert(crate::jscad::string_views(before.push(item)) =~= crate::jscad::string_views(before).push(item@));
        assert(pair_names(pv).take(i + 1) =~= pair_names(pv).take(i as int).push(pv[i as int].0@));
        assert(flags@ =~= pair_flags(pv).take(i + 1));
        i += 1;
    }
    assert(pair_names(pv).take(i as int) =~= pair_names(pv));
    assert(pair_flags(pv).take(i as int) =~= pair_flags(pv));
    match where_v {
        Value::Bool(true) => Ok(WhereSelection::Points(select_points(&names, &flags, asym, None))),
        Value::Bool(false) => Ok(WhereSelection::Points(Vec::new())),
        Value::Null => Ok(WhereSelection::Origin),
        Value::String(s) => match where_regex(s.as_str()) {
            Ok(Some(re)) => Ok(WhereSelection::Points(select_points(&names, &flags, asym, Some(&re)))),
            Ok(None) => Ok(WhereSelection::Anchor),
            Err(e) => Err(e),
        },
        _ => Ok(WhereSelection::Anchor),
    }
}

} // verus!

verus! {

/// The `asym` of a shape: each source alias names the source side and each
/// clone alias the clone side, whatever the `where`; `both` names both
/// sides; no setting, or another text, gives both sides when `where` is
/// `true` and the source side otherwise.
pub proof fn law_shape_asym_aliases(s: Seq<char>, where_all: bool)
    ensures
        s == "both"@ ==> asym_spec(Some(s), where_all) == Asym::Both,
        crate::layout::source_alias(s) ==> asym_spec(Some(s), where_all) == Asym::Source,
        crate::layout::clone_alias(s) ==> asym_spec(Some(s), where_all) == Asym::Clone,
        s != "both"@ && !crate::layout::source_alias(s) && !crate::layout::clone_alias(s) ==> asym_spec(
            Some(s),
            where_all,
        ) == asym_spec(None, where_all),
        asym_spec(None, where_all) == (if where_all { Asym::Both } else { Asym::Source }),
{
    reveal_strlit("both");
    reveal_strlit("source");
    reveal_strlit("origin");
    reveal_strlit("base");
    reveal_strlit("primary");
    reveal_strlit("left");
    reveal_strlit("clone");
    reveal_strlit("image");
    reveal_strlit("derived");
    reveal_strlit("secondary");
    reveal_strlit("right");
    if s == "both"@ {
        assert(s.len() == 4 && s[0] == 'b' && s[1] == 'o');
    }
    if s == "source"@ {
        assert(s.len() == 6 && s[0] == 's' && s[1] == 'o');
    }
    if s == "origin"@ {
        assert(s.len() == 6 && s[0] == 'o' && s[1] == 'r');
    }
    if s == "base"@ {
        assert(s.len() == 4 && s[0] == 'b' && s[1] == 'a');
    }
    if s == "primary"@ {
        assert(s.len() == 7 && s[0] == 'p' && s[1] == 'r');
    }
    if s == "left"@ {
        assert(s.len() == 4 && s[0] == 'l' && s[1] == 'e');
    }
    if s == "clone"@ {
        assert(s.len() == 5 && s[0] == 'c' && s[1] == 'l');
    }
    if s == "image"@ {
        assert(s.len() == 5 && s[0] == 'i' && s[1] == 'm');
    }
    if s == "derived"@ {
        assert(s.len() == 7 && s[0] == 'd' && s[1] == 'e');
    }
    if s == "secondary"@ {
        assert(s.len() == 9 && s[0] == 's' && s[1] == 'e');
    }
    if s == "right"@ {
        assert(s.len() == 5 && s[0] == 'r' && s[1] == 'i');
    }
}

/// A shape's `asym` and a key's `asym` read the same words the same way:
/// with `where: true` a shape takes the side a key would.
pub proof fn law_shape_and_key_asym_agree(s: Seq<char>)
    ensures
        (asym_spec(Some(s), true) == Asym::Both) == (crate::layout::asym_of(s) == crate::layout::Asymmetry::Both),
        (asym_spec(Some(s), true) == Asym::Source) == (crate::layout::asym_of(s) == crate::layout::Asymmetry::Source),
        (asym_spec(Some(s), true) == Asym::Clone) == (crate::layout::asym_of(s) == crate::layout::Asymmetry::Clone),
{
    crate::layout::law_asym_aliases(s);
    law_shape_asym_aliases(s, true);
}

} // verus!
