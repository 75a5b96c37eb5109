//! The rules of parameterization: which mappings are skipped, dropped or
//! instantiated, and the checks on `$params` and `$args`.
use vstd::prelude::*;
use crate::error::Error;
use crate::expr::str_to_string;
use crate::value::{table_get, table_lookup, table_view, table_remove, list_view, vview, Value, ValueView};

verus! {

/// What parameterization does with a mapping once its children are done.
#[derive(Debug, Clone, Copy, PartialEq, Eq, Structural)]
pub enum ParamStep {
    /// Kept as it is.
    Keep,
    /// Left out of its parent: it has `$skip: true`, or `$params` without
    /// `$args` (a template).
    Omit,
    /// Instantiated: its `$params` replaced by its `$args`.
    Apply,
}

/// The step for a mapping with entries `m`, or the message of its error.
pub open spec fn param_step_spec(m: Seq<(Seq<char>, ValueView)>) -> Result<ParamStep, ()> {
    if table_get(m, "$skip"@) == Some(ValueView::Bool(true)) {
        Ok(ParamStep::Omit)
    } else {
        match (table_get(m, "$params"@), table_get(m, "$args"@)) {
            (None, None) => Ok(ParamStep::Keep),
            (Some(_), None) => Ok(ParamStep::Omit),
            (None, Some(_)) => Err(()),
            (Some(_), Some(_)) => Ok(ParamStep::Apply),
        }
    }
}

/// Decides the step for the mapping at path `at`; `$args` without
/// `$params` is an error.
pub fn param_step(obj: &Vec<(String, Value)>, at: &str) -> (r: Result<ParamStep, Error>)
    ensures
        match param_step_spec(table_view(obj@)) {
            Ok(s) => r == Ok::<ParamStep, Error>(s),
            Err(_) => r matches Err(Error::Parameterize { at: a, message }) && a@ == at@ && message@
                == "found $args but missing $params"@,
        },
{
    if let Some(Value::Bool(true)) = table_lookup(obj, "$skip") {
        return Ok(ParamStep::Omit);
    }
    match (table_lookup(obj, "$params"), table_lookup(obj, "$args")) {
        (None, None) => Ok(ParamStep::Keep),
        (Some(_), None) => Ok(ParamStep::Omit),
        (None, Some(_)) => Err(
            Error::Parameterize {
                at: str_to_string(at),
                message: str_to_string("found $args but missing $params"),
            },
        ),
        (Some(_), Some(_)) => Ok(ParamStep::Apply),
    }
}

/// The texts of a sequence of values if all are strings.
pub open spec fn all_strings(s: Seq<ValueView>) -> bool {
    forall|i: int| 0 <= i < s.len() ==> #[trigger] s[i] is Text
}

/// The first check on `$params` and `$args` that fails.
pub enum ParamsCheck {
    Passed,
    ParamsNotList,
    ArgsNotList,
    LengthsDiffer,
    ParamNotString,
}

pub open spec fn params_failure(params: ValueView, args: ValueView) -> ParamsCheck {
    match (params, args) {
        (ValueView::List(ps), ValueView::List(xs)) => if ps.len() != xs.len() {
            ParamsCheck::LengthsDiffer
        } else if !all_strings(ps) {
            ParamsCheck::ParamNotString
        } else {
            ParamsCheck::Passed
        },
        (ValueView::List(_), _) => ParamsCheck::ArgsNotList,
        _ => ParamsCheck::ParamsNotList,
    }
}

/// Checks the `$params` and `$args` of the mapping at `at` and returns the
/// parameter names and the arguments, in order.
pub fn check_params(at: &str, params: &Value, args: &Value) -> (r: Result<(Vec<String>, Vec<Value>), Error>)
    ensures
        match params_failure(vview(*params), vview(*args)) {
            ParamsCheck::Passed => r matches Ok((names, vals)) && vview(*params) == ValueView::List(
                names@.map_values(|s: String| ValueView::Text(s@)),
            ) && vview(*args) == ValueView::List(list_view(vals@)),
            ParamsCheck::ParamsNotList => r matches Err(Error::Parameterize { at: a, message }) && a@ == at@ + ".$params"@
                && message@ == "$params must be an array of strings"@,
            ParamsCheck::ArgsNotList => r matches Err(Error::Parameterize { at: a, message }) && a@ == at@ + ".$args"@
                && message@ == "$args must be an array"@,
            ParamsCheck::LengthsDiffer => r matches Err(Error::Parameterize { at: a, message }) && a@ == at@ && message@
                == "the number of $params and $args doesn't match"@,
            ParamsCheck::ParamNotString => r matches Err(Error::Parameterize { at: a, message }) && a@ == at@
                + ".$params"@ && message@ == "$params must contain strings"@,
        },
{
    let ps = match params {
        Value::Sequence(ps) => ps,
        _ => {
            return Err(Error::Parameterize { at: suffixed(at, ".$params"), message: str_to_string("$params must be an array of strings") });
        },
    };
    let xs = match args {
        Value::Sequence(xs) => xs,
        _ => {
            return Err(Error::Parameterize { at: suffixed(at, ".$args"), message: str_to_string("$args must be an array") });
        },
    };
    proof {
        crate::value::lemma_list_view(ps@);
        crate::value::lemma_list_view(xs@);
    }
    if ps.len() != xs.len() {
        return Err(Error::Parameterize { at: str_to_string(at), message: str_to_string("the number of $params and $args doesn't match") });
    }
    let mut names: Vec<String> = Vec::new();
    let mut i: usize = 0;
    while i < ps.len()
        invariant
            i <= ps.len(),
            *params == Value::Sequence(*ps),
            *args == Value::Sequence(*xs),
            ps@.len() == xs@.len(),
            list_view(xs@).len() == xs@.len(),
            list_view(ps@).len() == ps@.len(),
            forall|q: int| 0 <= q < ps@.len() ==> #[trigger] list_view(ps@)[q] == vview(ps@[q]),
            names@.len() == i,
            forall|q: int| 0 <= q < i ==> vview(ps@[q]) == ValueView::Text(#[trigger] names@[q]@),
        decreases ps.len() - i,
    {
        match &ps[i] {
            Value::String(s) => {
                names.push(s.clone());
            },
            _ => {
                assert(!(list_view(ps@)[i as int] is Text));
                assert(!all_strings(list_view(ps@)));
                return Err(Error::Parameterize { at: suffixed(at, ".$params"), message: str_to_string("$params must contain strings") });
            },
        }
        i += 1;
    }
    assert(list_view(ps@) =~= names@.map_values(|s: String| ValueView::Text(s@)));
    let vals = match crate::value::copy_value(args) {
        Value::Sequence(v) => v,
        _ => Vec::new(),
    };
    Ok((names, vals))
}

fn suffixed(at: &str, suffix: &str) -> (r: String)
    ensures
        r@ == at@ + suffix@,
{
    let mut v = crate::text::chars_of(at);
    crate::jscad::push_str(&mut v, suffix);
    crate::text::string_of(v.as_slice())
}

/// An instantiated mapping without its `$params`, `$args` and `$skip`;
/// any other value as it is.
pub open spec fn strip_params_spec(v: ValueView) -> ValueView {
    match v {
        ValueView::Table(m) => ValueView::Table(
            table_remove(table_remove(table_remove(m, "$params"@), "$args"@), "$skip"@),
        ),
        _ => v,
    }
}

/// Removes the parameterization keys from an instantiated value.
pub fn strip_params(v: Value) -> (r: Value)
    ensures
        vview(r) == strip_params_spec(vview(v)),
{
    match v {
        Value::Mapping(m) => {
            proof {
                crate::value::lemma_table_view(m@);
            }
            let k1 = str_to_string("$params");
            let k2 = str_to_string("$args");
            let k3 = str_to_string("$skip");
            let m1 = crate::value::table_remove_exec(&m, &k1);
            let m2 = crate::value::table_remove_exec(&m1, &k2);
            let m3 = crate::value::table_remove_exec(&m2, &k3);
            Value::Mapping(m3)
        },
        other => other,
    }
}

} // verus!

verus! {

/// The text after the first `n` replacements of `substitute_params`: each
/// parameter name, read as a regular expression, replaced by its argument
/// text in turn; or the error for the first name the regex crate rejects.
pub open spec fn substitute_spec(
    at: Seq<char>,
    text: Seq<char>,
    names: Seq<Seq<char>>,
    args: Seq<Seq<char>>,
    n: int,
) -> Result<Seq<char>, (Seq<char>, Seq<char>)>
    decreases n,
{
    if n <= 0 {
        Ok(text)
    } else {
        match substitute_spec(at, text, names, args, n - 1) {
            Err(e) => Err(e),
            Ok(t) => if crate::outline::regex_accepts(names[n - 1]) {
                Ok(crate::outline::regex_replace(names[n - 1], t, args[n - 1]))
            } else {
                Err((
                    at + ".$params"@,
                    "invalid regex \""@ + names[n - 1] + "\": "@ + crate::outline::regex_error_text(names[n - 1]),
                ))
            },
        }
    }
}

/// Whether `r` is the outcome `spec` describes.
pub open spec fn substitute_outcome(r: Result<String, Error>, spec: Result<Seq<char>, (Seq<char>, Seq<char>)>) -> bool {
    match spec {
        Ok(t) => r matches Ok(s) && s@ == t,
        Err(e) => r matches Err(Error::Parameterize { at: a, message: m }) && a@ == e.0 && m@ == e.1,
    }
}

/// Instantiates a parameterized mapping's text: every match of each
/// parameter name (a regular expression) is replaced by the matching
/// argument's text, name by name, as far as both lists go.
pub fn substitute_params(at: &str, text: &str, names: &[String], args: &[String]) -> (r: Result<String, Error>)
    ensures
        substitute_outcome(
            r,
            substitute_spec(
                at@,
                text@,
                crate::jscad::string_views(names@),
                crate::jscad::string_views(args@),
                if names.len() < args.len() { names.len() as int } else { args.len() as int },
            ),
        ),
{
    let ghost nv = crate::jscad::string_views(names@);
    let ghost av = crate::jscad::string_views(args@);
    let n = if names.len() < args.len() { names.len() } else { args.len() };
    let mut cur = str_to_string(text);
    let mut i: usize = 0;
    while i < n
        invariant
            i <= n,
            n == (if names.len() < args.len() { names.len() } else { args.len() }),
            n <= names.len(),
            n <= args.len(),
            nv == crate::jscad::string_views(names@),
            av == crate::jscad::string_views(args@),
            substitute_spec(at@, text@, nv, av, i as int) == Ok::<Seq<char>, (Seq<char>, Seq<char>)>(cur@),
        decreases n - i,
    {
        assert(nv[i as int] == names@[i as int]@);
        assert(av[i as int] == args@[i as int]@);
        match crate::outline::compile_regex(names[i].as_str()) {
            Ok(re) => {
                cur = crate::outline::regex_replace_all(&re, cur.as_str(), args[i].as_str());
            },
            Err(e) => {
                let mut a: Vec<char> = crate::text::chars_of(at);
                crate::jscad::push_str(&mut a, ".$params");
                let mut m: Vec<char> = crate::text::chars_of("invalid regex \"");
                crate::jscad::push_str(&mut m, names[i].as_str());
                crate::jscad::push_str(&mut m, "\": ");
                crate::jscad::push_str(&mut m, e.as_str());
                proof {
                    assert(a@ == at@ + ".$params"@);
                    assert(m@ == "invalid regex \""@ + nv[i as int] + "\": "@ + crate::outline::regex_error_text(nv[i as int]));
                    assert(substitute_spec(at@, text@, nv, av, i as int + 1) == Err::<Seq<char>, (Seq<char>, Seq<char>)>((a@, m@)));
                    lemma_substitute_err(at@, text@, nv, av, i as int + 1, n as int);
                }
                let a2 = crate::text::string_of(a.as_slice());
                let m2 = crate::text::string_of(m.as_slice());
                return Err(Error::Parameterize { at: a2, message: m2 });
            },
        }
        i += 1;
    }
    Ok(cur)
}

proof fn lemma_substitute_err(
    at: Seq<char>,
    text: Seq<char>,
    names: Seq<Seq<char>>,
    args: Seq<Seq<char>>,
    k: int,
    n: int,
)
    requires
        0 < k <= n,
        substitute_spec(at, text, names, args, k) is Err,
    ensures
        substitute_spec(at, text, names, args, n) == substitute_spec(at, text, names, args, k),
    decreases n - k,
{
    if n > k {
        lemma_substitute_err(at, text, names, args, k, n - 1);
    }
}

} // verus!
