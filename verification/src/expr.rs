use vstd::prelude::*;
use crate::text::{alnum, alpha, chars_of, digit, is_alnum, is_alpha, is_digit, is_ws, lemma_run_len, lemma_run_len_bound, run_len, string_of, whitespace};
use vstd::string::StringSliceAdditionalSpecFns;

verus! {

/// Characters that may start an identifier in an expression.
pub open spec fn ident_start(c: char) -> bool {
    is_alpha(c) || c == '_' || c == '$'
}

/// Characters that may continue an identifier.
pub open spec fn ident_continue(c: char) -> bool {
    is_alnum(c) || c == '_' || c == '$'
}

/// Characters of a numeric literal.
pub open spec fn number_char(c: char) -> bool {
    is_digit(c) || c == '.'
}

pub fn is_ident_start(c: char) -> (b: bool)
    ensures
        b == ident_start(c),
{
    alpha(c) || c == '_' || c == '$'
}

pub fn is_ident_continue(c: char) -> (b: bool)
    ensures
        b == ident_continue(c),
{
    alnum(c) || c == '_' || c == '$'
}

/// Whether two character sequences are equal.
pub fn chars_eq(a: &[char], b: &str) -> (r: bool)
    ensures
        r == (a@ == b@),
{
    let bv = chars_of(b);
    if a.len() != bv.len() {
        return false;
    }
    let mut i: usize = 0;
    while i < a.len()
        invariant
            a@.len() == bv@.len(),
            bv@ == b@,
            i <= a.len(),
            forall|k: int| 0 <= k < i ==> a@[k] == bv@[k],
        decreases a.len() - i,
    {
        if a[i] != bv[i] {
            return false;
        }
        i += 1;
    }
    assert(a@ =~= bv@);
    true
}

/// Names that the evaluator knows as functions.
pub open spec fn known_function(name: Seq<char>) -> bool {
    ||| name == "sqrt"@
    ||| name == "sin"@
    ||| name == "cos"@
    ||| name == "tan"@
    ||| name == "asin"@
    ||| name == "acos"@
    ||| name == "atan"@
    ||| name == "abs"@
    ||| name == "floor"@
    ||| name == "ceil"@
    ||| name == "round"@
}

pub fn is_known_function(name: &[char]) -> (b: bool)
    ensures
        b == known_function(name@),
{
    chars_eq(name, "sqrt") || chars_eq(name, "sin") || chars_eq(name, "cos") || chars_eq(
        name,
        "tan",
    ) || chars_eq(name, "asin") || chars_eq(name, "acos") || chars_eq(name, "atan") || chars_eq(
        name,
        "abs",
    ) || chars_eq(name, "floor") || chars_eq(name, "ceil") || chars_eq(name, "round")
}

/// Constants the evaluator provides without a variable of that name.
pub open spec fn builtin_constant(ident: Seq<char>) -> bool {
    ident == "pi"@ || ident == "e"@
}

pub fn is_allowed_builtin_constant(ident: &str) -> (b: bool)
    ensures
        b == builtin_constant(ident@),
{
    let v = chars_of(ident);
    chars_eq(v.as_slice(), "pi") || chars_eq(v.as_slice(), "e")
}

/// Token classes of the implicit-multiplication pass.
#[derive(Clone, Copy, Debug, PartialEq, Eq, Structural)]
pub enum Tok {
    Number,
    Ident,
    LParen,
    RParen,
    Other,
}

pub open spec fn token_kind(c: char) -> Tok {
    if number_char(c) {
        Tok::Number
    } else if ident_start(c) {
        Tok::Ident
    } else if c == '(' {
        Tok::LParen
    } else if c == ')' {
        Tok::RParen
    } else {
        Tok::Other
    }
}

/// Length of the token at the start of `s` (whose first character is not
/// whitespace): a maximal run of digits and dots, an identifier, or one
/// character.
pub open spec fn token_len(s: Seq<char>) -> nat {
    if s.len() == 0 {
        0
    } else if number_char(s[0]) {
        run_len(s, |c: char| number_char(c))
    } else if ident_start(s[0]) {
        1 + run_len(s.drop_first(), |c: char| ident_continue(c))
    } else {
        1
    }
}

pub proof fn lemma_token_len(s: Seq<char>)
    requires
        s.len() > 0,
    ensures
        1 <= token_len(s) <= s.len(),
{
    lemma_run_len_bound(s, |c: char| number_char(c));
    lemma_run_len_bound(s.drop_first(), |c: char| ident_continue(c));
    if number_char(s[0]) {
        assert(run_len(s, |c: char| number_char(c)) == 1 + run_len(
            s.drop_first(),
            |c: char| number_char(c),
        ));
    }
}

/// Text emitted for a token: a leading-dot number gains a `0`.
pub open spec fn token_text(t: Seq<char>) -> Seq<char> {
    if t.len() > 0 && t[0] == '.' {
        seq!['0'] + t
    } else {
        t
    }
}

/// Whether a `*` goes between the previous token and this one.
pub open spec fn needs_mul(prev: Option<Tok>, tok: Tok, prev_is_fn: bool) -> bool {
    match (prev, tok) {
        (Some(Tok::Number), Tok::Ident) | (Some(Tok::Number), Tok::Number) => true,
        (Some(Tok::Ident), Tok::Ident) | (Some(Tok::Ident), Tok::Number) => true,
        (Some(Tok::RParen), Tok::Ident) | (Some(Tok::RParen), Tok::Number) => true,
        (Some(Tok::Number), Tok::LParen) | (Some(Tok::RParen), Tok::LParen) => true,
        (Some(Tok::Ident), Tok::LParen) => !prev_is_fn,
        _ => false,
    }
}

/// The expression `s` with a `*` written between adjacent operands
/// (`2u`, `2(`, `)(`, `u v`, `u(` for a non-function `u`), after the
/// previous token `prev`.
pub open spec fn implicit_mul(s: Seq<char>, prev: Option<Tok>, prev_is_fn: bool) -> Seq<char>
    decreases s.len(),
{
    if s.len() == 0 {
        seq![]
    } else if is_ws(s[0]) {
        seq![s[0]] + implicit_mul(s.drop_first(), prev, prev_is_fn)
    } else {
        let n = token_len(s);
        let tok = token_kind(s[0]);
        let t = s.take(n as int);
        proof {
            lemma_token_len(s);
        }
        (if needs_mul(prev, tok, prev_is_fn) {
            seq!['*']
        } else {
            seq![]
        }) + token_text(t) + implicit_mul(
            s.skip(n as int),
            Some(tok),
            tok == Tok::Ident && known_function(t),
        )
    }
}

/// `s` with every `*` left out.
pub open spec fn without_stars(s: Seq<char>) -> Seq<char>
    decreases s.len(),
{
    if s.len() == 0 {
        seq![]
    } else if s[0] == '*' {
        without_stars(s.drop_first())
    } else {
        seq![s[0]] + without_stars(s.drop_first())
    }
}

proof fn lemma_without_stars_concat(a: Seq<char>, b: Seq<char>)
    ensures
        without_stars(a + b) == without_stars(a) + without_stars(b),
    decreases a.len(),
{
    if a.len() == 0 {
        assert(a + b =~= b);
        assert(without_stars(a) + without_stars(b) =~= without_stars(b));
    } else {
        lemma_without_stars_concat(a.drop_first(), b);
        assert((a + b).drop_first() =~= a.drop_first() + b);
        assert((a + b)[0] == a[0]);
        if a[0] != '*' {
            assert(seq![a[0]] + (without_stars(a.drop_first()) + without_stars(b)) =~= seq![a[0]]
                + without_stars(a.drop_first()) + without_stars(b));
        }
    }
}

/// No token of `s` (as the implicit-multiplication pass splits it) starts
/// with a `.`.
pub open spec fn no_dot_tokens(s: Seq<char>) -> bool
    decreases s.len(),
{
    if s.len() == 0 {
        true
    } else if is_ws(s[0]) {
        no_dot_tokens(s.drop_first())
    } else {
        proof {
            lemma_token_len(s);
        }
        s[0] != '.' && no_dot_tokens(s.skip(token_len(s) as int))
    }
}

/// The implicit-multiplication pass only inserts `*`: with every `*` left
/// out, its output is its input (for input in which no number starts with
/// a `.`, which the pass writes with a leading `0`).
pub proof fn law_implicit_mul_only_inserts_stars(s: Seq<char>, prev: Option<Tok>, prev_is_fn: bool)
    requires
        no_dot_tokens(s),
    ensures
        without_stars(implicit_mul(s, prev, prev_is_fn)) == without_stars(s),
    decreases s.len(),
{
    if s.len() > 0 {
        if is_ws(s[0]) {
            let r = s.drop_first();
            law_implicit_mul_only_inserts_stars(r, prev, prev_is_fn);
            lemma_without_stars_concat(seq![s[0]], implicit_mul(r, prev, prev_is_fn));
            lemma_without_stars_concat(seq![s[0]], r);
            assert(seq![s[0]] + r =~= s);
        } else {
            lemma_token_len(s);
            let n = token_len(s) as int;
            let tok = token_kind(s[0]);
            let t = s.take(n);
            let r = s.skip(n);
            assert(token_text(t) == t);
            let next_fn = tok == Tok::Ident && known_function(t);
            law_implicit_mul_only_inserts_stars(r, Some(tok), next_fn);
            let star = if needs_mul(prev, tok, prev_is_fn) { seq!['*'] } else { seq![] };
            assert(implicit_mul(s, prev, prev_is_fn) == star + token_text(t) + implicit_mul(r, Some(tok), next_fn));
            lemma_without_stars_concat(star + t, implicit_mul(r, Some(tok), next_fn));
            lemma_without_stars_concat(star, t);
            lemma_without_stars_concat(t, r);
            assert(without_stars(star) =~= seq![]) by {
                if star.len() > 0 {
                    assert(star.drop_first() =~= Seq::<char>::empty());
                    assert(without_stars(star.drop_first()) == Seq::<char>::empty());
                }
            }
            assert(seq![] + without_stars(t) =~= without_stars(t));
            assert(t + r =~= s);
        }
    }
}

/// A call of a known function gets no `*` between the name and its `(`:
/// the name and the parenthesis pass through as they are, and the rest of
/// the expression follows the parenthesis.
pub proof fn law_known_call_kept(
    name: Seq<char>,
    rest: Seq<char>,
    prev: Option<Tok>,
    prev_is_fn: bool,
)
    requires
        known_function(name),
    ensures
        implicit_mul(name + seq!['('] + rest, prev, prev_is_fn) == (if needs_mul(prev, Tok::Ident, prev_is_fn) {
            seq!['*']
        } else {
            seq![]
        }) + name + seq!['('] + implicit_mul(rest, Some(Tok::LParen), false),
{
    let s = name + seq!['('] + rest;
    let n = name.len() as int;
    reveal_strlit("sqrt");
    reveal_strlit("sin");
    reveal_strlit("cos");
    reveal_strlit("tan");
    reveal_strlit("asin");
    reveal_strlit("acos");
    reveal_strlit("atan");
    reveal_strlit("abs");
    reveal_strlit("floor");
    reveal_strlit("ceil");
    reveal_strlit("round");
    assert(s[0] == name[0]);
    assert(ident_start(name[0]) && !number_char(name[0]) && !is_ws(name[0]));
    assert(forall|i: int| 0 < i < n ==> ident_continue(#[trigger] name[i]));
    let d = s.drop_first();
    assert forall|i: int| 0 <= i < n - 1 implies ident_continue(#[trigger] d[i]) by {
        assert(d[i] == name[i + 1]);
    }
    assert(d[n - 1] == '(');
    lemma_run_len(d, |c: char| ident_continue(c), n - 1);
    assert(token_len(s) == n);
    assert(s.take(n) =~= name);
    assert(token_text(name) == name);
    let r = s.skip(n);
    assert(r =~= seq!['('] + rest);
    assert(r[0] == '(');
    assert(token_len(r) == 1);
    assert(token_kind(r[0]) == Tok::LParen);
    assert(!needs_mul(Some(Tok::Ident), Tok::LParen, true));
    assert(r.take(1) =~= seq!['(']);
    assert(token_text(seq!['(']) == seq!['(']);
    assert(r.skip(1) =~= rest);
    assert(implicit_mul(r, Some(Tok::Ident), true) == seq!['('] + implicit_mul(rest, Some(Tok::LParen), false));
}

/// Every function the evaluator provides (`sqrt`, `sin`, `cos`, `tan`,
/// `asin`, `acos`, `atan`, `abs`, `floor`, `ceil`, `round`) is a known
/// function, so a call of it at the start of an expression keeps its name
/// and parenthesis together, with no `*` put between them.
pub proof fn law_evaluator_functions_are_calls(name: Seq<char>, rest: Seq<char>)
    requires
        name == "sqrt"@ || name == "sin"@ || name == "cos"@ || name == "tan"@ || name == "asin"@
            || name == "acos"@ || name == "atan"@ || name == "abs"@ || name == "floor"@ || name
            == "ceil"@ || name == "round"@,
    ensures
        known_function(name),
        implicit_mul(name + seq!['('] + rest, None, false) == name + seq!['('] + implicit_mul(
            rest,
            Some(Tok::LParen),
            false,
        ),
{
    law_known_call_kept(name, rest, None, false);
    assert(seq![] + name + seq!['('] + implicit_mul(rest, Some(Tok::LParen), false) =~= name + seq!['(']
        + implicit_mul(rest, Some(Tok::LParen), false));
}

/// Only the evaluator's functions are known functions: any other name
/// followed by `(` is a variable times a parenthesis.
pub proof fn law_known_functions_are_evaluator_functions(name: Seq<char>)
    requires
        known_function(name),
    ensures
        name == "sqrt"@ || name == "sin"@ || name == "cos"@ || name == "tan"@ || name == "asin"@
            || name == "acos"@ || name == "atan"@ || name == "abs"@ || name == "floor"@ || name
            == "ceil"@ || name == "round"@,
{
}

fn needs_mul_exec(prev: Option<Tok>, tok: Tok, prev_is_fn: bool) -> (b: bool)
    ensures
        b == needs_mul(prev, tok, prev_is_fn),
{
    match (prev, tok) {
        (Some(Tok::Number), Tok::Ident) | (Some(Tok::Number), Tok::Number) => true,
        (Some(Tok::Ident), Tok::Ident) | (Some(Tok::Ident), Tok::Number) => true,
        (Some(Tok::RParen), Tok::Ident) | (Some(Tok::RParen), Tok::Number) => true,
        (Some(Tok::Number), Tok::LParen) | (Some(Tok::RParen), Tok::LParen) => true,
        (Some(Tok::Ident), Tok::LParen) => !prev_is_fn,
        _ => false,
    }
}

/// End of the run of `class` characters that starts at `start`.
fn scan_number(chars: &Vec<char>, start: usize) -> (end: usize)
    requires
        start < chars.len(),
        number_char(chars@[start as int]),
    ensures
        start < end <= chars.len(),
        token_len(chars@.skip(start as int)) == end - start,
        token_kind(chars@[start as int]) == Tok::Number,
{
    let ghost s = chars@;
    let ghost rest = s.skip(start as int);
    let mut i = start + 1;
    while i < chars.len() && (digit(chars[i]) || chars[i] == '.')
        invariant
            chars@ == s,
            start < i <= chars.len(),
            forall|k: int| start <= k < i ==> number_char(#[trigger] s[k]),
        decreases chars.len() - i,
    {
        i += 1;
    }
    proof {
        assert forall|k: int| 0 <= k < i - start implies number_char(#[trigger] rest[k]) by {
            assert(rest[k] == s[start + k]);
        }
        if i < chars.len() {
            assert(rest[i - start] == s[i as int]);
        }
        lemma_run_len(rest, |c: char| number_char(c), i - start);
    }
    i
}

fn scan_ident(chars: &Vec<char>, start: usize) -> (end: usize)
    requires
        start < chars.len(),
        ident_start(chars@[start as int]),
        !number_char(chars@[start as int]),
    ensures
        start < end <= chars.len(),
        token_len(chars@.skip(start as int)) == end - start,
        token_kind(chars@[start as int]) == Tok::Ident,
{
    let ghost s = chars@;
    let ghost rest = s.skip(start as int);
    let mut i = start + 1;
    while i < chars.len() && is_ident_continue(chars[i])
        invariant
            chars@ == s,
            start < i <= chars.len(),
            forall|k: int| start < k < i ==> ident_continue(#[trigger] s[k]),
        decreases chars.len() - i,
    {
        i += 1;
    }
    proof {
        let r1 = rest.drop_first();
        assert forall|k: int| 0 <= k < i - start - 1 implies ident_continue(#[trigger] r1[k]) by {
            assert(r1[k] == s[start + 1 + k]);
        }
        if i < chars.len() {
            assert(r1[i - start - 1] == s[i as int]);
        }
        lemma_run_len(r1, |c: char| ident_continue(c), i - start - 1);
    }
    i
}

/// Appends the text of the token `chars[start..end]`.
fn push_token(out: &mut Vec<char>, chars: &Vec<char>, start: usize, end: usize)
    requires
        start < end <= chars.len(),
    ensures
        final(out)@ == old(out)@ + token_text(chars@.subrange(start as int, end as int)),
{
    let ghost s = chars@;
    let ghost mid = out@;
    if chars[start] == '.' {
        out.push('0');
    }
    let mut k = start;
    while k < end
        invariant
            chars@ == s,
            start <= k <= end <= chars.len(),
            out@ == mid + (if s[start as int] == '.' {
                seq!['0']
            } else {
                seq![]
            }) + s.subrange(start as int, k as int),
        decreases end - k,
    {
        out.push(chars[k]);
        assert(s.subrange(start as int, k + 1) =~= s.subrange(start as int, k as int).push(
            s[k as int],
        ));
        k += 1;
    }
    assert(out@ =~= mid + token_text(s.subrange(start as int, end as int)));
}

/// Makes implicit multiplication explicit (`2u` becomes `2*u`) and writes
/// `.5` as `0.5`, the forms the evaluator accepts.
pub fn insert_implicit_multiplication(expr: &str) -> (out: String)
    ensures
        out@ == implicit_mul(expr@, None, false),
{
    let chars = chars_of(expr);
    let ghost s = expr@;
    let mut out: Vec<char> = Vec::new();
    let mut i: usize = 0;
    let mut prev: Option<Tok> = None;
    let mut prev_is_fn = false;
    assert(s.skip(0) =~= s);
    assert(out@ + implicit_mul(s.skip(0), prev, prev_is_fn) =~= implicit_mul(s, None, false));
    while i < chars.len()
        invariant
            chars@ == s,
            i <= chars.len(),
            implicit_mul(s, None, false) == out@ + implicit_mul(s.skip(i as int), prev, prev_is_fn),
        decreases chars.len() - i,
    {
        let c = chars[i];
        let ghost rest = s.skip(i as int);
        assert(rest[0] == c);
        if whitespace(c) {
            out.push(c);
            assert(rest.drop_first() =~= s.skip(i + 1));
            i += 1;
            continue;
        }
        let start = i;
        let tok: Tok;
        if digit(c) || c == '.' {
            tok = Tok::Number;
            i = scan_number(&chars, start);
        } else if is_ident_start(c) {
            tok = Tok::Ident;
            i = scan_ident(&chars, start);
        } else {
            tok = if c == '(' {
                Tok::LParen
            } else if c == ')' {
                Tok::RParen
            } else {
                Tok::Other
            };
            i += 1;
        }
        let ghost t = rest.take(i - start);
        assert(t =~= s.subrange(start as int, i as int));
        assert(token_len(rest) == i - start);
        assert(token_kind(c) == tok);
        let ghost before = out@;
        if needs_mul_exec(prev, tok, prev_is_fn) {
            out.push('*');
        }
        push_token(&mut out, &chars, start, i);
        let is_fn = if tok == Tok::Ident {
            is_known_function(&chars.as_slice()[start..i])
        } else {
            false
        };
        proof {
            assert(chars@.subrange(start as int, i as int) == t);
            assert(rest.skip(i - start) =~= s.skip(i as int));
            assert(out@ =~= before + (if needs_mul(prev, tok, prev_is_fn) {
                seq!['*']
            } else {
                seq![]
            }) + token_text(t));
        }
        prev = Some(tok);
        prev_is_fn = is_fn;
    }
    assert(s.skip(chars.len() as int) =~= Seq::<char>::empty());
    assert(out@ =~= implicit_mul(s, None, false));
    string_of(out.as_slice())
}

} // verus!

verus! {

/// The lower-case hexadecimal digits.
pub open spec fn hex_digit(d: nat) -> char {
    seq!['0', '1', '2', '3', '4', '5', '6', '7', '8', '9', 'a', 'b', 'c', 'd', 'e', 'f'][d as int]
}

/// `n` in lower-case hexadecimal without leading zeros (`{:x}`).
pub open spec fn hex_lower(n: nat) -> Seq<char>
    decreases n,
{
    if n < 16 {
        seq![hex_digit(n)]
    } else {
        hex_lower(n / 16) + seq![hex_digit(n % 16)]
    }
}

fn push_hex(out: &mut Vec<char>, n: u32)
    ensures
        final(out)@ == old(out)@ + hex_lower(n as nat),
    decreases n,
{
    let digits = ['0', '1', '2', '3', '4', '5', '6', '7', '8', '9', 'a', 'b', 'c', 'd', 'e', 'f'];
    assert(digits@ == seq!['0', '1', '2', '3', '4', '5', '6', '7', '8', '9', 'a', 'b', 'c', 'd', 'e', 'f']);
    if n >= 16 {
        push_hex(out, n / 16);
    }
    out.push(digits[(n % 16) as usize]);
    assert(out@ =~= old(out)@ + hex_lower(n as nat));
}

/// The characters a sanitized identifier keeps as they are.
pub open spec fn ident_safe(c: char) -> bool {
    is_alnum(c) || c == '_'
}

/// The sanitized form of each character: kept, or `_<hex code>_`.
pub open spec fn sanitize_tail(s: Seq<char>) -> Seq<char>
    decreases s.len(),
{
    if s.len() == 0 {
        seq![]
    } else {
        let c = s[0];
        (if ident_safe(c) {
            seq![c]
        } else {
            seq!['_'] + hex_lower(c as u32 as nat) + seq!['_']
        }) + sanitize_tail(s.drop_first())
    }
}

/// A variable name the evaluator accepts for `raw`: `v_` followed by the
/// characters of `raw`, each one that is not alphanumeric or `_` written as
/// its code in hexadecimal between underscores.
pub open spec fn sanitized(raw: Seq<char>) -> Seq<char> {
    seq!['v', '_'] + sanitize_tail(raw)
}

proof fn lemma_sanitize_tail_push(s: Seq<char>, c: char)
    ensures
        sanitize_tail(s.push(c)) == sanitize_tail(s) + (if ident_safe(c) {
            seq![c]
        } else {
            seq!['_'] + hex_lower(c as u32 as nat) + seq!['_']
        }),
    decreases s.len(),
{
    if s.len() == 0 {
        assert(s.push(c).drop_first() =~= Seq::<char>::empty());
        assert(sanitize_tail(Seq::<char>::empty()) == Seq::<char>::empty());
    } else {
        assert(s.push(c).drop_first() =~= s.drop_first().push(c));
        lemma_sanitize_tail_push(s.drop_first(), c);
    }
}

fn sanitize_chars(raw: &[char]) -> (out: Vec<char>)
    ensures
        out@ == sanitized(raw@),
{
    let mut out: Vec<char> = Vec::new();
    out.push('v');
    out.push('_');
    let mut i: usize = 0;
    while i < raw.len()
        invariant
            i <= raw.len(),
            out@ == seq!['v', '_'] + sanitize_tail(raw@.take(i as int)),
        decreases raw.len() - i,
    {
        let c = raw[i];
        proof {
            assert(raw@.take(i + 1) =~= raw@.take(i as int).push(c));
            lemma_sanitize_tail_push(raw@.take(i as int), c);
        }
        if alnum(c) || c == '_' {
            out.push(c);
        } else {
            out.push('_');
            push_hex(&mut out, c as u32);
            out.push('_');
        }
        assert(out@ =~= seq!['v', '_'] + sanitize_tail(raw@.take(i + 1)));
        i += 1;
    }
    assert(raw@.take(raw.len() as int) =~= raw@);
    out
}

/// Renames an identifier to one that the evaluator accepts.
pub fn sanitize_ident(raw: &str) -> (out: String)
    ensures
        out@ == sanitized(raw@),
{
    let v = chars_of(raw);
    let o = sanitize_chars(v.as_slice());
    string_of(o.as_slice())
}

} // verus!

verus! {

/// The result of rewriting: the rewritten text and the bindings
/// (sanitized name, name as written) in order of appearance, or the first
/// identifier that names neither a variable nor a built-in constant.
pub type RewriteSpec = Result<(Seq<char>, Seq<(Seq<char>, Seq<char>)>), Seq<char>>;

pub open spec fn prepend(out: Seq<char>, binds: Seq<(Seq<char>, Seq<char>)>, r: RewriteSpec) -> RewriteSpec {
    match r {
        Ok((o, b)) => Ok((out + o, binds + b)),
        Err(e) => Err(e),
    }
}

/// Rewrites the identifiers of `cs`: a function name (an identifier
/// followed, after optional whitespace, by `(`) and a built-in constant stay
/// as they are, a variable of `names` becomes its sanitized name; any other
/// identifier is an error.
pub open spec fn rewrite(cs: Seq<char>, names: Seq<Seq<char>>) -> RewriteSpec
    decreases cs.len(),
{
    if cs.len() == 0 {
        Ok((seq![], seq![]))
    } else if ident_start(cs[0]) {
        let n = 1 + run_len(cs.drop_first(), |c: char| ident_continue(c));
        proof {
            lemma_run_len_bound(cs.drop_first(), |c: char| ident_continue(c));
        }
        let ident = cs.take(n as int);
        let rest = cs.skip(n as int);
        let w = run_len(rest, |c: char| is_ws(c));
        if w < rest.len() && rest[w as int] == '(' {
            prepend(ident, seq![], rewrite(rest, names))
        } else if names.contains(ident) {
            prepend(sanitized(ident), seq![(sanitized(ident), ident)], rewrite(rest, names))
        } else if builtin_constant(ident) {
            prepend(ident, seq![], rewrite(rest, names))
        } else {
            Err(ident)
        }
    } else {
        prepend(seq![cs[0]], seq![], rewrite(cs.drop_first(), names))
    }
}

/// The bytes of a string read one by one as characters.
pub open spec fn byte_chars(b: Seq<u8>) -> Seq<char> {
    b.map_values(|x: u8| x as char)
}

pub open spec fn names_of(names: Seq<String>) -> Seq<Seq<char>> {
    names.map_values(|s: String| s@)
}

proof fn lemma_prepend_assoc(
    a: Seq<char>,
    ab: Seq<(Seq<char>, Seq<char>)>,
    b: Seq<char>,
    bb: Seq<(Seq<char>, Seq<char>)>,
    r: RewriteSpec,
)
    ensures
        prepend(a, ab, prepend(b, bb, r)) == prepend(a + b, ab + bb, r),
{
    match r {
        Ok((o, bs)) => {
            assert(a + (b + o) =~= (a + b) + o);
            assert(ab + (bb + bs) =~= (ab + bb) + bs);
        },
        Err(_) => {},
    }
}

fn contains_name(names: &[String], ident: &[char]) -> (r: bool)
    ensures
        r == names_of(names@).contains(ident@),
{
    let mut k: usize = 0;
    while k < names.len()
        invariant
            k <= names.len(),
            forall|j: int| 0 <= j < k ==> names@[j]@ != ident@,
        decreases names.len() - k,
    {
        if chars_eq(ident, names[k].as_str()) {
            assert(names_of(names@)[k as int] == ident@);
            return true;
        }
        k += 1;
    }
    proof {
        if names_of(names@).contains(ident@) {
            let j = choose|j: int| 0 <= j < names_of(names@).len() && names_of(names@)[j] == ident@;
            assert(names@[j]@ == ident@);
        }
    }
    false
}

/// End of the identifier that starts at `start`.
fn ident_end(cs: &Vec<char>, start: usize) -> (end: usize)
    requires
        start < cs.len(),
    ensures
        start < end <= cs.len(),
        end - start == 1 + run_len(cs@.skip(start as int).drop_first(), |c: char| ident_continue(c)),
{
    let ghost s = cs@;
    let mut i = start + 1;
    while i < cs.len() && is_ident_continue(cs[i])
        invariant
            cs@ == s,
            start < i <= cs.len(),
            forall|k: int| start < k < i ==> ident_continue(#[trigger] s[k]),
        decreases cs.len() - i,
    {
        i += 1;
    }
    proof {
        let r1 = s.skip(start as int).drop_first();
        assert forall|k: int| 0 <= k < i - start - 1 implies ident_continue(#[trigger] r1[k]) by {
            assert(r1[k] == s[start + 1 + k]);
        }
        if i < cs.len() {
            assert(r1[i - start - 1] == s[i as int]);
        }
        lemma_run_len(r1, |c: char| ident_continue(c), i - start - 1);
    }
    i
}

/// End of the whitespace that starts at `start`.
fn ws_end(cs: &Vec<char>, start: usize) -> (end: usize)
    requires
        start <= cs.len(),
    ensures
        start <= end <= cs.len(),
        end - start == run_len(cs@.skip(start as int), |c: char| is_ws(c)),
{
    let ghost s = cs@;
    let mut i = start;
    while i < cs.len() && whitespace(cs[i])
        invariant
            cs@ == s,
            start <= i <= cs.len(),
            forall|k: int| start <= k < i ==> is_ws(#[trigger] s[k]),
        decreases cs.len() - i,
    {
        i += 1;
    }
    proof {
        let r = s.skip(start as int);
        assert forall|k: int| 0 <= k < i - start implies is_ws(#[trigger] r[k]) by {
            assert(r[k] == s[start + k]);
        }
        if i < cs.len() {
            assert(r[i - start] == s[i as int]);
        }
        lemma_run_len(r, |c: char| is_ws(c), i - start);
    }
    i
}

fn bytes_as_chars(b: &[u8]) -> (v: Vec<char>)
    ensures
        v@ == byte_chars(b@),
{
    let mut v: Vec<char> = Vec::new();
    let mut i: usize = 0;
    while i < b.len()
        invariant
            i <= b.len(),
            v@ == byte_chars(b@).take(i as int),
        decreases b.len() - i,
    {
        v.push(b[i] as char);
        assert(byte_chars(b@).take(i + 1) =~= byte_chars(b@).take(i as int).push(b@[i as int] as char));
        i += 1;
    }
    assert(byte_chars(b@).take(b.len() as int) =~= byte_chars(b@));
    v
}

/// Rewrites the variables of `expr` to evaluator-safe names. Returns the
/// rewritten expression and, for each variable occurrence in order, the
/// pair (safe name, variable name); fails with `UnknownVariable` at the
/// first identifier that is neither a function call, a variable of `names`
/// nor a built-in constant. The expression is read byte by byte.
pub fn rewrite_expr(key: &str, expr: &str, names: &[String]) -> (res: Result<
    (String, Vec<(String, String)>),
    crate::error::Error,
>)
    ensures
        match rewrite(byte_chars(expr.spec_bytes()), names_of(names@)) {
            Ok((o, b)) => res matches Ok((ro, rb)) && ro@ == o && rb@.len() == b.len() && (forall|
                k: int,
            | 0 <= k < b.len() ==> (#[trigger] rb@[k]).0@ == b[k].0 && rb@[k].1@ == b[k].1),
            Err(name) => res matches Err(crate::error::Error::UnknownVariable {
                key: k,
                name: n,
            }) && k@ == key@ && n@ == name,
        },
{
    let cs = bytes_as_chars(expr.as_bytes());
    let ghost s = cs@;
    let ghost nm = names_of(names@);
    let mut out: Vec<char> = Vec::new();
    let mut binds: Vec<(String, String)> = Vec::new();
    let ghost mut bspec: Seq<(Seq<char>, Seq<char>)> = seq![];
    let mut i: usize = 0;
    assert(s.skip(0) =~= s);
    assert(prepend(out@, bspec, rewrite(s.skip(0), nm)) =~= rewrite(s, nm)) by {
        match rewrite(s, nm) {
            Ok((o, b)) => {
                assert(Seq::<char>::empty() + o =~= o);
                assert(Seq::<(Seq<char>, Seq<char>)>::empty() + b =~= b);
            },
            Err(_) => {},
        }
    }
    while i < cs.len()
        invariant
            cs@ == s,
            s == byte_chars(expr.spec_bytes()),
            nm == names_of(names@),
            i <= cs.len(),
            rewrite(s, nm) == prepend(out@, bspec, rewrite(s.skip(i as int), nm)),
            binds@.len() == bspec.len(),
            forall|k: int|
                0 <= k < bspec.len() ==> (#[trigger] binds@[k]).0@ == bspec[k].0 && binds@[k].1@
                    == bspec[k].1,
        decreases cs.len() - i,
    {
        let ghost rest = s.skip(i as int);
        let c = cs[i];
        assert(rest[0] == c);
        if is_ident_start(c) {
            let start = i;
            let end = ident_end(&cs, start);
            let ghost ident = rest.take(end - start);
            assert(ident =~= s.subrange(start as int, end as int));
            assert(rest.skip(end - start) =~= s.skip(end as int));
            let j = ws_end(&cs, end);
            let is_call = j < cs.len() && cs[j] == '(';
            proof {
                let r2 = s.skip(end as int);
                if j < cs.len() {
                    assert(r2[j - end] == s[j as int]);
                }
            }
            let ident_v = slice_to_vec(&cs.as_slice()[start..end]);
            assert(ident_v@ == ident);
            if is_call {
                let ghost o1 = out@;
                push_all(&mut out, ident_v.as_slice());
                proof {
                    lemma_prepend_assoc(o1, bspec, ident, seq![], rewrite(s.skip(end as int), nm));
                    assert(bspec + seq![] =~= bspec);
                }
            } else if contains_name(names, ident_v.as_slice()) {
                let safe = sanitize_chars(ident_v.as_slice());
                let ghost o1 = out@;
                let ghost b1 = bspec;
                push_all(&mut out, safe.as_slice());
                let safe_s = string_of(safe.as_slice());
                let name_s = string_of(ident_v.as_slice());
                binds.push((safe_s, name_s));
                proof {
                    bspec = bspec.push((sanitized(ident), ident));
                    lemma_prepend_assoc(
                        o1,
                        b1,
                        sanitized(ident),
                        seq![(sanitized(ident), ident)],
                        rewrite(s.skip(end as int), nm),
                    );
                    assert(b1 + seq![(sanitized(ident), ident)] =~= bspec);
                }
            } else if is_builtin_chars(ident_v.as_slice()) {
                let ghost o1 = out@;
                push_all(&mut out, ident_v.as_slice());
                proof {
                    lemma_prepend_assoc(o1, bspec, ident, seq![], rewrite(s.skip(end as int), nm));
                    assert(bspec + seq![] =~= bspec);
                }
            } else {
                let name_s = string_of(ident_v.as_slice());
                assert(rewrite(rest, nm) == Err::<(Seq<char>, Seq<(Seq<char>, Seq<char>)>), Seq<char>>(ident));
                let key_s = str_to_string(key);
                assert(rewrite(s, nm) == Err::<(Seq<char>, Seq<(Seq<char>, Seq<char>)>), Seq<char>>(ident));
                return Err(crate::error::Error::UnknownVariable { key: key_s, name: name_s });
            }
            i = end;
        } else {
            let ghost o1 = out@;
            out.push(c);
            proof {
                assert(rest.drop_first() =~= s.skip(i + 1));
                lemma_prepend_assoc(o1, bspec, seq![c], seq![], rewrite(s.skip(i + 1), nm));
                assert(o1 + seq![c] =~= out@);
                assert(bspec + seq![] =~= bspec);
            }
            i += 1;
        }
    }
    proof {
        assert(s.skip(cs.len() as int) =~= Seq::<char>::empty());
        assert(out@ + Seq::<char>::empty() =~= out@);
        assert(bspec + Seq::<(Seq<char>, Seq<char>)>::empty() =~= bspec);
    }
    Ok((string_of(out.as_slice()), binds))
}

fn is_builtin_chars(ident: &[char]) -> (b: bool)
    ensures
        b == builtin_constant(ident@),
{
    chars_eq(ident, "pi") || chars_eq(ident, "e")
}

fn slice_to_vec(s: &[char]) -> (v: Vec<char>)
    ensures
        v@ == s@,
{
    let mut v: Vec<char> = Vec::new();
    push_all(&mut v, s);
    assert(v@ =~= s@);
    v
}

fn push_all(out: &mut Vec<char>, s: &[char])
    ensures
        final(out)@ == old(out)@ + s@,
{
    let mut i: usize = 0;
    while i < s.len()
        invariant
            i <= s.len(),
            out@ == old(out)@ + s@.take(i as int),
        decreases s.len() - i,
    {
        out.push(s[i]);
        assert(s@.take(i + 1) =~= s@.take(i as int).push(s@[i as int]));
        i += 1;
    }
    assert(s@.take(s.len() as int) =~= s@);
}

/// An owned copy of a string slice.
pub fn str_to_string(s: &str) -> (r: String)
    ensures
        r@ == s@,
{
    s.to_owned()
}

} // verus!
