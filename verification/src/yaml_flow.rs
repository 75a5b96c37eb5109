//! Text normalization applied to YAML before parsing: holes in flow
//! sequences (`[,10,,]`) become `null`, trailing commas are dropped, and
//! unquoted arithmetic items (`[-ks * 0.5]`) are quoted as strings.
use vstd::prelude::*;
use crate::text::{chars_of, is_ws, lemma_run_len, run_len, string_of, whitespace};

verus! {

/// Bookkeeping for one open `[`.
#[derive(Clone, Copy, Debug, PartialEq, Eq, Structural)]
pub struct Frame {
    pub expect_value: bool,
    pub saw_any_element: bool,
    pub last_sep_was_hole: bool,
}

/// State of the hole-normalizing scan.
pub struct HoleSpec {
    pub out: Seq<char>,
    pub frames: Seq<Frame>,
    pub in_single: bool,
    pub in_double: bool,
    pub esc: bool,
}

pub open spec fn new_frame() -> Frame {
    Frame { expect_value: true, saw_any_element: false, last_sep_was_hole: false }
}

/// The frame after an element starts.
pub open spec fn mark_value(f: Frame) -> Frame {
    if f.expect_value {
        Frame { expect_value: false, saw_any_element: true, last_sep_was_hole: f.last_sep_was_hole }
    } else {
        f
    }
}

pub open spec fn set_top(fs: Seq<Frame>, f: Frame) -> Seq<Frame> {
    fs.update(fs.len() - 1, f)
}

/// Number of whitespace characters at the end of `s`.
pub open spec fn trailing_ws(s: Seq<char>) -> nat
    decreases s.len(),
{
    if s.len() > 0 && is_ws(s.last()) {
        1 + trailing_ws(s.drop_last())
    } else {
        0
    }
}

/// `s` without the comma that precedes its trailing whitespace, if any.
pub open spec fn drop_trailing_comma(s: Seq<char>) -> Seq<char> {
    let k = s.len() - trailing_ws(s);
    if k > 0 && s[k - 1] == ',' {
        s.remove(k - 1)
    } else {
        s
    }
}

pub open spec fn null_text() -> Seq<char> {
    seq!['n', 'u', 'l', 'l']
}

/// Whether a character read after `before` starts a token: it comes first
/// or after whitespace.
pub open spec fn starts_token(before: Seq<char>) -> bool {
    before.len() == 0 || is_ws(before.last())
}

/// Quote state after `ch` outside flow sequences: a quote opens a quoted
/// scalar only where a scalar can start (`can_open`: at the start of the
/// text or after whitespace), so an apostrophe inside a word (`don't`)
/// opens nothing; an open quote closes at its next unescaped match.
pub open spec fn scalar_quotes_next(single: bool, double: bool, esc2: bool, ch: char, can_open: bool) -> (bool, bool) {
    if !double && ch == '\'' && (single || can_open) {
        (!single, double)
    } else if !single && ch == '"' && !esc2 && (double || can_open) {
        (single, !double)
    } else {
        (single, double)
    }
}

/// One character of the hole-normalizing scan.
pub open spec fn hole_step(st: HoleSpec, ch: char) -> HoleSpec {
    if st.frames.len() == 0 {
        let esc = esc_next(st.in_double, st.esc, ch);
        let q = scalar_quotes_next(st.in_single, st.in_double, esc, ch, starts_token(st.out));
        HoleSpec {
            out: st.out.push(ch),
            frames: if ch == '[' && !st.in_single && !st.in_double {
                seq![new_frame()]
            } else {
                st.frames
            },
            in_single: q.0,
            in_double: q.1,
            esc: esc,
        }
    } else {
        let esc = if st.in_double && !st.esc { ch == '\\' } else { false };
        let top = st.frames.last();
        if !st.in_double && ch == '\'' {
            let single = !st.in_single;
            HoleSpec {
                out: st.out.push(ch),
                frames: if single { set_top(st.frames, mark_value(top)) } else { st.frames },
                in_single: single,
                in_double: st.in_double,
                esc: esc,
            }
        } else if !st.in_single && ch == '"' && !esc {
            let double = !st.in_double;
            HoleSpec {
                out: st.out.push(ch),
                frames: if double { set_top(st.frames, mark_value(top)) } else { st.frames },
                in_single: st.in_single,
                in_double: double,
                esc: esc,
            }
        } else if st.in_single || st.in_double {
            HoleSpec {
                out: st.out.push(ch),
                frames: st.frames,
                in_single: st.in_single,
                in_double: st.in_double,
                esc: esc,
            }
        } else if ch == '[' {
            HoleSpec {
                out: st.out.push(ch),
                frames: set_top(st.frames, mark_value(top)).push(new_frame()),
                in_single: st.in_single,
                in_double: st.in_double,
                esc: esc,
            }
        } else if ch == ',' {
            HoleSpec {
                out: (if top.expect_value { st.out + null_text() } else { st.out }).push(','),
                frames: set_top(
                    st.frames,
                    Frame {
                        expect_value: true,
                        saw_any_element: top.saw_any_element || top.expect_value,
                        last_sep_was_hole: top.expect_value,
                    },
                ),
                in_single: st.in_single,
                in_double: st.in_double,
                esc: esc,
            }
        } else if ch == ']' {
            let o = if top.expect_value && top.saw_any_element {
                if top.last_sep_was_hole {
                    st.out + null_text()
                } else {
                    drop_trailing_comma(st.out)
                }
            } else {
                st.out
            };
            let p = st.frames.drop_last();
            HoleSpec {
                out: o.push(']'),
                frames: if p.len() > 0 {
                    set_top(
                        p,
                        Frame {
                            expect_value: false,
                            saw_any_element: true,
                            last_sep_was_hole: p.last().last_sep_was_hole,
                        },
                    )
                } else {
                    p
                },
                in_single: st.in_single,
                in_double: st.in_double,
                esc: esc,
            }
        } else if is_ws(ch) {
            HoleSpec {
                out: st.out.push(ch),
                frames: st.frames,
                in_single: st.in_single,
                in_double: st.in_double,
                esc: esc,
            }
        } else {
            HoleSpec {
                out: st.out.push(ch),
                frames: set_top(st.frames, mark_value(top)),
                in_single: st.in_single,
                in_double: st.in_double,
                esc: esc,
            }
        }
    }
}

pub open spec fn hole_init() -> HoleSpec {
    HoleSpec { out: seq![], frames: seq![], in_single: false, in_double: false, esc: false }
}

/// The scan state after reading all of `s`.
pub open spec fn holes_run(s: Seq<char>) -> HoleSpec
    decreases s.len(),
{
    if s.len() == 0 {
        hole_init()
    } else {
        hole_step(holes_run(s.drop_last()), s.last())
    }
}

/// The text with flow-sequence holes filled by `null` and trailing commas
/// removed.
pub open spec fn normalize_holes(s: Seq<char>) -> Seq<char> {
    holes_run(s).out
}

struct HoleState {
    out: Vec<char>,
    frames: Vec<Frame>,
    in_single: bool,
    in_double: bool,
    esc: bool,
}

impl HoleState {
    spec fn view(&self) -> HoleSpec {
        HoleSpec {
            out: self.out@,
            frames: self.frames@,
            in_single: self.in_single,
            in_double: self.in_double,
            esc: self.esc,
        }
    }
}

fn push_null(out: &mut Vec<char>)
    ensures
        final(out)@ == old(out)@ + null_text(),
{
    out.push('n');
    out.push('u');
    out.push('l');
    out.push('l');
    assert(out@ =~= old(out)@ + null_text());
}

fn remove_trailing_comma(out: &mut Vec<char>)
    ensures
        final(out)@ == drop_trailing_comma(old(out)@),
{
    let ghost s = out@;
    let mut k = out.len();
    assert(s.take(k as int) =~= s);
    while k > 0 && whitespace(out[k - 1])
        invariant
            out@ == s,
            k <= s.len(),
            trailing_ws(s) == (s.len() - k) + trailing_ws(s.take(k as int)),
        decreases k,
    {
        assert(s.take(k as int).drop_last() =~= s.take(k - 1));
        k -= 1;
    }
    assert(trailing_ws(s.take(k as int)) == 0);
    if k > 0 && out[k - 1] == ',' {
        out.remove(k - 1);
    }
}

fn mark_value_exec(f: Frame) -> (r: Frame)
    ensures
        r == mark_value(f),
{
    if f.expect_value {
        Frame { expect_value: false, saw_any_element: true, last_sep_was_hole: f.last_sep_was_hole }
    } else {
        f
    }
}

fn set_top_exec(fs: &mut Vec<Frame>, f: Frame)
    requires
        old(fs).len() > 0,
    ensures
        final(fs)@ == set_top(old(fs)@, f),
{
    let n = fs.len();
    fs.set(n - 1, f);
}

fn hole_step_exec(st: &mut HoleState, ch: char)
    ensures
        final(st)@ == hole_step(old(st)@, ch),
{
    if st.frames.len() == 0 {
        let esc = if st.in_double && !st.esc { ch == '\\' } else { false };
        if ch == '[' && !st.in_single && !st.in_double {
            st.frames.push(Frame { expect_value: true, saw_any_element: false, last_sep_was_hole: false });
        }
        let n = st.out.len();
        let can_open = n == 0 || whitespace(st.out[n - 1]);
        if !st.in_double && ch == '\'' && (st.in_single || can_open) {
            st.in_single = !st.in_single;
        } else if !st.in_single && ch == '"' && !esc && (st.in_double || can_open) {
            st.in_double = !st.in_double;
        }
        st.esc = esc;
        st.out.push(ch);
        assert(st@.frames =~= hole_step(old(st)@, ch).frames);
        return;
    }
    let esc = if st.in_double && !st.esc { ch == '\\' } else { false };
    st.esc = esc;
    let top = st.frames[st.frames.len() - 1];
    if !st.in_double && ch == '\'' {
        st.in_single = !st.in_single;
        if st.in_single {
            set_top_exec(&mut st.frames, mark_value_exec(top));
        }
        st.out.push(ch);
    } else if !st.in_single && ch == '"' && !esc {
        st.in_double = !st.in_double;
        if st.in_double {
            set_top_exec(&mut st.frames, mark_value_exec(top));
        }
        st.out.push(ch);
    } else if st.in_single || st.in_double {
        st.out.push(ch);
    } else if ch == '[' {
        set_top_exec(&mut st.frames, mark_value_exec(top));
        st.frames.push(Frame { expect_value: true, saw_any_element: false, last_sep_was_hole: false });
        st.out.push(ch);
    } else if ch == ',' {
        let was_hole = top.expect_value;
        if was_hole {
            push_null(&mut st.out);
        }
        st.out.push(ch);
        set_top_exec(
            &mut st.frames,
            Frame {
                expect_value: true,
                saw_any_element: top.saw_any_element || was_hole,
                last_sep_was_hole: was_hole,
            },
        );
    } else if ch == ']' {
        if top.expect_value && top.saw_any_element {
            if top.last_sep_was_hole {
                push_null(&mut st.out);
            } else {
                remove_trailing_comma(&mut st.out);
            }
        }
        st.out.push(ch);
        st.frames.pop();
        if st.frames.len() > 0 {
            let p = st.frames[st.frames.len() - 1];
            set_top_exec(
                &mut st.frames,
                Frame { expect_value: false, saw_any_element: true, last_sep_was_hole: p.last_sep_was_hole },
            );
        }
    } else if whitespace(ch) {
        st.out.push(ch);
    } else {
        set_top_exec(&mut st.frames, mark_value_exec(top));
        st.out.push(ch);
    }
}

/// Fills the holes of flow sequences with `null` (`[,10,,]` becomes
/// `[null,10,null,null]`) and removes a trailing comma before `]`. Only
/// text inside flow sequences is rewritten, and never inside single or
/// double quotes: a `[` within a quoted scalar opens no sequence, so text
/// whose every `[` is quoted comes back unchanged. Outside sequences a
/// quote opens a quoted scalar only at the start of the text or after
/// whitespace; an apostrophe within a word (`don't`) is plain text.
pub fn normalize_yaml_flow_sequence_holes(input: &str) -> (out: String)
    ensures
        out@ == normalize_holes(input@),
        brackets_all_quoted(input@) ==> out@ == input@,
{
    proof {
        if brackets_all_quoted(input@) {
            law_holes_identity_quoted_brackets(input@);
        }
    }
    let chars = chars_of(input);
    let ghost s = input@;
    let mut st = HoleState {
        out: Vec::new(),
        frames: Vec::new(),
        in_single: false,
        in_double: false,
        esc: false,
    };
    let mut i: usize = 0;
    assert(st@.out =~= hole_init().out);
    assert(st@.frames =~= hole_init().frames);
    assert(s.take(0) =~= Seq::<char>::empty());
    while i < chars.len()
        invariant
            chars@ == s,
            i <= chars.len(),
            st@ == holes_run(s.take(i as int)),
        decreases chars.len() - i,
    {
        assert(s.take(i + 1).drop_last() =~= s.take(i as int));
        hole_step_exec(&mut st, chars[i]);
        i += 1;
    }
    assert(s.take(chars.len() as int) =~= s);
    string_of(st.out.as_slice())
}

} // verus!

verus! {

/// Escape tracking inside double quotes: a backslash escapes the next
/// character.
pub open spec fn esc_next(double: bool, esc: bool, ch: char) -> bool {
    if double && !esc {
        ch == '\\'
    } else {
        false
    }
}

/// Quote state after `ch`: (in single quotes, in double quotes).
pub open spec fn quotes_next(single: bool, double: bool, esc2: bool, ch: char) -> (bool, bool) {
    if !double && ch == '\'' {
        (!single, double)
    } else if !single && ch == '"' && !esc2 {
        (single, !double)
    } else {
        (single, double)
    }
}

/// Index just past the `]` that closes the bracket scan started at 0,
/// scanning from `i` at bracket depth `depth`; the whole text when no such
/// `]` exists. Brackets inside quotes do not count.
pub open spec fn extract_end(s: Seq<char>, i: int, depth: nat, single: bool, double: bool, esc: bool) -> int
    decreases s.len() - i,
{
    if i < 0 || i >= s.len() {
        s.len() as int
    } else {
        let ch = s[i];
        let esc2 = esc_next(double, esc, ch);
        let q = quotes_next(single, double, esc2, ch);
        if q.0 || q.1 {
            extract_end(s, i + 1, depth, q.0, q.1, esc2)
        } else if ch == '[' {
            extract_end(s, i + 1, depth + 1, q.0, q.1, esc2)
        } else if ch == ']' {
            let d: nat = if depth > 0 { (depth - 1) as nat } else { 0 };
            if d == 0 {
                i + 1
            } else {
                extract_end(s, i + 1, d, q.0, q.1, esc2)
            }
        } else {
            extract_end(s, i + 1, depth, q.0, q.1, esc2)
        }
    }
}

/// Length of the flow sequence at the start of `s`.
pub open spec fn extract_len(s: Seq<char>) -> int {
    extract_end(s, 0, 0, false, false, false)
}

pub proof fn lemma_extract_end(s: Seq<char>, i: int, depth: nat, single: bool, double: bool, esc: bool)
    requires
        0 <= i < s.len(),
    ensures
        i < extract_end(s, i, depth, single, double, esc) <= s.len(),
    decreases s.len() - i,
{
    let ch = s[i];
    let esc2 = esc_next(double, esc, ch);
    let q = quotes_next(single, double, esc2, ch);
    if i + 1 < s.len() {
        let d: nat = if depth > 0 { (depth - 1) as nat } else { 0 };
        lemma_extract_end(s, i + 1, depth, q.0, q.1, esc2);
        lemma_extract_end(s, i + 1, depth + 1, q.0, q.1, esc2);
        lemma_extract_end(s, i + 1, d, q.0, q.1, esc2);
    } else {
        let d: nat = if depth > 0 { (depth - 1) as nat } else { 0 };
        assert(extract_end(s, i + 1, depth, q.0, q.1, esc2) == s.len());
        assert(extract_end(s, i + 1, depth + 1, q.0, q.1, esc2) == s.len());
        assert(extract_end(s, i + 1, d, q.0, q.1, esc2) == s.len());
    }
}

pub proof fn lemma_extract_len(s: Seq<char>)
    requires
        s.len() > 0,
    ensures
        1 <= extract_len(s) <= s.len(),
{
    lemma_extract_end(s, 0, 0, false, false, false);
}

/// Number of whitespace characters at the start of `s`.
pub open spec fn leading_ws(s: Seq<char>) -> nat {
    run_len(s, |c: char| is_ws(c))
}

/// `s` without surrounding whitespace (`str::trim`).
pub open spec fn trimmed(s: Seq<char>) -> Seq<char> {
    let a = leading_ws(s);
    if a >= s.len() {
        seq![]
    } else {
        s.subrange(a as int, s.len() - trailing_ws(s))
    }
}

pub open spec fn ascii_lower_char(c: char) -> char {
    if 'A' <= c && c <= 'Z' {
        ((c as u32) + 32) as char
    } else {
        c
    }
}

/// ASCII letters in lower case, other characters unchanged.
pub open spec fn ascii_lower(s: Seq<char>) -> Seq<char> {
    s.map_values(|c: char| ascii_lower_char(c))
}

pub open spec fn all_digits(s: Seq<char>) -> bool {
    forall|k: int| 0 <= k < s.len() ==> crate::text::is_digit(#[trigger] s[k])
}

/// An optional exponent: nothing, or `e`, an optional sign and digits.
pub open spec fn exponent_ok(e: Seq<char>) -> bool {
    e.len() == 0 || (e[0] == 'e' && {
        let f = e.drop_first();
        let g = if f.len() > 0 && (f[0] == '+' || f[0] == '-') {
            f.drop_first()
        } else {
            f
        };
        g.len() > 0 && all_digits(g)
    })
}

/// Digits with an optional fraction (at least one digit in all), then an
/// optional exponent; `l` is in lower case.
pub open spec fn number_literal(l: Seq<char>) -> bool {
    let a = run_len(l, |c: char| crate::text::is_digit(c));
    let rest = l.skip(a as int);
    if rest.len() > 0 && rest[0] == '.' {
        let b = run_len(rest.drop_first(), |c: char| crate::text::is_digit(c));
        (a > 0 || b > 0) && exponent_ok(rest.skip(1 + b as int))
    } else {
        a > 0 && exponent_ok(rest)
    }
}

/// The strings that `f64::from_str` accepts, as its documentation gives
/// them: an optional sign, then `inf`, `infinity`, `nan` or a decimal
/// number, compared after ASCII lower-casing.
pub open spec fn float_literal(s: Seq<char>) -> bool {
    let t = if s.len() > 0 && (s[0] == '+' || s[0] == '-') {
        s.drop_first()
    } else {
        s
    };
    let l = ascii_lower(t);
    l == "inf"@ || l == "infinity"@ || l == "nan"@ || number_literal(l)
}

/// Characters that make an unquoted item an expression.
pub open spec fn expr_char(c: char) -> bool {
    is_ws(c) || c == '+' || c == '-' || c == '*' || c == '/' || c == '(' || c == ')'
}

/// `s` with each `'` doubled (YAML single-quote escaping).
pub open spec fn escape_single(s: Seq<char>) -> Seq<char>
    decreases s.len(),
{
    if s.len() == 0 {
        seq![]
    } else {
        (if s[0] == '\'' {
            seq!['\'', '\'']
        } else {
            seq![s[0]]
        }) + escape_single(s.drop_first())
    }
}

/// The literal words that YAML reads as booleans or null.
pub open spec fn yaml_keyword(l: Seq<char>) -> bool {
    l == "true"@ || l == "false"@ || l == "null"@ || l == "~"@
}

/// One flow-sequence item: an unquoted item that is not a number, keyword,
/// nested collection or mapping, and that holds whitespace or one of
/// `+-*/()`, is wrapped in single quotes (surrounding whitespace kept
/// outside); any other item is unchanged.
pub open spec fn normalize_item(item: Seq<char>) -> Seq<char> {
    let t = trimmed(item);
    if t.len() == 0 {
        item
    } else if t[0] == '"' || t[0] == '\'' {
        item
    } else if t[0] == '[' || t[0] == '{' || t.contains(':') {
        item
    } else if yaml_keyword(ascii_lower(t)) {
        item
    } else if float_literal(t) {
        item
    } else if exists|k: int| 0 <= k < t.len() && expr_char(#[trigger] t[k]) {
        let lead = leading_ws(item);
        let trail = trailing_ws(item);
        item.take(lead as int) + seq!['\''] + escape_single(t) + seq!['\''] + item.skip(
            item.len() - trail,
        )
    } else {
        item
    }
}

/// A flow sequence `[...]` with its content normalized; other text
/// unchanged.
pub open spec fn normalize_seq(x: Seq<char>) -> Seq<char>
    decreases 2 * x.len(), 0int,
{
    if x.len() >= 2 && x[0] == '[' && x.last() == ']' {
        seq!['['] + content_from(x.subrange(1, x.len() - 1), 0, seq![], false, false, false, 0)
            + seq![']']
    } else {
        x
    }
}

/// Normalizes the items of a flow sequence's content from index `i`:
/// `item` holds the current item so far; items end at a comma outside
/// quotes, nested sequences and braces. Nested sequences are normalized.
pub open spec fn content_from(
    c: Seq<char>,
    i: int,
    item: Seq<char>,
    single: bool,
    double: bool,
    esc: bool,
    brace: nat,
) -> Seq<char>
    decreases 2 * (c.len() - i) + 1, 1int,
{
    if i < 0 || i >= c.len() {
        normalize_item(item)
    } else {
        let ch = c[i];
        let esc2 = esc_next(double, esc, ch);
        if !double && ch == '\'' {
            content_from(c, i + 1, item.push(ch), !single, double, esc2, brace)
        } else if !single && ch == '"' && !esc2 {
            content_from(c, i + 1, item.push(ch), single, !double, esc2, brace)
        } else if single || double {
            content_from(c, i + 1, item.push(ch), single, double, esc2, brace)
        } else if ch == '[' {
            let rest = c.skip(i);
            proof {
                lemma_extract_len(rest);
            }
            let n = extract_len(rest);
            content_from(
                c,
                i + n,
                item + normalize_seq(rest.take(n)),
                single,
                double,
                esc2,
                brace,
            )
        } else if ch == '{' {
            content_from(c, i + 1, item.push(ch), single, double, esc2, brace + 1)
        } else if ch == '}' {
            content_from(
                c,
                i + 1,
                item.push(ch),
                single,
                double,
                esc2,
                if brace > 0 { (brace - 1) as nat } else { 0 },
            )
        } else if ch == ',' && brace == 0 {
            normalize_item(item) + seq![','] + content_from(c, i + 1, seq![], single, double, esc2, brace)
        } else {
            content_from(c, i + 1, item.push(ch), single, double, esc2, brace)
        }
    }
}

/// Normalizes every top-level flow sequence of `s` from index `i`, outside
/// quoted text.
pub open spec fn exprs_from(s: Seq<char>, i: int, single: bool, double: bool, esc: bool) -> Seq<char>
    decreases s.len() - i,
{
    if i < 0 || i >= s.len() {
        seq![]
    } else {
        let ch = s[i];
        let esc2 = esc_next(double, esc, ch);
        if !double && ch == '\'' {
            seq![ch] + exprs_from(s, i + 1, !single, double, esc2)
        } else if !single && ch == '"' && !esc2 {
            seq![ch] + exprs_from(s, i + 1, single, !double, esc2)
        } else if !single && !double && ch == '[' {
            let rest = s.skip(i);
            proof {
                lemma_extract_len(rest);
            }
            let n = extract_len(rest);
            normalize_seq(rest.take(n)) + exprs_from(s, i + n, single, double, esc2)
        } else {
            seq![ch] + exprs_from(s, i + 1, single, double, esc2)
        }
    }
}

/// The text with arithmetic items of flow sequences quoted as strings.
pub open spec fn normalize_exprs(s: Seq<char>) -> Seq<char> {
    exprs_from(s, 0, false, false, false)
}

} // verus!

verus! {

/// A suffix of length `k` made only of whitespace and preceded by a
/// non-whitespace character (or the start) is the trailing whitespace.
pub proof fn lemma_trailing_ws(s: Seq<char>, k: int)
    requires
        0 <= k <= s.len(),
        forall|i: int| s.len() - k <= i < s.len() ==> is_ws(#[trigger] s[i]),
        k == s.len() || !is_ws(s[s.len() - k - 1]),
    ensures
        trailing_ws(s) == k,
    decreases k,
{
    if k > 0 {
        assert forall|i: int| s.drop_last().len() - (k - 1) <= i < s.drop_last().len() implies is_ws(
            #[trigger] s.drop_last()[i],
        ) by {
            assert(s.drop_last()[i] == s[i]);
        }
        if k - 1 < s.drop_last().len() {
            assert(s.drop_last()[s.drop_last().len() - (k - 1) - 1] == s[s.len() - k - 1]);
        }
        lemma_trailing_ws(s.drop_last(), k - 1);
    }
}

/// End of the run of whitespace that starts at `start`.
fn ws_run_end(s: &[char], start: usize) -> (end: usize)
    requires
        start <= s.len(),
    ensures
        start <= end <= s.len(),
        end - start == run_len(s@.skip(start as int), |c: char| is_ws(c)),
        forall|k: int| start <= k < end ==> is_ws(#[trigger] s@[k]),
        end == s.len() || !is_ws(s@[end as int]),
{
    let mut i = start;
    while i < s.len() && whitespace(s[i])
        invariant
            start <= i <= s.len(),
            forall|k: int| start <= k < i ==> is_ws(#[trigger] s@[k]),
        decreases s.len() - i,
    {
        i += 1;
    }
    proof {
        let r = s@.skip(start as int);
        assert forall|k: int| 0 <= k < i - start implies is_ws(#[trigger] r[k]) by {
            assert(r[k] == s@[start + k]);
        }
        if i < s.len() {
            assert(r[i - start] == s@[i as int]);
        }
        lemma_run_len(r, |c: char| is_ws(c), i - start);
    }
    i
}

/// Start of the run of whitespace that ends the slice.
pub(crate) fn trailing_ws_start(s: &[char]) -> (start: usize)
    ensures
        start <= s.len(),
        s.len() - start == trailing_ws(s@),
        forall|k: int| start <= k < s.len() ==> is_ws(#[trigger] s@[k]),
        start == 0 || !is_ws(s@[start - 1]),
{
    let mut k = s.len();
    while k > 0 && whitespace(s[k - 1])
        invariant
            k <= s.len(),
            forall|j: int| k <= j < s.len() ==> is_ws(#[trigger] s@[j]),
        decreases k,
    {
        k -= 1;
    }
    proof {
        lemma_trailing_ws(s@, s.len() - k);
    }
    k
}

pub(crate) fn slice_vec(s: &[char], a: usize, b: usize) -> (v: Vec<char>)
    requires
        a <= b <= s.len(),
    ensures
        v@ == s@.subrange(a as int, b as int),
{
    let mut v: Vec<char> = Vec::new();
    let mut i = a;
    while i < b
        invariant
            a <= i <= b <= s.len(),
            v@ == s@.subrange(a as int, i as int),
        decreases b - i,
    {
        v.push(s[i]);
        assert(s@.subrange(a as int, i + 1) =~= s@.subrange(a as int, i as int).push(s@[i as int]));
        i += 1;
    }
    v
}

pub(crate) fn extend(out: &mut Vec<char>, s: &[char])
    ensures
        final(out)@ == old(out)@ + s@,
{
    let mut i: usize = 0;
    while i < s.len()
        invariant
            i <= s.len(),
            out@ == old(out)@ + s@.take(i as int),
        decreases s.len() - i,
    {
        out.push(s[i]);
        assert(s@.take(i + 1) =~= s@.take(i as int).push(s@[i as int]));
        i += 1;
    }
    assert(s@.take(s.len() as int) =~= s@);
}

/// The surrounding-whitespace-free part of `s`, as bounds.
pub(crate) fn trim_bounds(s: &[char]) -> (r: (usize, usize))
    ensures
        r.0 <= r.1 <= s.len(),
        s@.subrange(r.0 as int, r.1 as int) == trimmed(s@),
        r.0 == leading_ws(s@),
        r.0 < s.len() ==> r.1 == s.len() - trailing_ws(s@),
{
    let a = ws_run_end(s, 0);
    assert(s@.skip(0) =~= s@);
    if a >= s.len() {
        assert(s@.subrange(a as int, a as int) =~= Seq::<char>::empty());
        return (a, a);
    }
    let b = trailing_ws_start(s);
    if b <= a {
        assert(!is_ws(s@[a as int]));
        assert(false);
    }
    (a, b)
}

fn lower_char(c: char) -> (r: char)
    ensures
        r == ascii_lower_char(c),
{
    if 'A' <= c && c <= 'Z' {
        let b = c as u8;
        assert(b as u32 == c as u32);
        let u = b + 32;
        u as char
    } else {
        c
    }
}

} // verus!

verus! {

fn lower_all(s: &[char]) -> (v: Vec<char>)
    ensures
        v@ == ascii_lower(s@),
{
    let mut v: Vec<char> = Vec::new();
    let mut i: usize = 0;
    while i < s.len()
        invariant
            i <= s.len(),
            v@ == ascii_lower(s@.take(i as int)),
        decreases s.len() - i,
    {
        v.push(lower_char(s[i]));
        assert(ascii_lower(s@.take(i + 1)) =~= ascii_lower(s@.take(i as int)).push(
            ascii_lower_char(s@[i as int]),
        ));
        i += 1;
    }
    assert(s@.take(s.len() as int) =~= s@);
    v
}

/// End of the run of ASCII digits that starts at `start`.
fn digits_end(s: &[char], start: usize) -> (end: usize)
    requires
        start <= s.len(),
    ensures
        start <= end <= s.len(),
        end - start == run_len(s@.skip(start as int), |c: char| crate::text::is_digit(c)),
{
    let mut i = start;
    while i < s.len() && crate::text::digit(s[i])
        invariant
            start <= i <= s.len(),
            forall|k: int| start <= k < i ==> crate::text::is_digit(#[trigger] s@[k]),
        decreases s.len() - i,
    {
        i += 1;
    }
    proof {
        let r = s@.skip(start as int);
        assert forall|k: int| 0 <= k < i - start implies crate::text::is_digit(#[trigger] r[k]) by {
            assert(r[k] == s@[start + k]);
        }
        if i < s.len() {
            assert(r[i - start] == s@[i as int]);
        }
        lemma_run_len(r, |c: char| crate::text::is_digit(c), i - start);
    }
    i
}

fn exponent_ok_exec(l: &[char], from: usize) -> (b: bool)
    requires
        from <= l.len(),
    ensures
        b == exponent_ok(l@.skip(from as int)),
{
    let ghost e = l@.skip(from as int);
    if from == l.len() {
        return true;
    }
    assert(e[0] == l@[from as int]);
    if l[from] != 'e' {
        return false;
    }
    let mut g = from + 1;
    proof {
        assert(e.drop_first() =~= l@.skip(from + 1));
    }
    if g < l.len() && (l[g] == '+' || l[g] == '-') {
        assert(l@.skip(from + 1).drop_first() =~= l@.skip(from + 2));
        g += 1;
    }
    if g >= l.len() {
        assert(l@.skip(g as int).len() == 0);
        return false;
    }
    let mut k = g;
    assert(exponent_ok(e) == (l@.skip(g as int).len() > 0 && all_digits(l@.skip(g as int))));
    while k < l.len()
        invariant
            g <= k <= l.len(),
            g < l.len(),
            exponent_ok(l@.skip(from as int)) == (l@.skip(g as int).len() > 0 && all_digits(l@.skip(g as int))),
            forall|j: int| g <= j < k ==> crate::text::is_digit(#[trigger] l@[j]),
        decreases l.len() - k,
    {
        if !crate::text::digit(l[k]) {
            assert(l@.skip(g as int)[k - g] == l@[k as int]);
            return false;
        }
        k += 1;
    }
    assert forall|j: int| 0 <= j < l@.skip(g as int).len() implies crate::text::is_digit(
        #[trigger] l@.skip(g as int)[j],
    ) by {
        assert(l@.skip(g as int)[j] == l@[g + j]);
    }
    true
}

fn number_literal_exec(l: &[char]) -> (b: bool)
    ensures
        b == number_literal(l@),
{
    let a = digits_end(l, 0);
    assert(l@.skip(0) =~= l@);
    let ghost rest = l@.skip(a as int);
    if a < l.len() && l[a] == '.' {
        assert(rest[0] == l@[a as int]);
        let b = digits_end(l, a + 1);
        assert(rest.drop_first() =~= l@.skip(a + 1));
        assert(rest.skip(1 + (b - (a + 1))) =~= l@.skip(b as int));
        (a > 0 || b > a + 1) && exponent_ok_exec(l, b)
    } else {
        a > 0 && exponent_ok_exec(l, a)
    }
}

/// Whether `f64::from_str` accepts `s` (its documented grammar).
pub fn is_float_literal(s: &[char]) -> (b: bool)
    ensures
        b == float_literal(s@),
{
    let start: usize = if s.len() > 0 && (s[0] == '+' || s[0] == '-') {
        1
    } else {
        0
    };
    let t = slice_vec(s, start, s.len());
    assert(start == 1 ==> t@ =~= s@.drop_first());
    assert(start == 0 ==> t@ =~= s@);
    let l = lower_all(t.as_slice());
    crate::expr::chars_eq(l.as_slice(), "inf") || crate::expr::chars_eq(l.as_slice(), "infinity")
        || crate::expr::chars_eq(l.as_slice(), "nan") || number_literal_exec(l.as_slice())
}

fn escape_single_exec(out: &mut Vec<char>, s: &[char])
    ensures
        final(out)@ == old(out)@ + escape_single(s@),
{
    let mut i: usize = 0;
    while i < s.len()
        invariant
            i <= s.len(),
            out@ == old(out)@ + escape_single(s@.take(i as int)),
        decreases s.len() - i,
    {
        proof {
            lemma_escape_single_push(s@.take(i as int), s@[i as int]);
            assert(s@.take(i + 1) =~= s@.take(i as int).push(s@[i as int]));
        }
        if s[i] == '\'' {
            out.push('\'');
            out.push('\'');
        } else {
            out.push(s[i]);
        }
        assert(out@ =~= old(out)@ + escape_single(s@.take(i + 1)));
        i += 1;
    }
    assert(s@.take(s.len() as int) =~= s@);
}

proof fn lemma_escape_single_push(s: Seq<char>, c: char)
    ensures
        escape_single(s.push(c)) == escape_single(s) + (if c == '\'' {
            seq!['\'', '\'']
        } else {
            seq![c]
        }),
    decreases s.len(),
{
    if s.len() == 0 {
        assert(s.push(c).drop_first() =~= Seq::<char>::empty());
        assert(escape_single(Seq::<char>::empty()) == Seq::<char>::empty());
    } else {
        assert(s.push(c).drop_first() =~= s.drop_first().push(c));
        lemma_escape_single_push(s.drop_first(), c);
    }
}

fn contains_char(s: &[char], c: char) -> (b: bool)
    ensures
        b == s@.contains(c),
{
    let mut i: usize = 0;
    while i < s.len()
        invariant
            i <= s.len(),
            forall|k: int| 0 <= k < i ==> s@[k] != c,
        decreases s.len() - i,
    {
        if s[i] == c {
            return true;
        }
        i += 1;
    }
    false
}

fn has_expr_char(s: &[char]) -> (b: bool)
    ensures
        b == exists|k: int| 0 <= k < s@.len() && expr_char(#[trigger] s@[k]),
{
    let mut i: usize = 0;
    while i < s.len()
        invariant
            i <= s.len(),
            forall|k: int| 0 <= k < i ==> !expr_char(#[trigger] s@[k]),
        decreases s.len() - i,
    {
        let c = s[i];
        if whitespace(c) || c == '+' || c == '-' || c == '*' || c == '/' || c == '(' || c == ')' {
            return true;
        }
        i += 1;
    }
    false
}

fn is_yaml_keyword(l: &[char]) -> (b: bool)
    ensures
        b == yaml_keyword(l@),
{
    crate::expr::chars_eq(l, "true") || crate::expr::chars_eq(l, "false") || crate::expr::chars_eq(
        l,
        "null",
    ) || crate::expr::chars_eq(l, "~")
}

/// Quotes one flow-sequence item when it is an unquoted expression.
pub fn normalize_flow_item(item: &[char]) -> (out: Vec<char>)
    ensures
        out@ == normalize_item(item@),
{
    let (a, b) = trim_bounds(item);
    let t = slice_vec(item, a, b);
    if t.len() == 0 {
        return slice_vec(item, 0, item.len());
    }
    if t[0] == '"' || t[0] == '\'' || t[0] == '[' || t[0] == '{' || contains_char(t.as_slice(), ':') {
        return slice_vec(item, 0, item.len());
    }
    let l = lower_all(t.as_slice());
    if is_yaml_keyword(l.as_slice()) || is_float_literal(t.as_slice()) {
        return slice_vec(item, 0, item.len());
    }
    if !has_expr_char(t.as_slice()) {
        return slice_vec(item, 0, item.len());
    }
    let mut out = slice_vec(item, 0, a);
    out.push('\'');
    escape_single_exec(&mut out, t.as_slice());
    out.push('\'');
    let tail = slice_vec(item, b, item.len());
    extend(&mut out, tail.as_slice());
    assert(item@.take(a as int) =~= item@.subrange(0, a as int));
    assert(item@.skip(item.len() - trailing_ws(item@)) =~= item@.subrange(b as int, item.len() as int));
    out
}

} // verus!

verus! {

/// End (exclusive) of the flow sequence that starts at `start`.
fn extract_end_exec(s: &[char], start: usize) -> (end: usize)
    requires
        start < s.len(),
    ensures
        start < end <= s.len(),
        end - start == extract_len(s@.skip(start as int)),
{
    let ghost rest = s@.skip(start as int);
    let mut i = start;
    let mut depth: usize = 0;
    let mut single = false;
    let mut double = false;
    let mut esc = false;
    proof {
        lemma_extract_len(rest);
    }
    while i < s.len()
        invariant
            start <= i <= s.len(),
            rest == s@.skip(start as int),
            depth <= i,
            extract_len(rest) == extract_end(rest, i - start, depth as nat, single, double, esc),
        decreases s.len() - i,
    {
        let ch = s[i];
        assert(rest[i - start] == ch);
        let esc2 = if double && !esc { ch == '\\' } else { false };
        if !double && ch == '\'' {
            single = !single;
        } else if !single && ch == '"' && !esc2 {
            double = !double;
        }
        esc = esc2;
        if single || double {
            i += 1;
            continue;
        }
        if ch == '[' {
            depth += 1;
        } else if ch == ']' {
            depth = if depth > 0 { depth - 1 } else { 0 };
            if depth == 0 {
                return i + 1;
            }
        }
        i += 1;
    }
    s.len()
}

/// Normalizes the content of a flow sequence `[...]`; other text unchanged.
pub fn normalize_flow_sequence(x: &[char]) -> (out: Vec<char>)
    ensures
        out@ == normalize_seq(x@),
    decreases 2 * x.len(), 0int,
{
    if x.len() >= 2 && x[0] == '[' && x[x.len() - 1] == ']' {
        let inner = slice_vec(x, 1, x.len() - 1);
        let mut out: Vec<char> = Vec::new();
        out.push('[');
        let c = normalize_flow_sequence_content(inner.as_slice());
        extend(&mut out, c.as_slice());
        out.push(']');
        assert(out@ =~= normalize_seq(x@));
        out
    } else {
        slice_vec(x, 0, x.len())
    }
}

/// Normalizes each comma-separated item of a flow sequence's content.
pub fn normalize_flow_sequence_content(c: &[char]) -> (out: Vec<char>)
    ensures
        out@ == content_from(c@, 0, seq![], false, false, false, 0),
    decreases 2 * c.len() + 1, 1int,
{
    let mut out: Vec<char> = Vec::new();
    let mut item: Vec<char> = Vec::new();
    let mut single = false;
    let mut double = false;
    let mut esc = false;
    let mut brace: usize = 0;
    let mut i: usize = 0;
    while i < c.len()
        invariant
            i <= c.len(),
            brace <= i,
            content_from(c@, 0, seq![], false, false, false, 0) == out@ + content_from(
                c@,
                i as int,
                item@,
                single,
                double,
                esc,
                brace as nat,
            ),
        decreases c.len() - i,
    {
        let ch = c[i];
        let esc2 = if double && !esc { ch == '\\' } else { false };
        let ghost o = out@;
        if !double && ch == '\'' {
            single = !single;
            item.push(ch);
            i += 1;
        } else if !single && ch == '"' && !esc2 {
            double = !double;
            item.push(ch);
            i += 1;
        } else if single || double {
            item.push(ch);
            i += 1;
        } else if ch == '[' {
            let end = extract_end_exec(c, i);
            let nested = slice_vec(c, i, end);
            assert(nested@ =~= c@.skip(i as int).take(end - i));
            let norm = normalize_flow_sequence(nested.as_slice());
            extend(&mut item, norm.as_slice());
            i = end;
        } else if ch == '{' {
            brace += 1;
            item.push(ch);
            i += 1;
        } else if ch == '}' {
            brace = if brace > 0 { brace - 1 } else { 0 };
            item.push(ch);
            i += 1;
        } else if ch == ',' && brace == 0 {
            let n = normalize_flow_item(item.as_slice());
            extend(&mut out, n.as_slice());
            out.push(',');
            assert(out@ =~= o + (normalize_item(item@) + seq![',']));
            item = Vec::new();
            i += 1;
        } else {
            item.push(ch);
            i += 1;
        }
        esc = esc2;
    }
    let n = normalize_flow_item(item.as_slice());
    extend(&mut out, n.as_slice());
    out
}

/// Quotes the arithmetic items of every flow sequence of the text, outside
/// quoted text (`a: [-ks * 0.5]` becomes `a: ['-ks * 0.5']`).
pub fn normalize_yaml_flow_sequence_expressions(input: &str) -> (out: String)
    ensures
        out@ == normalize_exprs(input@),
{
    let s = chars_of(input);
    let mut out: Vec<char> = Vec::new();
    let mut single = false;
    let mut double = false;
    let mut esc = false;
    let mut i: usize = 0;
    while i < s.len()
        invariant
            i <= s.len(),
            normalize_exprs(s@) == out@ + exprs_from(s@, i as int, single, double, esc),
        decreases s.len() - i,
    {
        let ch = s[i];
        let esc2 = if double && !esc { ch == '\\' } else { false };
        let ghost o = out@;
        if !double && ch == '\'' {
            single = !single;
            out.push(ch);
            i += 1;
        } else if !single && ch == '"' && !esc2 {
            double = !double;
            out.push(ch);
            i += 1;
        } else if !single && !double && ch == '[' {
            let end = extract_end_exec(s.as_slice(), i);
            let seq = slice_vec(s.as_slice(), i, end);
            assert(seq@ =~= s@.skip(i as int).take(end - i));
            let norm = normalize_flow_sequence(seq.as_slice());
            extend(&mut out, norm.as_slice());
            i = end;
        } else {
            out.push(ch);
            i += 1;
        }
        esc = esc2;
    }
    string_of(out.as_slice())
}

} // verus!

verus! {

/// Text that opens no flow sequence passes the hole normalization
/// unchanged.
pub proof fn law_holes_identity_without_brackets(s: Seq<char>)
    requires
        !s.contains('['),
    ensures
        normalize_holes(s) == s,
        holes_run(s).frames.len() == 0,
    decreases s.len(),
{
    if s.len() > 0 {
        assert(!s.drop_last().contains('[')) by {
            if s.drop_last().contains('[') {
                let k = choose|k: int| 0 <= k < s.drop_last().len() && s.drop_last()[k] == '[';
                assert(s[k] == '[');
            }
        }
        law_holes_identity_without_brackets(s.drop_last());
        assert(s.last() != '[') by {
            assert(s[s.len() - 1] == s.last());
        }
        assert(s.drop_last().push(s.last()) =~= s);
    }
}

/// Quote state of a scan that is outside any flow sequence after reading
/// `s`: (in a single-quoted scalar, in a double-quoted scalar, escape
/// pending).
pub open spec fn quotes_run(s: Seq<char>) -> (bool, bool, bool)
    decreases s.len(),
{
    if s.len() == 0 {
        (false, false, false)
    } else {
        let p = quotes_run(s.drop_last());
        let e = esc_next(p.1, p.2, s.last());
        let q = scalar_quotes_next(p.0, p.1, e, s.last(), starts_token(s.drop_last()));
        (q.0, q.1, e)
    }
}

/// Every `[` of `s` stands inside single or double quotes.
pub open spec fn brackets_all_quoted(s: Seq<char>) -> bool {
    forall|i: int|
        0 <= i < s.len() && s[i] == '[' ==> (#[trigger] quotes_run(s.take(i))).0 || quotes_run(s.take(i)).1
}

/// Text whose every `[` stands inside quotes opens no flow sequence and
/// passes the hole normalization unchanged.
pub proof fn law_holes_identity_quoted_brackets(s: Seq<char>)
    requires
        brackets_all_quoted(s),
    ensures
        normalize_holes(s) == s,
        holes_run(s).frames.len() == 0,
        (holes_run(s).in_single, holes_run(s).in_double, holes_run(s).esc) == quotes_run(s),
    decreases s.len(),
{
    if s.len() > 0 {
        let p = s.drop_last();
        assert forall|i: int| 0 <= i < p.len() && p[i] == '[' implies (#[trigger] quotes_run(p.take(i))).0
            || quotes_run(p.take(i)).1 by {
            assert(p.take(i) =~= s.take(i));
            assert(s[i] == p[i]);
        }
        law_holes_identity_quoted_brackets(p);
        assert(s.take(s.len() - 1) =~= p);
        assert(s[s.len() - 1] == s.last());
        assert(p.push(s.last()) =~= s);
    }
}

proof fn lemma_exprs_identity(s: Seq<char>, i: int, single: bool, double: bool, esc: bool)
    requires
        0 <= i <= s.len(),
        !s.contains('['),
    ensures
        exprs_from(s, i, single, double, esc) == s.skip(i),
    decreases s.len() - i,
{
    if i < s.len() {
        let ch = s[i];
        let esc2 = esc_next(double, esc, ch);
        assert(ch != '[');
        if !double && ch == '\'' {
            lemma_exprs_identity(s, i + 1, !single, double, esc2);
        } else if !single && ch == '"' && !esc2 {
            lemma_exprs_identity(s, i + 1, single, !double, esc2);
        } else {
            lemma_exprs_identity(s, i + 1, single, double, esc2);
        }
        assert(seq![ch] + s.skip(i + 1) =~= s.skip(i));
    } else {
        assert(s.skip(i) =~= Seq::<char>::empty());
    }
}

/// Text that opens no flow sequence passes the expression normalization
/// unchanged.
pub proof fn law_exprs_identity_without_brackets(s: Seq<char>)
    requires
        !s.contains('['),
    ensures
        normalize_exprs(s) == s,
{
    lemma_exprs_identity(s, 0, false, false, false);
    assert(s.skip(0) =~= s);
}

/// The text normalization that precedes YAML parsing: expression items
/// quoted first, then holes filled.
pub open spec fn normalize_yaml(s: Seq<char>) -> Seq<char> {
    normalize_holes(normalize_exprs(s))
}

/// Prepares YAML text for the parser: quotes arithmetic flow-sequence items,
/// then fills holes and drops trailing commas.
pub fn normalize_yaml_text(input: &str) -> (out: String)
    ensures
        out@ == normalize_yaml(input@),
{
    let e = normalize_yaml_flow_sequence_expressions(input);
    normalize_yaml_flow_sequence_holes(e.as_str())
}

} // verus!
