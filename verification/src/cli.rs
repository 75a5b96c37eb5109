//! The decisions of the command line tool: whether an argument list names
//! its subcommand, which bundle file holds the configuration, and how a
//! color is written.
use vstd::prelude::*;
use crate::expr::str_to_string;
use vstd::string::StringSliceAdditionalSpecFns;

verus! {

/// Whether the first argument that is not an option (options end at `--`)
/// is something other than a subcommand, scanning from index `i`.
pub open spec fn insert_render_from(args: Seq<Seq<char>>, i: int, saw_dd: bool) -> bool
    decreases args.len() - i,
{
    if i < 0 || i >= args.len() {
        false
    } else {
        let s = args[i];
        if !saw_dd && s == "--"@ {
            insert_render_from(args, i + 1, true)
        } else if !saw_dd && s.len() > 0 && s[0] == '-' {
            insert_render_from(args, i + 1, saw_dd)
        } else {
            !(s == "render"@ || s == "dxf2png"@)
        }
    }
}

/// Whether `render` must be inserted as the subcommand: the first argument
/// after the program name that is not an option is not a subcommand.
pub fn should_insert_render(args: &[String]) -> (b: bool)
    ensures
        b == insert_render_from(crate::jscad::string_views(args@), 1, false),
{
    let ghost av = crate::jscad::string_views(args@);
    let mut saw_dd = false;
    let mut i: usize = 1;
    if args.len() == 0 {
        return false;
    }
    while i < args.len()
        invariant
            1 <= i <= args.len(),
            av == crate::jscad::string_views(args@),
            insert_render_from(av, 1, false) == insert_render_from(av, i as int, saw_dd),
        decreases args.len() - i,
    {
        let s = crate::text::chars_of(args[i].as_str());
        assert(av[i as int] == s@);
        if !saw_dd && crate::expr::chars_eq(s.as_slice(), "--") {
            saw_dd = true;
            i += 1;
            continue;
        }
        if !saw_dd && s.len() > 0 && s[0] == '-' {
            i += 1;
            continue;
        }
        return !(crate::expr::chars_eq(s.as_slice(), "render") || crate::expr::chars_eq(
            s.as_slice(),
            "dxf2png",
        ));
    }
    false
}

/// The configuration file of a bundle directory, given which of
/// `config.yaml` and `config.yml` exist: the one that exists; both or
/// neither is an error.
pub fn find_bundle_config(has_yaml: bool, has_yml: bool) -> (r: Result<String, String>)
    ensures
        has_yaml && has_yml ==> (r matches Err(m) && m@ == "Ambiguous config in bundle!"@),
        has_yaml && !has_yml ==> (r matches Ok(n) && n@ == "config.yaml"@),
        !has_yaml && has_yml ==> (r matches Ok(n) && n@ == "config.yml"@),
        !has_yaml && !has_yml ==> (r matches Err(m) && m@
            == "Missing config in bundle (expected config.yaml or config.yml)"@),
{
    if has_yaml && has_yml {
        Err(str_to_string("Ambiguous config in bundle!"))
    } else if has_yaml {
        Ok(str_to_string("config.yaml"))
    } else if has_yml {
        Ok(str_to_string("config.yml"))
    } else {
        Err(str_to_string("Missing config in bundle (expected config.yaml or config.yml)"))
    }
}

/// The value of a hexadecimal digit byte.
pub open spec fn hex_digit_value(c: u8) -> Option<int> {
    if 48 <= c <= 57 {
        Some(c - 48)
    } else if 97 <= c <= 102 {
        Some(c - 87)
    } else if 65 <= c <= 70 {
        Some(c - 55)
    } else {
        None
    }
}

/// The component at bytes `i`, `i + 1` read as `u8::from_str_radix(_, 16)`
/// does: two hex digits, or `+` and one hex digit.
pub open spec fn component(h: Seq<u8>, i: int) -> Option<u8> {
    let a = h[i];
    let b = h[i + 1];
    if a == 43 {
        match hex_digit_value(b) {
            Some(y) => Some(y as u8),
            None => None,
        }
    } else {
        match (hex_digit_value(a), hex_digit_value(b)) {
            (Some(x), Some(y)) => Some((16 * x + y) as u8),
            _ => None,
        }
    }
}

/// `s` without its leading `#` bytes.
pub open spec fn strip_hashes(s: Seq<u8>) -> Seq<u8>
    decreases s.len(),
{
    if s.len() > 0 && s[0] == 35 {
        strip_hashes(s.drop_first())
    } else {
        s
    }
}

/// A UTF-8 continuation byte: no character starts there.
pub open spec fn continuation(b: u8) -> bool {
    128 <= b < 192
}

/// The inputs on which reading a color slices a character apart: a
/// component's end falls inside a character before an error stops the
/// reading.
pub open spec fn color_slice_breaks(h: Seq<u8>) -> bool {
    (h.len() == 6 || h.len() == 8) && (continuation(h[2]) || (component(h, 0) is Some && (
    continuation(h[4]) || (component(h, 2) is Some && continuation(h[6]) && h.len() == 8))))
}

/// A color `#rrggbb` or `#rrggbbaa` (any number of leading `#`), with the
/// components read as hexadecimal and alpha 255 when absent.
pub fn parse_hex_color(hex: &str) -> (r: Result<[u8; 4], String>)
    requires
        !color_slice_breaks(strip_hashes(hex.spec_bytes())),
    ensures
        ({
            let h = strip_hashes(hex.spec_bytes());
            if h.len() != 6 && h.len() != 8 {
                r matches Err(m) && m@ == "expected 6 or 8 hex digits"@
            } else if component(h, 0) is None {
                r matches Err(m) && m@ == "invalid red component"@
            } else if component(h, 2) is None {
                r matches Err(m) && m@ == "invalid green component"@
            } else if component(h, 4) is None {
                r matches Err(m) && m@ == "invalid blue component"@
            } else if h.len() == 8 && component(h, 6) is None {
                r matches Err(m) && m@ == "invalid alpha component"@
            } else {
                r matches Ok(c) && c[0] == component(h, 0)->0 && c[1] == component(h, 2)->0 && c[2]
                    == component(h, 4)->0 && c[3] == (if h.len() == 8 {
                    component(h, 6)->0
                } else {
                    255u8
                })
            }
        }),
{
    let b = hex.as_bytes();
    let mut t: usize = 0;
    assert(b@.skip(0) =~= b@);
    while t < b.len() && b[t] == 35
        invariant
            t <= b.len(),
            strip_hashes(b@) == strip_hashes(b@.skip(t as int)),
        decreases b.len() - t,
    {
        assert(b@.skip(t as int).drop_first() =~= b@.skip(t + 1));
        t += 1;
    }
    let ghost h = b@.skip(t as int);
    assert(strip_hashes(h) == h);
    let n = b.len() - t;
    if n != 6 && n != 8 {
        return Err(str_to_string("expected 6 or 8 hex digits"));
    }
    let red = match component_exec(b, t) {
        Some(v) => v,
        None => {
            return Err(str_to_string("invalid red component"));
        },
    };
    let green = match component_exec(b, t + 2) {
        Some(v) => v,
        None => {
            return Err(str_to_string("invalid green component"));
        },
    };
    let blue = match component_exec(b, t + 4) {
        Some(v) => v,
        None => {
            return Err(str_to_string("invalid blue component"));
        },
    };
    let alpha = if n == 8 {
        match component_exec(b, t + 6) {
            Some(v) => v,
            None => {
                return Err(str_to_string("invalid alpha component"));
            },
        }
    } else {
        255u8
    };
    Ok([red, green, blue, alpha])
}

fn hex_digit_exec(c: u8) -> (r: Option<u8>)
    ensures
        match hex_digit_value(c) {
            Some(v) => r == Some(v as u8),
            None => r is None,
        },
{
    if 48 <= c && c <= 57 {
        Some(c - 48)
    } else if 97 <= c && c <= 102 {
        Some(c - 87)
    } else if 65 <= c && c <= 70 {
        Some(c - 55)
    } else {
        None
    }
}

fn component_exec(b: &[u8], i: usize) -> (r: Option<u8>)
    requires
        i + 1 < b.len(),
    ensures
        r == component(b@.skip(i as int), 0),
{
    let ghost h = b@.skip(i as int);
    assert(h[0] == b@[i as int] && h[1] == b@[i + 1]);
    if b[i] == 43 {
        return hex_digit_exec(b[i + 1]);
    }
    match (hex_digit_exec(b[i]), hex_digit_exec(b[i + 1])) {
        (Some(x), Some(y)) => Some(16 * x + y),
        _ => None,
    }
}

} // verus!

verus! {

use crate::value::{get_path_spec, path_segments, table_view, vview, Value, ValueView};

/// The names an output section defines: the keys of the mapping at `key`,
/// in order, without those starting with `_` unless debugging.
pub open spec fn section_names(v: ValueView, key: Seq<char>, debug: bool) -> Seq<Seq<char>> {
    match get_path_spec(v, path_segments(key)) {
        Some(ValueView::Table(m)) => m.map_values(|e: (Seq<char>, ValueView)| e.0).filter(
            |n: Seq<char>| debug || !(n.len() > 0 && n[0] == '_'),
        ),
        _ => seq![],
    }
}

/// The names defined under `key` (outlines, pcbs or cases) that are
/// rendered.
pub fn collect_names(canonical: &Value, key: &str, debug: bool) -> (r: Vec<String>)
    ensures
        crate::jscad::string_views(r@) == section_names(vview(*canonical), key@, debug),
{
    let entries = match canonical.get_path(key) {
        Some(Value::Mapping(m)) => m,
        _ => {
            let out: Vec<String> = Vec::new();
            assert(crate::jscad::string_views(out@) =~= Seq::<Seq<char>>::empty());
            return out;
        },
    };
    let ghost keys = table_view(entries@).map_values(|e: (Seq<char>, ValueView)| e.0);
    let ghost keep = |n: Seq<char>| debug || !(n.len() > 0 && n[0] == '_');
    proof {
        crate::value::lemma_table_view(entries@);
    }
    let mut out: Vec<String> = Vec::new();
    let mut i: usize = 0;
    assert(keys.take(0) =~= Seq::<Seq<char>>::empty());
    assert(keys.take(0).filter(keep) =~= Seq::<Seq<char>>::empty()) by {
        reveal(Seq::filter);
    }
    while i < entries.len()
        invariant
            i <= entries.len(),
            keys.len() == entries@.len(),
            forall|q: int| 0 <= q < entries@.len() ==> #[trigger] keys[q] == entries@[q].0@,
            keep == (|n: Seq<char>| debug || !(n.len() > 0 && n[0] == '_')),
            crate::jscad::string_views(out@) == keys.take(i as int).filter(keep),
        decreases entries.len() - i,
    {
        let k = &entries[i].0;
        let kv = crate::text::chars_of(k.as_str());
        let ghost before = crate::jscad::string_views(out@);
        assert(keys.take(i + 1).drop_last() =~= keys.take(i as int));
        assert(keys.take(i + 1).last() == k@);
        assert(keys.take(i + 1).filter(keep) == if keep(k@) {
            keys.take(i as int).filter(keep).push(k@)
        } else {
            keys.take(i as int).filter(keep)
        }) by {
            reveal(Seq::filter);
        }
        if debug || !(kv.len() > 0 && kv[0] == '_') {
            out.push(k.clone());
            assert(crate::jscad::string_views(out@) =~= before.push(k@));
        } else {
            assert(crate::jscad::string_views(out@) =~= before);
        }
        i += 1;
    }
    assert(keys.take(entries.len() as int) =~= keys);
    out
}

} // verus!
