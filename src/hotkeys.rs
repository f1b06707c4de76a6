//! The canonical spelling of a global hotkey, under which key combinations
//! are stored and looked up.

use crate::text::{lower_of, str_eq, to_lower};
use vstd::prelude::*;

verus! {

/// Whether a character has the Unicode `White_Space` property, which is
/// what `char::is_whitespace` tests.
pub open spec fn is_white(c: char) -> bool {
    let v = c as u32;
    ||| 0x9 <= v <= 0xd
    ||| v == 0x20
    ||| v == 0x85
    ||| v == 0xa0
    ||| v == 0x1680
    ||| 0x2000 <= v <= 0x200a
    ||| v == 0x2028
    ||| v == 0x2029
    ||| v == 0x202f
    ||| v == 0x205f
    ||| v == 0x3000
}

/// What `char::to_uppercase` makes of a character.
pub uninterp spec fn upper_of(c: char) -> Seq<char>;

/// Whether a character is white space.
fn white(c: char) -> (r: bool)
    ensures
        r == is_white(c),
{
    let v = c as u32;
    (0x9 <= v && v <= 0xd) || v == 0x20 || v == 0x85 || v == 0xa0 || v == 0x1680 || (0x2000 <= v && v <= 0x200a)
        || v == 0x2028 || v == 0x2029 || v == 0x202f || v == 0x205f || v == 0x3000
}

/// How many white-space characters `s` starts with.
pub open spec fn leading_white(s: Seq<char>) -> nat
    decreases s.len(),
{
    if s.len() > 0 && is_white(s[0]) { 1 + leading_white(s.drop_first()) } else { 0 }
}

/// How many white-space characters `s` ends with.
pub open spec fn trailing_white(s: Seq<char>) -> nat
    decreases s.len(),
{
    if s.len() > 0 && is_white(s.last()) { 1 + trailing_white(s.drop_last()) } else { 0 }
}

/// `s` without its leading and trailing white space, as `str::trim` gives it.
pub open spec fn trim_of(s: Seq<char>) -> Seq<char> {
    let t = s.subrange(leading_white(s) as int, s.len() as int);
    t.subrange(0, t.len() - trailing_white(t))
}

/// `s` without its leading and trailing white space.
pub fn trim(s: &str) -> (r: &str)
    ensures
        r@ == trim_of(s@),
{
    let n = s.unicode_len();
    let mut a: usize = 0;
    proof {
        assert(s@.subrange(0, n as int) =~= s@);
    }
    while a < n && white(s.get_char(a))
        invariant
            n == s@.len(),
            a <= n,
            leading_white(s@) == a + leading_white(s@.subrange(a as int, n as int)),
        decreases n - a,
    {
        proof {
            assert(s@.subrange(a as int, n as int).drop_first() =~= s@.subrange(a + 1, n as int));
        }
        a = a + 1;
    }
    proof {
        if a < n {
            assert(s@.subrange(a as int, n as int)[0] == s@[a as int]);
        }
        assert(leading_white(s@) == a);
    }
    let ghost t = s@.subrange(a as int, n as int);
    let mut b: usize = n;
    proof {
        assert(s@.subrange(a as int, b as int) == t);
    }
    while b > a && white(s.get_char(b - 1))
        invariant
            n == s@.len(),
            a <= b <= n,
            t == s@.subrange(a as int, n as int),
            trailing_white(t) == (n - b) + trailing_white(s@.subrange(a as int, b as int)),
        decreases b - a,
    {
        proof {
            assert(s@.subrange(a as int, b as int).drop_last() =~= s@.subrange(a as int, b - 1));
        }
        b = b - 1;
    }
    proof {
        if b > a {
            assert(s@.subrange(a as int, b as int).last() == s@[b - 1]);
        }
        assert(trailing_white(t) == n - b);
        assert(t.subrange(0, t.len() - trailing_white(t)) =~= s@.subrange(a as int, b as int));
    }
    s.substring_char(a, b)
}

/// Relies on `char::to_uppercase`: the uppercase form of one character,
/// which may be several characters long.
#[verifier::external_body]
fn upper_char(c: char) -> (r: String)
    ensures
        r@ == upper_of(c),
{
    c.to_uppercase().collect()
}

/// The pieces of `s` between the `+` signs, as `str::split('+')` gives them:
/// one piece more than there are signs, empty ones included.
pub open spec fn split_plus(s: Seq<char>) -> Seq<Seq<char>>
    decreases s.len(),
{
    if s.len() == 0 {
        seq![Seq::<char>::empty()]
    } else {
        let p = split_plus(s.drop_last());
        if s.last() == '+' {
            p.push(Seq::<char>::empty())
        } else {
            p.update(p.len() - 1, p.last().push(s.last()))
        }
    }
}

/// The pieces joined with `+` between each two.
pub open spec fn join_plus(parts: Seq<Seq<char>>) -> Seq<char>
    decreases parts.len(),
{
    if parts.len() == 0 {
        Seq::<char>::empty()
    } else if parts.len() == 1 {
        parts[0]
    } else {
        join_plus(parts.drop_last()) + seq!['+'] + parts.last()
    }
}

/// A key name with its first character in uppercase.
pub open spec fn capitalized(s: Seq<char>) -> Seq<char> {
    if s.len() == 0 {
        s
    } else {
        upper_of(s[0]) + s.drop_first()
    }
}

/// The stored spelling of a key given in lowercase: modifiers and the
/// numeric keypad's keys by their fixed names, any other key capitalized.
pub open spec fn key_name(lower: Seq<char>) -> Seq<char> {
    if lower == "control"@ { "Ctrl"@ }
    else if lower == "alt"@ { "Alt"@ }
    else if lower == "shift"@ { "Shift"@ }
    else if lower == "meta"@ { "Super"@ }
    else if lower == "numpad0"@ { "NumPad0"@ }
    else if lower == "numpad1"@ { "NumPad1"@ }
    else if lower == "numpad2"@ { "NumPad2"@ }
    else if lower == "numpad3"@ { "NumPad3"@ }
    else if lower == "numpad4"@ { "NumPad4"@ }
    else if lower == "numpad5"@ { "NumPad5"@ }
    else if lower == "numpad6"@ { "NumPad6"@ }
    else if lower == "numpad7"@ { "NumPad7"@ }
    else if lower == "numpad8"@ { "NumPad8"@ }
    else if lower == "numpad9"@ { "NumPad9"@ }
    else if lower == "numpaddecimal"@ { "NumPadDecimal"@ }
    else if lower == "numpadenter"@ { "NumPadEnter"@ }
    else if lower == "numpadadd"@ { "NumPadAdd"@ }
    else if lower == "numpadsubtract"@ { "NumPadSubtract"@ }
    else if lower == "numpadmultiply"@ { "NumPadMultiply"@ }
    else if lower == "numpaddivide"@ { "NumPadDivide"@ }
    else { capitalized(lower) }
}

/// The stored spelling of one piece of a hotkey.
pub open spec fn normalized_key(part: Seq<char>) -> Seq<char> {
    key_name(lower_of(trim_of(part)))
}

/// The stored spelling of a hotkey: each piece between `+` signs trimmed,
/// lowercased and named as `key_name` says, joined again with `+`.
pub open spec fn normalized_hotkey(s: Seq<char>) -> Seq<char> {
    join_plus(split_plus(s).map_values(|p: Seq<char>| normalized_key(p)))
}

fn fixed_key_name(lower: &str) -> (r: Option<&'static str>)
    ensures
        r matches Some(n) ==> n@ == key_name(lower@),
        r is None ==> key_name(lower@) == capitalized(lower@),
{
    if str_eq(lower, "control") { Some("Ctrl") }
    else if str_eq(lower, "alt") { Some("Alt") }
    else if str_eq(lower, "shift") { Some("Shift") }
    else if str_eq(lower, "meta") { Some("Super") }
    else if str_eq(lower, "numpad0") { Some("NumPad0") }
    else if str_eq(lower, "numpad1") { Some("NumPad1") }
    else if str_eq(lower, "numpad2") { Some("NumPad2") }
    else if str_eq(lower, "numpad3") { Some("NumPad3") }
    else if str_eq(lower, "numpad4") { Some("NumPad4") }
    else if str_eq(lower, "numpad5") { Some("NumPad5") }
    else if str_eq(lower, "numpad6") { Some("NumPad6") }
    else if str_eq(lower, "numpad7") { Some("NumPad7") }
    else if str_eq(lower, "numpad8") { Some("NumPad8") }
    else if str_eq(lower, "numpad9") { Some("NumPad9") }
    else if str_eq(lower, "numpaddecimal") { Some("NumPadDecimal") }
    else if str_eq(lower, "numpadenter") { Some("NumPadEnter") }
    else if str_eq(lower, "numpadadd") { Some("NumPadAdd") }
    else if str_eq(lower, "numpadsubtract") { Some("NumPadSubtract") }
    else if str_eq(lower, "numpadmultiply") { Some("NumPadMultiply") }
    else if str_eq(lower, "numpaddivide") { Some("NumPadDivide") }
    else { None }
}

/// The stored spelling of a key given in lowercase (see `key_name`).
pub fn stored_key_name(lower: &str) -> (r: String)
    ensures
        r@ == key_name(lower@),
{
    match fixed_key_name(lower) {
        Some(name) => String::from_str(name),
        None => {
            let n = lower.unicode_len();
            if n == 0 {
                String::from_str(lower)
            } else {
                let mut out = upper_char(lower.get_char(0));
                out.append(lower.substring_char(1, n));
                proof {
                    assert(lower@.subrange(1, n as int) =~= lower@.drop_first());
                }
                out
            }
        },
    }
}

fn normalize_key(part: &str) -> (r: String)
    ensures
        r@ == normalized_key(part@),
{
    let lower = to_lower(trim(part));
    stored_key_name(lower.as_str())
}

proof fn lemma_split_step(s: Seq<char>, j: int)
    requires
        0 <= j < s.len(),
    ensures
        split_plus(s.subrange(0, j + 1)) == if s[j] == '+' {
            split_plus(s.subrange(0, j)).push(Seq::<char>::empty())
        } else {
            let p = split_plus(s.subrange(0, j));
            p.update(p.len() - 1, p.last().push(s[j]))
        },
{
    assert(s.subrange(0, j + 1).drop_last() =~= s.subrange(0, j));
}

/// The stored spelling of a hotkey (see `normalized_hotkey`).
pub fn normalize_hotkey_string(hotkey: &str) -> (r: String)
    ensures
        r@ == normalized_hotkey(hotkey@),
{
    let n = hotkey.unicode_len();
    let mut out = String::new();
    let mut start: usize = 0;
    let mut j: usize = 0;
    let mut any_done = false;
    let ghost done: Seq<Seq<char>> = Seq::empty();
    proof {
        assert(hotkey@.subrange(0, 0) =~= Seq::<char>::empty());
    }
    while j < n
        invariant
            n == hotkey@.len(),
            start <= j <= n,
            any_done == (done.len() > 0),
            split_plus(hotkey@.subrange(0, j as int)) == done.push(hotkey@.subrange(start as int, j as int)),
            out@ == join_plus(done.map_values(|p: Seq<char>| normalized_key(p))),
        decreases n - j,
    {
        proof {
            lemma_split_step(hotkey@, j as int);
        }
        if hotkey.get_char(j) == '+' {
            let piece = normalize_key(hotkey.substring_char(start, j));
            let ghost before = done.map_values(|p: Seq<char>| normalized_key(p));
            if any_done {
                proof {
                    reveal_strlit("+");
                }
                out.append("+");
            }
            out.append(piece.as_str());
            proof {
                let seg = hotkey@.subrange(start as int, j as int);
                let nd = done.push(seg);
                let after = nd.map_values(|p: Seq<char>| normalized_key(p));
                assert(after.drop_last() =~= before);
                assert(after.last() == normalized_key(seg));
                if done.len() == 0 {
                    assert(after.len() == 1);
                } else {
                    assert(after.len() > 1);
                }
                done = nd;
            }
            any_done = true;
            start = j + 1;
            proof {
                assert(hotkey@.subrange(start as int, j + 1) =~= Seq::<char>::empty());
            }
        } else {
            proof {
                assert(hotkey@.subrange(start as int, j + 1) =~= hotkey@.subrange(start as int, j as int).push(hotkey@[j as int]));
            }
        }
        j = j + 1;
    }
    let last = normalize_key(hotkey.substring_char(start, n));
    let ghost before = done.map_values(|p: Seq<char>| normalized_key(p));
    if any_done {
        proof {
            reveal_strlit("+");
        }
        out.append("+");
    }
    out.append(last.as_str());
    proof {
        assert(hotkey@.subrange(0, n as int) =~= hotkey@);
        let seg = hotkey@.subrange(start as int, n as int);
        let nd = done.push(seg);
        let after = nd.map_values(|p: Seq<char>| normalized_key(p));
        assert(after.drop_last() =~= before);
        if done.len() == 0 {
            assert(after.len() == 1);
            assert(out@ =~= after[0]);
        } else {
            assert(after.len() > 1);
        }
    }
    out
}

} // verus!
