//! Reading and writing JSON text.
//!
//! The writer produces the pretty-printed form the store keeps on disk:
//! two-space indentation, one member or element per line, `": "` after keys.
//! The reader accepts standard JSON with two restrictions: an escaped
//! surrogate pair is rejected (characters outside the basic plane are read
//! and written raw), and a document longer than `parse_limit` characters is
//! rejected so the reader's walk budget always fits a machine word.  Both
//! directions are specified exactly: the writer's output and the reader's
//! result are stated by spec functions over the character sequence.

use vstd::prelude::*;

use crate::json::{Json, JsonV};

verus! {

broadcast use vstd::seq::group_seq_axioms, vstd::std_specs::vec::group_vec_axioms;

/// Indentation never deepens past this many levels, so the writer's level
/// counter cannot overflow; the text stays valid JSON at any depth.
pub open spec fn indent_cap() -> nat {
    64
}

/// The child level of a level: one deeper, up to the cap.
pub open spec fn bump(ind: nat) -> nat {
    if ind < indent_cap() {
        ind + 1
    } else {
        ind
    }
}

/// Two spaces for each indentation level.
pub open spec fn spaces(ind: nat) -> Seq<char>
    decreases ind,
{
    if ind == 0 {
        Seq::empty()
    } else {
        spaces((ind - 1) as nat) + seq![' ', ' ']
    }
}

/// The lower-case hexadecimal digit for a value below sixteen.
pub open spec fn hex_digit(n: u32) -> char {
    if n == 0 {
        '0'
    } else if n == 1 {
        '1'
    } else if n == 2 {
        '2'
    } else if n == 3 {
        '3'
    } else if n == 4 {
        '4'
    } else if n == 5 {
        '5'
    } else if n == 6 {
        '6'
    } else if n == 7 {
        '7'
    } else if n == 8 {
        '8'
    } else if n == 9 {
        '9'
    } else if n == 10 {
        'a'
    } else if n == 11 {
        'b'
    } else if n == 12 {
        'c'
    } else if n == 13 {
        'd'
    } else if n == 14 {
        'e'
    } else {
        'f'
    }
}

/// How one character appears inside a written string: quote and backslash
/// are escaped, control characters take their short escape or a `\u00..`
/// form, everything else stands as itself.
pub open spec fn esc_char(c: char) -> Seq<char> {
    if c == '"' {
        seq!['\\', '"']
    } else if c == '\\' {
        seq!['\\', '\\']
    } else if c == '\u{8}' {
        seq!['\\', 'b']
    } else if c == '\u{c}' {
        seq!['\\', 'f']
    } else if c == '\n' {
        seq!['\\', 'n']
    } else if c == '\r' {
        seq!['\\', 'r']
    } else if c == '\t' {
        seq!['\\', 't']
    } else if (c as u32) < 0x20 {
        seq!['\\', 'u', '0', '0', hex_digit((c as u32) / 16), hex_digit((c as u32) % 16)]
    } else {
        seq![c]
    }
}

/// A whole string's escaped form.
pub open spec fn esc_str(s: Seq<char>) -> Seq<char>
    decreases s.len(),
{
    if s.len() == 0 {
        Seq::empty()
    } else {
        esc_str(s.drop_last()) + esc_char(s.last())
    }
}

/// The written form of a value at an indentation level.
pub open spec fn pr_value(v: JsonV, ind: nat) -> Seq<char>
    decreases v,
{
    match v {
        JsonV::Null => seq!['n', 'u', 'l', 'l'],
        JsonV::Bool(b) => if b {
            seq!['t', 'r', 'u', 'e']
        } else {
            seq!['f', 'a', 'l', 's', 'e']
        },
        JsonV::Num(s) => s,
        JsonV::Str(s) => seq!['"'] + esc_str(s) + seq!['"'],
        JsonV::Arr(items) => if items.len() == 0 {
            seq!['[', ']']
        } else {
            seq!['['] + pr_items(items, bump(ind)) + seq!['\n'] + spaces(ind) + seq![']']
        },
        JsonV::Obj(members) => if members.len() == 0 {
            seq!['{', '}']
        } else {
            seq!['{'] + pr_members(members, bump(ind)) + seq!['\n'] + spaces(ind) + seq!['}']
        },
    }
}

/// The written elements of a non-empty array: each on its own line, commas
/// between.
pub open spec fn pr_items(items: Seq<JsonV>, ind: nat) -> Seq<char>
    decreases items,
{
    if items.len() == 0 {
        Seq::empty()
    } else {
        seq!['\n'] + spaces(ind) + pr_value(items[0], ind) + (if items.len() > 1 {
            seq![','] + pr_items(items.drop_first(), ind)
        } else {
            Seq::empty()
        })
    }
}

/// The written members of a non-empty object: `"key": value`, each on its
/// own line, commas between.
pub open spec fn pr_members(members: Seq<(Seq<char>, JsonV)>, ind: nat) -> Seq<char>
    decreases members,
{
    if members.len() == 0 {
        Seq::empty()
    } else {
        seq!['\n'] + spaces(ind) + seq!['"'] + esc_str(members[0].0) + seq!['"', ':', ' ']
            + pr_value(members[0].1, ind) + (if members.len() > 1 {
            seq![','] + pr_members(members.drop_first(), ind)
        } else {
            Seq::empty()
        })
    }
}

/// The document written for a value: the value at the outermost level.
pub open spec fn spec_print(v: JsonV) -> Seq<char> {
    pr_value(v, 0)
}

/// Relies on `String: FromIterator<char>`: collecting characters yields the
/// string of exactly those characters, in order.
#[verifier::external_body]
pub(crate) fn chars_to_string(v: &Vec<char>) -> (r: String)
    ensures
        r@ == v@,
{
    v.iter().collect()
}

/// The lower-case hexadecimal digit for a value below sixteen.
fn hex_digit_char(n: u32) -> (r: char)
    requires
        n < 16,
    ensures
        r == hex_digit(n),
{
    if n == 0 {
        '0'
    } else if n == 1 {
        '1'
    } else if n == 2 {
        '2'
    } else if n == 3 {
        '3'
    } else if n == 4 {
        '4'
    } else if n == 5 {
        '5'
    } else if n == 6 {
        '6'
    } else if n == 7 {
        '7'
    } else if n == 8 {
        '8'
    } else if n == 9 {
        '9'
    } else if n == 10 {
        'a'
    } else if n == 11 {
        'b'
    } else if n == 12 {
        'c'
    } else if n == 13 {
        'd'
    } else if n == 14 {
        'e'
    } else {
        'f'
    }
}

/// Append the indentation for a level.
fn push_spaces(out: &mut Vec<char>, ind: usize)
    ensures
        final(out)@ == old(out)@ + spaces(ind as nat),
{
    let mut i: usize = 0;
    while i < ind
        invariant
            i <= ind,
            out@ == old(out)@ + spaces(i as nat),
        decreases ind - i,
    {
        out.push(' ');
        out.push(' ');
        i = i + 1;
        proof {
            assert(spaces(i as nat) == spaces((i - 1) as nat) + seq![' ', ' ']);
            assert(out@ =~= old(out)@ + spaces(i as nat));
        }
    }
}

/// Append one character's escaped form.
fn push_esc_char(out: &mut Vec<char>, c: char)
    ensures
        final(out)@ == old(out)@ + esc_char(c),
{
    if c == '"' {
        out.push('\\');
        out.push('"');
    } else if c == '\\' {
        out.push('\\');
        out.push('\\');
    } else if c == '\u{8}' {
        out.push('\\');
        out.push('b');
    } else if c == '\u{c}' {
        out.push('\\');
        out.push('f');
    } else if c == '\n' {
        out.push('\\');
        out.push('n');
    } else if c == '\r' {
        out.push('\\');
        out.push('r');
    } else if c == '\t' {
        out.push('\\');
        out.push('t');
    } else if (c as u32) < 0x20 {
        out.push('\\');
        out.push('u');
        out.push('0');
        out.push('0');
        out.push(hex_digit_char((c as u32) / 16));
        out.push(hex_digit_char((c as u32) % 16));
    } else {
        out.push(c);
    }
    proof {
        assert(out@ =~= old(out)@ + esc_char(c));
    }
}

/// Append a string's escaped form, without the surrounding quotes.
fn push_esc_str(out: &mut Vec<char>, s: &String)
    ensures
        final(out)@ == old(out)@ + esc_str(s@),
{
    let st = s.as_str();
    let n = st.unicode_len();
    let mut i: usize = 0;
    while i < n
        invariant
            i <= n,
            n == s@.len(),
            st@ == s@,
            out@ == old(out)@ + esc_str(s@.take(i as int)),
        decreases n - i,
    {
        let c = st.get_char(i);
        push_esc_char(out, c);
        i = i + 1;
        proof {
            let t = s@.take(i as int);
            assert(t.drop_last() =~= s@.take(i - 1));
            assert(t.last() == s@[i - 1]);
            assert(esc_str(t) == esc_str(s@.take(i - 1)) + esc_char(s@[i - 1]));
            assert(out@ =~= old(out)@ + esc_str(t));
        }
    }
    proof {
        assert(s@.take(n as int) =~= s@);
    }
}

/// Append every character of a string as it stands.
pub(crate) fn push_str_chars(out: &mut Vec<char>, s: &String)
    ensures
        final(out)@ == old(out)@ + s@,
{
    let st = s.as_str();
    let n = st.unicode_len();
    let mut i: usize = 0;
    while i < n
        invariant
            i <= n,
            n == s@.len(),
            st@ == s@,
            out@ == old(out)@ + s@.take(i as int),
        decreases n - i,
    {
        let c = st.get_char(i);
        out.push(c);
        i = i + 1;
        proof {
            assert(s@.take(i as int) =~= s@.take(i - 1).push(s@[i - 1]));
            assert(out@ =~= old(out)@ + s@.take(i as int));
        }
    }
    proof {
        assert(s@.take(n as int) =~= s@);
    }
}

/// Append a value's written form at a level.
#[verifier::rlimit(50)]
fn write_value(j: &Json, ind: usize, out: &mut Vec<char>)
    requires
        ind <= indent_cap(),
    ensures
        final(out)@ == old(out)@ + pr_value(j.view(), ind as nat),
    decreases *j, 0int,
{
    match j {
        Json::Null => {
            out.push('n');
            out.push('u');
            out.push('l');
            out.push('l');
            proof {
                assert(out@ =~= old(out)@ + pr_value(j.view(), ind as nat));
            }
        },
        Json::Bool(b) => {
            if *b {
                out.push('t');
                out.push('r');
                out.push('u');
                out.push('e');
            } else {
                out.push('f');
                out.push('a');
                out.push('l');
                out.push('s');
                out.push('e');
            }
            proof {
                assert(out@ =~= old(out)@ + pr_value(j.view(), ind as nat));
            }
        },
        Json::Num(s) => {
            push_str_chars(out, s);
        },
        Json::Str(s) => {
            out.push('"');
            push_esc_str(out, s);
            out.push('"');
            proof {
                assert(out@ =~= old(out)@ + pr_value(j.view(), ind as nat));
            }
        },
        Json::Arr(items) => {
            let child = if ind < 64 {
                ind + 1
            } else {
                ind
            };
            if items.len() == 0 {
                out.push('[');
                out.push(']');
            } else {
                out.push('[');
                write_items(items, 0, child, out);
                out.push('\n');
                push_spaces(out, ind);
                out.push(']');
                proof {
                    assert(Json::views_of_items(items@).skip(0) =~= Json::views_of_items(
                        items@,
                    ));
                }
            }
            proof {
                crate::json::lemma_views_of_items(items@);
                assert(out@ =~= old(out)@ + pr_value(j.view(), ind as nat));
            }
        },
        Json::Obj(members) => {
            let child = if ind < 64 {
                ind + 1
            } else {
                ind
            };
            if members.len() == 0 {
                out.push('{');
                out.push('}');
            } else {
                out.push('{');
                write_members(members, 0, child, out);
                out.push('\n');
                push_spaces(out, ind);
                out.push('}');
                proof {
                    assert(Json::views_of_members(members@).skip(0) =~= Json::views_of_members(
                        members@,
                    ));
                }
            }
            proof {
                crate::json::lemma_views_of_members(members@);
                assert(out@ =~= old(out)@ + pr_value(j.view(), ind as nat));
            }
        },
    }
}

/// Append the written elements from a position to the end.
fn write_items(items: &Vec<Json>, k: usize, ind: usize, out: &mut Vec<char>)
    requires
        k < items@.len(),
        ind <= indent_cap(),
    ensures
        final(out)@ == old(out)@ + pr_items(
            Json::views_of_items(items@).skip(k as int),
            ind as nat,
        ),
    decreases *items, items@.len() - k,
{
    proof {
        crate::json::lemma_views_of_items(items@);
    }
    let ghost tail = Json::views_of_items(items@).skip(k as int);
    let n = items.len();
    out.push('\n');
    push_spaces(out, ind);
    write_value(&items[k], ind, out);
    proof {
        assert(tail[0] == items@[k as int].view());
    }
    if k + 1 < n {
        out.push(',');
        write_items(items, k + 1, ind, out);
        proof {
            assert(tail.drop_first() =~= Json::views_of_items(items@).skip(k + 1));
            assert(out@ =~= old(out)@ + pr_items(tail, ind as nat));
        }
    } else {
        proof {
            assert(tail.len() == 1);
            assert(out@ =~= old(out)@ + pr_items(tail, ind as nat));
        }
    }
}

/// Append the written members from a position to the end.
fn write_members(members: &Vec<(String, Json)>, k: usize, ind: usize, out: &mut Vec<char>)
    requires
        k < members@.len(),
        ind <= indent_cap(),
    ensures
        final(out)@ == old(out)@ + pr_members(
            Json::views_of_members(members@).skip(k as int),
            ind as nat,
        ),
    decreases *members, members@.len() - k,
{
    proof {
        crate::json::lemma_views_of_members(members@);
    }
    let ghost tail = Json::views_of_members(members@).skip(k as int);
    let n = members.len();
    out.push('\n');
    push_spaces(out, ind);
    out.push('"');
    push_esc_str(out, &members[k].0);
    out.push('"');
    out.push(':');
    out.push(' ');
    write_value(&members[k].1, ind, out);
    proof {
        assert(tail[0] == (members@[k as int].0@, members@[k as int].1.view()));
    }
    if k + 1 < n {
        out.push(',');
        write_members(members, k + 1, ind, out);
        proof {
            assert(tail.drop_first() =~= Json::views_of_members(members@).skip(k + 1));
            assert(out@ =~= old(out)@ + pr_members(tail, ind as nat));
        }
    } else {
        proof {
            assert(tail.len() == 1);
            assert(out@ =~= old(out)@ + pr_members(tail, ind as nat));
        }
    }
}

/// JSON whitespace.
pub open spec fn is_ws(c: char) -> bool {
    c == ' ' || c == '\t' || c == '\n' || c == '\r'
}

/// A decimal digit.
pub open spec fn is_digit(c: char) -> bool {
    '0' <= c && c <= '9'
}

/// A hexadecimal digit.
pub open spec fn is_hex(c: char) -> bool {
    is_digit(c) || ('a' <= c && c <= 'f') || ('A' <= c && c <= 'F')
}

/// A hexadecimal digit's value.
pub open spec fn hex_val(c: char) -> u32 {
    if is_digit(c) {
        ((c as u32) - ('0' as u32)) as u32
    } else if 'a' <= c && c <= 'f' {
        ((c as u32) - ('a' as u32) + 10) as u32
    } else {
        ((c as u32) - ('A' as u32) + 10) as u32
    }
}

/// The first position at or after `i` holding no whitespace, walking at most
/// `fuel` characters.
pub open spec fn ps_ws(s: Seq<char>, i: int, fuel: nat) -> int
    decreases fuel,
{
    if fuel == 0 {
        i
    } else if 0 <= i < s.len() && is_ws(s[i]) {
        ps_ws(s, i + 1, (fuel - 1) as nat)
    } else {
        i
    }
}

/// The end of the digit run starting at `i`, walking at most `fuel`
/// characters.
pub open spec fn ps_digits(s: Seq<char>, i: int, fuel: nat) -> int
    decreases fuel,
{
    if fuel == 0 {
        i
    } else if 0 <= i < s.len() && is_digit(s[i]) {
        ps_digits(s, i + 1, (fuel - 1) as nat)
    } else {
        i
    }
}

/// Four hexadecimal digits starting at `i`, as a value.
pub open spec fn ps_hex4(s: Seq<char>, i: int) -> Option<u32> {
    if 0 <= i && i + 4 <= s.len() && is_hex(s[i]) && is_hex(s[i + 1]) && is_hex(s[i + 2]) && is_hex(
        s[i + 3],
    ) {
        Some(
            (hex_val(s[i]) * 0x1000 + hex_val(s[i + 1]) * 0x100 + hex_val(s[i + 2]) * 0x10
                + hex_val(s[i + 3])) as u32,
        )
    } else {
        None
    }
}

/// The character an escape denotes, `i` standing on the designator after the
/// backslash.  An escaped surrogate is rejected: characters outside the
/// basic plane are read raw, never from a pair.
pub open spec fn ps_escape(s: Seq<char>, i: int) -> Option<(char, int)> {
    if !(0 <= i < s.len()) {
        None
    } else {
        let c = s[i];
        if c == '"' {
            Some(('"', i + 1))
        } else if c == '\\' {
            Some(('\\', i + 1))
        } else if c == '/' {
            Some(('/', i + 1))
        } else if c == 'b' {
            Some(('\u{8}', i + 1))
        } else if c == 'f' {
            Some(('\u{c}', i + 1))
        } else if c == 'n' {
            Some(('\n', i + 1))
        } else if c == 'r' {
            Some(('\r', i + 1))
        } else if c == 't' {
            Some(('\t', i + 1))
        } else if c == 'u' {
            match ps_hex4(s, i + 1) {
                Some(code) => if 0xD800 <= code < 0xE000 {
                    None
                } else {
                    Some((code as char, i + 5))
                },
                None => None,
            }
        } else {
            None
        }
    }
}

/// The body of a string from `i` (just inside the opening quote) to its
/// closing quote: the characters it denotes and the position after.
pub open spec fn ps_string(s: Seq<char>, i: int, fuel: nat) -> Option<(Seq<char>, int)>
    decreases fuel,
{
    if fuel == 0 {
        None
    } else if !(0 <= i < s.len()) {
        None
    } else {
        let c = s[i];
        if c == '"' {
            Some((Seq::empty(), i + 1))
        } else if c == '\\' {
            match ps_escape(s, i + 1) {
                Some((e, j)) => match ps_string(s, j, (fuel - 1) as nat) {
                    Some((rest, p)) => Some((seq![e] + rest, p)),
                    None => None,
                },
                None => None,
            }
        } else if (c as u32) < 0x20 {
            None
        } else {
            match ps_string(s, i + 1, (fuel - 1) as nat) {
                Some((rest, p)) => Some((seq![c] + rest, p)),
                None => None,
            }
        }
    }
}

/// A number's raw text from `i`: optional sign, an integer part without a
/// leading zero, an optional fraction, an optional exponent.
pub open spec fn ps_number(s: Seq<char>, i: int, fuel: nat) -> Option<(Seq<char>, int)> {
    if !(0 <= i < s.len()) {
        None
    } else {
        let m = if s[i] == '-' {
            i + 1
        } else {
            i
        };
        if !(m < s.len() && is_digit(s[m])) {
            None
        } else {
            let ie = if s[m] == '0' {
                m + 1
            } else {
                ps_digits(s, m, fuel)
            };
            if ie < s.len() && s[ie] == '.' {
                let fe = ps_digits(s, ie + 1, fuel);
                if fe == ie + 1 {
                    None
                } else {
                    ps_number_exp(s, i, fe, fuel)
                }
            } else {
                ps_number_exp(s, i, ie, fuel)
            }
        }
    }
}

/// A number's optional exponent from `j`, the raw text running from `start`.
pub open spec fn ps_number_exp(s: Seq<char>, start: int, j: int, fuel: nat) -> Option<
    (Seq<char>, int),
> {
    if j < s.len() && (s[j] == 'e' || s[j] == 'E') {
        let k = if j + 1 < s.len() && (s[j + 1] == '+' || s[j + 1] == '-') {
            j + 2
        } else {
            j + 1
        };
        let ee = ps_digits(s, k, fuel);
        if ee == k {
            None
        } else {
            Some((s.subrange(start, ee), ee))
        }
    } else {
        Some((s.subrange(start, j), j))
    }
}

/// A value starting exactly at `i`: its abstract shape and the position
/// after it.
pub open spec fn ps_value(s: Seq<char>, i: int, fuel: nat) -> Option<(JsonV, int)>
    decreases fuel,
{
    if fuel == 0 {
        None
    } else if !(0 <= i < s.len()) {
        None
    } else {
        let f = (fuel - 1) as nat;
        let c = s[i];
        if c == '"' {
            match ps_string(s, i + 1, f) {
                Some((t, p)) => Some((JsonV::Str(t), p)),
                None => None,
            }
        } else if c == '{' {
            ps_obj(s, i + 1, f)
        } else if c == '[' {
            ps_arr(s, i + 1, f)
        } else if c == 't' {
            if i + 4 <= s.len() && s[i + 1] == 'r' && s[i + 2] == 'u' && s[i + 3] == 'e' {
                Some((JsonV::Bool(true), i + 4))
            } else {
                None
            }
        } else if c == 'f' {
            if i + 5 <= s.len() && s[i + 1] == 'a' && s[i + 2] == 'l' && s[i + 3] == 's' && s[i
                + 4] == 'e' {
                Some((JsonV::Bool(false), i + 5))
            } else {
                None
            }
        } else if c == 'n' {
            if i + 4 <= s.len() && s[i + 1] == 'u' && s[i + 2] == 'l' && s[i + 3] == 'l' {
                Some((JsonV::Null, i + 4))
            } else {
                None
            }
        } else if c == '-' || is_digit(c) {
            match ps_number(s, i, f) {
                Some((t, p)) => Some((JsonV::Num(t), p)),
                None => None,
            }
        } else {
            None
        }
    }
}

/// An array's remainder from just after `[`.
pub open spec fn ps_arr(s: Seq<char>, i: int, fuel: nat) -> Option<(JsonV, int)>
    decreases fuel,
{
    if fuel == 0 {
        None
    } else {
        let f = (fuel - 1) as nat;
        let j = ps_ws(s, i, f);
        if 0 <= j < s.len() && s[j] == ']' {
            Some((JsonV::Arr(Seq::empty()), j + 1))
        } else {
            ps_items(s, i, f, Seq::empty())
        }
    }
}

/// An array's elements from `i`, the ones already read in `acc`.
pub open spec fn ps_items(s: Seq<char>, i: int, fuel: nat, acc: Seq<JsonV>) -> Option<
    (JsonV, int),
>
    decreases fuel,
{
    if fuel == 0 {
        None
    } else {
        let f = (fuel - 1) as nat;
        let j = ps_ws(s, i, f);
        match ps_value(s, j, f) {
            Some((v, p)) => {
                let acc2 = acc.push(v);
                let q = ps_ws(s, p, f);
                if 0 <= q < s.len() && s[q] == ',' {
                    ps_items(s, q + 1, f, acc2)
                } else if 0 <= q < s.len() && s[q] == ']' {
                    Some((JsonV::Arr(acc2), q + 1))
                } else {
                    None
                }
            },
            None => None,
        }
    }
}

/// An object's remainder from just after `{`.
pub open spec fn ps_obj(s: Seq<char>, i: int, fuel: nat) -> Option<(JsonV, int)>
    decreases fuel,
{
    if fuel == 0 {
        None
    } else {
        let f = (fuel - 1) as nat;
        let j = ps_ws(s, i, f);
        if 0 <= j < s.len() && s[j] == '}' {
            Some((JsonV::Obj(Seq::empty()), j + 1))
        } else {
            ps_mems(s, i, f, Seq::empty())
        }
    }
}

/// An object's members from `i`, the ones already read in `acc`; a repeated
/// key keeps its first position and takes the later value.
pub open spec fn ps_mems(
    s: Seq<char>,
    i: int,
    fuel: nat,
    acc: Seq<(Seq<char>, JsonV)>,
) -> Option<(JsonV, int)>
    decreases fuel,
{
    if fuel == 0 {
        None
    } else {
        let f = (fuel - 1) as nat;
        let j = ps_ws(s, i, f);
        if !(0 <= j < s.len() && s[j] == '"') {
            None
        } else {
            match ps_string(s, j + 1, f) {
                Some((k, p1)) => {
                    let j1 = ps_ws(s, p1, f);
                    if !(0 <= j1 < s.len() && s[j1] == ':') {
                        None
                    } else {
                        match ps_value(s, ps_ws(s, j1 + 1, f), f) {
                            Some((v, p2)) => {
                                let acc2 = crate::json::obj_set(acc, k, v);
                                let q = ps_ws(s, p2, f);
                                if 0 <= q < s.len() && s[q] == ',' {
                                    ps_mems(s, q + 1, f, acc2)
                                } else if 0 <= q < s.len() && s[q] == '}' {
                                    Some((JsonV::Obj(acc2), q + 1))
                                } else {
                                    None
                                }
                            },
                            None => None,
                        }
                    }
                },
                None => None,
            }
        }
    }
}

/// A whole document: one value, whitespace around it, nothing after.
pub open spec fn ps_doc(s: Seq<char>, fuel: nat) -> Option<JsonV> {
    let j = ps_ws(s, 0, fuel);
    match ps_value(s, j, fuel) {
        Some((v, p)) => if ps_ws(s, p, fuel) == s.len() {
            Some(v)
        } else {
            None
        },
        None => None,
    }
}

/// The length bound on documents the reader accepts; it keeps the walk
/// budget inside a machine word on every platform.
pub open spec fn parse_limit() -> int {
    0x0100_0000
}

/// What the reader returns for a character sequence: the document's value,
/// or nothing when the text is not a JSON document the reader accepts.
pub open spec fn spec_parse(s: Seq<char>) -> Option<JsonV> {
    if s.len() <= parse_limit() {
        ps_doc(s, (16 * s.len() + 16) as nat)
    } else {
        None
    }
}

/// The pretty-printed document for a value.
pub fn print_json(j: &Json) -> (r: String)
    ensures
        r@ == spec_print(j.view()),
{
    let mut out: Vec<char> = Vec::new();
    write_value(j, 0, &mut out);
    proof {
        assert(out@ =~= spec_print(j.view()));
    }
    chars_to_string(&out)
}

/// A prefix prepended to a partial string-body result.
pub open spec fn pre_cat(pre: Seq<char>, r: Option<(Seq<char>, int)>) -> Option<(Seq<char>, int)> {
    match r {
        Some((t, p)) => Some((pre + t, p)),
        None => None,
    }
}

/// Relies on `char::from_u32`: a scalar value outside the surrogate range is
/// the code of exactly one character.
#[verifier::external_body]
pub(crate) fn char_of_code(u: u32) -> (r: char)
    requires
        u < 0xD800 || (0xE000 <= u && u < 0x110000),
    ensures
        r == (u as char),
{
    char::from_u32(u).unwrap()
}

/// The characters of a string slice, in order.
pub(crate) fn str_to_chars(s: &str) -> (r: Vec<char>)
    ensures
        r@ == s@,
{
    let n = s.unicode_len();
    let mut out: Vec<char> = Vec::new();
    let mut i: usize = 0;
    while i < n
        invariant
            i <= n,
            n == s@.len(),
            out@ == s@.take(i as int),
        decreases n - i,
    {
        out.push(s.get_char(i));
        i = i + 1;
        proof {
            assert(s@.take(i as int) =~= s@.take(i - 1).push(s@[i - 1]));
        }
    }
    proof {
        assert(s@.take(n as int) =~= s@);
    }
    out
}

/// The characters of a range, in order.
pub(crate) fn copy_range_chars(s: &Vec<char>, a: usize, b: usize) -> (r: Vec<char>)
    requires
        a <= b <= s@.len(),
    ensures
        r@ == s@.subrange(a as int, b as int),
{
    let mut out: Vec<char> = Vec::new();
    let mut i: usize = a;
    while i < b
        invariant
            a <= i <= b <= s@.len(),
            out@ == s@.subrange(a as int, i as int),
        decreases b - i,
    {
        out.push(s[i]);
        i = i + 1;
        proof {
            assert(s@.subrange(a as int, i as int) =~= s@.subrange(a as int, i - 1).push(
                s@[i - 1],
            ));
        }
    }
    out
}

/// Whether a character is JSON whitespace.
pub(crate) fn is_ws_c(c: char) -> (r: bool)
    ensures
        r == is_ws(c),
{
    c == ' ' || c == '\t' || c == '\n' || c == '\r'
}

/// Whether a character is a decimal digit.
fn is_digit_c(c: char) -> (r: bool)
    ensures
        r == is_digit(c),
{
    '0' <= c && c <= '9'
}

/// Whether a character is a hexadecimal digit.
fn is_hex_c(c: char) -> (r: bool)
    ensures
        r == is_hex(c),
{
    is_digit_c(c) || ('a' <= c && c <= 'f') || ('A' <= c && c <= 'F')
}

/// A hexadecimal digit's value.
fn hex_val_c(c: char) -> (r: u32)
    requires
        is_hex(c),
    ensures
        r == hex_val(c),
{
    if '0' <= c && c <= '9' {
        (c as u32) - ('0' as u32)
    } else if 'a' <= c && c <= 'f' {
        (c as u32) - ('a' as u32) + 10
    } else {
        (c as u32) - ('A' as u32) + 10
    }
}

/// Walk over whitespace.
fn px_ws(s: &Vec<char>, i: usize, fuel: usize) -> (r: usize)
    requires
        i <= s@.len(),
        s@.len() <= parse_limit(),
    ensures
        r as int == ps_ws(s@, i as int, fuel as nat),
        r <= s@.len(),
{
    let mut j = i;
    let mut f = fuel;
    while f > 0 && j < s.len() && is_ws_c(s[j])
        invariant
            j <= s@.len(),
            ps_ws(s@, i as int, fuel as nat) == ps_ws(s@, j as int, f as nat),
        decreases f,
    {
        j = j + 1;
        f = f - 1;
    }
    j
}

/// Walk over decimal digits.
fn px_digits(s: &Vec<char>, i: usize, fuel: usize) -> (r: usize)
    requires
        i <= s@.len(),
        s@.len() <= parse_limit(),
    ensures
        r as int == ps_digits(s@, i as int, fuel as nat),
        i <= r <= s@.len(),
{
    let mut j = i;
    let mut f = fuel;
    while f > 0 && j < s.len() && is_digit_c(s[j])
        invariant
            i <= j <= s@.len(),
            ps_digits(s@, i as int, fuel as nat) == ps_digits(s@, j as int, f as nat),
        decreases f,
    {
        j = j + 1;
        f = f - 1;
    }
    j
}

/// Read four hexadecimal digits.
fn px_hex4(s: &Vec<char>, i: usize) -> (r: Option<u32>)
    requires
        i <= s@.len(),
        s@.len() <= parse_limit(),
    ensures
        r == ps_hex4(s@, i as int),
{
    if i + 4 <= s.len() && is_hex_c(s[i]) && is_hex_c(s[i + 1]) && is_hex_c(s[i + 2]) && is_hex_c(
        s[i + 3],
    ) {
        Some(
            hex_val_c(s[i]) * 0x1000 + hex_val_c(s[i + 1]) * 0x100 + hex_val_c(s[i + 2]) * 0x10
                + hex_val_c(s[i + 3]),
        )
    } else {
        None
    }
}

/// Read one escape, standing on the designator after the backslash.
fn px_escape(s: &Vec<char>, i: usize) -> (r: Option<(char, usize)>)
    requires
        i <= s@.len(),
        s@.len() <= parse_limit(),
    ensures
        match r {
            Some((e, p)) => ps_escape(s@, i as int) == Some((e, p as int)) && p <= s@.len(),
            None => ps_escape(s@, i as int) is None,
        },
{
    if i >= s.len() {
        return None;
    }
    let c = s[i];
    if c == '"' {
        Some(('"', i + 1))
    } else if c == '\\' {
        Some(('\\', i + 1))
    } else if c == '/' {
        Some(('/', i + 1))
    } else if c == 'b' {
        Some(('\u{8}', i + 1))
    } else if c == 'f' {
        Some(('\u{c}', i + 1))
    } else if c == 'n' {
        Some(('\n', i + 1))
    } else if c == 'r' {
        Some(('\r', i + 1))
    } else if c == 't' {
        Some(('\t', i + 1))
    } else if c == 'u' {
        match px_hex4(s, i + 1) {
            Some(code) => {
                if 0xD800 <= code && code < 0xE000 {
                    None
                } else {
                    Some((char_of_code(code), i + 5))
                }
            },
            None => None,
        }
    } else {
        None
    }
}

/// Read a string body up to its closing quote.
fn px_string(s: &Vec<char>, i: usize, fuel: usize) -> (r: Option<(Vec<char>, usize)>)
    requires
        i <= s@.len(),
        s@.len() <= parse_limit(),
    ensures
        match r {
            Some((t, p)) => ps_string(s@, i as int, fuel as nat) == Some((t@, p as int)) && p
                <= s@.len(),
            None => ps_string(s@, i as int, fuel as nat) is None,
        },
{
    let mut j = i;
    let mut f = fuel;
    let mut acc: Vec<char> = Vec::new();
    loop
        invariant
            j <= s@.len(),
            s@.len() <= parse_limit(),
            ps_string(s@, i as int, fuel as nat) == pre_cat(
                acc@,
                ps_string(s@, j as int, f as nat),
            ),
        decreases f,
    {
        if f == 0 || j >= s.len() {
            return None;
        }
        let c = s[j];
        if c == '"' {
            proof {
                assert(acc@ + Seq::<char>::empty() =~= acc@);
            }
            return Some((acc, j + 1));
        } else if c == '\\' {
            match px_escape(s, j + 1) {
                Some((e, j2)) => {
                    let ghost acc_pre = acc@;
                    acc.push(e);
                    proof {
                        assert forall|t: Seq<char>| acc_pre + (seq![e] + t) =~= acc@ + t by {}
                    }
                    j = j2;
                    f = f - 1;
                },
                None => {
                    return None;
                },
            }
        } else if (c as u32) < 0x20 {
            return None;
        } else {
            let ghost acc_pre = acc@;
            acc.push(c);
            proof {
                assert forall|t: Seq<char>| acc_pre + (seq![c] + t) =~= acc@ + t by {}
            }
            j = j + 1;
            f = f - 1;
        }
    }
}

/// Read a number's raw text.
fn px_number(s: &Vec<char>, i: usize, fuel: usize) -> (r: Option<(Vec<char>, usize)>)
    requires
        i <= s@.len(),
        s@.len() <= parse_limit(),
    ensures
        match r {
            Some((t, p)) => ps_number(s@, i as int, fuel as nat) == Some((t@, p as int)) && p
                <= s@.len(),
            None => ps_number(s@, i as int, fuel as nat) is None,
        },
{
    if i >= s.len() {
        return None;
    }
    let m = if s[i] == '-' {
        i + 1
    } else {
        i
    };
    if !(m < s.len() && is_digit_c(s[m])) {
        return None;
    }
    let ie = if s[m] == '0' {
        m + 1
    } else {
        px_digits(s, m, fuel)
    };
    if ie < s.len() && s[ie] == '.' {
        let fe = px_digits(s, ie + 1, fuel);
        if fe == ie + 1 {
            None
        } else {
            px_number_exp(s, i, fe, fuel)
        }
    } else {
        px_number_exp(s, i, ie, fuel)
    }
}

/// Read a number's optional exponent; the raw text runs from `start`.
fn px_number_exp(s: &Vec<char>, start: usize, j: usize, fuel: usize) -> (r: Option<
    (Vec<char>, usize),
>)
    requires
        start <= j <= s@.len(),
        s@.len() <= parse_limit(),
    ensures
        match r {
            Some((t, p)) => ps_number_exp(s@, start as int, j as int, fuel as nat) == Some(
                (t@, p as int),
            ) && p <= s@.len(),
            None => ps_number_exp(s@, start as int, j as int, fuel as nat) is None,
        },
{
    if j < s.len() && (s[j] == 'e' || s[j] == 'E') {
        let k = if j + 1 < s.len() && (s[j + 1] == '+' || s[j + 1] == '-') {
            j + 2
        } else {
            j + 1
        };
        let ee = px_digits(s, k, fuel);
        if ee == k {
            None
        } else {
            Some((copy_range_chars(s, start, ee), ee))
        }
    } else {
        Some((copy_range_chars(s, start, j), j))
    }
}

/// Read a value standing exactly at `i`.
fn px_value(s: &Vec<char>, i: usize, fuel: usize) -> (r: Option<(Json, usize)>)
    requires
        i <= s@.len(),
        s@.len() <= parse_limit(),
    ensures
        match r {
            Some((v, p)) => ps_value(s@, i as int, fuel as nat) == Some((v.view(), p as int))
                && p <= s@.len(),
            None => ps_value(s@, i as int, fuel as nat) is None,
        },
    decreases fuel,
{
    if fuel == 0 || i >= s.len() {
        return None;
    }
    let f = fuel - 1;
    let n = s.len();
    let c = s[i];
    if c == '"' {
        match px_string(s, i + 1, f) {
            Some((t, p)) => Some((Json::Str(chars_to_string(&t)), p)),
            None => None,
        }
    } else if c == '{' {
        px_obj(s, i + 1, f)
    } else if c == '[' {
        px_arr(s, i + 1, f)
    } else if c == 't' {
        if i + 4 <= n && s[i + 1] == 'r' && s[i + 2] == 'u' && s[i + 3] == 'e' {
            Some((Json::Bool(true), i + 4))
        } else {
            None
        }
    } else if c == 'f' {
        if i + 5 <= n && s[i + 1] == 'a' && s[i + 2] == 'l' && s[i + 3] == 's' && s[i + 4]
            == 'e' {
            Some((Json::Bool(false), i + 5))
        } else {
            None
        }
    } else if c == 'n' {
        if i + 4 <= n && s[i + 1] == 'u' && s[i + 2] == 'l' && s[i + 3] == 'l' {
            Some((Json::Null, i + 4))
        } else {
            None
        }
    } else if c == '-' || is_digit_c(c) {
        match px_number(s, i, f) {
            Some((t, p)) => Some((Json::Num(chars_to_string(&t)), p)),
            None => None,
        }
    } else {
        None
    }
}

/// Read an array's remainder from just after `[`.
fn px_arr(s: &Vec<char>, i: usize, fuel: usize) -> (r: Option<(Json, usize)>)
    requires
        i <= s@.len(),
        s@.len() <= parse_limit(),
    ensures
        match r {
            Some((v, p)) => ps_arr(s@, i as int, fuel as nat) == Some((v.view(), p as int)) && p
                <= s@.len(),
            None => ps_arr(s@, i as int, fuel as nat) is None,
        },
    decreases fuel,
{
    if fuel == 0 {
        return None;
    }
    let f = fuel - 1;
    let j = px_ws(s, i, f);
    if j < s.len() && s[j] == ']' {
        let items: Vec<Json> = Vec::new();
        let r = Json::Arr(items);
        proof {
            assert(r.view() =~= JsonV::Arr(Seq::<JsonV>::empty()));
        }
        Some((r, j + 1))
    } else {
        let acc: Vec<Json> = Vec::new();
        proof {
            assert(Json::views_of_items(acc@) =~= Seq::<JsonV>::empty());
        }
        px_items(s, i, f, acc)
    }
}

/// Read an array's elements from `i`, the ones already read in `acc`.
fn px_items(s: &Vec<char>, i: usize, fuel: usize, acc: Vec<Json>) -> (r: Option<(Json, usize)>)
    requires
        i <= s@.len(),
        s@.len() <= parse_limit(),
    ensures
        match r {
            Some((v, p)) => ps_items(s@, i as int, fuel as nat, Json::views_of_items(acc@))
                == Some((v.view(), p as int)) && p <= s@.len(),
            None => ps_items(s@, i as int, fuel as nat, Json::views_of_items(acc@)) is None,
        },
    decreases fuel,
{
    if fuel == 0 {
        return None;
    }
    let ghost acc0 = Json::views_of_items(acc@);
    let ghost accv = acc@;
    let f = fuel - 1;
    let j = px_ws(s, i, f);
    match px_value(s, j, f) {
        Some((v, p)) => {
            let ghost vv = v.view();
            let mut acc2 = acc;
            acc2.push(v);
            proof {
                crate::json::lemma_views_of_items(acc2@);
                crate::json::lemma_views_of_items(accv);
                assert(acc2@ =~= accv.push(v));
                assert(Json::views_of_items(acc2@) =~= acc0.push(vv));
            }
            let q = px_ws(s, p, f);
            if q < s.len() && s[q] == ',' {
                px_items(s, q + 1, f, acc2)
            } else if q < s.len() && s[q] == ']' {
                let r = Json::Arr(acc2);
                Some((r, q + 1))
            } else {
                None
            }
        },
        None => None,
    }
}

/// Read an object's remainder from just after `{`.
fn px_obj(s: &Vec<char>, i: usize, fuel: usize) -> (r: Option<(Json, usize)>)
    requires
        i <= s@.len(),
        s@.len() <= parse_limit(),
    ensures
        match r {
            Some((v, p)) => ps_obj(s@, i as int, fuel as nat) == Some((v.view(), p as int)) && p
                <= s@.len(),
            None => ps_obj(s@, i as int, fuel as nat) is None,
        },
    decreases fuel,
{
    if fuel == 0 {
        return None;
    }
    let f = fuel - 1;
    let j = px_ws(s, i, f);
    if j < s.len() && s[j] == '}' {
        let members: Vec<(String, Json)> = Vec::new();
        let r = Json::Obj(members);
        proof {
            assert(r.view() =~= JsonV::Obj(Seq::<(Seq<char>, JsonV)>::empty()));
        }
        Some((r, j + 1))
    } else {
        let acc: Vec<(String, Json)> = Vec::new();
        proof {
            assert(Json::views_of_members(acc@) =~= Seq::<(Seq<char>, JsonV)>::empty());
        }
        px_mems(s, i, f, acc)
    }
}

/// Read an object's members from `i`, the ones already read in `acc`.
fn px_mems(s: &Vec<char>, i: usize, fuel: usize, acc: Vec<(String, Json)>) -> (r: Option<
    (Json, usize),
>)
    requires
        i <= s@.len(),
        s@.len() <= parse_limit(),
    ensures
        match r {
            Some((v, p)) => ps_mems(s@, i as int, fuel as nat, Json::views_of_members(acc@))
                == Some((v.view(), p as int)) && p <= s@.len(),
            None => ps_mems(s@, i as int, fuel as nat, Json::views_of_members(acc@)) is None,
        },
    decreases fuel,
{
    if fuel == 0 {
        return None;
    }
    let f = fuel - 1;
    let j = px_ws(s, i, f);
    if !(j < s.len() && s[j] == '"') {
        return None;
    }
    match px_string(s, j + 1, f) {
        Some((k, p1)) => {
            let j1 = px_ws(s, p1, f);
            if !(j1 < s.len() && s[j1] == ':') {
                return None;
            }
            let j2 = px_ws(s, j1 + 1, f);
            match px_value(s, j2, f) {
                Some((v, p2)) => {
                    let key = chars_to_string(&k);
                    let acc2 = crate::json::set_key(acc, key, v);
                    let q = px_ws(s, p2, f);
                    if q < s.len() && s[q] == ',' {
                        px_mems(s, q + 1, f, acc2)
                    } else if q < s.len() && s[q] == '}' {
                        let r = Json::Obj(acc2);
                        Some((r, q + 1))
                    } else {
                        None
                    }
                },
                None => None,
            }
        },
        None => None,
    }
}

/// The value of a JSON document, when the text is one the reader accepts.
pub fn parse_json(s: &str) -> (r: Option<Json>)
    ensures
        match r {
            Some(j) => spec_parse(s@) == Some(j.view()),
            None => spec_parse(s@) is None,
        },
{
    let chars = str_to_chars(s);
    let n = chars.len();
    if n > 0x0100_0000 {
        return None;
    }
    let fuel = 16 * n + 16;
    let j = px_ws(&chars, 0, fuel);
    match px_value(&chars, j, fuel) {
        Some((v, p)) => {
            let q = px_ws(&chars, p, fuel);
            if q == n {
                Some(v)
            } else {
                None
            }
        },
        None => None,
    }
}

} // verus!
