//! The secondary store: named API-key profiles, one per line.
//!
//! The backing file holds `<name><space><key>` per line.  A legacy
//! `[active]` suffix may trail a line in old files; it is stripped on every
//! read and never written back.  Reading splits each line at its first
//! space, so a key may itself contain spaces.  All functions here work on
//! the file's text; the caller reads and writes the file.

use vstd::prelude::*;

use crate::text::is_ws;

verus! {

broadcast use vstd::seq::group_seq_axioms, vstd::std_specs::vec::group_vec_axioms;

/// A named API-key profile.
pub struct DroidChannel {
    pub name: String,
    pub api_key: String,
}

impl DroidChannel {
    /// The abstract profile: its name and key.
    pub open spec fn view(self) -> (Seq<char>, Seq<char>) {
        (self.name@, self.api_key@)
    }
}

/// The profiles a sequence of channels stands for.
pub open spec fn channels_view(v: Seq<DroidChannel>) -> Seq<(Seq<char>, Seq<char>)> {
    v.map_values(|c: DroidChannel| (c.name@, c.api_key@))
}

/// A sequence without its leading whitespace.
pub open spec fn trim_start(s: Seq<char>) -> Seq<char>
    decreases s.len(),
{
    if s.len() > 0 && is_ws(s[0]) {
        trim_start(s.drop_first())
    } else {
        s
    }
}

/// A sequence without its trailing whitespace.
pub open spec fn trim_end(s: Seq<char>) -> Seq<char>
    decreases s.len(),
{
    if s.len() > 0 && is_ws(s.last()) {
        trim_end(s.drop_last())
    } else {
        s
    }
}

/// A sequence without leading and trailing whitespace.
pub open spec fn trim(s: Seq<char>) -> Seq<char> {
    trim_end(trim_start(s))
}

/// Whether the sequence ends in the legacy `[active]` marker.
pub open spec fn ends_active(s: Seq<char>) -> bool {
    s.len() >= 8 && s.subrange(s.len() - 8, s.len() as int) == "[active]"@
}

/// The sequence with every trailing `[active]` marker removed.
pub open spec fn strip_active(s: Seq<char>) -> Seq<char>
    decreases s.len(),
{
    if ends_active(s) {
        strip_active(s.subrange(0, s.len() - 8))
    } else {
        s
    }
}

/// The first position at or after `i` holding the character, or the end.
pub open spec fn find_from(s: Seq<char>, i: int, c: char) -> int
    decreases s.len() - i,
{
    if !(0 <= i < s.len()) {
        i
    } else if s[i] == c {
        i
    } else {
        find_from(s, i + 1, c)
    }
}

/// The profile a line holds: trim it, drop the legacy marker, trim again,
/// split at the first space, and trim both halves; a line without a space
/// (an empty one among them) holds nothing.
pub open spec fn line_profile(line: Seq<char>) -> Option<(Seq<char>, Seq<char>)> {
    let t = trim(strip_active(trim(line)));
    let sp = find_from(t, 0, ' ');
    if 0 <= sp < t.len() {
        Some((trim(t.subrange(0, sp)), trim(t.subrange(sp + 1, t.len() as int))))
    } else {
        None
    }
}

/// `find_from` stays between its start and the end of the sequence.
pub proof fn lemma_find_from_bounds(s: Seq<char>, i: int, c: char)
    requires
        0 <= i <= s.len(),
    ensures
        i <= find_from(s, i, c) <= s.len(),
        find_from(s, i, c) < s.len() ==> s[find_from(s, i, c)] == c,
        forall|j: int| i <= j < find_from(s, i, c) ==> s[j] != c,
    decreases s.len() - i,
{
    if i < s.len() && s[i] != c {
        lemma_find_from_bounds(s, i + 1, c);
    }
}

/// The profiles in a file's text, reading line runs from `i`.
pub open spec fn profiles_from(s: Seq<char>, i: int) -> Seq<(Seq<char>, Seq<char>)>
    decreases s.len() + 1 - i,
    via profiles_from_dec
{
    if !(0 <= i < s.len()) {
        Seq::empty()
    } else {
        let e = find_from(s, i, '\n');
        let rest = profiles_from(s, e + 1);
        match line_profile(s.subrange(i, e)) {
            Some(p) => seq![p] + rest,
            None => rest,
        }
    }
}

#[via_fn]
proof fn profiles_from_dec(s: Seq<char>, i: int) {
    if 0 <= i < s.len() {
        lemma_find_from_bounds(s, i, '\n');
    }
}

/// The profiles a key file's text holds.
pub open spec fn spec_key_profiles(s: Seq<char>) -> Seq<(Seq<char>, Seq<char>)> {
    profiles_from(s, 0)
}

/// The first position at or after `i` holding the character, or the end.
fn find_char(s: &Vec<char>, i: usize, c: char) -> (r: usize)
    requires
        i <= s@.len(),
    ensures
        r as int == find_from(s@, i as int, c),
        i <= r <= s@.len(),
        r < s@.len() ==> s@[r as int] == c,
{
    let mut j = i;
    while j < s.len() && s[j] != c
        invariant
            i <= j <= s@.len(),
            find_from(s@, i as int, c) == find_from(s@, j as int, c),
        decreases s@.len() - j,
    {
        j = j + 1;
    }
    j
}

/// The sequence without leading and trailing whitespace.
fn trim_vec(v: &Vec<char>) -> (r: Vec<char>)
    ensures
        r@ == trim(v@),
{
    let n = v.len();
    proof {
        assert(v@.subrange(0, n as int) =~= v@);
    }
    let mut a: usize = 0;
    while a < n && crate::text::is_ws_c(v[a])
        invariant
            a <= n,
            n == v@.len(),
            trim_start(v@) == trim_start(v@.subrange(a as int, n as int)),
        decreases n - a,
    {
        proof {
            let cur = v@.subrange(a as int, n as int);
            assert(cur.drop_first() =~= v@.subrange(a + 1, n as int));
        }
        a = a + 1;
    }
    proof {
        let cur = v@.subrange(a as int, n as int);
        assert(v@.subrange(0, n as int) =~= v@);
        assert(trim_start(v@) == cur);
    }
    let mut b: usize = n;
    while b > a && crate::text::is_ws_c(v[b - 1])
        invariant
            a <= b <= n,
            n == v@.len(),
            trim_start(v@) == v@.subrange(a as int, n as int),
            trim_end(v@.subrange(a as int, n as int)) == trim_end(
                v@.subrange(a as int, b as int),
            ),
        decreases b,
    {
        proof {
            let cur = v@.subrange(a as int, b as int);
            assert(cur.last() == v@[b - 1]);
            assert(cur.drop_last() =~= v@.subrange(a as int, b - 1));
        }
        b = b - 1;
    }
    proof {
        let cur = v@.subrange(a as int, b as int);
        assert(trim_end(cur) == cur);
    }
    crate::text::copy_range_chars(v, a, b)
}

/// Whether the range ends in the legacy `[active]` marker.
fn ends_active_c(v: &Vec<char>, b: usize) -> (r: bool)
    requires
        b <= v@.len(),
    ensures
        r == ends_active(v@.subrange(0, b as int)),
{
    let ghost t = v@.subrange(0, b as int);
    if b < 8 {
        return false;
    }
    let ok = v[b - 8] == '[' && v[b - 7] == 'a' && v[b - 6] == 'c' && v[b - 5] == 't' && v[b - 4]
        == 'i' && v[b - 3] == 'v' && v[b - 2] == 'e' && v[b - 1] == ']';
    proof {
        reveal_strlit("[active]");
        assert("[active]"@.len() == 8);
        assert("[active]"@[0] == '[');
        assert("[active]"@[1] == 'a');
        assert("[active]"@[2] == 'c');
        assert("[active]"@[3] == 't');
        assert("[active]"@[4] == 'i');
        assert("[active]"@[5] == 'v');
        assert("[active]"@[6] == 'e');
        assert("[active]"@[7] == ']');
        let u = t.subrange(t.len() - 8, t.len() as int);
        assert(forall|k: int| 0 <= k < 8 ==> u[k] == v@[b - 8 + k]);
        if ok {
            assert(u =~= "[active]"@);
        } else {
            assert(!(u =~= "[active]"@)) by {
                if u =~= "[active]"@ {
                    assert(u[0] == '[' && u[1] == 'a' && u[2] == 'c' && u[3] == 't' && u[4]
                        == 'i' && u[5] == 'v' && u[6] == 'e' && u[7] == ']');
                }
            }
        }
    }
    ok
}

/// The sequence with every trailing `[active]` marker removed.
fn strip_active_vec(v: &Vec<char>) -> (r: Vec<char>)
    ensures
        r@ == strip_active(v@),
{
    let mut b = v.len();
    proof {
        assert(v@.subrange(0, v@.len() as int) =~= v@);
    }
    while ends_active_c(v, b)
        invariant
            b <= v@.len(),
            strip_active(v@) == strip_active(v@.subrange(0, b as int)),
        decreases b,
    {
        proof {
            let t = v@.subrange(0, b as int);
            assert(t.subrange(0, t.len() - 8) =~= v@.subrange(0, b - 8));
        }
        b = b - 8;
    }
    proof {
        let t = v@.subrange(0, b as int);
        assert(strip_active(t) == t);
    }
    crate::text::copy_range_chars(v, 0, b)
}

/// The profile one line holds, if any.
fn line_profile_vec(line: &Vec<char>) -> (r: Option<(Vec<char>, Vec<char>)>)
    ensures
        match r {
            Some((nm, ky)) => line_profile(line@) == Some((nm@, ky@)),
            None => line_profile(line@) is None,
        },
{
    let t1 = trim_vec(line);
    let t2 = strip_active_vec(&t1);
    let t = trim_vec(&t2);
    let sp = find_char(&t, 0, ' ');
    if sp < t.len() {
        let left = crate::text::copy_range_chars(&t, 0, sp);
        let right = crate::text::copy_range_chars(&t, sp + 1, t.len());
        let nm = trim_vec(&left);
        let ky = trim_vec(&right);
        Some((nm, ky))
    } else {
        None
    }
}

/// The profiles in a key file's text, in file order.  A missing file reads
/// as empty text and so as no profiles.
pub fn get_droid_channels(content: &str) -> (r: Vec<DroidChannel>)
    ensures
        channels_view(r@) == spec_key_profiles(content@),
{
    let chars = crate::text::str_to_chars(content);
    let n = chars.len();
    let mut out: Vec<DroidChannel> = Vec::new();
    let mut i: usize = 0;
    proof {
        assert(channels_view(out@) =~= Seq::<(Seq<char>, Seq<char>)>::empty());
    }
    while i < n
        invariant
            i <= n + 1,
            n == chars@.len(),
            chars@ == content@,
            channels_view(out@) + profiles_from(chars@, i as int) =~= profiles_from(chars@, 0),
        decreases n + 1 - i,
    {
        let ghost out_pre = out@;
        let ghost i0 = i as int;
        let e = find_char(&chars, i, '\n');
        let line = crate::text::copy_range_chars(&chars, i, e);
        match line_profile_vec(&line) {
            Some((nm, ky)) => {
                let nm_s = crate::text::chars_to_string(&nm);
                let ky_s = crate::text::chars_to_string(&ky);
                let ghost nv = nm_s@;
                let ghost kv = ky_s@;
                out.push(DroidChannel { name: nm_s, api_key: ky_s });
                proof {
                    assert(out@.last().name@ == nv && out@.last().api_key@ == kv);
                    assert(out@.drop_last() =~= out_pre);
                    assert(channels_view(out@) =~= channels_view(out_pre).push((nv, kv)));
                    assert(channels_view(out@) + profiles_from(chars@, e + 1)
                        =~= channels_view(out_pre) + (seq![(nv, kv)] + profiles_from(
                        chars@,
                        e + 1,
                    )));
                }
            },
            None => {},
        }
        if e < n {
            i = e + 1;
        } else {
            proof {
                assert(profiles_from(chars@, e + 1) =~= Seq::<(Seq<char>, Seq<char>)>::empty());
                assert(profiles_from(chars@, n as int) =~= Seq::<
                    (Seq<char>, Seq<char>),
                >::empty());
            }
            i = n;
        }
    }
    proof {
        assert(profiles_from(chars@, i as int) =~= Seq::<(Seq<char>, Seq<char>)>::empty());
        assert(channels_view(out@) =~= profiles_from(chars@, 0));
    }
    out
}

/// A name's first position among profiles, or minus one.
pub open spec fn name_index(v: Seq<(Seq<char>, Seq<char>)>, n: Seq<char>) -> int
    decreases v.len(),
{
    if v.len() == 0 {
        -1
    } else if v[0].0 == n {
        0
    } else {
        let r = name_index(v.drop_first(), n);
        if r == -1 {
            -1
        } else {
            r + 1
        }
    }
}

/// A name is present when it has a position.
pub open spec fn has_name(v: Seq<(Seq<char>, Seq<char>)>, n: Seq<char>) -> bool {
    exists|i: int| 0 <= i < v.len() && v[i].0 == n
}

/// `name_index` is the first position of the name, and minus one exactly
/// when the name is absent.
pub proof fn lemma_name_index(v: Seq<(Seq<char>, Seq<char>)>, n: Seq<char>)
    ensures
        -1 <= name_index(v, n) < v.len(),
        name_index(v, n) >= 0 ==> v[name_index(v, n)].0 == n && (forall|j: int|
            0 <= j < name_index(v, n) ==> v[j].0 != n),
        name_index(v, n) == -1 <==> !has_name(v, n),
    decreases v.len(),
{
    if v.len() > 0 && v[0].0 != n {
        lemma_name_index(v.drop_first(), n);
        if has_name(v, n) {
            let i = choose|i: int| 0 <= i < v.len() && v[i].0 == n;
            assert(v.drop_first()[i - 1].0 == n);
        }
        if has_name(v.drop_first(), n) {
            let i = choose|i: int| 0 <= i < v.drop_first().len() && v.drop_first()[i].0 == n;
            assert(v[i + 1].0 == n);
        }
        if name_index(v, n) >= 0 {
            assert(v[name_index(v, n)] == v.drop_first()[name_index(v.drop_first(), n)]);
            assert forall|j: int| 0 <= j < name_index(v, n) implies v[j].0 != n by {
                if j > 0 {
                    assert(v.drop_first()[j - 1] == v[j]);
                }
            }
        }
    }
}

/// The first position of a name among channels, if any.
fn find_name(channels: &Vec<DroidChannel>, n: &String) -> (r: Option<usize>)
    ensures
        match r {
            Some(i) => i as int == name_index(channels_view(channels@), n@),
            None => name_index(channels_view(channels@), n@) == -1,
        },
{
    let ghost cv = channels_view(channels@);
    let mut i: usize = 0;
    while i < channels.len()
        invariant
            i <= channels@.len(),
            cv == channels_view(channels@),
            forall|j: int| 0 <= j < i ==> #[trigger] cv[j].0 != n@,
        decreases channels@.len() - i,
    {
        if channels[i].name == *n {
            proof {
                lemma_name_index(cv, n@);
                assert(cv[i as int].0 == n@);
                assert(name_index(cv, n@) == i as int) by {
                    let r = name_index(cv, n@);
                    if r < i {
                        assert(cv[r].0 != n@);
                    }
                }
            }
            return Some(i);
        }
        i = i + 1;
    }
    proof {
        lemma_name_index(cv, n@);
        if has_name(cv, n@) {
            let j = choose|j: int| 0 <= j < cv.len() && cv[j].0 == n@;
            assert(cv[j].0 != n@);
        }
    }
    None
}

/// The backing text for a sequence of profiles, from position `i`: one
/// `name key` line per profile, newlines between.
pub open spec fn render_from(v: Seq<(Seq<char>, Seq<char>)>, i: int) -> Seq<char>
    decreases v.len() - i,
{
    if !(0 <= i < v.len()) {
        Seq::empty()
    } else {
        v[i].0 + seq![' '] + v[i].1 + (if i + 1 < v.len() {
            seq!['\n']
        } else {
            Seq::empty()
        }) + render_from(v, i + 1)
    }
}

/// The backing text for a sequence of profiles.
pub open spec fn spec_render_key_file(v: Seq<(Seq<char>, Seq<char>)>) -> Seq<char> {
    render_from(v, 0)
}

/// Write the backing text for the profiles: `name key` lines joined by
/// newlines, never a legacy marker.
pub fn render_key_file(channels: &Vec<DroidChannel>) -> (r: String)
    ensures
        r@ == spec_render_key_file(channels_view(channels@)),
{
    let ghost cv = channels_view(channels@);
    let mut out: Vec<char> = Vec::new();
    let mut k: usize = 0;
    while k < channels.len()
        invariant
            k <= channels@.len(),
            cv == channels_view(channels@),
            out@ + render_from(cv, k as int) =~= render_from(cv, 0),
        decreases channels@.len() - k,
    {
        let ghost out_pre = out@;
        crate::text::push_str_chars(&mut out, &channels[k].name);
        out.push(' ');
        crate::text::push_str_chars(&mut out, &channels[k].api_key);
        if k + 1 < channels.len() {
            out.push('\n');
        }
        proof {
            assert(cv[k as int] == (channels@[k as int].name@, channels@[k as int].api_key@));
            assert(out@ =~= out_pre + (cv[k as int].0 + seq![' '] + cv[k as int].1 + (if k + 1
                < cv.len() {
                seq!['\n']
            } else {
                Seq::<char>::empty()
            })));
            assert(out@ + render_from(cv, k + 1) =~= out_pre + render_from(cv, k as int));
        }
        k = k + 1;
    }
    proof {
        assert(render_from(cv, k as int) == Seq::<char>::empty());
        assert(out@ =~= render_from(cv, 0));
    }
    crate::text::chars_to_string(&out)
}

/// Bring a profile into the list by the store's rules: with no old
/// name this is a create, refused when the name is taken, and the new
/// profile goes to the head; with an old name it is an update at the old
/// profile's position, refused when the old name is gone or the new name
/// collides with another profile.
pub fn save_droid_channel(
    channels: Vec<DroidChannel>,
    name: String,
    api_key: String,
    old_name: String,
) -> (r: Result<Vec<DroidChannel>, crate::store::StoreError>)
    ensures
        ({
            let cv = channels_view(channels@);
            match r {
                Ok(v) => if old_name@.len() == 0 {
                    &&& !has_name(cv, name@)
                    &&& channels_view(v@) =~= seq![(name@, api_key@)] + cv
                } else {
                    &&& has_name(cv, old_name@)
                    &&& (old_name@ == name@ || !has_name(cv, name@))
                    &&& channels_view(v@) =~= cv.update(
                        name_index(cv, old_name@),
                        (name@, api_key@),
                    )
                },
                Err(crate::store::StoreError::DuplicateName) => {
                    &&& has_name(cv, name@)
                    &&& (old_name@.len() == 0 || (has_name(cv, old_name@) && old_name@
                        != name@))
                },
                Err(crate::store::StoreError::NotFound) => old_name@.len() > 0 && !has_name(
                    cv,
                    old_name@,
                ),
                Err(_) => false,
            }
        }),
{
    let ghost cv = channels_view(channels@);
    proof {
        lemma_name_index(cv, name@);
        lemma_name_index(cv, old_name@);
    }
    if old_name.as_str().is_empty() {
        match find_name(&channels, &name) {
            Some(_) => Err(crate::store::StoreError::DuplicateName),
            None => {
                let mut v = channels;
                v.insert(0, DroidChannel { name, api_key });
                proof {
                    assert(v@[0].name@ == name@ && v@[0].api_key@ == api_key@);
                    assert(channels_view(v@) =~= seq![(name@, api_key@)] + cv);
                }
                Ok(v)
            },
        }
    } else {
        match find_name(&channels, &old_name) {
            None => Err(crate::store::StoreError::NotFound),
            Some(pos) => {
                proof {
                    assert(cv[pos as int].0 == old_name@);
                }
                if !(old_name == name) {
                    match find_name(&channels, &name) {
                        Some(_) => {
                            return Err(crate::store::StoreError::DuplicateName);
                        },
                        None => {},
                    }
                }
                let mut v = channels;
                v.remove(pos);
                v.insert(pos, DroidChannel { name, api_key });
                proof {
                    assert(v@[pos as int].name@ == name@ && v@[pos as int].api_key@
                        == api_key@);
                    assert(v@ =~= channels@.update(pos as int, v@[pos as int]));
                    assert(channels_view(v@) =~= cv.update(pos as int, (name@, api_key@)));
                }
                Ok(v)
            },
        }
    }
}

/// Creating a profile makes its name taken, so a second create under the
/// same name is refused by `save_droid_channel`'s contract; an update that
/// keeps the name touches only the head pair and reorders nothing.
pub proof fn lemma_save_create_then_update(
    cv: Seq<(Seq<char>, Seq<char>)>,
    n: Seq<char>,
    k1: Seq<char>,
    k2: Seq<char>,
)
    ensures
        has_name(seq![(n, k1)] + cv, n),
        name_index(seq![(n, k1)] + cv, n) == 0,
        (seq![(n, k1)] + cv).update(0, (n, k2)) =~= seq![(n, k2)] + cv,
{
    let v = seq![(n, k1)] + cv;
    assert(v[0].0 == n);
}

/// What activating a profile asks the caller to do: set this variable to
/// this value in its own process and in the user-level environment store,
/// so new terminal sessions inherit it.  The store never mutates ambient
/// state itself.
pub struct ActivationResult {
    pub var_name: String,
    pub value: String,
}

/// Plan a profile's activation.
pub fn switch_droid_channel(api_key: String) -> (r: ActivationResult)
    ensures
        r.var_name@ == "FACTORY_API_KEY"@,
        r.value@ == api_key@,
{
    ActivationResult { var_name: "FACTORY_API_KEY".to_owned(), value: api_key }
}

/// The key in effect, given the process's value and the user-level store's
/// value: the first of the two that is set and non-empty, else empty.
pub open spec fn spec_current_key(p: Option<Seq<char>>, u: Option<Seq<char>>) -> Seq<char> {
    match p {
        Some(s) => if s.len() > 0 {
            s
        } else {
            spec_user_key(u)
        },
        None => spec_user_key(u),
    }
}

/// The user-level store's key, when it is set and non-empty.
pub open spec fn spec_user_key(u: Option<Seq<char>>) -> Seq<char> {
    match u {
        Some(s) => if s.len() > 0 {
            s
        } else {
            Seq::empty()
        },
        None => Seq::empty(),
    }
}

/// The key in effect: the process environment's value when non-empty, else
/// the user-level store's, else empty.
pub fn get_current_factory_api_key(process_val: Option<String>, user_val: Option<String>) -> (r:
    String)
    ensures
        r@ == spec_current_key(
            match process_val {
                Some(s) => Some(s@),
                None => None,
            },
            match user_val {
                Some(s) => Some(s@),
                None => None,
            },
        ),
{
    match process_val {
        Some(s) => {
            if !s.as_str().is_empty() {
                return s;
            }
        },
        None => {},
    }
    match user_val {
        Some(s) => {
            if !s.as_str().is_empty() {
                return s;
            }
        },
        None => {},
    }
    String::new()
}

/// Whether a raw line survives a delete: blank lines go; a line splitting
/// into two halves at its first space goes when the trimmed left half is
/// the deleted name; every other line stays as it is.
pub open spec fn line_kept(ln: Seq<char>, name: Seq<char>) -> bool {
    &&& trim(ln).len() > 0
    &&& {
        let sp = find_from(ln, 0, ' ');
        !(0 <= sp < ln.len()) || trim(ln.subrange(0, sp)) != name
    }
}

/// The text after a delete, reading line runs from `i`; `first` says no
/// kept line has been written yet.
pub open spec fn del_from(s: Seq<char>, i: int, name: Seq<char>, first: bool) -> Seq<char>
    decreases s.len() + 1 - i,
    via del_from_dec
{
    if !(0 <= i < s.len()) {
        Seq::empty()
    } else {
        let e = find_from(s, i, '\n');
        let ln = s.subrange(i, e);
        if line_kept(ln, name) {
            (if first {
                Seq::empty()
            } else {
                seq!['\n']
            }) + ln + del_from(s, e + 1, name, false)
        } else {
            del_from(s, e + 1, name, first)
        }
    }
}

#[via_fn]
proof fn del_from_dec(s: Seq<char>, i: int, name: Seq<char>, first: bool) {
    if 0 <= i < s.len() {
        lemma_find_from_bounds(s, i, '\n');
    }
}

/// The backing text after a profile is deleted.
pub open spec fn spec_delete_key_file(s: Seq<char>, name: Seq<char>) -> Seq<char> {
    del_from(s, 0, name, true)
}

/// Two character lists hold the same characters.
fn eq_chars(a: &Vec<char>, b: &Vec<char>) -> (r: bool)
    ensures
        r == (a@ == b@),
{
    if a.len() != b.len() {
        proof {
            assert(a@ != b@);
        }
        return false;
    }
    let mut i: usize = 0;
    while i < a.len()
        invariant
            i <= a@.len(),
            a@.len() == b@.len(),
            forall|j: int| 0 <= j < i ==> a@[j] == b@[j],
        decreases a@.len() - i,
    {
        if a[i] != b[i] {
            proof {
                assert(a@[i as int] != b@[i as int]);
            }
            return false;
        }
        i = i + 1;
    }
    proof {
        assert(a@ =~= b@);
    }
    true
}

/// Rewrite the backing text with every line of the named profile removed,
/// by the store's rules: blank lines go, malformed lines stay, and a
/// missing name changes nothing but the blank lines.
pub fn delete_droid_channel(content: &str, name: &str) -> (r: String)
    ensures
        r@ == spec_delete_key_file(content@, name@),
{
    let chars = crate::text::str_to_chars(content);
    let name_chars = crate::text::str_to_chars(name);
    let n = chars.len();
    let mut out: Vec<char> = Vec::new();
    let mut first = true;
    let mut i: usize = 0;
    while i < n
        invariant
            i <= n,
            n == chars@.len(),
            chars@ == content@,
            name_chars@ == name@,
            out@ + del_from(chars@, i as int, name@, first) =~= del_from(
                chars@,
                0,
                name@,
                true,
            ),
        decreases n - i,
    {
        let ghost out_pre = out@;
        let ghost first_pre = first;
        let e = find_char(&chars, i, '\n');
        let line = crate::text::copy_range_chars(&chars, i, e);
        let t = trim_vec(&line);
        let keep: bool;
        if t.len() == 0 {
            keep = false;
        } else {
            let sp = find_char(&line, 0, ' ');
            if sp < line.len() {
                let left = crate::text::copy_range_chars(&line, 0, sp);
                let lt = trim_vec(&left);
                keep = !eq_chars(&lt, &name_chars);
            } else {
                keep = true;
            }
        }
        proof {
            assert(keep == line_kept(line@, name@));
        }
        if keep {
            if !first {
                out.push('\n');
            }
            let ghost base = out@;
            let mut j: usize = 0;
            while j < line.len()
                invariant
                    j <= line@.len(),
                    out@ == base + line@.take(j as int),
                decreases line@.len() - j,
            {
                out.push(line[j]);
                j = j + 1;
                proof {
                    assert(line@.take(j as int) =~= line@.take(j - 1).push(line@[j - 1]));
                    assert(out@ =~= base + line@.take(j as int));
                }
            }
            first = false;
            proof {
                assert(line@.take(line@.len() as int) =~= line@);
                assert(out@ =~= out_pre + ((if first_pre {
                    Seq::<char>::empty()
                } else {
                    seq!['\n']
                }) + line@));
            }
        }
        proof {
            if e < n {
            } else {
                assert(del_from(chars@, e + 1, name@, first) == del_from(
                    chars@,
                    n as int,
                    name@,
                    first,
                ));
            }
            assert(out@ + del_from(chars@, e + 1, name@, first) =~= del_from(
                chars@,
                0,
                name@,
                true,
            ));
        }
        if e < n {
            i = e + 1;
        } else {
            i = n;
        }
    }
    proof {
        assert(del_from(chars@, i as int, name@, first) == Seq::<char>::empty());
        assert(out@ =~= del_from(chars@, 0, name@, true));
    }
    crate::text::chars_to_string(&out)
}

} // verus!
