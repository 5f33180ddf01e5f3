//! The channel payload and its JSON shape.
//!
//! A channel is a named profile: an environment map, two permission rule
//! lists, an optional model override, a thinking flag, an optional
//! balance-query descriptor, and a read-side `mtime` annotation.  The
//! annotation is never written: it is stamped from file metadata after a
//! read, so a freshly encoded payload never carries it.

use vstd::prelude::*;

use crate::json::{obj_get, Json, JsonV};

verus! {

broadcast use vstd::seq::group_seq_axioms, vstd::std_specs::vec::group_vec_axioms;

/// How to query the remaining balance of a channel.
pub struct BalanceApi {
    pub url: Option<String>,
    pub method: Option<String>,
    pub field: Option<String>,
}

/// The abstract balance descriptor.
pub ghost struct BalanceV {
    pub url: Option<Seq<char>>,
    pub method: Option<Seq<char>>,
    pub field: Option<Seq<char>>,
}

impl BalanceApi {
    /// The abstract value of the descriptor.
    pub open spec fn view(self) -> BalanceV {
        BalanceV {
            url: match self.url {
                Some(s) => Some(s@),
                None => None,
            },
            method: match self.method {
                Some(s) => Some(s@),
                None => None,
            },
            field: match self.field {
                Some(s) => Some(s@),
                None => None,
            },
        }
    }
}

/// The two ordered permission rule lists.
pub struct Permissions {
    pub allow: Vec<String>,
    pub deny: Vec<String>,
}

/// A channel's configuration payload.
pub struct ChannelConfig {
    pub env: Vec<(String, String)>,
    pub permissions: Permissions,
    pub model: Option<String>,
    pub always_thinking_enabled: bool,
    pub mtime: Option<i64>,
    pub balance_api: Option<BalanceApi>,
}

/// The abstract channel payload.
pub ghost struct ChannelV {
    pub env: Seq<(Seq<char>, Seq<char>)>,
    pub allow: Seq<Seq<char>>,
    pub deny: Seq<Seq<char>>,
    pub model: Option<Seq<char>>,
    pub always_thinking_enabled: bool,
    pub mtime: Option<i64>,
    pub balance_api: Option<BalanceV>,
}

impl ChannelConfig {
    /// The abstract value of the payload.
    pub open spec fn view(self) -> ChannelV {
        ChannelV {
            env: self.env@.map_values(|p: (String, String)| (p.0@, p.1@)),
            allow: self.permissions.allow@.map_values(|s: String| s@),
            deny: self.permissions.deny@.map_values(|s: String| s@),
            model: match self.model {
                Some(s) => Some(s@),
                None => None,
            },
            always_thinking_enabled: self.always_thinking_enabled,
            mtime: self.mtime,
            balance_api: match self.balance_api {
                Some(b) => Some(b.view()),
                None => None,
            },
        }
    }
}

/// The JSON members of a balance descriptor: only the present fields, in the
/// order url, method, field.
pub open spec fn spec_balance_json(b: BalanceV) -> JsonV {
    let m0 = Seq::<(Seq<char>, JsonV)>::empty();
    let m1 = match b.url {
        Some(u) => m0.push(("url"@, JsonV::Str(u))),
        None => m0,
    };
    let m2 = match b.method {
        Some(u) => m1.push(("method"@, JsonV::Str(u))),
        None => m1,
    };
    let m3 = match b.field {
        Some(u) => m2.push(("field"@, JsonV::Str(u))),
        None => m2,
    };
    JsonV::Obj(m3)
}

/// The JSON document written for a channel: `env`, `permissions`, `model`
/// when set, `alwaysThinkingEnabled`, `balanceApi` when set — and never
/// `mtime`.
pub open spec fn spec_channel_json(c: ChannelV) -> JsonV {
    let env_m = ("env"@, JsonV::Obj(c.env.map_values(|p: (Seq<char>, Seq<char>)| (p.0, JsonV::Str(p.1)))));
    let perm_m = ("permissions"@, JsonV::Obj(
        seq![
            ("allow"@, JsonV::Arr(c.allow.map_values(|s: Seq<char>| JsonV::Str(s)))),
            ("deny"@, JsonV::Arr(c.deny.map_values(|s: Seq<char>| JsonV::Str(s)))),
        ],
    ));
    let m0 = seq![env_m, perm_m];
    let m1 = match c.model {
        Some(s) => m0.push(("model"@, JsonV::Str(s))),
        None => m0,
    };
    let m2 = m1.push(("alwaysThinkingEnabled"@, JsonV::Bool(c.always_thinking_enabled)));
    let m3 = match c.balance_api {
        Some(b) => m2.push(("balanceApi"@, spec_balance_json(b))),
        None => m2,
    };
    JsonV::Obj(m3)
}

/// Every character is a decimal digit.
pub open spec fn all_digits(s: Seq<char>) -> bool {
    forall|i: int| 0 <= i < s.len() ==> crate::text::is_digit(s[i])
}

/// The value of a run of decimal digits.
pub open spec fn digits_val(s: Seq<char>) -> int
    decreases s.len(),
{
    if s.len() == 0 {
        0
    } else {
        digits_val(s.drop_last()) * 10 + ((s.last() as u32) - ('0' as u32))
    }
}

/// Ten to a power.
pub open spec fn pow10(n: nat) -> int
    decreases n,
{
    if n == 0 {
        1
    } else {
        10 * pow10((n - 1) as nat)
    }
}

/// A digit run's value stays under ten to its length.
pub proof fn lemma_digits_val_bound(s: Seq<char>)
    requires
        all_digits(s),
    ensures
        0 <= digits_val(s) < pow10(s.len()),
    decreases s.len(),
{
    if s.len() > 0 {
        assert(all_digits(s.drop_last()));
        lemma_digits_val_bound(s.drop_last());
    }
}

/// The signed integer a number's raw text denotes, when it is a plain
/// decimal of at most nineteen digits that fits an `i64`; anything else (a
/// fraction, an exponent, an overlong or overflowing run) gives nothing.
pub open spec fn dec_i64(s: Seq<char>) -> Option<i64> {
    let neg = s.len() > 0 && s[0] == '-';
    let ds = if neg {
        s.drop_first()
    } else {
        s
    };
    if ds.len() == 0 || ds.len() > 19 || !all_digits(ds) {
        None
    } else {
        let v = if neg {
            -digits_val(ds)
        } else {
            digits_val(ds)
        };
        if i64::MIN <= v <= i64::MAX {
            Some(v as i64)
        } else {
            None
        }
    }
}

/// Read a number's raw text as an `i64`.
pub fn parse_i64(s: &String) -> (r: Option<i64>)
    ensures
        r == dec_i64(s@),
{
    let st = s.as_str();
    let n = st.unicode_len();
    let neg = n > 0 && st.get_char(0) == '-';
    let start: usize = if neg {
        1
    } else {
        0
    };
    let ghost ds = if neg {
        s@.drop_first()
    } else {
        s@
    };
    proof {
        assert(ds.len() == n - start);
        assert(forall|j: int| 0 <= j < ds.len() ==> ds[j] == s@[start + j]);
    }
    let dn = n - start;
    if dn == 0 || dn > 19 {
        return None;
    }
    let mut v: u64 = 0;
    let mut i = start;
    while i < n
        invariant
            start <= i <= n,
            n == s@.len(),
            st@ == s@,
            neg == (s@.len() > 0 && s@[0] == '-'),
            start == if neg {
                1int
            } else {
                0int
            },
            ds == (if neg {
                s@.drop_first()
            } else {
                s@
            }),
            ds.len() == n - start,
            1 <= ds.len() <= 19,
            all_digits(ds.take(i - start)),
            v == digits_val(ds.take(i - start)),
        decreases n - i,
    {
        let c = st.get_char(i);
        let code = c as u32;
        if !('0' <= c && c <= '9') {
            proof {
                assert(ds[i - start] == s@[i as int]);
                assert(!crate::text::is_digit(ds[i - start]));
            }
            return None;
        }
        proof {
            let k = i - start;
            lemma_digits_val_bound(ds.take(k));
            assert(ds.take(k).len() <= 18);
            lemma_pow10_le(ds.take(k).len(), 18);
            reveal_with_fuel(pow10, 20);
            assert(pow10(18) == 0xDE0B6B3A7640000);
            assert(v < 0xDE0B6B3A7640000);
        }
        v = v * 10 + ((code - 0x30) as u64);
        i = i + 1;
        proof {
            let k = i - start;
            assert(ds.take(k).drop_last() =~= ds.take(k - 1));
            assert(ds.take(k).last() == ds[k - 1]);
            assert(ds[k - 1] == s@[i - 1]);
            assert(all_digits(ds.take(k)));
            assert(v == digits_val(ds.take(k)));
        }
    }
    proof {
        assert(ds.take(n - start) =~= ds);
        lemma_digits_val_bound(ds);
        lemma_pow10_le(ds.len(), 19);
        reveal_with_fuel(pow10, 20);
        assert(pow10(19) == 0x8AC7230489E80000);
    }
    if neg {
        if v > 0x8000000000000000 {
            None
        } else if v == 0x8000000000000000 {
            Some(i64::MIN)
        } else {
            Some(-(v as i64))
        }
    } else {
        if v > 0x7FFFFFFFFFFFFFFF {
            None
        } else {
            Some(v as i64)
        }
    }
}

/// Ten-to-the-power is monotone in the exponent.
pub proof fn lemma_pow10_le(a: nat, b: nat)
    requires
        a <= b,
    ensures
        pow10(a) <= pow10(b),
    decreases b,
{
    if a < b {
        lemma_pow10_le(a, (b - 1) as nat);
        lemma_pow10_pos((b - 1) as nat);
    }
}

/// Ten-to-the-power is positive.
pub proof fn lemma_pow10_pos(n: nat)
    ensures
        pow10(n) >= 1,
    decreases n,
{
    if n > 0 {
        lemma_pow10_pos((n - 1) as nat);
    }
}

/// The member keys the codec writes are pairwise distinct.
proof fn lemma_codec_keys_distinct()
    ensures
        "env"@ != "permissions"@,
        "env"@ != "model"@,
        "env"@ != "alwaysThinkingEnabled"@,
        "env"@ != "balanceApi"@,
        "env"@ != "mtime"@,
        "permissions"@ != "model"@,
        "permissions"@ != "alwaysThinkingEnabled"@,
        "permissions"@ != "balanceApi"@,
        "permissions"@ != "mtime"@,
        "model"@ != "alwaysThinkingEnabled"@,
        "model"@ != "balanceApi"@,
        "model"@ != "mtime"@,
        "alwaysThinkingEnabled"@ != "balanceApi"@,
        "alwaysThinkingEnabled"@ != "mtime"@,
        "balanceApi"@ != "mtime"@,
        "allow"@ != "deny"@,
        "url"@ != "method"@,
        "url"@ != "field"@,
        "method"@ != "field"@,
{
    reveal_strlit("env");
    reveal_strlit("permissions");
    reveal_strlit("model");
    reveal_strlit("alwaysThinkingEnabled");
    reveal_strlit("balanceApi");
    reveal_strlit("mtime");
    reveal_strlit("allow");
    reveal_strlit("deny");
    reveal_strlit("url");
    reveal_strlit("method");
    reveal_strlit("field");
    assert("env"@.len() == 3);
    assert("permissions"@.len() == 11);
    assert("model"@.len() == 5);
    assert("alwaysThinkingEnabled"@.len() == 21);
    assert("balanceApi"@.len() == 10);
    assert("mtime"@.len() == 5);
    assert("allow"@.len() == 5);
    assert("deny"@.len() == 4);
    assert("url"@.len() == 3);
    assert("method"@.len() == 6);
    assert("field"@.len() == 5);
    assert("allow"@ != "deny"@);
    assert("url"@ != "field"@);
    assert("env"@ != "url"@) by {
        assert("env"@[0] == 'e');
        assert("url"@[0] == 'u');
    }
    assert("model"@ != "field"@) by {
        assert("model"@[0] == 'm');
        assert("field"@[0] == 'f');
    }
    assert("mtime"@ != "field"@) by {
        assert("mtime"@[0] == 'm');
    }
    assert("mtime"@ != "allow"@) by {
        assert("allow"@[0] == 'a');
    }
    assert("model"@ != "allow"@) by {
        assert("model"@[0] == 'm');
    }
    assert("model"@ != "mtime"@) by {
        assert("model"@[1] == 'o');
        assert("mtime"@[1] == 't');
    }
}

/// Writing then reading a balance descriptor gives it back unchanged.
pub proof fn lemma_balance_roundtrip(b: BalanceV)
    ensures
        spec_balance_from(spec_balance_json(b)) == Some(b),
{
    lemma_codec_keys_distinct();
    let m0 = Seq::<(Seq<char>, JsonV)>::empty();
    let m1 = match b.url {
        Some(u) => m0.push(("url"@, JsonV::Str(u))),
        None => m0,
    };
    let m2 = match b.method {
        Some(u) => m1.push(("method"@, JsonV::Str(u))),
        None => m1,
    };
    if b.url is Some {
        let p = ("url"@, JsonV::Str(b.url->Some_0));
        crate::json::lemma_obj_get_push(m0, p, "url"@);
        crate::json::lemma_obj_get_push(m0, p, "method"@);
        crate::json::lemma_obj_get_push(m0, p, "field"@);
    }
    if b.method is Some {
        let p = ("method"@, JsonV::Str(b.method->Some_0));
        crate::json::lemma_obj_get_push(m1, p, "url"@);
        crate::json::lemma_obj_get_push(m1, p, "method"@);
        crate::json::lemma_obj_get_push(m1, p, "field"@);
    }
    if b.field is Some {
        let p = ("field"@, JsonV::Str(b.field->Some_0));
        crate::json::lemma_obj_get_push(m2, p, "url"@);
        crate::json::lemma_obj_get_push(m2, p, "method"@);
        crate::json::lemma_obj_get_push(m2, p, "field"@);
    }
}

/// Writing then reading a channel payload loses nothing but the read-side
/// `mtime` annotation: the written document never carries an `mtime`
/// member, and every other field comes back as it was.
pub proof fn lemma_channel_roundtrip(c: ChannelV)
    ensures
        spec_channel_from(spec_channel_json(c)) == Some(
            ChannelV {
                env: c.env,
                allow: c.allow,
                deny: c.deny,
                model: c.model,
                always_thinking_enabled: c.always_thinking_enabled,
                mtime: None,
                balance_api: c.balance_api,
            },
        ),
        !crate::json::obj_has(spec_channel_json(c)->Obj_0, "mtime"@),
{
    lemma_codec_keys_distinct();
    let env_js = c.env.map_values(|p: (Seq<char>, Seq<char>)| (p.0, JsonV::Str(p.1)));
    let env_m = ("env"@, JsonV::Obj(env_js));
    let allow_js = c.allow.map_values(|s: Seq<char>| JsonV::Str(s));
    let deny_js = c.deny.map_values(|s: Seq<char>| JsonV::Str(s));
    let allow_m = ("allow"@, JsonV::Arr(allow_js));
    let deny_m = ("deny"@, JsonV::Arr(deny_js));
    let pm = seq![allow_m, deny_m];
    let perm_m = ("permissions"@, JsonV::Obj(pm));
    let think_m = ("alwaysThinkingEnabled"@, JsonV::Bool(c.always_thinking_enabled));
    let m0a = Seq::<(Seq<char>, JsonV)>::empty().push(env_m);
    let m0 = m0a.push(perm_m);
    assert(m0 =~= seq![env_m, perm_m]);
    let m1 = match c.model {
        Some(s) => m0.push(("model"@, JsonV::Str(s))),
        None => m0,
    };
    let m2 = m1.push(think_m);
    let m3 = match c.balance_api {
        Some(b) => m2.push(("balanceApi"@, spec_balance_json(b))),
        None => m2,
    };
    assert(spec_channel_json(c) == JsonV::Obj(m3));

    let e = Seq::<(Seq<char>, JsonV)>::empty();
    crate::json::lemma_obj_get_push(e, env_m, "env"@);
    crate::json::lemma_obj_get_push(e, env_m, "permissions"@);
    crate::json::lemma_obj_get_push(e, env_m, "model"@);
    crate::json::lemma_obj_get_push(e, env_m, "alwaysThinkingEnabled"@);
    crate::json::lemma_obj_get_push(e, env_m, "mtime"@);
    crate::json::lemma_obj_get_push(e, env_m, "balanceApi"@);
    crate::json::lemma_obj_get_push(m0a, perm_m, "env"@);
    crate::json::lemma_obj_get_push(m0a, perm_m, "permissions"@);
    crate::json::lemma_obj_get_push(m0a, perm_m, "model"@);
    crate::json::lemma_obj_get_push(m0a, perm_m, "alwaysThinkingEnabled"@);
    crate::json::lemma_obj_get_push(m0a, perm_m, "mtime"@);
    crate::json::lemma_obj_get_push(m0a, perm_m, "balanceApi"@);
    if c.model is Some {
        let p = ("model"@, JsonV::Str(c.model->Some_0));
        crate::json::lemma_obj_get_push(m0, p, "env"@);
        crate::json::lemma_obj_get_push(m0, p, "permissions"@);
        crate::json::lemma_obj_get_push(m0, p, "model"@);
        crate::json::lemma_obj_get_push(m0, p, "alwaysThinkingEnabled"@);
        crate::json::lemma_obj_get_push(m0, p, "mtime"@);
        crate::json::lemma_obj_get_push(m0, p, "balanceApi"@);
    }
    crate::json::lemma_obj_get_push(m1, think_m, "env"@);
    crate::json::lemma_obj_get_push(m1, think_m, "permissions"@);
    crate::json::lemma_obj_get_push(m1, think_m, "model"@);
    crate::json::lemma_obj_get_push(m1, think_m, "alwaysThinkingEnabled"@);
    crate::json::lemma_obj_get_push(m1, think_m, "mtime"@);
    crate::json::lemma_obj_get_push(m1, think_m, "balanceApi"@);
    if c.balance_api is Some {
        let p = ("balanceApi"@, spec_balance_json(c.balance_api->Some_0));
        crate::json::lemma_obj_get_push(m2, p, "env"@);
        crate::json::lemma_obj_get_push(m2, p, "permissions"@);
        crate::json::lemma_obj_get_push(m2, p, "model"@);
        crate::json::lemma_obj_get_push(m2, p, "alwaysThinkingEnabled"@);
        crate::json::lemma_obj_get_push(m2, p, "mtime"@);
        crate::json::lemma_obj_get_push(m2, p, "balanceApi"@);
    }
    assert(obj_get(m3, "env"@) == Some(JsonV::Obj(env_js)));
    assert(obj_get(m3, "permissions"@) == Some(JsonV::Obj(pm)));
    assert(obj_get(m3, "alwaysThinkingEnabled"@) == Some(
        JsonV::Bool(c.always_thinking_enabled),
    ));
    assert(obj_get(m3, "mtime"@) is None);

    // The environment object reads back as the same pairs.
    assert forall|i: int| 0 <= i < env_js.len() implies (#[trigger] env_js[i].1) is Str by {}
    assert(env_from(env_js) is Some);
    assert(env_from(env_js)->Some_0 =~= c.env);

    // The two permission lists read back as the same strings.
    let pe = Seq::<(Seq<char>, JsonV)>::empty();
    crate::json::lemma_obj_get_push(pe, allow_m, "allow"@);
    crate::json::lemma_obj_get_push(pe, allow_m, "deny"@);
    crate::json::lemma_obj_get_push(pe.push(allow_m), deny_m, "allow"@);
    crate::json::lemma_obj_get_push(pe.push(allow_m), deny_m, "deny"@);
    assert(pm =~= pe.push(allow_m).push(deny_m));
    assert(obj_get(pm, "allow"@) == Some(JsonV::Arr(allow_js)));
    assert(obj_get(pm, "deny"@) == Some(JsonV::Arr(deny_js)));
    assert forall|i: int| 0 <= i < allow_js.len() implies (#[trigger] allow_js[i]) is Str by {}
    assert forall|i: int| 0 <= i < deny_js.len() implies (#[trigger] deny_js[i]) is Str by {}
    assert(strs_from(allow_js) is Some);
    assert(strs_from(allow_js)->Some_0 =~= c.allow);
    assert(strs_from(deny_js) is Some);
    assert(strs_from(deny_js)->Some_0 =~= c.deny);

    if c.balance_api is Some {
        lemma_balance_roundtrip(c.balance_api->Some_0);
        assert(spec_balance_json(c.balance_api->Some_0) is Obj);
    }
    crate::json::lemma_obj_get_has(m3, "mtime"@);
}

/// An environment object's members as string pairs; a non-string value
/// fails.
pub open spec fn env_from(em: Seq<(Seq<char>, JsonV)>) -> Option<Seq<(Seq<char>, Seq<char>)>> {
    if forall|i: int| 0 <= i < em.len() ==> (#[trigger] em[i].1) is Str {
        Some(em.map_values(|p: (Seq<char>, JsonV)| (p.0, p.1->Str_0)))
    } else {
        None
    }
}

/// An array's elements as strings; a non-string element fails.
pub open spec fn strs_from(a: Seq<JsonV>) -> Option<Seq<Seq<char>>> {
    if forall|i: int| 0 <= i < a.len() ==> (#[trigger] a[i]) is Str {
        Some(a.map_values(|v: JsonV| v->Str_0))
    } else {
        None
    }
}

/// An optional string member: absent or null reads as nothing, a string as
/// itself, anything else fails.
pub open spec fn str_opt(m: Seq<(Seq<char>, JsonV)>, k: Seq<char>) -> Option<Option<Seq<char>>> {
    match obj_get(m, k) {
        None => Some(None),
        Some(JsonV::Null) => Some(None),
        Some(JsonV::Str(s)) => Some(Some(s)),
        Some(_) => None,
    }
}

/// An optional integer member: absent or null reads as nothing, a plain
/// decimal as itself, anything else fails.
pub open spec fn mtime_opt(m: Seq<(Seq<char>, JsonV)>) -> Option<Option<i64>> {
    match obj_get(m, "mtime"@) {
        None => Some(None),
        Some(JsonV::Null) => Some(None),
        Some(JsonV::Num(raw)) => match dec_i64(raw) {
            Some(x) => Some(Some(x)),
            None => None,
        },
        Some(_) => None,
    }
}

/// A balance descriptor from its JSON value.
pub open spec fn spec_balance_from(v: JsonV) -> Option<BalanceV> {
    if !(v is Obj) {
        None
    } else {
        let bm = v->Obj_0;
        match (str_opt(bm, "url"@), str_opt(bm, "method"@), str_opt(bm, "field"@)) {
            (Some(url), Some(method), Some(field)) => Some(BalanceV { url, method, field }),
            _ => None,
        }
    }
}

/// A channel payload from a JSON document value.  `env`, `permissions` (with
/// its two string lists) and `alwaysThinkingEnabled` are required; `model`,
/// `mtime` and `balanceApi` are optional; unknown members are ignored.
pub open spec fn spec_channel_from(v: JsonV) -> Option<ChannelV> {
    if !(v is Obj) {
        None
    } else {
        let m = v->Obj_0;
        match obj_get(m, "env"@) {
            Some(ev) => if !(ev is Obj) {
                None
            } else {
                match env_from(ev->Obj_0) {
                    Some(env) => match obj_get(m, "permissions"@) {
                        Some(pv) => if !(pv is Obj) {
                            None
                        } else {
                            let pm = pv->Obj_0;
                            match (obj_get(pm, "allow"@), obj_get(pm, "deny"@)) {
                                (Some(av), Some(dv)) => if !(av is Arr && dv is Arr) {
                                    None
                                } else {
                                    match (strs_from(av->Arr_0), strs_from(dv->Arr_0)) {
                                        (Some(allow), Some(deny)) => spec_channel_rest(
                                            m,
                                            env,
                                            allow,
                                            deny,
                                        ),
                                        _ => None,
                                    }
                                },
                                _ => None,
                            }
                        },
                        None => None,
                    },
                    None => None,
                }
            },
            None => None,
        }
    }
}

/// The scalar and optional members of a channel payload.
pub open spec fn spec_channel_rest(
    m: Seq<(Seq<char>, JsonV)>,
    env: Seq<(Seq<char>, Seq<char>)>,
    allow: Seq<Seq<char>>,
    deny: Seq<Seq<char>>,
) -> Option<ChannelV> {
    match obj_get(m, "alwaysThinkingEnabled"@) {
        Some(JsonV::Bool(b)) => match (str_opt(m, "model"@), mtime_opt(m)) {
            (Some(model), Some(mtime)) => match obj_get(m, "balanceApi"@) {
                None => Some(
                    ChannelV {
                        env,
                        allow,
                        deny,
                        model,
                        always_thinking_enabled: b,
                        mtime,
                        balance_api: None,
                    },
                ),
                Some(JsonV::Null) => Some(
                    ChannelV {
                        env,
                        allow,
                        deny,
                        model,
                        always_thinking_enabled: b,
                        mtime,
                        balance_api: None,
                    },
                ),
                Some(bv) => match spec_balance_from(bv) {
                    Some(b2) => Some(
                        ChannelV {
                            env,
                            allow,
                            deny,
                            model,
                            always_thinking_enabled: b,
                            mtime,
                            balance_api: Some(b2),
                        },
                    ),
                    None => None,
                },
            },
            _ => None,
        },
        _ => None,
    }
}

/// A list of strings as a JSON array of strings.
fn strings_to_json(v: &Vec<String>) -> (r: Vec<Json>)
    ensures
        crate::json::Json::views_of_items(r@) =~= v@.map_values(|s: String| s@).map_values(
            |s: Seq<char>| JsonV::Str(s),
        ),
{
    let mut out: Vec<Json> = Vec::new();
    let mut i: usize = 0;
    while i < v.len()
        invariant
            i <= v@.len(),
            out@.len() == i,
            forall|k: int| 0 <= k < i ==> out@[k] == Json::Str(v@[k]),
        decreases v@.len() - i,
    {
        out.push(Json::Str(v[i].clone()));
        i = i + 1;
    }
    proof {
        crate::json::lemma_views_of_items(out@);
    }
    out
}

/// An environment map as a JSON object of string members.
fn env_to_json(v: &Vec<(String, String)>) -> (r: Vec<(String, Json)>)
    ensures
        crate::json::Json::views_of_members(r@) =~= v@.map_values(
            |p: (String, String)| (p.0@, p.1@),
        ).map_values(|p: (Seq<char>, Seq<char>)| (p.0, JsonV::Str(p.1))),
{
    let mut out: Vec<(String, Json)> = Vec::new();
    let mut i: usize = 0;
    while i < v.len()
        invariant
            i <= v@.len(),
            out@.len() == i,
            forall|k: int|
                0 <= k < i ==> out@[k].0 == v@[k].0 && out@[k].1 == Json::Str(v@[k].1),
        decreases v@.len() - i,
    {
        let pair = &v[i];
        out.push((pair.0.clone(), Json::Str(pair.1.clone())));
        i = i + 1;
    }
    proof {
        crate::json::lemma_views_of_members(out@);
    }
    out
}

/// The JSON value written for a balance descriptor.
fn balance_to_json(b: &BalanceApi) -> (r: Json)
    ensures
        r.view() == spec_balance_json(b.view()),
{
    let mut members: Vec<(String, Json)> = Vec::new();
    match &b.url {
        Some(u) => members.push(("url".to_owned(), Json::Str(u.clone()))),
        None => (),
    }
    match &b.method {
        Some(u) => members.push(("method".to_owned(), Json::Str(u.clone()))),
        None => (),
    }
    match &b.field {
        Some(u) => members.push(("field".to_owned(), Json::Str(u.clone()))),
        None => (),
    }
    let r = Json::Obj(members);
    proof {
        crate::json::lemma_views_of_members(members@);
        assert(Json::views_of_members(members@) =~= spec_balance_json(b.view())->Obj_0);
    }
    r
}

/// The JSON document value for a channel payload; `mtime` is left out.
pub fn channel_to_json(c: &ChannelConfig) -> (r: Json)
    ensures
        r.view() == spec_channel_json(c.view()),
{
    let mut members: Vec<(String, Json)> = Vec::new();
    let env_vec = env_to_json(&c.env);
    let ghost envv = env_vec@;
    members.push(("env".to_owned(), Json::Obj(env_vec)));
    let mut perm: Vec<(String, Json)> = Vec::new();
    let allow_vec = strings_to_json(&c.permissions.allow);
    let ghost allowv = allow_vec@;
    let deny_vec = strings_to_json(&c.permissions.deny);
    let ghost denyv = deny_vec@;
    perm.push(("allow".to_owned(), Json::Arr(allow_vec)));
    perm.push(("deny".to_owned(), Json::Arr(deny_vec)));
    let ghost permv = perm@;
    members.push(("permissions".to_owned(), Json::Obj(perm)));
    match &c.model {
        Some(s) => members.push(("model".to_owned(), Json::Str(s.clone()))),
        None => (),
    }
    members.push(("alwaysThinkingEnabled".to_owned(), Json::Bool(c.always_thinking_enabled)));
    match &c.balance_api {
        Some(b) => members.push(("balanceApi".to_owned(), balance_to_json(b))),
        None => (),
    }
    let r = Json::Obj(members);
    proof {
        crate::json::lemma_views_of_members(members@);
        crate::json::lemma_views_of_members(permv);
        assert(Json::views_of_members(permv) =~= spec_channel_json(c.view())->Obj_0[1].1->Obj_0);
        assert(Json::views_of_members(members@) =~= spec_channel_json(c.view())->Obj_0);
    }
    r
}

/// The string pairs of an environment object.
fn env_pairs(em: &Vec<(String, Json)>) -> (r: Option<Vec<(String, String)>>)
    ensures
        match r {
            Some(v) => env_from(Json::views_of_members(em@)) == Some(
                v@.map_values(|p: (String, String)| (p.0@, p.1@)),
            ),
            None => env_from(Json::views_of_members(em@)) is None,
        },
{
    let mut out: Vec<(String, String)> = Vec::new();
    let mut i: usize = 0;
    while i < em.len()
        invariant
            i <= em@.len(),
            out@.len() == i,
            forall|k: int|
                0 <= k < i ==> (#[trigger] em@[k].1) is Str && out@[k].0 == em@[k].0
                    && out@[k].1 == em@[k].1->Str_0,
        decreases em@.len() - i,
    {
        match &em[i].1 {
            Json::Str(s) => {
                out.push((em[i].0.clone(), s.clone()));
            },
            _ => {
                proof {
                    crate::json::lemma_views_of_members(em@);
                    assert(Json::views_of_members(em@)[i as int].1 == em@[i as int].1.view());
                    assert(!(Json::views_of_members(em@)[i as int].1 is Str));
                }
                return None;
            },
        }
        i = i + 1;
    }
    proof {
        crate::json::lemma_views_of_members(em@);
        let mv = Json::views_of_members(em@);
        assert forall|k: int| 0 <= k < mv.len() implies (#[trigger] mv[k].1) is Str by {
            assert(em@[k].1 is Str);
            assert(mv[k].1 == em@[k].1.view());
        }
        assert(env_from(mv) == Some(mv.map_values(|p: (Seq<char>, JsonV)| (p.0, p.1->Str_0))));
        assert(mv.map_values(|p: (Seq<char>, JsonV)| (p.0, p.1->Str_0)) =~= out@.map_values(
            |p: (String, String)| (p.0@, p.1@),
        ));
    }
    Some(out)
}

/// The strings of an array of strings.
fn string_items(aw: &Vec<Json>) -> (r: Option<Vec<String>>)
    ensures
        match r {
            Some(v) => strs_from(Json::views_of_items(aw@)) == Some(
                v@.map_values(|s: String| s@),
            ),
            None => strs_from(Json::views_of_items(aw@)) is None,
        },
{
    let mut out: Vec<String> = Vec::new();
    let mut i: usize = 0;
    while i < aw.len()
        invariant
            i <= aw@.len(),
            out@.len() == i,
            forall|k: int|
                0 <= k < i ==> (#[trigger] aw@[k]) is Str && out@[k] == aw@[k]->Str_0,
        decreases aw@.len() - i,
    {
        match &aw[i] {
            Json::Str(s) => {
                out.push(s.clone());
            },
            _ => {
                proof {
                    crate::json::lemma_views_of_items(aw@);
                    assert(Json::views_of_items(aw@)[i as int] == aw@[i as int].view());
                    assert(!(Json::views_of_items(aw@)[i as int] is Str));
                }
                return None;
            },
        }
        i = i + 1;
    }
    proof {
        crate::json::lemma_views_of_items(aw@);
        let av = Json::views_of_items(aw@);
        assert forall|k: int| 0 <= k < av.len() implies (#[trigger] av[k]) is Str by {
            assert(aw@[k] is Str);
            assert(av[k] == aw@[k].view());
        }
        assert(strs_from(av) == Some(av.map_values(|v: JsonV| v->Str_0)));
        assert(av.map_values(|v: JsonV| v->Str_0) =~= out@.map_values(|s: String| s@));
    }
    Some(out)
}

/// An optional string member; the outer `None` is a failed read.
fn str_field(m: &Vec<(String, Json)>, k: &String) -> (r: Option<Option<String>>)
    ensures
        match r {
            Some(Some(s)) => str_opt(Json::views_of_members(m@), k@) == Some(Some(s@)),
            Some(None) => str_opt(Json::views_of_members(m@), k@) == Some(None::<Seq<char>>),
            None => str_opt(Json::views_of_members(m@), k@) is None,
        },
{
    match crate::json::get_key(m, k) {
        None => Some(None),
        Some(j) => match j {
            Json::Null => Some(None),
            Json::Str(s) => Some(Some(s.clone())),
            _ => None,
        },
    }
}

/// The optional `mtime` member; the outer `None` is a failed read.
fn mtime_field(m: &Vec<(String, Json)>) -> (r: Option<Option<i64>>)
    ensures
        match r {
            Some(x) => mtime_opt(Json::views_of_members(m@)) == Some(x),
            None => mtime_opt(Json::views_of_members(m@)) is None,
        },
{
    match crate::json::get_key(m, &"mtime".to_owned()) {
        None => Some(None),
        Some(j) => match j {
            Json::Null => Some(None),
            Json::Num(raw) => match parse_i64(raw) {
                Some(x) => Some(Some(x)),
                None => None,
            },
            _ => None,
        },
    }
}

/// The optional `balanceApi` member; the outer `None` is a failed read.
fn balance_field(m: &Vec<(String, Json)>) -> (r: Option<Option<BalanceApi>>)
    ensures
        match r {
            Some(Some(b)) => {
                &&& obj_get(Json::views_of_members(m@), "balanceApi"@) matches Some(bv)
                &&& spec_balance_from(
                    obj_get(Json::views_of_members(m@), "balanceApi"@)->Some_0,
                ) == Some(b.view())
            },
            Some(None) => obj_get(Json::views_of_members(m@), "balanceApi"@) is None || obj_get(
                Json::views_of_members(m@),
                "balanceApi"@,
            ) == Some(JsonV::Null),
            None => {
                ||| {
                    &&& obj_get(Json::views_of_members(m@), "balanceApi"@) matches Some(bv)
                    &&& bv != JsonV::Null
                    &&& spec_balance_from(bv) is None
                }
            },
        },
{
    match crate::json::get_key(m, &"balanceApi".to_owned()) {
        None => Some(None),
        Some(j) => match j {
            Json::Null => Some(None),
            Json::Obj(bm) => {
                let url = match str_field(bm, &"url".to_owned()) {
                    Some(x) => x,
                    None => {
                        return None;
                    },
                };
                let method = match str_field(bm, &"method".to_owned()) {
                    Some(x) => x,
                    None => {
                        return None;
                    },
                };
                let field = match str_field(bm, &"field".to_owned()) {
                    Some(x) => x,
                    None => {
                        return None;
                    },
                };
                Some(Some(BalanceApi { url, method, field }))
            },
            _ => None,
        },
    }
}

/// A channel payload read from a JSON document value.
pub fn channel_from_json(j: &Json) -> (r: Option<ChannelConfig>)
    ensures
        match r {
            Some(c) => spec_channel_from(j.view()) == Some(c.view()),
            None => spec_channel_from(j.view()) is None,
        },
{
    let m = match j {
        Json::Obj(m) => m,
        _ => {
            return None;
        },
    };
    let env = match crate::json::get_key(m, &"env".to_owned()) {
        Some(ev) => match ev {
            Json::Obj(em) => match env_pairs(em) {
                Some(env) => env,
                None => {
                    return None;
                },
            },
            _ => {
                return None;
            },
        },
        None => {
            return None;
        },
    };
    let (allow, deny) = match crate::json::get_key(m, &"permissions".to_owned()) {
        Some(pv) => match pv {
            Json::Obj(pm) => {
                let allow = match crate::json::get_key(pm, &"allow".to_owned()) {
                    Some(av) => match av {
                        Json::Arr(aw) => match string_items(aw) {
                            Some(x) => x,
                            None => {
                                return None;
                            },
                        },
                        _ => {
                            return None;
                        },
                    },
                    None => {
                        return None;
                    },
                };
                let deny = match crate::json::get_key(pm, &"deny".to_owned()) {
                    Some(dv) => match dv {
                        Json::Arr(dw) => match string_items(dw) {
                            Some(x) => x,
                            None => {
                                return None;
                            },
                        },
                        _ => {
                            return None;
                        },
                    },
                    None => {
                        return None;
                    },
                };
                (allow, deny)
            },
            _ => {
                return None;
            },
        },
        None => {
            return None;
        },
    };
    let always_thinking_enabled = match crate::json::get_key(m, &"alwaysThinkingEnabled".to_owned())
    {
        Some(tv) => match tv {
            Json::Bool(b) => *b,
            _ => {
                return None;
            },
        },
        None => {
            return None;
        },
    };
    let model = match str_field(m, &"model".to_owned()) {
        Some(x) => x,
        None => {
            return None;
        },
    };
    let mtime = match mtime_field(m) {
        Some(x) => x,
        None => {
            return None;
        },
    };
    let balance_api = match balance_field(m) {
        Some(x) => x,
        None => {
            return None;
        },
    };
    Some(
        ChannelConfig {
            env,
            permissions: Permissions { allow, deny },
            model,
            always_thinking_enabled,
            mtime,
            balance_api,
        },
    )
}

} // verus!
