//! The channel store's activation merge.
//!
//! Activating a channel edits the active-settings document in place: the
//! document is shared with an external tool, so the store may only replace the
//! keys it owns (`env`, `balanceApi`), backfill the keys the external tool
//! requires (`permissions`, `alwaysThinkingEnabled`) when they are absent, and
//! must leave every other member untouched, value and position alike.

use vstd::prelude::*;

use crate::codec::{
    spec_channel_from, spec_channel_json, BalanceApi, BalanceV, ChannelConfig, ChannelV,
    Permissions,
};
use crate::json::{
    find_key, has_key, lemma_obj_get_first, lemma_obj_get_has, lemma_obj_remove_get,
    lemma_obj_set_get, lemma_views_of_members, obj_get, obj_has, obj_remove, obj_set, remove_key,
    set_key, Json, JsonV,
};
use crate::text::{spec_parse, spec_print};

verus! {

broadcast use vstd::seq::group_seq_axioms, vstd::std_specs::vec::group_vec_axioms;

/// What a store operation can fail with.  File handling and process
/// spawning live with the caller, who wraps their failures in `IoError` and
/// `ProcessSpawnError`; the other kinds arise in the library itself.
#[derive(Debug)]
pub enum StoreError {
    IoError,
    ParseError,
    DuplicateName,
    NotFound,
    ProcessSpawnError,
}

impl StoreError {
    /// A human-readable message for the failure.
    pub fn message(&self) -> (r: String)
        ensures
            r@ == self.spec_message(),
    {
        match self {
            StoreError::IoError => "file operation failed".to_owned(),
            StoreError::ParseError => "invalid configuration format".to_owned(),
            StoreError::DuplicateName => "channel name already exists".to_owned(),
            StoreError::NotFound => "channel not found".to_owned(),
            StoreError::ProcessSpawnError => "failed to launch terminal".to_owned(),
        }
    }

    /// The message each failure kind carries.
    pub open spec fn spec_message(&self) -> Seq<char> {
        match self {
            StoreError::IoError => "file operation failed"@,
            StoreError::ParseError => "invalid configuration format"@,
            StoreError::DuplicateName => "channel name already exists"@,
            StoreError::NotFound => "channel not found"@,
            StoreError::ProcessSpawnError => "failed to launch terminal"@,
        }
    }
}

/// The default `permissions` member: two empty rule lists.
pub open spec fn default_permissions_v() -> JsonV {
    JsonV::Obj(
        seq![
            ("allow"@, JsonV::Arr(Seq::<JsonV>::empty())),
            ("deny"@, JsonV::Arr(Seq::<JsonV>::empty())),
        ],
    )
}

/// What activation does to the active document, member by member:
/// `env` and `balanceApi` come from the target channel (`balanceApi` is
/// removed when the target has none), `permissions` and
/// `alwaysThinkingEnabled` are backfilled only when absent, and everything
/// else stays.
pub open spec fn spec_merge(
    tv: Seq<(Seq<char>, JsonV)>,
    av: Seq<(Seq<char>, JsonV)>,
) -> Seq<(Seq<char>, JsonV)> {
    let a1 = if obj_has(tv, "env"@) {
        obj_set(av, "env"@, obj_get(tv, "env"@)->Some_0)
    } else {
        av
    };
    let a2 = if obj_has(tv, "balanceApi"@) {
        obj_set(a1, "balanceApi"@, obj_get(tv, "balanceApi"@)->Some_0)
    } else {
        obj_remove(a1, "balanceApi"@)
    };
    let a3 = if obj_has(a2, "permissions"@) {
        a2
    } else {
        obj_set(a2, "permissions"@, default_permissions_v())
    };
    if obj_has(a3, "alwaysThinkingEnabled"@) {
        a3
    } else {
        obj_set(a3, "alwaysThinkingEnabled"@, JsonV::Bool(true))
    }
}

/// The four member keys the merge owns are pairwise distinct.
proof fn lemma_merge_keys_distinct()
    ensures
        "env"@ != "balanceApi"@,
        "env"@ != "permissions"@,
        "env"@ != "alwaysThinkingEnabled"@,
        "balanceApi"@ != "permissions"@,
        "balanceApi"@ != "alwaysThinkingEnabled"@,
        "permissions"@ != "alwaysThinkingEnabled"@,
{
    reveal_strlit("env");
    reveal_strlit("balanceApi");
    reveal_strlit("permissions");
    reveal_strlit("alwaysThinkingEnabled");
    assert("env"@.len() == 3);
    assert("balanceApi"@.len() == 10);
    assert("permissions"@.len() == 11);
    assert("alwaysThinkingEnabled"@.len() == 21);
}

/// Activation preserves every foreign member: a key the merge does not own
/// keeps exactly the value it had in the active document.
pub proof fn lemma_merge_preserves_foreign(
    tv: Seq<(Seq<char>, JsonV)>,
    av: Seq<(Seq<char>, JsonV)>,
    q: Seq<char>,
)
    requires
        q != "env"@,
        q != "balanceApi"@,
        q != "permissions"@,
        q != "alwaysThinkingEnabled"@,
    ensures
        obj_get(spec_merge(tv, av), q) == obj_get(av, q),
{
    let a1 = if obj_has(tv, "env"@) {
        obj_set(av, "env"@, obj_get(tv, "env"@)->Some_0)
    } else {
        av
    };
    let a2 = if obj_has(tv, "balanceApi"@) {
        obj_set(a1, "balanceApi"@, obj_get(tv, "balanceApi"@)->Some_0)
    } else {
        obj_remove(a1, "balanceApi"@)
    };
    let a3 = if obj_has(a2, "permissions"@) {
        a2
    } else {
        obj_set(a2, "permissions"@, default_permissions_v())
    };
    if obj_has(tv, "env"@) {
        lemma_obj_set_get(av, "env"@, obj_get(tv, "env"@)->Some_0, q);
    }
    if obj_has(tv, "balanceApi"@) {
        lemma_obj_set_get(a1, "balanceApi"@, obj_get(tv, "balanceApi"@)->Some_0, q);
    } else {
        lemma_obj_remove_get(a1, "balanceApi"@, q);
    }
    if !obj_has(a2, "permissions"@) {
        lemma_obj_set_get(a2, "permissions"@, default_permissions_v(), q);
    }
    if !obj_has(a3, "alwaysThinkingEnabled"@) {
        lemma_obj_set_get(a3, "alwaysThinkingEnabled"@, JsonV::Bool(true), q);
    }
}

/// Activation replaces `env` with the target channel's environment.
pub proof fn lemma_merge_sets_env(tv: Seq<(Seq<char>, JsonV)>, av: Seq<(Seq<char>, JsonV)>)
    requires
        obj_has(tv, "env"@),
    ensures
        obj_get(spec_merge(tv, av), "env"@) == obj_get(tv, "env"@),
{
    lemma_merge_keys_distinct();
    lemma_obj_get_has(tv, "env"@);
    let a1 = obj_set(av, "env"@, obj_get(tv, "env"@)->Some_0);
    let a2 = if obj_has(tv, "balanceApi"@) {
        obj_set(a1, "balanceApi"@, obj_get(tv, "balanceApi"@)->Some_0)
    } else {
        obj_remove(a1, "balanceApi"@)
    };
    let a3 = if obj_has(a2, "permissions"@) {
        a2
    } else {
        obj_set(a2, "permissions"@, default_permissions_v())
    };
    lemma_obj_set_get(av, "env"@, obj_get(tv, "env"@)->Some_0, "env"@);
    if obj_has(tv, "balanceApi"@) {
        lemma_obj_set_get(a1, "balanceApi"@, obj_get(tv, "balanceApi"@)->Some_0, "env"@);
    } else {
        lemma_obj_remove_get(a1, "balanceApi"@, "env"@);
    }
    if !obj_has(a2, "permissions"@) {
        lemma_obj_set_get(a2, "permissions"@, default_permissions_v(), "env"@);
    }
    if !obj_has(a3, "alwaysThinkingEnabled"@) {
        lemma_obj_set_get(a3, "alwaysThinkingEnabled"@, JsonV::Bool(true), "env"@);
    }
}

/// When the target channel has no `balanceApi`, activation removes the key
/// from the active document.
pub proof fn lemma_merge_drops_balance(tv: Seq<(Seq<char>, JsonV)>, av: Seq<(Seq<char>, JsonV)>)
    requires
        !obj_has(tv, "balanceApi"@),
    ensures
        obj_get(spec_merge(tv, av), "balanceApi"@) is None,
        !obj_has(spec_merge(tv, av), "balanceApi"@),
{
    lemma_merge_keys_distinct();
    let a1 = if obj_has(tv, "env"@) {
        obj_set(av, "env"@, obj_get(tv, "env"@)->Some_0)
    } else {
        av
    };
    let a2 = obj_remove(a1, "balanceApi"@);
    let a3 = if obj_has(a2, "permissions"@) {
        a2
    } else {
        obj_set(a2, "permissions"@, default_permissions_v())
    };
    lemma_obj_remove_get(a1, "balanceApi"@, "balanceApi"@);
    if !obj_has(a2, "permissions"@) {
        lemma_obj_set_get(a2, "permissions"@, default_permissions_v(), "balanceApi"@);
    }
    if !obj_has(a3, "alwaysThinkingEnabled"@) {
        lemma_obj_set_get(a3, "alwaysThinkingEnabled"@, JsonV::Bool(true), "balanceApi"@);
    }
    lemma_obj_get_has(spec_merge(tv, av), "balanceApi"@);
}

/// After activation the keys the external tool requires are always present.
pub proof fn lemma_merge_backfills(tv: Seq<(Seq<char>, JsonV)>, av: Seq<(Seq<char>, JsonV)>)
    ensures
        obj_has(spec_merge(tv, av), "permissions"@),
        obj_has(spec_merge(tv, av), "alwaysThinkingEnabled"@),
{
    lemma_merge_keys_distinct();
    let a1 = if obj_has(tv, "env"@) {
        obj_set(av, "env"@, obj_get(tv, "env"@)->Some_0)
    } else {
        av
    };
    let a2 = if obj_has(tv, "balanceApi"@) {
        obj_set(a1, "balanceApi"@, obj_get(tv, "balanceApi"@)->Some_0)
    } else {
        obj_remove(a1, "balanceApi"@)
    };
    let a3 = if obj_has(a2, "permissions"@) {
        a2
    } else {
        obj_set(a2, "permissions"@, default_permissions_v())
    };
    if !obj_has(a2, "permissions"@) {
        lemma_obj_set_get(a2, "permissions"@, default_permissions_v(), "permissions"@);
        lemma_obj_get_has(a3, "permissions"@);
    }
    lemma_obj_get_has(a3, "permissions"@);
    if !obj_has(a3, "alwaysThinkingEnabled"@) {
        lemma_obj_set_get(a3, "alwaysThinkingEnabled"@, JsonV::Bool(true), "permissions"@);
        lemma_obj_set_get(
            a3,
            "alwaysThinkingEnabled"@,
            JsonV::Bool(true),
            "alwaysThinkingEnabled"@,
        );
        lemma_obj_get_has(spec_merge(tv, av), "permissions"@);
        lemma_obj_get_has(spec_merge(tv, av), "alwaysThinkingEnabled"@);
    }
}

/// The default `permissions` value as executable data.
pub fn default_permissions_json() -> (r: Json)
    ensures
        r.view() == default_permissions_v(),
{
    let allow: Vec<Json> = Vec::new();
    let deny: Vec<Json> = Vec::new();
    let mut members: Vec<(String, Json)> = Vec::new();
    members.push(("allow".to_owned(), Json::Arr(allow)));
    members.push(("deny".to_owned(), Json::Arr(deny)));
    let r = Json::Obj(members);
    proof {
        lemma_views_of_members(members@);
        assert(Json::views_of_members(members@) =~= seq![
            ("allow"@, JsonV::Arr(Seq::<JsonV>::empty())),
            ("deny"@, JsonV::Arr(Seq::<JsonV>::empty())),
        ]);
        assert(r.view() =~= default_permissions_v());
    }
    r
}

/// Merge a target channel's members into the active document's members.
pub fn merge_members(target: Vec<(String, Json)>, active: Vec<(String, Json)>) -> (r: Vec<
    (String, Json),
>)
    ensures
        Json::views_of_members(r@) =~= spec_merge(
            Json::views_of_members(target@),
            Json::views_of_members(active@),
        ),
{
    let ghost tv = Json::views_of_members(target@);
    let env_key = "env".to_owned();
    let balance_key = "balanceApi".to_owned();

    let mut tgt = target;
    let i_env = find_key(&tgt, &env_key);
    let i_bal = find_key(&tgt, &balance_key);
    proof {
        reveal_strlit("env");
        reveal_strlit("balanceApi");
        assert("env"@ != "balanceApi"@) by {
            assert("env"@.len() != "balanceApi"@.len());
        }
        lemma_views_of_members(tgt@);
        lemma_obj_get_has(tv, env_key@);
        lemma_obj_get_has(tv, balance_key@);
        if i_env is Some {
            let i = i_env->Some_0 as int;
            assert forall|j: int| 0 <= j < i implies #[trigger] tv[j].0 != env_key@ by {
                assert(tgt@[j].0@ != env_key@);
            }
            lemma_obj_get_first(tv, env_key@, i);
        } else {
            assert(!obj_has(tv, "env"@));
        }
        if i_bal is Some {
            let i = i_bal->Some_0 as int;
            assert forall|j: int| 0 <= j < i implies #[trigger] tv[j].0 != balance_key@ by {
                assert(tgt@[j].0@ != balance_key@);
            }
            lemma_obj_get_first(tv, balance_key@, i);
        } else {
            assert(!obj_has(tv, "balanceApi"@));
        }
    }
    // Take ownership of the two values, larger index first so the smaller
    // one still points at the same pair.
    let env_val: Option<Json>;
    let bal_val: Option<Json>;
    match (i_env, i_bal) {
        (Some(ie), Some(ib)) => {
            proof {
                assert(tgt@[ie as int].0@ != tgt@[ib as int].0@);
            }
            if ie < ib {
                let b = tgt.remove(ib);
                let e = tgt.remove(ie);
                proof {
                    assert(e == target@.remove(ib as int)[ie as int]);
                    assert(e == target@[ie as int]);
                }
                env_val = Some(e.1);
                bal_val = Some(b.1);
            } else {
                let e = tgt.remove(ie);
                let b = tgt.remove(ib);
                proof {
                    assert(b == target@.remove(ie as int)[ib as int]);
                    assert(b == target@[ib as int]);
                }
                env_val = Some(e.1);
                bal_val = Some(b.1);
            }
            proof {
                assert(env_val->Some_0 == target@[ie as int].1);
                assert(bal_val->Some_0 == target@[ib as int].1);
            }
        },
        (Some(ie), None) => {
            let e = tgt.remove(ie);
            env_val = Some(e.1);
            bal_val = None;
            proof {
                assert(env_val->Some_0 == target@[ie as int].1);
            }
        },
        (None, Some(ib)) => {
            let b = tgt.remove(ib);
            env_val = None;
            bal_val = Some(b.1);
            proof {
                assert(bal_val->Some_0 == target@[ib as int].1);
            }
        },
        (None, None) => {
            env_val = None;
            bal_val = None;
        },
    }
    proof {
        lemma_views_of_members(target@);
        if i_env is Some {
            let ie = i_env->Some_0 as int;
            assert(tv[ie] == (target@[ie].0@, target@[ie].1.view()));
            assert(env_val->Some_0.view() == obj_get(tv, "env"@)->Some_0);
        }
        if i_bal is Some {
            let ib = i_bal->Some_0 as int;
            assert(tv[ib] == (target@[ib].0@, target@[ib].1.view()));
            assert(bal_val->Some_0.view() == obj_get(tv, "balanceApi"@)->Some_0);
        }
        assert(env_val is Some <==> obj_has(tv, "env"@));
        assert(bal_val is Some <==> obj_has(tv, "balanceApi"@));
    }

    let ghost av = Json::views_of_members(active@);
    let mut acc = active;
    match env_val {
        Some(v) => {
            acc = set_key(acc, env_key, v);
        },
        None => {},
    }
    proof {
        assert(Json::views_of_members(acc@) =~= (if obj_has(tv, "env"@) {
            obj_set(av, "env"@, obj_get(tv, "env"@)->Some_0)
        } else {
            av
        }));
    }
    let ghost a1 = Json::views_of_members(acc@);
    match bal_val {
        Some(v) => {
            acc = set_key(acc, balance_key, v);
        },
        None => {
            acc = remove_key(acc, &balance_key);
        },
    }
    proof {
        assert(Json::views_of_members(acc@) =~= (if obj_has(tv, "balanceApi"@) {
            obj_set(a1, "balanceApi"@, obj_get(tv, "balanceApi"@)->Some_0)
        } else {
            obj_remove(a1, "balanceApi"@)
        }));
    }
    let ghost a2 = Json::views_of_members(acc@);
    let permissions_key = "permissions".to_owned();
    if !has_key(&acc, &permissions_key) {
        acc = set_key(acc, permissions_key, default_permissions_json());
    }
    let ghost a3 = Json::views_of_members(acc@);
    proof {
        assert(a3 =~= (if obj_has(a2, "permissions"@) {
            a2
        } else {
            obj_set(a2, "permissions"@, default_permissions_v())
        }));
    }
    let thinking_key = "alwaysThinkingEnabled".to_owned();
    if !has_key(&acc, &thinking_key) {
        acc = set_key(acc, thinking_key, Json::Bool(true));
    }
    proof {
        assert(Json::views_of_members(acc@) =~= (if obj_has(a3, "alwaysThinkingEnabled"@) {
            a3
        } else {
            obj_set(a3, "alwaysThinkingEnabled"@, JsonV::Bool(true))
        }));
        assert(Json::views_of_members(acc@) =~= spec_merge(tv, av));
    }
    acc
}

/// The backing file name for a channel.
pub open spec fn spec_channel_file_name(name: Seq<char>) -> Seq<char> {
    "settings-"@ + name + ".json"@
}

/// The backing file name for a channel.
pub fn channel_file_name(name: &str) -> (r: String)
    ensures
        r@ == spec_channel_file_name(name@),
{
    let mut s = "settings-".to_owned();
    s.append(name);
    s.append(".json");
    s
}

/// Where a soft-deleted channel's file goes: the same name with an inert
/// suffix, so the payload stays recoverable.
pub fn deleted_file_name(name: &str) -> (r: String)
    ensures
        r@ == spec_channel_file_name(name@) + ".del"@,
{
    let mut s = channel_file_name(name);
    s.append(".del");
    s
}

/// The single active-settings document's file name.
pub fn active_file_name() -> (r: String)
    ensures
        r@ == "settings.json"@,
{
    "settings.json".to_owned()
}

/// The channel a directory entry's name stands for: the middle of
/// `settings-<name>.json`, and nothing for any other entry.
pub open spec fn spec_channel_of_file(f: Seq<char>) -> Option<Seq<char>> {
    if f.len() >= 14 && f.subrange(0, 9) == "settings-"@ && f.subrange(
        f.len() - 5,
        f.len() as int,
    ) == ".json"@ {
        Some(f.subrange(9, f.len() - 5))
    } else {
        None
    }
}

/// The channel a directory entry's name stands for, if any.
pub fn channel_of_file(f: &str) -> (r: Option<String>)
    ensures
        match r {
            Some(nm) => spec_channel_of_file(f@) == Some(nm@),
            None => spec_channel_of_file(f@) is None,
        },
{
    let chars = crate::text::str_to_chars(f);
    let n = chars.len();
    proof {
        reveal_strlit("settings-");
        reveal_strlit(".json");
        assert("settings-"@ =~= seq!['s', 'e', 't', 't', 'i', 'n', 'g', 's', '-']);
        assert(".json"@ =~= seq!['.', 'j', 's', 'o', 'n']);
    }
    if n < 14 {
        return None;
    }
    let pre = chars[0] == 's' && chars[1] == 'e' && chars[2] == 't' && chars[3] == 't'
        && chars[4] == 'i' && chars[5] == 'n' && chars[6] == 'g' && chars[7] == 's' && chars[8]
        == '-';
    let suf = chars[n - 5] == '.' && chars[n - 4] == 'j' && chars[n - 3] == 's' && chars[n - 2]
        == 'o' && chars[n - 1] == 'n';
    proof {
        let prefix = f@.subrange(0, 9);
        let suffix = f@.subrange(n - 5, n as int);
        assert(forall|k: int| 0 <= k < 9 ==> #[trigger] prefix[k] == f@[k]);
        assert(forall|k: int| 0 <= k < 5 ==> #[trigger] suffix[k] == f@[n - 5 + k]);
        if pre {
            assert(prefix =~= "settings-"@);
        } else {
            assert(prefix != "settings-"@) by {
                if prefix =~= "settings-"@ {
                    assert(prefix[0] == 's' && prefix[1] == 'e' && prefix[2] == 't' && prefix[3]
                        == 't' && prefix[4] == 'i' && prefix[5] == 'n' && prefix[6] == 'g'
                        && prefix[7] == 's' && prefix[8] == '-');
                }
            }
        }
        if suf {
            assert(suffix =~= ".json"@);
        } else {
            assert(suffix != ".json"@) by {
                if suffix =~= ".json"@ {
                    assert(suffix[0] == '.' && suffix[1] == 'j' && suffix[2] == 's' && suffix[3]
                        == 'o' && suffix[4] == 'n');
                }
            }
        }
    }
    if pre && suf {
        let mid = crate::text::copy_range_chars(&chars, 9, n - 5);
        Some(crate::text::chars_to_string(&mid))
    } else {
        None
    }
}

/// The environment a saved channel gets: the credential token, the fixed
/// telemetry-disable entry, and the base URL only when one was given.
pub open spec fn spec_build_env(token: Seq<char>, url: Seq<char>) -> Seq<
    (Seq<char>, Seq<char>),
> {
    let base = seq![
        ("ANTHROPIC_AUTH_TOKEN"@, token),
        ("CLAUDE_CODE_DISABLE_NONESSENTIAL_TRAFFIC"@, "1"@),
    ];
    if url.len() > 0 {
        base.push(("ANTHROPIC_BASE_URL"@, url))
    } else {
        base
    }
}

/// The payload a save builds from its arguments: empty rule lists, thinking
/// on, no `mtime`, the balance descriptor only when a balance URL was given
/// (its method defaulting to `POST`), and the environment of
/// `spec_build_env`.
pub open spec fn spec_build_channel(
    token: Seq<char>,
    url: Seq<char>,
    model: Seq<char>,
    balance_url: Seq<char>,
    balance_method: Seq<char>,
    balance_field: Seq<char>,
) -> ChannelV {
    ChannelV {
        env: spec_build_env(token, url),
        allow: Seq::empty(),
        deny: Seq::empty(),
        model: if model.len() == 0 {
            None
        } else {
            Some(model)
        },
        always_thinking_enabled: true,
        mtime: None,
        balance_api: if balance_url.len() > 0 {
            Some(
                BalanceV {
                    url: Some(balance_url),
                    method: Some(
                        if balance_method.len() == 0 {
                            "POST"@
                        } else {
                            balance_method
                        },
                    ),
                    field: if balance_field.len() == 0 {
                        None
                    } else {
                        Some(balance_field)
                    },
                },
            )
        } else {
            None
        },
    }
}

/// Build the payload a save writes.
pub fn build_channel(
    token: String,
    url: String,
    model: String,
    balance_url: String,
    balance_method: String,
    balance_field: String,
) -> (c: ChannelConfig)
    ensures
        c.view() == spec_build_channel(token@, url@, model@, balance_url@, balance_method@,
            balance_field@),
{
    let ghost tv = token@;
    let ghost uv = url@;
    let mut env: Vec<(String, String)> = Vec::new();
    env.push(("ANTHROPIC_AUTH_TOKEN".to_owned(), token));
    env.push(("CLAUDE_CODE_DISABLE_NONESSENTIAL_TRAFFIC".to_owned(), "1".to_owned()));
    let url_empty = url.as_str().is_empty();
    if !url_empty {
        env.push(("ANTHROPIC_BASE_URL".to_owned(), url));
    }
    let balance_api = if !balance_url.as_str().is_empty() {
        Some(
            BalanceApi {
                url: Some(balance_url),
                method: Some(
                    if balance_method.as_str().is_empty() {
                        "POST".to_owned()
                    } else {
                        balance_method
                    },
                ),
                field: if balance_field.as_str().is_empty() {
                    None
                } else {
                    Some(balance_field)
                },
            },
        )
    } else {
        None
    };
    let c = ChannelConfig {
        env,
        permissions: Permissions { allow: Vec::new(), deny: Vec::new() },
        model: if model.as_str().is_empty() {
            None
        } else {
            Some(model)
        },
        always_thinking_enabled: true,
        mtime: None,
        balance_api,
    };
    proof {
        assert(c.view().env =~= spec_build_env(tv, uv));
        assert(c.view().allow =~= Seq::<Seq<char>>::empty());
        assert(c.view().deny =~= Seq::<Seq<char>>::empty());
    }
    c
}

/// The document text a channel is saved as.
pub fn encode_channel(c: &ChannelConfig) -> (r: String)
    ensures
        r@ == spec_print(spec_channel_json(c.view())),
{
    let j = crate::codec::channel_to_json(c);
    crate::text::print_json(&j)
}

/// What a save writes and removes: the channel's file and its pretty-printed
/// payload, and first — in a rename — the old file, best effort.
pub struct SavePlan {
    pub file_name: String,
    pub content: String,
    pub remove_first: Option<String>,
}

/// Plan a save: build the payload from the arguments, name its backing file,
/// and name the old file to drop when the save is a rename.
pub fn save_channel(
    channel_name: String,
    token: String,
    url: String,
    model: String,
    old_name: String,
    balance_url: String,
    balance_method: String,
    balance_field: String,
) -> (p: SavePlan)
    ensures
        p.file_name@ == spec_channel_file_name(channel_name@),
        p.content@ == spec_print(
            spec_channel_json(
                spec_build_channel(token@, url@, model@, balance_url@, balance_method@,
                    balance_field@),
            ),
        ),
        p.remove_first is Some <==> old_name@.len() > 0 && old_name@ != channel_name@,
        p.remove_first matches Some(f) ==> f@ == spec_channel_file_name(old_name@),
{
    let c = build_channel(token, url, model, balance_url, balance_method, balance_field);
    let content = encode_channel(&c);
    let remove_first = if !old_name.as_str().is_empty() && !(old_name == channel_name) {
        Some(channel_file_name(old_name.as_str()))
    } else {
        None
    };
    let file_name = channel_file_name(channel_name.as_str());
    SavePlan { file_name, content, remove_first }
}

/// Read the active-settings document's text as a channel: the parse and the
/// shape must both succeed, as when the external tool reads it.
pub fn get_active_channel(text: &str) -> (r: Result<ChannelConfig, StoreError>)
    ensures
        match r {
            Ok(c) => {
                &&& spec_parse(text@) is Some
                &&& spec_channel_from(spec_parse(text@)->Some_0) == Some(c.view())
            },
            Err(StoreError::ParseError) => spec_parse(text@) is None || spec_channel_from(
                spec_parse(text@)->Some_0,
            ) is None,
            Err(_) => false,
        },
{
    match crate::text::parse_json(text) {
        Some(j) => match crate::codec::channel_from_json(&j) {
            Some(c) => Ok(c),
            None => Err(StoreError::ParseError),
        },
        None => Err(StoreError::ParseError),
    }
}

/// One directory entry handed to a listing: the entry's file name, the
/// file's text, and its modification time in milliseconds when the caller
/// could read one.
pub struct ChannelSource {
    pub file_name: String,
    pub content: String,
    pub mtime_ms: Option<i64>,
}

impl ChannelSource {
    /// The abstract entry.
    pub open spec fn view(self) -> (Seq<char>, Seq<char>, Option<i64>) {
        (self.file_name@, self.content@, self.mtime_ms)
    }
}

/// The channel a directory entry yields, if any: its name must match the
/// channel pattern, its text must parse as a channel, and the file's
/// modification time is stamped on when the caller read one.
pub open spec fn spec_channel_of_entry(e: (Seq<char>, Seq<char>, Option<i64>)) -> Option<
    (Seq<char>, ChannelV),
> {
    match spec_channel_of_file(e.0) {
        Some(nm) => match spec_parse(e.1) {
            Some(v) => match spec_channel_from(v) {
                Some(c) => Some(
                    (
                        nm,
                        ChannelV {
                            env: c.env,
                            allow: c.allow,
                            deny: c.deny,
                            model: c.model,
                            always_thinking_enabled: c.always_thinking_enabled,
                            mtime: if e.2 is Some {
                                e.2
                            } else {
                                c.mtime
                            },
                            balance_api: c.balance_api,
                        },
                    ),
                ),
                None => None,
            },
            None => None,
        },
        None => None,
    }
}

/// The channels a directory's entries yield, from position `i` on: a
/// corrupt or foreign entry is skipped, never an error.
pub open spec fn spec_read_from(es: Seq<(Seq<char>, Seq<char>, Option<i64>)>, i: int) -> Seq<
    (Seq<char>, ChannelV),
>
    decreases es.len() - i,
{
    if !(0 <= i < es.len()) {
        Seq::empty()
    } else {
        let rest = spec_read_from(es, i + 1);
        match spec_channel_of_entry(es[i]) {
            Some(p) => seq![p] + rest,
            None => rest,
        }
    }
}

/// The name-to-channel pairs a sequence of listed channels stands for.
pub open spec fn listing_view(v: Seq<(String, ChannelConfig)>) -> Seq<(Seq<char>, ChannelV)> {
    v.map_values(|p: (String, ChannelConfig)| (p.0@, p.1.view()))
}

/// List the channels among a directory's entries.  An entry that is not a
/// `settings-<name>.json` file is ignored; one whose text is corrupt is
/// silently skipped, so one broken channel never hides the others; each
/// survivor is keyed by the name in its file name and stamped with its
/// file's modification time.
pub fn read_channels(entries: Vec<ChannelSource>) -> (r: Vec<(String, ChannelConfig)>)
    ensures
        listing_view(r@) == spec_read_from(
            entries@.map_values(|e: ChannelSource| e.view()),
            0,
        ),
{
    let ghost ev = entries@.map_values(|e: ChannelSource| e.view());
    let mut out: Vec<(String, ChannelConfig)> = Vec::new();
    let mut i: usize = 0;
    proof {
        assert(listing_view(out@) =~= Seq::<(Seq<char>, ChannelV)>::empty());
    }
    while i < entries.len()
        invariant
            i <= entries@.len(),
            ev == entries@.map_values(|e: ChannelSource| e.view()),
            listing_view(out@) + spec_read_from(ev, i as int) =~= spec_read_from(ev, 0),
        decreases entries@.len() - i,
    {
        let ghost out_pre = out@;
        let entry = &entries[i];
        proof {
            assert(ev[i as int] == entry.view());
        }
        match channel_of_file(entry.file_name.as_str()) {
            Some(nm) => {
                match crate::text::parse_json(entry.content.as_str()) {
                    Some(j) => match crate::codec::channel_from_json(&j) {
                        Some(c) => {
                            let stamped = match entry.mtime_ms {
                                Some(ms) => ChannelConfig {
                                    env: c.env,
                                    permissions: c.permissions,
                                    model: c.model,
                                    always_thinking_enabled: c.always_thinking_enabled,
                                    mtime: Some(ms),
                                    balance_api: c.balance_api,
                                },
                                None => c,
                            };
                            let ghost nmv = nm@;
                            let ghost cv = stamped.view();
                            out.push((nm, stamped));
                            proof {
                                assert(out@.last().0@ == nmv && out@.last().1.view() == cv);
                                assert(out@.drop_last() =~= out_pre);
                                assert(listing_view(out@) =~= listing_view(out_pre).push(
                                    (nmv, cv),
                                ));
                                assert(spec_channel_of_entry(ev[i as int]) == Some((nmv, cv)));
                                assert(listing_view(out@) + spec_read_from(ev, i + 1)
                                    =~= listing_view(out_pre) + (seq![(nmv, cv)]
                                    + spec_read_from(ev, i + 1)));
                            }
                        },
                        None => {},
                    },
                    None => {},
                }
            },
            None => {},
        }
        i = i + 1;
    }
    proof {
        assert(spec_read_from(ev, i as int) =~= Seq::<(Seq<char>, ChannelV)>::empty());
        assert(listing_view(out@) =~= spec_read_from(ev, 0));
    }
    out
}

/// The document text written by an activation, when the target's text is a
/// JSON object: its members merged over the active document's, an
/// unreadable or non-object active document standing in as empty.
pub open spec fn spec_switch(t: Seq<char>, a: Option<Seq<char>>) -> Option<Seq<char>> {
    match spec_parse(t) {
        Some(tv) => if tv is Obj {
            let av = match a {
                Some(s) => match spec_parse(s) {
                    Some(doc) => if doc is Obj {
                        doc->Obj_0
                    } else {
                        Seq::empty()
                    },
                    None => Seq::empty(),
                },
                None => Seq::empty(),
            };
            Some(spec_print(JsonV::Obj(spec_merge(tv->Obj_0, av))))
        } else {
            None
        },
        None => None,
    }
}

/// Activate a channel: merge its raw document over the active document's
/// text and return the new text to write back.  A target that does not
/// parse as an object fails; a missing or corrupt active document is
/// tolerated and treated as empty.
pub fn switch_channel(target_text: &str, active_text: Option<&str>) -> (r: Result<
    String,
    StoreError,
>)
    ensures
        match r {
            Ok(s) => spec_switch(target_text@, match active_text {
                Some(t) => Some(t@),
                None => None,
            }) == Some(s@),
            Err(StoreError::ParseError) => spec_switch(target_text@, match active_text {
                Some(t) => Some(t@),
                None => None,
            }) is None,
            Err(_) => false,
        },
{
    let tm = match crate::text::parse_json(target_text) {
        Some(j) => match j {
            Json::Obj(tm) => tm,
            _ => {
                return Err(StoreError::ParseError);
            },
        },
        None => {
            return Err(StoreError::ParseError);
        },
    };
    let am: Vec<(String, Json)> = match active_text {
        Some(t) => match crate::text::parse_json(t) {
            Some(j) => match j {
                Json::Obj(am) => am,
                _ => Vec::new(),
            },
            None => Vec::new(),
        },
        None => Vec::new(),
    };
    proof {
        lemma_views_of_members(am@);
        if am@.len() == 0 {
            assert(Json::views_of_members(am@) =~= Seq::<(Seq<char>, JsonV)>::empty());
        }
    }
    let merged = merge_members(tm, am);
    let out = Json::Obj(merged);
    Ok(crate::text::print_json(&out))
}

} // verus!
