//! The document model: a JSON value tree.
//!
//! Channel payloads and the active-settings document are JSON documents.  An
//! object is kept as an ordered list of key/value pairs so that a merge can
//! leave foreign keys exactly where it found them.  A number is kept as its
//! source text, so the tree never holds a floating-point value.

use vstd::prelude::*;

verus! {

broadcast use vstd::seq::group_seq_axioms, vstd::std_specs::vec::group_vec_axioms;

/// A JSON value as executable data.
///
/// `Num` carries the number's raw text (for example `-12` or `1.5e3`); the
/// store never computes with numbers it does not own, so the text form is
/// both exact and sufficient.
pub enum Json {
    Null,
    Bool(bool),
    Num(String),
    Str(String),
    Arr(Vec<Json>),
    Obj(Vec<(String, Json)>),
}

/// The mathematical shape of a JSON value: the view of `Json`.
#[verifier::ext_equal]
pub ghost enum JsonV {
    Null,
    Bool(bool),
    Num(Seq<char>),
    Str(Seq<char>),
    Arr(Seq<JsonV>),
    Obj(Seq<(Seq<char>, JsonV)>),
}

impl Json {
    /// The abstract value this tree stands for.
    pub open spec fn view(self) -> JsonV
        decreases self,
    {
        match self {
            Json::Null => JsonV::Null,
            Json::Bool(b) => JsonV::Bool(b),
            Json::Num(s) => JsonV::Num(s@),
            Json::Str(s) => JsonV::Str(s@),
            Json::Arr(items) => JsonV::Arr(Json::views_of_items(items@)),
            Json::Obj(members) => JsonV::Obj(Json::views_of_members(members@)),
        }
    }

    /// The views of an array's elements, in order.
    pub open spec fn views_of_items(items: Seq<Json>) -> Seq<JsonV>
        decreases items,
    {
        if items.len() == 0 {
            Seq::empty()
        } else {
            seq![items[0].view()] + Json::views_of_items(items.drop_first())
        }
    }

    /// The views of an object's members, in order.
    pub open spec fn views_of_members(members: Seq<(String, Json)>) -> Seq<(Seq<char>, JsonV)>
        decreases members,
    {
        if members.len() == 0 {
            Seq::empty()
        } else {
            seq![(members[0].0@, members[0].1.view())] + Json::views_of_members(
                members.drop_first(),
            )
        }
    }
}

/// The members of an object hold a key at some position.
pub open spec fn obj_has(m: Seq<(Seq<char>, JsonV)>, k: Seq<char>) -> bool {
    exists|i: int| 0 <= i < m.len() && m[i].0 == k
}

/// The value at the first occurrence of a key, if any.
pub open spec fn obj_get(m: Seq<(Seq<char>, JsonV)>, k: Seq<char>) -> Option<JsonV>
    decreases m.len(),
{
    if m.len() == 0 {
        None
    } else if m[0].0 == k {
        Some(m[0].1)
    } else {
        obj_get(m.drop_first(), k)
    }
}

/// Replace the value at the first occurrence of a key, keeping its position;
/// append the pair at the end when the key is absent.
pub open spec fn obj_set(m: Seq<(Seq<char>, JsonV)>, k: Seq<char>, v: JsonV) -> Seq<
    (Seq<char>, JsonV),
>
    decreases m.len(),
{
    if m.len() == 0 {
        seq![(k, v)]
    } else if m[0].0 == k {
        seq![(k, v)] + m.drop_first()
    } else {
        seq![m[0]] + obj_set(m.drop_first(), k, v)
    }
}

/// Drop every member that carries the key.
pub open spec fn obj_remove(m: Seq<(Seq<char>, JsonV)>, k: Seq<char>) -> Seq<(Seq<char>, JsonV)>
    decreases m.len(),
{
    if m.len() == 0 {
        m
    } else if m[0].0 == k {
        obj_remove(m.drop_first(), k)
    } else {
        seq![m[0]] + obj_remove(m.drop_first(), k)
    }
}

/// No two members share a key.
pub open spec fn obj_keys_unique(m: Seq<(Seq<char>, JsonV)>) -> bool {
    forall|i: int, j: int| 0 <= i < j < m.len() ==> m[i].0 != m[j].0
}

/// `obj_get` returns `Some` exactly on the keys `obj_has` admits.
pub proof fn lemma_obj_get_has(m: Seq<(Seq<char>, JsonV)>, k: Seq<char>)
    ensures
        obj_get(m, k) is Some <==> obj_has(m, k),
    decreases m.len(),
{
    if m.len() > 0 && m[0].0 != k {
        lemma_obj_get_has(m.drop_first(), k);
        if obj_has(m.drop_first(), k) {
            let i = choose|i: int| 0 <= i < m.drop_first().len() && m.drop_first()[i].0 == k;
            assert(m[i + 1].0 == k);
        }
        if obj_has(m, k) {
            let i = choose|i: int| 0 <= i < m.len() && m[i].0 == k;
            assert(m.drop_first()[i - 1].0 == k);
        }
    }
}

/// What `obj_set` does to every key: the one set is bound to the new value,
/// all others keep what `obj_get` gave before.
pub proof fn lemma_obj_set_get(m: Seq<(Seq<char>, JsonV)>, k: Seq<char>, v: JsonV, q: Seq<char>)
    ensures
        obj_get(obj_set(m, k, v), q) == if q == k {
            Some(v)
        } else {
            obj_get(m, q)
        },
    decreases m.len(),
{
    if m.len() == 0 {
        let s = obj_set(m, k, v);
        assert(s =~= seq![(k, v)]);
        if q != k {
            assert(s.drop_first() =~= Seq::<(Seq<char>, JsonV)>::empty());
            assert(obj_get(s.drop_first(), q) is None);
        }
    } else if m[0].0 == k {
        assert((seq![(k, v)] + m.drop_first()).drop_first() =~= m.drop_first());
    } else {
        lemma_obj_set_get(m.drop_first(), k, v, q);
        assert((seq![m[0]] + obj_set(m.drop_first(), k, v)).drop_first() =~= obj_set(
            m.drop_first(),
            k,
            v,
        ));
    }
}

/// After `obj_remove`, the key is gone and every other key keeps its value.
pub proof fn lemma_obj_remove_get(m: Seq<(Seq<char>, JsonV)>, k: Seq<char>, q: Seq<char>)
    ensures
        obj_get(obj_remove(m, k), q) == if q == k {
            None::<JsonV>
        } else {
            obj_get(m, q)
        },
    decreases m.len(),
{
    if m.len() > 0 {
        lemma_obj_remove_get(m.drop_first(), k, q);
        if m[0].0 != k {
            assert((seq![m[0]] + obj_remove(m.drop_first(), k)).drop_first() =~= obj_remove(
                m.drop_first(),
                k,
            ));
        }
    }
}

/// What `obj_get` finds after a pair is appended: anything already present
/// wins; otherwise the new pair answers for its key.
pub proof fn lemma_obj_get_push(m: Seq<(Seq<char>, JsonV)>, p: (Seq<char>, JsonV), q: Seq<char>)
    ensures
        obj_get(m.push(p), q) == (match obj_get(m, q) {
            Some(x) => Some(x),
            None => if p.0 == q {
                Some(p.1)
            } else {
                None
            },
        }),
    decreases m.len(),
{
    if m.len() == 0 {
        assert(m.push(p) =~= seq![p]);
        assert(m.push(p).drop_first() =~= Seq::<(Seq<char>, JsonV)>::empty());
        assert(m.push(p)[0] == p);
        assert(obj_get(m, q) is None);
        assert(obj_get(m.push(p).drop_first(), q) is None);
    } else {
        assert(m.push(p).drop_first() =~= m.drop_first().push(p));
        assert(m.push(p)[0] == m[0]);
        lemma_obj_get_push(m.drop_first(), p, q);
    }
}

/// When the key is absent, `obj_set` appends the pair.
pub proof fn lemma_obj_set_absent(m: Seq<(Seq<char>, JsonV)>, k: Seq<char>, v: JsonV)
    requires
        !obj_has(m, k),
    ensures
        obj_set(m, k, v) =~= m.push((k, v)),
    decreases m.len(),
{
    if m.len() > 0 {
        assert(m[0].0 != k);
        assert(forall|i: int|
            0 <= i < m.drop_first().len() ==> m.drop_first()[i] == m[i + 1]);
        lemma_obj_set_absent(m.drop_first(), k, v);
    }
}

/// When the key first occurs at `i`, `obj_set` updates that position in place.
pub proof fn lemma_obj_set_first(m: Seq<(Seq<char>, JsonV)>, k: Seq<char>, v: JsonV, i: int)
    requires
        0 <= i < m.len(),
        m[i].0 == k,
        forall|j: int| 0 <= j < i ==> m[j].0 != k,
    ensures
        obj_set(m, k, v) =~= m.update(i, (k, v)),
    decreases m.len(),
{
    if i > 0 {
        assert(forall|j: int|
            0 <= j < i - 1 ==> m.drop_first()[j] == m[j + 1]);
        lemma_obj_set_first(m.drop_first(), k, v, i - 1);
    }
}

/// When the key first occurs at `i`, `obj_get` returns the value there.
pub proof fn lemma_obj_get_first(m: Seq<(Seq<char>, JsonV)>, k: Seq<char>, i: int)
    requires
        0 <= i < m.len(),
        m[i].0 == k,
        forall|j: int| 0 <= j < i ==> m[j].0 != k,
    ensures
        obj_get(m, k) == Some(m[i].1),
    decreases m.len(),
{
    if i > 0 {
        assert(forall|j: int|
            0 <= j < i - 1 ==> m.drop_first()[j] == m[j + 1]);
        lemma_obj_get_first(m.drop_first(), k, i - 1);
    }
}

/// `views_of_items` maps `view` over the sequence, element by element.
pub proof fn lemma_views_of_items(items: Seq<Json>)
    ensures
        Json::views_of_items(items).len() == items.len(),
        forall|i: int|
            0 <= i < items.len() ==> #[trigger] Json::views_of_items(items)[i]
                == items[i].view(),
    decreases items.len(),
{
    if items.len() > 0 {
        lemma_views_of_items(items.drop_first());
        assert forall|i: int| 0 <= i < items.len() implies #[trigger] Json::views_of_items(
            items,
        )[i] == items[i].view() by {
            if i > 0 {
                assert(items.drop_first()[i - 1] == items[i]);
            }
        }
    }
}

/// `views_of_members` maps the pair view over the sequence, element by element.
pub proof fn lemma_views_of_members(members: Seq<(String, Json)>)
    ensures
        Json::views_of_members(members).len() == members.len(),
        forall|i: int|
            0 <= i < members.len() ==> #[trigger] Json::views_of_members(members)[i] == (
            members[i].0@,
            members[i].1.view(),
            ),
    decreases members.len(),
{
    if members.len() > 0 {
        lemma_views_of_members(members.drop_first());
        assert forall|i: int| 0 <= i < members.len() implies #[trigger] Json::views_of_members(
            members,
        )[i] == (members[i].0@, members[i].1.view()) by {
            if i > 0 {
                assert(members.drop_first()[i - 1] == members[i]);
            }
        }
    }
}

/// Index of the first member carrying the key, if any.
pub fn find_key(m: &Vec<(String, Json)>, k: &String) -> (r: Option<usize>)
    ensures
        match r {
            Some(i) => {
                &&& i < m@.len()
                &&& m@[i as int].0@ == k@
                &&& forall|j: int| 0 <= j < i ==> m@[j].0@ != k@
            },
            None => !obj_has(Json::views_of_members(m@), k@),
        },
{
    let mut i: usize = 0;
    while i < m.len()
        invariant
            i <= m@.len(),
            forall|j: int| 0 <= j < i ==> m@[j].0@ != k@,
        decreases m@.len() - i,
    {
        if m[i].0 == *k {
            return Some(i);
        }
        i = i + 1;
    }
    proof {
        lemma_views_of_members(m@);
        assert forall|j: int| 0 <= j < Json::views_of_members(m@).len()
            implies #[trigger] Json::views_of_members(m@)[j].0 != k@ by {
            assert(m@[j].0@ != k@);
        }
    }
    None
}

/// Whether the object holds the key.
pub fn has_key(m: &Vec<(String, Json)>, k: &String) -> (r: bool)
    ensures
        r == obj_has(Json::views_of_members(m@), k@),
{
    let found = find_key(m, k);
    proof {
        lemma_views_of_members(m@);
        if found is Some {
            let i = found->Some_0 as int;
            assert(Json::views_of_members(m@)[i].0 == k@);
        }
    }
    found.is_some()
}

/// The value at the first occurrence of the key, if any.
pub fn get_key<'a>(m: &'a Vec<(String, Json)>, k: &String) -> (r: Option<&'a Json>)
    ensures
        match r {
            Some(v) => obj_get(Json::views_of_members(m@), k@) == Some(v.view()),
            None => obj_get(Json::views_of_members(m@), k@) is None,
        },
{
    match find_key(m, k) {
        Some(i) => {
            proof {
                lemma_views_of_members(m@);
                assert forall|j: int| 0 <= j < i implies #[trigger] Json::views_of_members(
                    m@,
                )[j].0 != k@ by {
                    assert(m@[j].0@ != k@);
                }
                lemma_obj_get_first(Json::views_of_members(m@), k@, i as int);
            }
            Some(&m[i].1)
        },
        None => {
            proof {
                lemma_obj_get_has(Json::views_of_members(m@), k@);
            }
            None
        },
    }
}

/// Bind the key to the value: in place at its first occurrence, appended when
/// it is absent.
pub fn set_key(m: Vec<(String, Json)>, k: String, v: Json) -> (r: Vec<(String, Json)>)
    ensures
        Json::views_of_members(r@) =~= obj_set(Json::views_of_members(m@), k@, v.view()),
{
    let ghost mv = Json::views_of_members(m@);
    let mut out = m;
    match find_key(&out, &k) {
        Some(i) => {
            proof {
                lemma_views_of_members(out@);
                assert forall|j: int| 0 <= j < i implies #[trigger] mv[j].0 != k@ by {
                    assert(out@[j].0@ != k@);
                }
                lemma_obj_set_first(mv, k@, v.view(), i as int);
            }
            out.remove(i);
            out.insert(i, (k, v));
            proof {
                lemma_views_of_members(out@);
                assert(Json::views_of_members(out@) =~= mv.update(i as int, (k@, v.view())));
            }
        },
        None => {
            proof {
                lemma_views_of_members(out@);
                lemma_obj_set_absent(mv, k@, v.view());
            }
            out.push((k, v));
            proof {
                lemma_views_of_members(out@);
                assert(Json::views_of_members(out@) =~= mv.push((k@, v.view())));
            }
        },
    }
    out
}

/// Drop every member carrying the key.
pub fn remove_key(m: Vec<(String, Json)>, k: &String) -> (r: Vec<(String, Json)>)
    ensures
        Json::views_of_members(r@) =~= obj_remove(Json::views_of_members(m@), k@),
{
    let ghost orig = Json::views_of_members(m@);
    let mut rest = m;
    let mut out: Vec<(String, Json)> = Vec::new();
    proof {
        lemma_views_of_members(rest@);
        lemma_views_of_members(out@);
    }
    while rest.len() > 0
        invariant
            Json::views_of_members(out@) + obj_remove(Json::views_of_members(rest@), k@)
                =~= obj_remove(orig, k@),
        decreases rest@.len(),
    {
        let ghost rest_pre = rest@;
        let ghost out_pre = out@;
        let ghost rv = Json::views_of_members(rest@);
        let ghost ov = Json::views_of_members(out@);
        let pair = rest.remove(0);
        proof {
            lemma_views_of_members(rest_pre);
            lemma_views_of_members(out_pre);
            lemma_views_of_members(rest@);
            assert(Json::views_of_members(rest@) =~= rv.drop_first());
        }
        if pair.0 == *k {
            proof {
                assert(rv[0].0 == k@);
                assert(obj_remove(rv, k@) == obj_remove(rv.drop_first(), k@));
            }
        } else {
            out.push(pair);
            proof {
                lemma_views_of_members(out@);
                assert(Json::views_of_members(out@) =~= ov.push((pair.0@, pair.1.view())));
                assert(obj_remove(rv, k@) =~= seq![rv[0]] + obj_remove(rv.drop_first(), k@));
                assert(Json::views_of_members(out@) + obj_remove(
                    Json::views_of_members(rest@),
                    k@,
                ) =~= ov + obj_remove(rv, k@));
            }
        }
    }
    proof {
        lemma_views_of_members(rest@);
        assert(obj_remove(Json::views_of_members(rest@), k@) =~= Seq::<
            (Seq<char>, JsonV),
        >::empty());
        assert(Json::views_of_members(out@) =~= obj_remove(orig, k@));
    }
    out
}

} // verus!
