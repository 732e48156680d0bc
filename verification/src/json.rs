//! The structured-value model: an owned JSON tree, its mathematical view, and
//! the object-field operations (lookup, insert-or-replace, overlay) that the
//! record builders rely on.

use vstd::prelude::*;

verus! {

/// The mathematical model of a structured value: what contracts speak of.
pub enum JsonV {
    Null,
    Bool(bool),
    Int(int),
    /// A numeric literal kept as its source text (a number that is not a
    /// signed 64-bit integer).
    Num(Seq<char>),
    Str(Seq<char>),
    Arr(Seq<JsonV>),
    Obj(Seq<(Seq<char>, JsonV)>),
}

/// An owned structured value. Object fields keep their order.
pub enum Json {
    Null,
    Bool(bool),
    Int(i64),
    /// A numeric literal kept as its source text.
    Num(String),
    Str(String),
    Arr(Vec<Json>),
    Obj(Vec<(String, Json)>),
}

impl Json {
    pub open spec fn deep(self) -> JsonV
        decreases self,
    {
        match self {
            Json::Null => JsonV::Null,
            Json::Bool(b) => JsonV::Bool(b),
            Json::Int(i) => JsonV::Int(i as int),
            Json::Num(s) => JsonV::Num(s@),
            Json::Str(s) => JsonV::Str(s@),
            Json::Arr(v) => JsonV::Arr(elems_view(v@)),
            Json::Obj(v) => JsonV::Obj(fields_view(v@)),
        }
    }
}

impl View for Json {
    type V = JsonV;

    open spec fn view(&self) -> JsonV {
        self.deep()
    }
}

/// The view of an array's element list.
pub open spec fn elems_view(es: Seq<Json>) -> Seq<JsonV>
    decreases es,
{
    if es.len() == 0 {
        Seq::empty()
    } else {
        seq![es[0].deep()] + elems_view(es.drop_first())
    }
}

/// The view of an object's field list.
pub open spec fn fields_view(fs: Seq<(String, Json)>) -> Seq<(Seq<char>, JsonV)>
    decreases fs,
{
    if fs.len() == 0 {
        Seq::empty()
    } else {
        seq![(fs[0].0@, fs[0].1.deep())] + fields_view(fs.drop_first())
    }
}

pub proof fn lemma_elems_view(es: Seq<Json>)
    ensures
        elems_view(es).len() == es.len(),
        forall|i: int| 0 <= i < es.len() ==> elems_view(es)[i] == es[i].deep(),
    decreases es.len(),
{
    if es.len() > 0 {
        lemma_elems_view(es.drop_first());
        assert(forall|i: int| 0 <= i < es.len() - 1 ==> es.drop_first()[i] == es[i + 1]);
    }
}

pub proof fn lemma_fields_view(fs: Seq<(String, Json)>)
    ensures
        fields_view(fs).len() == fs.len(),
        forall|i: int| 0 <= i < fs.len() ==> fields_view(fs)[i] == (fs[i].0@, fs[i].1.deep()),
    decreases fs.len(),
{
    if fs.len() > 0 {
        lemma_fields_view(fs.drop_first());
        assert(forall|i: int| 0 <= i < fs.len() - 1 ==> fs.drop_first()[i] == fs[i + 1]);
    }
}

/// The value bound to `key`: the first binding, which in an object of unique
/// keys is the only one.
pub open spec fn obj_get(fs: Seq<(Seq<char>, JsonV)>, key: Seq<char>) -> Option<JsonV>
    decreases fs.len(),
{
    if fs.len() == 0 {
        None
    } else if fs[0].0 == key {
        Some(fs[0].1)
    } else {
        obj_get(fs.drop_first(), key)
    }
}

pub open spec fn has_key(fs: Seq<(Seq<char>, JsonV)>, key: Seq<char>) -> bool {
    obj_get(fs, key) is Some
}

/// Bind `key` to `v`: replace the first existing binding in place, or append
/// a new one at the end.
pub open spec fn obj_insert(
    fs: Seq<(Seq<char>, JsonV)>,
    key: Seq<char>,
    v: JsonV,
) -> Seq<(Seq<char>, JsonV)>
    decreases fs.len(),
{
    if fs.len() == 0 {
        seq![(key, v)]
    } else if fs[0].0 == key {
        seq![(key, v)] + fs.drop_first()
    } else {
        seq![fs[0]] + obj_insert(fs.drop_first(), key, v)
    }
}

/// Overlay `fs` onto `base`, binding each field of `fs` in order: a field of
/// `fs` overrides a same-keyed field of `base`.
pub open spec fn overlay(
    base: Seq<(Seq<char>, JsonV)>,
    fs: Seq<(Seq<char>, JsonV)>,
) -> Seq<(Seq<char>, JsonV)>
    decreases fs.len(),
{
    if fs.len() == 0 {
        base
    } else {
        overlay(obj_insert(base, fs[0].0, fs[0].1), fs.drop_first())
    }
}

/// Each key bound at most once.
pub open spec fn keys_unique(fs: Seq<(Seq<char>, JsonV)>) -> bool {
    forall|i: int, j: int| 0 <= i < j < fs.len() ==> fs[i].0 != fs[j].0
}

/// Every object in the tree binds each key at most once.
pub open spec fn obj_keys_unique(v: JsonV) -> bool
    decreases v, 2int,
{
    match v {
        JsonV::Arr(es) => elems_keys_unique(es),
        JsonV::Obj(fs) => keys_unique(fs) && fields_keys_unique(fs),
        _ => true,
    }
}

pub open spec fn elems_keys_unique(es: Seq<JsonV>) -> bool
    decreases es, 1int,
{
    if es.len() == 0 {
        true
    } else {
        obj_keys_unique(es[0]) && elems_keys_unique(es.drop_first())
    }
}

pub open spec fn fields_keys_unique(fs: Seq<(Seq<char>, JsonV)>) -> bool
    decreases fs, 1int,
{
    if fs.len() == 0 {
        true
    } else {
        obj_keys_unique(fs[0].1) && fields_keys_unique(fs.drop_first())
    }
}

/// A key is bound exactly when some field carries it.
pub proof fn lemma_has_key_index(fs: Seq<(Seq<char>, JsonV)>, key: Seq<char>)
    ensures
        has_key(fs, key) <==> exists|i: int| 0 <= i < fs.len() && (#[trigger] fs[i].0) == key,
    decreases fs.len(),
{
    if fs.len() > 0 {
        lemma_has_key_index(fs.drop_first(), key);
        assert(forall|i: int|
            0 <= i < fs.len() - 1 ==> (#[trigger] fs.drop_first()[i].0) == fs[i + 1].0);
        if fs[0].0 != key && has_key(fs, key) {
            let i = choose|i: int|
                0 <= i < fs.drop_first().len() && (#[trigger] fs.drop_first()[i].0) == key;
            assert(fs[i + 1].0 == key);
        }
        if exists|i: int| 0 <= i < fs.len() && (#[trigger] fs[i].0) == key {
            let i = choose|i: int| 0 <= i < fs.len() && (#[trigger] fs[i].0) == key;
            if i > 0 && fs[0].0 != key {
                assert(fs.drop_first()[i - 1].0 == key);
            }
        }
    }
}

/// Looking up the key just bound gives the new value.
pub proof fn lemma_obj_insert_get(fs: Seq<(Seq<char>, JsonV)>, key: Seq<char>, v: JsonV)
    ensures
        obj_get(obj_insert(fs, key, v), key) == Some(v),
    decreases fs.len(),
{
    if fs.len() == 0 {
        assert(obj_insert(fs, key, v)[0] == (key, v));
    } else if fs[0].0 == key {
        assert(obj_insert(fs, key, v)[0] == (key, v));
    } else {
        let t = obj_insert(fs, key, v);
        assert(t[0] == fs[0]);
        assert(t.drop_first() =~= obj_insert(fs.drop_first(), key, v));
        lemma_obj_insert_get(fs.drop_first(), key, v);
    }
}

/// Binding one key leaves every other key's value alone.
pub proof fn lemma_obj_insert_other(
    fs: Seq<(Seq<char>, JsonV)>,
    key: Seq<char>,
    v: JsonV,
    k: Seq<char>,
)
    requires
        k != key,
    ensures
        obj_get(obj_insert(fs, key, v), k) == obj_get(fs, k),
    decreases fs.len(),
{
    if fs.len() == 0 {
        let t = obj_insert(fs, key, v);
        assert(t[0] == (key, v));
        assert(t.drop_first() =~= Seq::<(Seq<char>, JsonV)>::empty());
        assert(obj_get(t, k) == obj_get(t.drop_first(), k));
        assert(obj_get(Seq::<(Seq<char>, JsonV)>::empty(), k) == None::<JsonV>);
    } else if fs[0].0 == key {
        let t = obj_insert(fs, key, v);
        assert(t[0] == (key, v));
        assert(t.drop_first() =~= fs.drop_first());
        assert(obj_get(t, k) == obj_get(fs.drop_first(), k));
        assert(obj_get(fs, k) == obj_get(fs.drop_first(), k));
    } else {
        let t = obj_insert(fs, key, v);
        assert(t[0] == fs[0]);
        assert(t.drop_first() =~= obj_insert(fs.drop_first(), key, v));
        lemma_obj_insert_other(fs.drop_first(), key, v, k);
    }
}

/// A key that the overlaid fields do not bind keeps its base value.
pub proof fn lemma_overlay_absent(
    base: Seq<(Seq<char>, JsonV)>,
    fs: Seq<(Seq<char>, JsonV)>,
    k: Seq<char>,
)
    requires
        !has_key(fs, k),
    ensures
        obj_get(overlay(base, fs), k) == obj_get(base, k),
    decreases fs.len(),
{
    if fs.len() > 0 {
        assert(fs[0].0 != k);
        lemma_obj_insert_other(base, fs[0].0, fs[0].1, k);
        lemma_overlay_absent(obj_insert(base, fs[0].0, fs[0].1), fs.drop_first(), k);
    }
}

/// With each key bound once in the overlaid fields, a key they bind takes
/// their value, whatever the base held.
pub proof fn lemma_overlay_present(
    base: Seq<(Seq<char>, JsonV)>,
    fs: Seq<(Seq<char>, JsonV)>,
    k: Seq<char>,
)
    requires
        keys_unique(fs),
        has_key(fs, k),
    ensures
        obj_get(overlay(base, fs), k) == obj_get(fs, k),
    decreases fs.len(),
{
    let b1 = obj_insert(base, fs[0].0, fs[0].1);
    let tail = fs.drop_first();
    assert(forall|i: int| 0 <= i < tail.len() ==> #[trigger] tail[i] == fs[i + 1]);
    if fs[0].0 == k {
        assert(forall|i: int| 0 <= i < tail.len() ==> (#[trigger] tail[i].0) != k);
        lemma_has_key_index(tail, k);
        lemma_overlay_absent(b1, tail, k);
        lemma_obj_insert_get(base, fs[0].0, fs[0].1);
    } else {
        lemma_overlay_present(b1, tail, k);
    }
}

proof fn lemma_obj_get_skip(fs: Seq<(Seq<char>, JsonV)>, key: Seq<char>, i: int)
    requires
        0 <= i <= fs.len(),
        forall|j: int| 0 <= j < i ==> fs[j].0 != key,
    ensures
        obj_get(fs, key) == obj_get(fs.subrange(i, fs.len() as int), key),
    decreases i,
{
    if i == 0 {
        assert(fs.subrange(0, fs.len() as int) =~= fs);
    } else {
        lemma_obj_get_skip(fs, key, i - 1);
        let tail = fs.subrange(i - 1, fs.len() as int);
        assert(tail[0] == fs[i - 1]);
        assert(tail.drop_first() =~= fs.subrange(i, fs.len() as int));
    }
}

/// String equality, stated over the views.
pub fn string_eq(a: &String, b: &String) -> (r: bool)
    ensures
        r == (a@ == b@),
{
    *a == *b
}

/// Look a key up in an object's field list; `None` exactly when the key is
/// unbound.
pub fn obj_find<'a>(fs: &'a Vec<(String, Json)>, key: &String) -> (r: Option<&'a Json>)
    ensures
        match r {
            Some(v) => obj_get(fields_view(fs@), key@) == Some(v@),
            None => !has_key(fields_view(fs@), key@),
        },
{
    let ghost fsv = fields_view(fs@);
    proof {
        lemma_fields_view(fs@);
    }
    let mut i: usize = 0;
    while i < fs.len()
        invariant
            0 <= i <= fs.len(),
            fsv == fields_view(fs@),
            fsv.len() == fs@.len(),
            forall|j: int| 0 <= j < fs@.len() ==> fsv[j] == (fs@[j].0@, fs@[j].1.deep()),
            forall|j: int| 0 <= j < i ==> fsv[j].0 != key@,
        decreases fs.len() - i,
    {
        if string_eq(&fs[i].0, key) {
            proof {
                lemma_obj_get_skip(fsv, key@, i as int);
                let tail = fsv.subrange(i as int, fsv.len() as int);
                assert(tail[0] == fsv[i as int]);
            }
            return Some(&fs[i].1);
        }
        i += 1;
    }
    proof {
        lemma_obj_get_skip(fsv, key@, fs@.len() as int);
        assert(fsv.subrange(fsv.len() as int, fsv.len() as int) =~= Seq::empty());
    }
    None
}

/// Bind `key` to `v` in an object's field list, replacing any existing
/// binding in place.
pub fn obj_put(fs: &mut Vec<(String, Json)>, key: String, v: Json)
    ensures
        fields_view(final(fs)@) == obj_insert(fields_view(old(fs)@), key@, v@),
{
    let ghost fsv = fields_view(old(fs)@);
    proof {
        lemma_fields_view(old(fs)@);
    }
    let mut i: usize = 0;
    while i < fs.len()
        invariant
            0 <= i <= fs.len(),
            fs@ == old(fs)@,
            fsv == fields_view(fs@),
            fsv.len() == fs@.len(),
            forall|j: int| 0 <= j < fs@.len() ==> fsv[j] == (fs@[j].0@, fs@[j].1.deep()),
            forall|j: int| 0 <= j < i ==> fsv[j].0 != key@,
        decreases fs.len() - i,
    {
        if string_eq(&fs[i].0, &key) {
            fs.remove(i);
            fs.insert(i, (key, v));
            proof {
                lemma_obj_insert_at(fsv, key@, v@, i as int);
                lemma_fields_view(fs@);
                assert(fs@ =~= old(fs)@.update(i as int, fs@[i as int]));
                assert(fields_view(fs@) =~= fsv.update(i as int, (key@, v@)));
            }
            return;
        }
        i += 1;
    }
    let ghost keyv = key@;
    let ghost vv = v.deep();
    fs.push((key, v));
    proof {
        lemma_obj_insert_absent(fsv, keyv, vv);
        lemma_fields_view(fs@);
        assert(fields_view(fs@) =~= fsv.push((keyv, vv)));
    }
}

/// Remove a key's first binding from an object's field list and hand its
/// value out; `None` exactly when the key is unbound.
pub fn obj_take(fs: &mut Vec<(String, Json)>, key: &String) -> (r: Option<Json>)
    ensures
        match r {
            Some(v) => obj_get(fields_view(old(fs)@), key@) == Some(v@),
            None => !has_key(fields_view(old(fs)@), key@),
        },
{
    let ghost fsv = fields_view(old(fs)@);
    proof {
        lemma_fields_view(old(fs)@);
    }
    let mut i: usize = 0;
    while i < fs.len()
        invariant
            fs@ == old(fs)@,
            fsv == fields_view(fs@),
            fsv.len() == fs@.len(),
            forall|j: int| 0 <= j < fs@.len() ==> fsv[j] == (fs@[j].0@, fs@[j].1.deep()),
            0 <= i <= fs@.len(),
            forall|j: int| 0 <= j < i ==> fsv[j].0 != key@,
        decreases fs@.len() - i,
    {
        if string_eq(&fs[i].0, key) {
            proof {
                lemma_obj_get_skip(fsv, key@, i as int);
                let tail = fsv.subrange(i as int, fsv.len() as int);
                assert(tail[0] == fsv[i as int]);
            }
            let e = fs.remove(i);
            return Some(e.1);
        }
        i += 1;
    }
    proof {
        lemma_obj_get_skip(fsv, key@, fs@.len() as int);
        assert(fsv.subrange(fsv.len() as int, fsv.len() as int) =~= Seq::empty());
    }
    None
}

/// Overlay `fs` onto `base`, binding each field of `fs` in order.
pub fn obj_overlay(base: &mut Vec<(String, Json)>, fs: Vec<(String, Json)>)
    ensures
        fields_view(final(base)@) == overlay(fields_view(old(base)@), fields_view(fs@)),
{
    let ghost b0 = fields_view(old(base)@);
    let ghost f0 = fields_view(fs@);
    let mut rest = fs;
    while rest.len() > 0
        invariant
            overlay(b0, f0) == overlay(fields_view(base@), fields_view(rest@)),
        decreases rest@.len(),
    {
        let ghost r_pre = rest@;
        let ghost rv = fields_view(rest@);
        proof {
            lemma_fields_view(rest@);
        }
        let pair = rest.remove(0);
        proof {
            lemma_fields_view(rest@);
            assert(rest@ =~= r_pre.drop_first());
            assert(fields_view(rest@) =~= rv.drop_first());
            assert(rv[0] == (pair.0@, pair.1.deep()));
        }
        obj_put(base, pair.0, pair.1);
    }
    proof {
        assert(fields_view(rest@) =~= Seq::<(Seq<char>, JsonV)>::empty());
    }
}

proof fn lemma_obj_insert_at(fs: Seq<(Seq<char>, JsonV)>, key: Seq<char>, v: JsonV, i: int)
    requires
        0 <= i < fs.len(),
        fs[i].0 == key,
        forall|j: int| 0 <= j < i ==> fs[j].0 != key,
    ensures
        obj_insert(fs, key, v) == fs.update(i, (key, v)),
    decreases i,
{
    if i == 0 {
        assert(obj_insert(fs, key, v) == seq![(key, v)] + fs.drop_first());
        assert(seq![(key, v)] + fs.drop_first() =~= fs.update(0, (key, v)));
    } else {
        let tail = fs.drop_first();
        assert(forall|j: int| 0 <= j < tail.len() ==> tail[j] == fs[j + 1]);
        lemma_obj_insert_at(tail, key, v, i - 1);
        assert(obj_insert(fs, key, v) == seq![fs[0]] + tail.update(i - 1, (key, v)));
        assert(seq![fs[0]] + tail.update(i - 1, (key, v)) =~= fs.update(i, (key, v)));
    }
}

proof fn lemma_obj_insert_absent(fs: Seq<(Seq<char>, JsonV)>, key: Seq<char>, v: JsonV)
    requires
        forall|j: int| 0 <= j < fs.len() ==> fs[j].0 != key,
    ensures
        obj_insert(fs, key, v) == fs.push((key, v)),
    decreases fs.len(),
{
    if fs.len() == 0 {
        assert(obj_insert(fs, key, v) =~= fs.push((key, v)));
    } else {
        let tail = fs.drop_first();
        assert(forall|j: int| 0 <= j < tail.len() ==> tail[j] == fs[j + 1]);
        lemma_obj_insert_absent(tail, key, v);
        assert(seq![fs[0]] + tail.push((key, v)) =~= fs.push((key, v)));
    }
}

} // verus!
