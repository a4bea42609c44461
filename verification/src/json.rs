use vstd::prelude::*;

verus! {

/// A generic structured value: the shape a persisted record takes before it
/// is validated into the strict record types. Objects keep their fields in
/// order; numbers are kept as signed 64-bit integers.
#[derive(Debug)]
pub enum JsonValue {
    Null,
    Bool(bool),
    Int(i64),
    Str(String),
    Arr(Vec<JsonValue>),
    Obj(Vec<(String, JsonValue)>),
}

/// The mathematical model of a `JsonValue`.
pub ghost enum Json {
    Null,
    Bool(bool),
    Int(int),
    Str(Seq<char>),
    Arr(Seq<Json>),
    Obj(Seq<(Seq<char>, Json)>),
}

/// The model of a value: strings become character sequences, vectors become
/// sequences, recursively.
pub open spec fn json_view(v: JsonValue) -> Json
    decreases v,
{
    match v {
        JsonValue::Null => Json::Null,
        JsonValue::Bool(b) => Json::Bool(b),
        JsonValue::Int(i) => Json::Int(i as int),
        JsonValue::Str(s) => Json::Str(s@),
        JsonValue::Arr(items) => Json::Arr(
            Seq::new(
                items@.len(),
                |i: int|
                    if 0 <= i < items@.len() {
                        json_view(items@[i])
                    } else {
                        Json::Null
                    },
            ),
        ),
        JsonValue::Obj(fields) => Json::Obj(
            Seq::new(
                fields@.len(),
                |i: int|
                    if 0 <= i < fields@.len() {
                        (fields@[i].0@, json_view(fields@[i].1))
                    } else {
                        (Seq::empty(), Json::Null)
                    },
            ),
        ),
    }
}

/// The model of an object's field list.
pub open spec fn fields_view(fs: Seq<(String, JsonValue)>) -> Seq<(Seq<char>, Json)> {
    Seq::new(fs.len(), |i: int| (fs[i].0@, json_view(fs[i].1)))
}

pub proof fn lemma_obj_view(m: Vec<(String, JsonValue)>)
    ensures
        json_view(JsonValue::Obj(m)) == Json::Obj(fields_view(m@)),
{
    assert(json_view(JsonValue::Obj(m)) matches Json::Obj(fs) && fs =~= fields_view(m@));
}

pub proof fn lemma_arr_view(items: Vec<JsonValue>)
    ensures
        json_view(JsonValue::Arr(items)) matches Json::Arr(vs) && vs.len() == items@.len()
            && forall|i: int| 0 <= i < items@.len() ==> vs[i] == json_view(items@[i]),
{
}

/// The value of the first field named `k`, if any.
pub open spec fn obj_lookup(fs: Seq<(Seq<char>, Json)>, k: Seq<char>) -> Option<Json>
    decreases fs.len(),
{
    if fs.len() == 0 {
        None
    } else if fs[0].0 == k {
        Some(fs[0].1)
    } else {
        obj_lookup(fs.drop_first(), k)
    }
}

/// The field list after writing `v` under `k`: the first field named `k` is
/// replaced in place, or a new field is appended at the end.
pub open spec fn obj_update(fs: Seq<(Seq<char>, Json)>, k: Seq<char>, v: Json) -> Seq<
    (Seq<char>, Json),
>
    decreases fs.len(),
{
    if fs.len() == 0 {
        seq![(k, v)]
    } else if fs[0].0 == k {
        seq![(k, v)] + fs.drop_first()
    } else {
        seq![fs[0]] + obj_update(fs.drop_first(), k, v)
    }
}

/// Looking a key up after writing it finds the written value.
pub proof fn lemma_lookup_after_update(fs: Seq<(Seq<char>, Json)>, k: Seq<char>, v: Json)
    ensures
        obj_lookup(obj_update(fs, k, v), k) == Some(v),
    decreases fs.len(),
{
    if fs.len() != 0 && fs[0].0 != k {
        lemma_lookup_after_update(fs.drop_first(), k, v);
        assert((seq![fs[0]] + obj_update(fs.drop_first(), k, v)).drop_first() =~= obj_update(
            fs.drop_first(),
            k,
            v,
        ));
    }
}

/// Writing one key leaves every other key's value as it was.
pub proof fn lemma_lookup_after_update_other(
    fs: Seq<(Seq<char>, Json)>,
    k: Seq<char>,
    v: Json,
    k2: Seq<char>,
)
    requires
        k2 != k,
    ensures
        obj_lookup(obj_update(fs, k, v), k2) == obj_lookup(fs, k2),
    decreases fs.len(),
{
    if fs.len() == 0 {
        assert(seq![(k, v)][0] == (k, v));
        assert(seq![(k, v)].drop_first() =~= Seq::<(Seq<char>, Json)>::empty());
        assert(obj_lookup(seq![(k, v)], k2) is None) by {
            reveal_with_fuel(obj_lookup, 3);
            assert(seq![(k, v)].drop_first() =~= Seq::<(Seq<char>, Json)>::empty());
        }
    } else {
        if fs[0].0 == k {
            assert((seq![(k, v)] + fs.drop_first())[0] == (k, v));
            assert((seq![(k, v)] + fs.drop_first()).drop_first() =~= fs.drop_first());
        } else {
            lemma_lookup_after_update_other(fs.drop_first(), k, v, k2);
            assert((seq![fs[0]] + obj_update(fs.drop_first(), k, v))[0] == fs[0]);
            assert((seq![fs[0]] + obj_update(fs.drop_first(), k, v)).drop_first() =~= obj_update(
                fs.drop_first(),
                k,
                v,
            ));
        }
    }
}

pub proof fn lemma_obj_lookup_skip(fs: Seq<(Seq<char>, Json)>, k: Seq<char>, i: int)
    requires
        0 <= i <= fs.len(),
        forall|j: int| 0 <= j < i ==> fs[j].0 != k,
    ensures
        obj_lookup(fs, k) == obj_lookup(fs.skip(i), k),
    decreases i,
{
    if i > 0 {
        lemma_obj_lookup_skip(fs.drop_first(), k, i - 1);
        assert(fs.drop_first().skip(i - 1) =~= fs.skip(i));
        assert(fs.skip(0) =~= fs);
    } else {
        assert(fs.skip(0) =~= fs);
    }
}

/// Writing an existing key `fs[i].0`, where `i` is its first occurrence,
/// replaces the field at `i` and nothing else.
pub proof fn lemma_obj_update_at(fs: Seq<(Seq<char>, Json)>, v: Json, i: int)
    requires
        0 <= i < fs.len(),
        forall|j: int| 0 <= j < i ==> fs[j].0 != fs[i].0,
    ensures
        obj_update(fs, fs[i].0, v) =~= fs.update(i, (fs[i].0, v)),
    decreases i,
{
    if i == 0 {
        assert(seq![(fs[0].0, v)] + fs.drop_first() =~= fs.update(0, (fs[0].0, v)));
    } else {
        lemma_obj_update_at(fs.drop_first(), v, i - 1);
        assert(fs.drop_first()[i - 1] == fs[i]);
        assert(seq![fs[0]] + fs.drop_first().update(i - 1, (fs[i].0, v)) =~= fs.update(
            i,
            (fs[i].0, v),
        ));
    }
}

/// Writing a key absent from `fs` appends the field at the end.
pub proof fn lemma_obj_update_absent(fs: Seq<(Seq<char>, Json)>, k: Seq<char>, v: Json)
    requires
        forall|j: int| 0 <= j < fs.len() ==> fs[j].0 != k,
    ensures
        obj_update(fs, k, v) =~= fs.push((k, v)),
    decreases fs.len(),
{
    if fs.len() != 0 {
        lemma_obj_update_absent(fs.drop_first(), k, v);
        assert(seq![fs[0]] + fs.drop_first().push((k, v)) =~= fs.push((k, v)));
    } else {
        assert(obj_update(fs, k, v) =~= fs.push((k, v)));
    }
}

/// A borrow of the first field named `key`, if any.
pub fn obj_get<'a>(fields: &'a Vec<(String, JsonValue)>, key: &String) -> (r: Option<
    &'a JsonValue,
>)
    ensures
        match r {
            Some(v) => obj_lookup(fields_view(fields@), key@) == Some(json_view(*v)),
            None => obj_lookup(fields_view(fields@), key@) is None,
        },
{
    let n = fields.len();
    for i in 0..n
        invariant
            n == fields.len(),
            forall|j: int| 0 <= j < i ==> fields@[j].0@ != key@,
    {
        if fields[i].0 == *key {
            proof {
                lemma_obj_lookup_skip(fields_view(fields@), key@, i as int);
                assert(fields_view(fields@).skip(i as int)[0] == fields_view(fields@)[i as int]);
            }
            return Some(&fields[i].1);
        }
    }
    proof {
        lemma_obj_lookup_skip(fields_view(fields@), key@, n as int);
        assert(fields_view(fields@).skip(n as int) =~= Seq::<(Seq<char>, Json)>::empty());
    }
    None
}

/// The position of the first field named `key`, if any.
pub fn obj_find(fields: &Vec<(String, JsonValue)>, key: &String) -> (r: Option<usize>)
    ensures
        match r {
            Some(i) => i < fields@.len() && fields@[i as int].0@ == key@ && (forall|j: int|
                0 <= j < i ==> (#[trigger] fields@[j]).0@ != key@) && obj_lookup(
                fields_view(fields@),
                key@,
            ) == Some(json_view(fields@[i as int].1)),
            None => obj_lookup(fields_view(fields@), key@) is None,
        },
{
    let n = fields.len();
    for i in 0..n
        invariant
            n == fields.len(),
            forall|j: int| 0 <= j < i ==> (#[trigger] fields@[j]).0@ != key@,
    {
        if fields[i].0 == *key {
            proof {
                lemma_obj_lookup_skip(fields_view(fields@), key@, i as int);
                assert(fields_view(fields@).skip(i as int)[0] == fields_view(fields@)[i as int]);
            }
            return Some(i);
        }
    }
    proof {
        lemma_obj_lookup_skip(fields_view(fields@), key@, n as int);
        assert(fields_view(fields@).skip(n as int) =~= Seq::<(Seq<char>, Json)>::empty());
    }
    None
}

/// Writes `value` under `key`: replaces the first field with that name in
/// place, or appends a new field.
pub fn obj_put(fields: &mut Vec<(String, JsonValue)>, key: String, value: JsonValue)
    ensures
        fields_view(final(fields)@) =~= obj_update(fields_view(old(fields)@), key@, json_view(value)),
{
    let n = fields.len();
    for i in 0..n
        invariant
            n == fields.len(),
            fields@ == old(fields)@,
            forall|j: int| 0 <= j < i ==> fields@[j].0@ != key@,
    {
        if fields[i].0 == *&key {
            proof {
                lemma_obj_update_at(fields_view(fields@), json_view(value), i as int);
            }
            let ghost before = fields_view(fields@);
            fields.set(i, (key, value));
            proof {
                assert(fields_view(fields@) =~= before.update(
                    i as int,
                    (before[i as int].0, json_view(value)),
                ));
            }
            return ;
        }
    }
    proof {
        lemma_obj_update_absent(fields_view(fields@), key@, json_view(value));
    }
    let ghost before = fields_view(fields@);
    fields.push((key, value));
    proof {
        assert(fields_view(fields@) =~= before.push((key@, json_view(value))));
    }
}

/// The object after writing every field of `adds` in order, first to last.
pub open spec fn merge_fields(fs: Seq<(Seq<char>, Json)>, adds: Seq<(Seq<char>, Json)>) -> Seq<
    (Seq<char>, Json),
>
    decreases adds.len(),
{
    if adds.len() == 0 {
        fs
    } else {
        merge_fields(obj_update(fs, adds[0].0, adds[0].1), adds.drop_first())
    }
}

/// What `merge` returns: fields written into an object, anything else kept.
pub open spec fn merge_spec(j: Json, adds: Seq<(Seq<char>, Json)>) -> Json {
    match j {
        Json::Obj(fs) => Json::Obj(merge_fields(fs, adds)),
        _ => j,
    }
}

/// Merges the given fields into `v` when `v` is an object, writing them in
/// order; any other kind of value is returned unchanged.
pub fn merge(v: JsonValue, fields: Vec<(String, JsonValue)>) -> (r: JsonValue)
    ensures
        json_view(r) == merge_spec(json_view(v), fields_view(fields@)),
{
    match v {
        JsonValue::Obj(m) => {
            let ghost fs0 = fields_view(m@);
            let ghost adds0 = fields_view(fields@);
            proof {
                lemma_obj_view(m);
            }
            let mut m = m;
            let mut rest = fields;
            proof {
                assert(fields_view(rest@) =~= adds0);
            }
            while rest.len() > 0
                invariant
                    merge_fields(fields_view(m@), fields_view(rest@)) == merge_fields(fs0, adds0),
                decreases rest.len(),
            {
                let ghost pre_m = fields_view(m@);
                let ghost pre_rest = fields_view(rest@);
                let (k, val) = rest.remove(0);
                proof {
                    assert(fields_view(rest@) =~= pre_rest.drop_first());
                    assert(pre_rest[0] == (k@, json_view(val)));
                }
                obj_put(&mut m, k, val);
                proof {
                    assert(merge_fields(pre_m, pre_rest) == merge_fields(
                        obj_update(pre_m, pre_rest[0].0, pre_rest[0].1),
                        pre_rest.drop_first(),
                    ));
                    assert(fields_view(m@) =~= obj_update(pre_m, pre_rest[0].0, pre_rest[0].1));
                }
            }
            proof {
                assert(fields_view(rest@) =~= Seq::<(Seq<char>, Json)>::empty());
                assert(merge_fields(fields_view(m@), fields_view(rest@)) == fields_view(m@));
                lemma_obj_view(m);
            }
            JsonValue::Obj(m)
        },
        other => other,
    }
}

/// Structural equality of two values, decided at the model level.
pub fn json_eq(a: &JsonValue, b: &JsonValue) -> (r: bool)
    ensures
        r == (json_view(*a) == json_view(*b)),
    decreases *a,
{
    match (a, b) {
        (JsonValue::Null, JsonValue::Null) => true,
        (JsonValue::Bool(x), JsonValue::Bool(y)) => x == y,
        (JsonValue::Int(x), JsonValue::Int(y)) => x == y,
        (JsonValue::Str(x), JsonValue::Str(y)) => *x == *y,
        (JsonValue::Arr(xs), JsonValue::Arr(ys)) => {
            let ghost va = json_view(*a);
            let ghost vb = json_view(*b);
            proof {
                lemma_arr_view(*xs);
                lemma_arr_view(*ys);
            }
            if xs.len() != ys.len() {
                proof {
                    assert(va matches Json::Arr(s) && s.len() == xs@.len());
                    assert(vb matches Json::Arr(s) && s.len() == ys@.len());
                }
                return false;
            }
            let n = xs.len();
            for i in 0..n
                invariant
                    n == xs.len() == ys.len(),
                    *a == JsonValue::Arr(*xs),
                    *b == JsonValue::Arr(*ys),
                    va == json_view(*a),
                    vb == json_view(*b),
                    forall|j: int| 0 <= j < i ==> json_view(xs@[j]) == json_view(ys@[j]),
            {
                proof {
                    assert(decreases_to!(*xs => (*xs)[i as int]));
                    assert(decreases_to!(JsonValue::Arr(*xs) => *xs));
                }
                if !json_eq(&xs[i], &ys[i]) {
                    proof {
                        assert(va matches Json::Arr(s) && s[i as int] == json_view(xs@[i as int]));
                        assert(vb matches Json::Arr(s) && s[i as int] == json_view(ys@[i as int]));
                    }
                    return false;
                }
            }
            proof {
                assert(va matches Json::Arr(s1) && vb matches Json::Arr(s2) && s1 =~= s2);
            }
            true
        },
        (JsonValue::Obj(xs), JsonValue::Obj(ys)) => {
            let ghost va = json_view(*a);
            let ghost vb = json_view(*b);
            proof {
                lemma_obj_view(*xs);
                lemma_obj_view(*ys);
            }
            if xs.len() != ys.len() {
                proof {
                    assert(fields_view(xs@).len() == xs@.len());
                    assert(fields_view(ys@).len() == ys@.len());
                }
                return false;
            }
            let n = xs.len();
            for i in 0..n
                invariant
                    n == xs.len() == ys.len(),
                    *a == JsonValue::Obj(*xs),
                    *b == JsonValue::Obj(*ys),
                    va == json_view(*a),
                    vb == json_view(*b),
                    va == Json::Obj(fields_view(xs@)),
                    vb == Json::Obj(fields_view(ys@)),
                    forall|j: int| 0 <= j < i ==> fields_view(xs@)[j] == fields_view(ys@)[j],
            {
                if !(xs[i].0 == ys[i].0) {
                    proof {
                        assert(fields_view(xs@)[i as int].0 == xs@[i as int].0@);
                        assert(fields_view(ys@)[i as int].0 == ys@[i as int].0@);
                    }
                    return false;
                }
                proof {
                    assert(decreases_to!(*xs => (*xs)[i as int]));
                    assert(decreases_to!((*xs)[i as int] => (*xs)[i as int].1));
                    assert(decreases_to!(JsonValue::Obj(*xs) => *xs));
                }
                if !json_eq(&xs[i].1, &ys[i].1) {
                    proof {
                        assert(fields_view(xs@)[i as int].1 == json_view(xs@[i as int].1));
                        assert(fields_view(ys@)[i as int].1 == json_view(ys@[i as int].1));
                    }
                    return false;
                }
            }
            proof {
                assert(fields_view(xs@) =~= fields_view(ys@));
            }
            true
        },
        _ => false,
    }
}

/// What `serde_json` parses the given text to, if anything: `None` stands
/// for text it does not accept, and for a document holding a number
/// outside `i64`.
pub uninterp spec fn json_of(s: Seq<char>) -> Option<Json>;

#[verifier::external_type_specification]
#[verifier::external_body]
pub struct ExValue(serde_json::Value);

/// Relies on `serde_json::from_str::<serde_json::Value>`, together with the
/// converter below: the result is a function of the text alone.
#[verifier::external_body]
pub(crate) fn parse_json(s: &str) -> (r: Option<JsonValue>)
    ensures
        match r {
            Some(v) => json_of(s@) == Some(json_view(v)),
            None => json_of(s@) is None,
        },
{
    serde_json::from_str::<serde_json::Value>(s).ok().and_then(|v| value_to_json(&v))
}

/// Relies on `serde_json::Value`: one arm per variant, moving the contents
/// into the library's value. A document holding a number that does not fit
/// `i64` is refused.
#[verifier::external_body]
fn value_to_json(v: &serde_json::Value) -> Option<JsonValue> {
    match v {
        serde_json::Value::Null => Some(JsonValue::Null),
        serde_json::Value::Bool(b) => Some(JsonValue::Bool(*b)),
        serde_json::Value::Number(n) => n.as_i64().map(JsonValue::Int),
        serde_json::Value::String(s) => Some(JsonValue::Str(s.clone())),
        serde_json::Value::Array(items) => items.iter().map(value_to_json).collect::<Option<
            Vec<JsonValue>,
        >>().map(JsonValue::Arr),
        serde_json::Value::Object(m) => m.iter().map(
            |(k, x)| value_to_json(x).map(|j| (k.clone(), j)),
        ).collect::<Option<Vec<(String, JsonValue)>>>().map(JsonValue::Obj),
    }
}

} // verus!
