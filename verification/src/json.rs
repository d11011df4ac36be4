use vstd::prelude::*;

verus! {

broadcast use vstd::std_specs::vec::group_vec_axioms;

/// A structured payload value carried by a `Json` inscription, as handed over
/// by the ingestion pipeline. Only the shapes the validators read are
/// distinguished; numbers and booleans are collapsed into `Other`.
pub enum JsonValue {
    Null,
    Str(String),
    Arr(Vec<JsonValue>),
    Obj(Vec<(String, JsonValue)>),
    Other,
}

/// Mathematical mirror of `JsonValue`: strings as character sequences and
/// containers as sequences.
#[verifier::ext_equal]
pub enum JsonV {
    Null,
    Str(Seq<char>),
    Arr(Seq<JsonV>),
    Obj(Seq<(Seq<char>, JsonV)>),
    Other,
}

/// The abstraction of a JSON value.
pub open spec fn jv(j: JsonValue) -> JsonV
    decreases j,
{
    match j {
        JsonValue::Null => JsonV::Null,
        JsonValue::Str(s) => JsonV::Str(s@),
        JsonValue::Arr(items) => JsonV::Arr(jv_list(items@)),
        JsonValue::Obj(fields) => JsonV::Obj(jv_fields(fields@)),
    JsonValue::Other => JsonV::Other,
    }
}

/// The abstraction of an array's element list.
pub open spec fn jv_list(items: Seq<JsonValue>) -> Seq<JsonV>
    decreases items,
{
    if items.len() == 0 {
        Seq::empty()
    } else {
        seq![jv(items[0])] + jv_list(items.subrange(1, items.len() as int))
    }
}

/// The abstraction of an object's field list.
pub open spec fn jv_fields(fields: Seq<(String, JsonValue)>) -> Seq<(Seq<char>, JsonV)>
    decreases fields,
{
    if fields.len() == 0 {
        Seq::empty()
    } else {
        seq![(fields[0].0@, jv(fields[0].1))] + jv_fields(fields.subrange(1, fields.len() as int))
    }
}

/// The abstraction of an array maps each element.
pub proof fn lemma_jv_list(items: Seq<JsonValue>)
    ensures
        jv_list(items).len() == items.len(),
        forall|i: int| 0 <= i < items.len() ==> jv_list(items)[i] == jv(items[i]),
    decreases items.len(),
{
    if items.len() > 0 {
        let tail = items.subrange(1, items.len() as int);
        lemma_jv_list(tail);
        assert forall|i: int| 0 <= i < items.len() implies jv_list(items)[i] == jv(items[i]) by {
            if i > 0 {
                assert(jv_list(items)[i] == jv_list(tail)[i - 1]);
                assert(tail[i - 1] == items[i]);
            }
        }
    }
}

/// The abstraction of an object maps each field.
pub proof fn lemma_jv_fields(fields: Seq<(String, JsonValue)>)
    ensures
        jv_fields(fields).len() == fields.len(),
        forall|i: int| 0 <= i < fields.len() ==> jv_fields(fields)[i] == (fields[i].0@, jv(
            fields[i].1,
        )),
    decreases fields.len(),
{
    if fields.len() > 0 {
        let tail = fields.subrange(1, fields.len() as int);
        lemma_jv_fields(tail);
        assert forall|i: int| 0 <= i < fields.len() implies jv_fields(fields)[i] == (
            fields[i].0@,
            jv(fields[i].1),
        ) by {
            if i > 0 {
                assert(jv_fields(fields)[i] == jv_fields(tail)[i - 1]);
                assert(tail[i - 1] == fields[i]);
            }
        }
    }
}

impl View for JsonValue {
    type V = JsonV;

    open spec fn view(&self) -> JsonV {
        jv(*self)
    }
}

impl DeepView for JsonValue {
    type V = JsonV;

    open spec fn deep_view(&self) -> JsonV {
        jv(*self)
    }
}

/// The value bound to `key` in an object's field list; the first binding wins,
/// and a missing key reads as `Null`.
pub open spec fn assoc_get(fields: Seq<(Seq<char>, JsonV)>, key: Seq<char>) -> JsonV
    decreases fields.len(),
{
    if fields.len() == 0 {
        JsonV::Null
    } else if fields[0].0 == key {
        fields[0].1
    } else {
        assoc_get(fields.drop_first(), key)
    }
}

/// Indexing a JSON value by key: the bound value inside an object, `Null`
/// anywhere else.
pub open spec fn spec_get(j: JsonV, key: Seq<char>) -> JsonV {
    match j {
        JsonV::Obj(fields) => assoc_get(fields, key),
        _ => JsonV::Null,
    }
}

/// Character-wise string comparison.
pub fn str_eq(a: &str, b: &str) -> (r: bool)
    ensures
        r == (a@ == b@),
{
    let n = a.unicode_len();
    if n != b.unicode_len() {
        return false;
    }
    let mut i: usize = 0;
    while i < n
        invariant
            n == a@.len(),
            n == b@.len(),
            0 <= i <= n,
            forall|j: int| 0 <= j < i ==> a@[j] == b@[j],
        decreases n - i,
    {
        if a.get_char(i) != b.get_char(i) {
            return false;
        }
        i += 1;
    }
    proof {
        assert(a@ =~= b@);
    }
    true
}

fn obj_get<'a>(fields: &'a Vec<(String, JsonValue)>, key: &str) -> (r: Option<&'a JsonValue>)
    ensures
        match r {
            Some(v) => assoc_get(jv_fields(fields@), key@) == v@,
            None => assoc_get(jv_fields(fields@), key@) == JsonV::Null,
        },
{
    let ghost gf = jv_fields(fields@);
    proof {
        lemma_jv_fields(fields@);
        assert(gf.skip(0) =~= gf);
    }
    let mut i: usize = 0;
    while i < fields.len()
        invariant
            gf == jv_fields(fields@),
            gf.len() == fields@.len(),
            forall|j: int| 0 <= j < fields@.len() ==> gf[j] == (fields@[j].0@, jv(fields@[j].1)),
            0 <= i <= fields@.len(),
            assoc_get(gf, key@) == assoc_get(gf.skip(i as int), key@),
        decreases fields@.len() - i,
    {
        proof {
            assert(gf.skip(i as int)[0] == gf[i as int]);
        }
        if str_eq(fields[i].0.as_str(), key) {
            return Some(&fields[i].1);
        }
        proof {
            assert(gf.skip(i as int).drop_first() =~= gf.skip(i as int + 1));
        }
        i += 1;
    }
    proof {
        assert(gf.skip(i as int) =~= Seq::<(Seq<char>, JsonV)>::empty());
    }
    None
}

impl JsonValue {
    /// The string bound to `key`, when the value under `key` is a string.
    pub fn get_str<'a>(&'a self, key: &str) -> (r: Option<&'a String>)
        ensures
            match r {
                Some(s) => spec_get(self@, key@) == JsonV::Str(s@),
                None => !(spec_get(self@, key@) is Str),
            },
    {
        match self {
            JsonValue::Obj(fields) => match obj_get(fields, key) {
                Some(v) => match v {
                    JsonValue::Str(s) => Some(s),
                    _ => None,
                },
                None => None,
            },
            _ => None,
        }
    }

    /// The array bound to `key`, when the value under `key` is an array.
    pub fn get_arr<'a>(&'a self, key: &str) -> (r: Option<&'a Vec<JsonValue>>)
        ensures
            match r {
                Some(a) => spec_get(self@, key@) == JsonV::Arr(a.deep_view()),
                None => !(spec_get(self@, key@) is Arr),
            },
    {
        match self {
            JsonValue::Obj(fields) => match obj_get(fields, key) {
                Some(v) => match v {
                    JsonValue::Arr(a) => {
                        proof {
                            lemma_jv_list(a@);
                            assert(jv(*v)->Arr_0 =~= a.deep_view());
                        }
                        Some(a)
                    },
                    _ => None,
                },
                None => None,
            },
            _ => None,
        }
    }

    /// Whether the value under `key` is a string.
    pub fn key_is_string(&self, key: &str) -> (r: bool)
        ensures
            r == (spec_get(self@, key@) is Str),
    {
        self.get_str(key).is_some()
    }

    pub fn is_object(&self) -> (r: bool)
        ensures
            r == (self@ is Obj),
    {
        match self {
            JsonValue::Obj(_) => true,
            _ => false,
        }
    }

    /// A copy with the same abstraction.
    pub fn duplicate(&self) -> (r: JsonValue)
        ensures
            r@ == self@,
        decreases *self,
    {
        match self {
            JsonValue::Null => JsonValue::Null,
            JsonValue::Str(s) => JsonValue::Str(s.clone()),
            JsonValue::Arr(items) => {
                let mut out: Vec<JsonValue> = Vec::new();
                let mut i: usize = 0;
                while i < items.len()
                    invariant
                        0 <= i <= items@.len(),
                        out@.len() == i,
                        forall|j: int| 0 <= j < i ==> jv(#[trigger] out@[j]) == jv(items@[j]),
                        decreases_to!(*self => *items),
                    decreases items@.len() - i,
                {
                    proof {
                        assert(decreases_to!(*items => items@));
                        assert(decreases_to!(items@ => items@[i as int]));
                    }
                    out.push(items[i].duplicate());
                    i += 1;
                }
                let r = JsonValue::Arr(out);
                proof {
                    lemma_jv_list(out@);
                    lemma_jv_list(items@);
                    assert(jv(r)->Arr_0 =~= jv(*self)->Arr_0);
                    assert(jv(r) =~= jv(*self));
                }
                r
            },
            JsonValue::Obj(fields) => {
                let mut out: Vec<(String, JsonValue)> = Vec::new();
                let mut i: usize = 0;
                while i < fields.len()
                    invariant
                        0 <= i <= fields@.len(),
                        out@.len() == i,
                        forall|j: int| 0 <= j < i ==> ((#[trigger] out@[j]).0@ == fields@[j].0@
                            && jv(out@[j].1) == jv(fields@[j].1)),
                        decreases_to!(*self => *fields),
                    decreases fields@.len() - i,
                {
                    proof {
                        assert(decreases_to!(*fields => fields@));
                        assert(decreases_to!(fields@ => fields@[i as int]));
                    }
                    let entry = (fields[i].0.clone(), fields[i].1.duplicate());
                    out.push(entry);
                    i += 1;
                }
                let r = JsonValue::Obj(out);
                proof {
                    lemma_jv_fields(out@);
                    lemma_jv_fields(fields@);
                    assert(jv(r)->Obj_0 =~= jv(*self)->Obj_0);
                    assert(jv(r) =~= jv(*self));
                }
                r
            },
            JsonValue::Other => JsonValue::Other,
        }
    }
}

} // verus!
