//! The library's own model of a parsed JSON document: a tree of plain
//! values, with a number carried as its decimal text. Everything the
//! protocol logic reads out of an inbound frame it reads from this tree, so
//! classification and field extraction are ordinary verified code.

use vstd::prelude::*;
use crate::strutil::string_eq_str;

verus! {

broadcast use vstd::std_specs::vec::group_vec_axioms;

/// One parsed JSON value.
#[derive(Debug)]
pub enum Json {
    Null,
    Bool(bool),
    Num(String),
    Str(String),
    Arr(Vec<Json>),
    Obj(Vec<(String, Json)>),
}

/// The mathematical shape of a parsed JSON value.
#[verifier::ext_equal]
pub enum JsonV {
    Null,
    Bool(bool),
    Num(Seq<char>),
    Str(Seq<char>),
    Arr(Seq<JsonV>),
    Obj(Seq<(Seq<char>, JsonV)>),
}

/// The shape of a tree.
pub open spec fn rep(j: Json) -> JsonV
    decreases j,
{
    match j {
        Json::Null => JsonV::Null,
        Json::Bool(b) => JsonV::Bool(b),
        Json::Num(s) => JsonV::Num(s@),
        Json::Str(s) => JsonV::Str(s@),
        Json::Arr(items) => JsonV::Arr(rep_list(items@)),
        Json::Obj(fields) => JsonV::Obj(rep_fields(fields@)),
    }
}

/// The shapes of a list of trees.
pub open spec fn rep_list(s: Seq<Json>) -> Seq<JsonV>
    decreases s,
{
    if s.len() == 0 {
        Seq::empty()
    } else {
        seq![rep(s[0])] + rep_list(s.drop_first())
    }
}

/// The shapes of an object's fields.
pub open spec fn rep_fields(s: Seq<(String, Json)>) -> Seq<(Seq<char>, JsonV)>
    decreases s,
{
    if s.len() == 0 {
        Seq::empty()
    } else {
        seq![(s[0].0@, rep(s[0].1))] + rep_fields(s.drop_first())
    }
}

pub proof fn lemma_rep_list(s: Seq<Json>)
    ensures
        rep_list(s).len() == s.len(),
        forall|i: int| 0 <= i < s.len() ==> rep_list(s)[i] == rep(s[i]),
    decreases s.len(),
{
    if s.len() > 0 {
        lemma_rep_list(s.drop_first());
        assert forall|i: int| 0 <= i < s.len() implies rep_list(s)[i] == rep(s[i]) by {
            if i > 0 {
                assert(rep_list(s)[i] == rep_list(s.drop_first())[i - 1]);
                assert(s.drop_first()[i - 1] == s[i]);
            }
        }
    }
}

pub proof fn lemma_rep_fields(s: Seq<(String, Json)>)
    ensures
        rep_fields(s).len() == s.len(),
        forall|i: int| 0 <= i < s.len() ==> rep_fields(s)[i] == (s[i].0@, rep(s[i].1)),
    decreases s.len(),
{
    if s.len() > 0 {
        lemma_rep_fields(s.drop_first());
        assert forall|i: int|
            0 <= i < s.len() implies rep_fields(s)[i] == (s[i].0@, rep(s[i].1)) by {
            if i > 0 {
                assert(rep_fields(s)[i] == rep_fields(s.drop_first())[i - 1]);
                assert(s.drop_first()[i - 1] == s[i]);
            }
        }
    }
}

/// The value bound to a key in an object's field list: the first binding
/// wins, and a parsed object never holds a key twice.
pub open spec fn obj_get(fs: Seq<(Seq<char>, JsonV)>, k: Seq<char>) -> Option<JsonV>
    decreases fs.len(),
{
    if fs.len() == 0 {
        None
    } else if fs[0].0 == k {
        Some(fs[0].1)
    } else {
        obj_get(fs.drop_first(), k)
    }
}

/// The value under a key, when the tree is an object that has it.
pub open spec fn field(m: JsonV, k: Seq<char>) -> Option<JsonV> {
    match m {
        JsonV::Obj(fs) => obj_get(fs, k),
        _ => None,
    }
}

proof fn lemma_obj_get_at(fs: Seq<(Seq<char>, JsonV)>, k: Seq<char>, i: int)
    requires
        0 <= i < fs.len(),
        fs[i].0 == k,
        forall|j: int| 0 <= j < i ==> fs[j].0 != k,
    ensures
        obj_get(fs, k) == Some(fs[i].1),
    decreases i,
{
    if i > 0 {
        assert(fs[0].0 != k);
        assert(fs.drop_first()[i - 1] == fs[i]);
        assert forall|j: int| 0 <= j < i - 1 implies fs.drop_first()[j].0 != k by {
            assert(fs.drop_first()[j] == fs[j + 1]);
        }
        lemma_obj_get_at(fs.drop_first(), k, i - 1);
    }
}

proof fn lemma_obj_get_absent(fs: Seq<(Seq<char>, JsonV)>, k: Seq<char>)
    requires
        forall|j: int| 0 <= j < fs.len() ==> fs[j].0 != k,
    ensures
        obj_get(fs, k) is None,
    decreases fs.len(),
{
    if fs.len() > 0 {
        assert forall|j: int| 0 <= j < fs.drop_first().len() implies fs.drop_first()[j].0 != k by {
            assert(fs.drop_first()[j] == fs[j + 1]);
        }
        lemma_obj_get_absent(fs.drop_first(), k);
    }
}

impl Json {
    /// The subtree under a key, when this tree is an object that has it.
    pub fn get<'a>(&'a self, key: &str) -> (r: Option<&'a Json>)
        ensures
            r matches Some(x) ==> field(rep(*self), key@) == Some(rep(*x)),
            r is None ==> field(rep(*self), key@) is None,
    {
        match self {
            Json::Obj(fields) => {
                proof {
                    lemma_rep_fields(fields@);
                    assert(rep(*self) == JsonV::Obj(rep_fields(fields@)));
                }
                let mut i: usize = 0;
                while i < fields.len()
                    invariant
                        i <= fields@.len(),
                        rep(*self) == JsonV::Obj(rep_fields(fields@)),
                        forall|j: int| 0 <= j < i ==> fields@[j].0@ != key@,
                    decreases fields@.len() - i,
                {
                    if string_eq_str(&fields[i].0, key) {
                        proof {
                            lemma_rep_fields(fields@);
                            assert(rep_fields(fields@)[i as int].0 == key@);
                            lemma_obj_get_at(rep_fields(fields@), key@, i as int);
                            assert(rep(*self) == JsonV::Obj(rep_fields(fields@)));
                            assert(field(rep(*self), key@) == Some(rep(fields@[i as int].1)));
                        }
                        return Some(&fields[i].1);
                    }
                    i += 1;
                }
                proof {
                    lemma_rep_fields(fields@);
                    lemma_obj_get_absent(rep_fields(fields@), key@);
                }
                None
            },
            _ => None,
        }
    }

    /// A copy of the tree with the same shape.
    pub fn duplicate(&self) -> (r: Json)
        ensures
            rep(r) == rep(*self),
        decreases *self,
    {
        match self {
            Json::Null => Json::Null,
            Json::Bool(b) => Json::Bool(*b),
            Json::Num(s) => Json::Num(s.clone()),
            Json::Str(s) => Json::Str(s.clone()),
            Json::Arr(items) => {
                let mut out: Vec<Json> = Vec::new();
                let mut i: usize = 0;
                while i < items.len()
                    invariant
                        i <= items@.len(),
                        out@.len() == i,
                        *self == Json::Arr(*items),
                        forall|j: int| 0 <= j < i ==> rep(out@[j]) == rep(items@[j]),
                    decreases items@.len() - i,
                {
                    proof {
                        assert(*self == Json::Arr(*items));
                        assert(decreases_to!(*items => items@[i as int]));
                        assert((*self)->Arr_0 == *items);
                        assert(decreases_to!(*self => (*self)->Arr_0));
                        assert(decreases_to!(*self => items@[i as int]));
                    }
                    let d = items[i].duplicate();
                    out.push(d);
                    i += 1;
                }
                proof {
                    lemma_rep_list(out@);
                    lemma_rep_list(items@);
                    assert(rep_list(out@) =~= rep_list(items@));
                }
                Json::Arr(out)
            },
            Json::Obj(fields) => {
                let mut out: Vec<(String, Json)> = Vec::new();
                let mut i: usize = 0;
                while i < fields.len()
                    invariant
                        i <= fields@.len(),
                        out@.len() == i,
                        *self == Json::Obj(*fields),
                        forall|j: int|
                            0 <= j < i ==> out@[j].0@ == fields@[j].0@ && rep(out@[j].1) == rep(
                                fields@[j].1,
                            ),
                    decreases fields@.len() - i,
                {
                    proof {
                        assert(*self == Json::Obj(*fields));
                        assert(decreases_to!(*fields => fields@[i as int]));
                        assert((*self)->Obj_0 == *fields);
                        assert(decreases_to!(*self => (*self)->Obj_0));
                        assert(decreases_to!(*self => fields@[i as int].1));
                    }
                    let k = fields[i].0.clone();
                    let d = fields[i].1.duplicate();
                    out.push((k, d));
                    i += 1;
                }
                proof {
                    lemma_rep_fields(out@);
                    lemma_rep_fields(fields@);
                    assert(rep_fields(out@) =~= rep_fields(fields@));
                }
                Json::Obj(out)
            },
        }
    }
}

/// The texts of a list of trees that are all strings; nothing when any is
/// not a string.
pub open spec fn str_items(s: Seq<JsonV>) -> Option<Seq<Seq<char>>>
    decreases s.len(),
{
    if s.len() == 0 {
        Some(Seq::empty())
    } else {
        match s[0] {
            JsonV::Str(t) => match str_items(s.drop_first()) {
                Some(rest) => Some(seq![t] + rest),
                None => None,
            },
            _ => None,
        }
    }
}

/// Collects the owned texts of a list of string trees.
pub fn strings_of(items: &Vec<Json>) -> (r: Option<Vec<String>>)
    ensures
        r matches Some(v) ==> str_items(rep_list(items@)) == Some(
            v@.map_values(|s: String| s@),
        ),
        r is None ==> str_items(rep_list(items@)) is None,
{
    proof {
        lemma_rep_list(items@);
    }
    let mut out: Vec<String> = Vec::new();
    let mut i: usize = 0;
    while i < items.len()
        invariant
            i <= items@.len(),
            out@.len() == i,
            forall|j: int|
                0 <= j < i ==> ((#[trigger] items@[j]) matches Json::Str(t) && out@[j]@ == t@),
        decreases items@.len() - i,
    {
        match &items[i] {
            Json::Str(s) => out.push(s.clone()),
            _ => {
                proof {
                    lemma_rep_list(items@);
                    lemma_str_items_bad(rep_list(items@), i as int);
                }
                return None;
            },
        }
        i += 1;
    }
    proof {
        lemma_rep_list(items@);
        lemma_str_items_all(rep_list(items@), out@.map_values(|s: String| s@));
    }
    Some(out)
}

proof fn lemma_str_items_bad(s: Seq<JsonV>, i: int)
    requires
        0 <= i < s.len(),
        !(s[i] matches JsonV::Str(_)),
    ensures
        str_items(s) is None,
    decreases i,
{
    if s.len() > 0 {
        if i > 0 {
            match s[0] {
                JsonV::Str(_) => {
                    assert(s.drop_first()[i - 1] == s[i]);
                    lemma_str_items_bad(s.drop_first(), i - 1);
                },
                _ => {},
            }
        }
    }
}

proof fn lemma_str_items_all(s: Seq<JsonV>, out: Seq<Seq<char>>)
    requires
        out.len() == s.len(),
        forall|j: int| 0 <= j < s.len() ==> ((#[trigger] s[j]) matches JsonV::Str(t) && out[j] == t),
    ensures
        str_items(s) == Some(out),
    decreases s.len(),
{
    if s.len() == 0 {
        assert(out =~= Seq::<Seq<char>>::empty());
    } else {
        assert(s[0] matches JsonV::Str(t) && out[0] == t);
        assert forall|j: int|
            0 <= j < s.drop_first().len() implies ((#[trigger] s.drop_first()[j]) matches JsonV::Str(t)
            && out.drop_first()[j] == t) by {
            assert(s.drop_first()[j] == s[j + 1]);
            assert(out.drop_first()[j] == out[j + 1]);
        }
        lemma_str_items_all(s.drop_first(), out.drop_first());
        match s[0] {
            JsonV::Str(t) => {
                assert(out =~= seq![t] + out.drop_first());
            },
            _ => {},
        }
    }
}

} // verus!
