//! A self-contained JSON value tree.
//!
//! Contract messages are assembled and rewritten as values of [`Json`];
//! serialization to text happens outside the crate. The ghost mirror
//! [`JsonModel`] carries the same tree over `Seq`, and every contract about
//! message assembly is stated over it through [`Json::model`].

use vstd::prelude::*;

verus! {

/// Ghost mirror of [`Json`]: the same tree with strings as character
/// sequences and vectors as sequences.
pub enum JsonModel {
    Null,
    Bool(bool),
    Int(i64),
    Str(Seq<char>),
    Arr(Seq<JsonModel>),
    Obj(Seq<(Seq<char>, JsonModel)>),
}

/// A JSON value: the payload shape of every contract message.
///
/// Numbers are carried as signed 64-bit integers, which covers the message
/// fields the engine itself ever produces or rewrites; object member order
/// is preserved, as the rewriting pass never reorders members.
#[derive(Debug, PartialEq)]
pub enum Json {
    Null,
    Bool(bool),
    Int(i64),
    Str(String),
    Array(Vec<Json>),
    Object(Vec<(String, Json)>),
}

/// The models of a sequence of JSON values, element by element.
pub open spec fn json_seq_model(items: Seq<Json>) -> Seq<JsonModel>
    decreases items,
{
    if items.len() == 0 {
        Seq::empty()
    } else {
        seq![items[0].model()] + json_seq_model(items.drop_first())
    }
}

/// The models of a sequence of JSON object members, element by element.
pub open spec fn json_obj_model(fields: Seq<(String, Json)>) -> Seq<(Seq<char>, JsonModel)>
    decreases fields,
{
    if fields.len() == 0 {
        Seq::empty()
    } else {
        seq![(fields[0].0@, fields[0].1.model())] + json_obj_model(fields.drop_first())
    }
}

impl Json {
    /// The ghost tree this value denotes.
    pub open spec fn model(self) -> JsonModel
        decreases self,
    {
        match self {
            Json::Null => JsonModel::Null,
            Json::Bool(b) => JsonModel::Bool(b),
            Json::Int(i) => JsonModel::Int(i),
            Json::Str(s) => JsonModel::Str(s@),
            Json::Array(items) => JsonModel::Arr(json_seq_model(items@)),
            Json::Object(fields) => JsonModel::Obj(json_obj_model(fields@)),
        }
    }
}

impl DeepView for Json {
    type V = JsonModel;

    open spec fn deep_view(&self) -> JsonModel {
        self.model()
    }
}

/// `json_seq_model` agrees index-wise with the element models.
pub proof fn lemma_json_seq_model(items: Seq<Json>)
    ensures
        json_seq_model(items).len() == items.len(),
        forall|i: int|
            0 <= i < items.len() ==> #[trigger] json_seq_model(items)[i] == items[i].model(),
    decreases items,
{
    if items.len() > 0 {
        lemma_json_seq_model(items.drop_first());
    }
}

impl Clone for Json {
    /// A deep copy denoting the same tree.
    #[verifier::loop_isolation(false)]
    fn clone(&self) -> (res: Json)
        ensures
            res.deep_view() == self.deep_view(),
        decreases self,
    {
        match self {
            Json::Null => Json::Null,
            Json::Bool(b) => Json::Bool(*b),
            Json::Int(i) => Json::Int(*i),
            Json::Str(s) => Json::Str(s.clone()),
            Json::Array(items) => {
                let ghost ms: Seq<JsonModel> = json_seq_model(items@);
                proof {
                    lemma_json_seq_model(items@);
                }
                let mut out: Vec<Json> = Vec::new();
                let mut idx: usize = 0;
                while idx < items.len()
                    invariant
                        0 <= idx <= items@.len(),
                        out@.len() == idx,
                        forall|k: int|
                            0 <= k < idx ==> (#[trigger] out@[k]).model() == items@[k].model(),
                    decreases items@.len() - idx,
                {
                    proof {
                        assert(decreases_to!(*self => self->Array_0));
                        assert(decreases_to!(self->Array_0 => self->Array_0@));
                        assert(decreases_to!(self->Array_0@ => self->Array_0@[idx as int]));
                        assert(self->Array_0@[idx as int] == items@[idx as int]);
                    }
                    let v = items[idx].clone();
                    out.push(v);
                    idx += 1;
                }
                proof {
                    lemma_json_seq_model(out@);
                    assert(json_seq_model(out@) =~= ms);
                }
                Json::Array(out)
            },
            Json::Object(fields) => {
                let ghost ms: Seq<(Seq<char>, JsonModel)> = json_obj_model(fields@);
                proof {
                    lemma_json_obj_model(fields@);
                }
                let mut out: Vec<(String, Json)> = Vec::new();
                let mut idx: usize = 0;
                while idx < fields.len()
                    invariant
                        0 <= idx <= fields@.len(),
                        out@.len() == idx,
                        forall|k: int|
                            0 <= k < idx ==> (#[trigger] out@[k]).0@ == fields@[k].0@ && out@[k].1.model()
                                == fields@[k].1.model(),
                    decreases fields@.len() - idx,
                {
                    proof {
                        assert(decreases_to!(*self => self->Object_0));
                        assert(decreases_to!(self->Object_0 => self->Object_0@));
                        assert(decreases_to!(self->Object_0@ => self->Object_0@[idx as int]));
                        assert(decreases_to!(self->Object_0@[idx as int] => self->Object_0@[idx as int].1));
                        assert(self->Object_0@[idx as int].1 == fields@[idx as int].1);
                    }
                    let v = fields[idx].1.clone();
                    let k = fields[idx].0.clone();
                    out.push((k, v));
                    idx += 1;
                }
                proof {
                    lemma_json_obj_model(out@);
                    assert(json_obj_model(out@) =~= ms);
                }
                Json::Object(out)
            },
        }
    }
}

/// `json_obj_model` agrees index-wise with the member keys and models.
pub proof fn lemma_json_obj_model(fields: Seq<(String, Json)>)
    ensures
        json_obj_model(fields).len() == fields.len(),
        forall|i: int|
            0 <= i < fields.len() ==> #[trigger] json_obj_model(fields)[i] == (
                fields[i].0@,
                fields[i].1.model(),
            ),
    decreases fields,
{
    if fields.len() > 0 {
        lemma_json_obj_model(fields.drop_first());
    }
}

} // verus!
