//! Cross-contract address substitution.
//!
//! Before any message is serialized, its JSON tree is walked and every
//! string of the shape `<anything>&<name>`, where `<name>` is a contract
//! registered in the active environment, is replaced by that contract's
//! on-chain address. The split is on the first `&` of the string, and the
//! whole string is replaced, not just the reference. A referenced contract
//! without an address fails the walk with `AddrNotFound`.

use vstd::prelude::*;

use crate::config::{find_contract, find_contract_from, ContractInfo, ContractInfoV};
use crate::error::{DeployError, DeployErrorV};
use crate::json::{json_obj_model, json_seq_model, lemma_json_obj_model, lemma_json_seq_model,
    Json, JsonModel};

verus! {

/// Position of the first `&` at or after `i`.
pub open spec fn first_amp_from(s: Seq<char>, i: int) -> Option<int>
    decreases s.len() - i,
    when 0 <= i <= s.len()
{
    if i >= s.len() {
        Option::None
    } else if s[i] == '&' {
        Option::Some(i)
    } else {
        first_amp_from(s, i + 1)
    }
}

/// Position of the first `&` in `s`, if any.
pub open spec fn first_amp(s: Seq<char>) -> Option<int> {
    first_amp_from(s, 0)
}

/// The registry index a string refers to: everything after the first `&`
/// must name a registered contract; a string without `&`, or whose suffix
/// names no contract, refers to nothing.
pub open spec fn subst_target(s: Seq<char>, cs: Seq<ContractInfoV>) -> Option<int> {
    match first_amp(s) {
        Option::None => Option::None,
        Option::Some(p) => find_contract(cs, s.subrange(p + 1, s.len() as int)),
    }
}

/// A string survives substitution unless it refers to a contract that has
/// no address yet.
pub open spec fn str_subst_ok(s: Seq<char>, cs: Seq<ContractInfoV>) -> bool {
    match subst_target(s, cs) {
        Option::None => true,
        Option::Some(j) => cs[j].addr is Some,
    }
}

/// What a string becomes: the referenced contract's address, or itself.
pub open spec fn str_subst(s: Seq<char>, cs: Seq<ContractInfoV>) -> Seq<char> {
    match subst_target(s, cs) {
        Option::None => s,
        Option::Some(j) => match cs[j].addr {
            Option::Some(a) => a,
            Option::None => s,
        },
    }
}

/// The name substitution fails over, when it does.
pub open spec fn str_subst_missing(s: Seq<char>, cs: Seq<ContractInfoV>) -> Seq<char> {
    match subst_target(s, cs) {
        Option::Some(j) => cs[j].name,
        Option::None => Seq::empty(),
    }
}

/// Substitution succeeds on the whole tree.
pub open spec fn subst_ok(m: JsonModel, cs: Seq<ContractInfoV>) -> bool
    decreases m,
{
    match m {
        JsonModel::Null => true,
        JsonModel::Bool(_) => true,
        JsonModel::Int(_) => true,
        JsonModel::Str(s) => str_subst_ok(s, cs),
        JsonModel::Arr(items) => subst_ok_arr(items, cs),
        JsonModel::Obj(fields) => subst_ok_obj(fields, cs),
    }
}

/// Substitution succeeds on every element.
pub open spec fn subst_ok_arr(items: Seq<JsonModel>, cs: Seq<ContractInfoV>) -> bool
    decreases items,
{
    if items.len() == 0 {
        true
    } else {
        subst_ok(items[0], cs) && subst_ok_arr(items.drop_first(), cs)
    }
}

/// Substitution succeeds on every member value.
pub open spec fn subst_ok_obj(fields: Seq<(Seq<char>, JsonModel)>, cs: Seq<ContractInfoV>) -> bool
    decreases fields,
{
    if fields.len() == 0 {
        true
    } else {
        subst_ok(fields[0].1, cs) && subst_ok_obj(fields.drop_first(), cs)
    }
}

/// The substituted tree; meaningful where `subst_ok` holds.
pub open spec fn subst(m: JsonModel, cs: Seq<ContractInfoV>) -> JsonModel
    decreases m,
{
    match m {
        JsonModel::Null => m,
        JsonModel::Bool(_) => m,
        JsonModel::Int(_) => m,
        JsonModel::Str(s) => JsonModel::Str(str_subst(s, cs)),
        JsonModel::Arr(items) => JsonModel::Arr(subst_arr(items, cs)),
        JsonModel::Obj(fields) => JsonModel::Obj(subst_obj(fields, cs)),
    }
}

/// Element-wise substitution.
pub open spec fn subst_arr(items: Seq<JsonModel>, cs: Seq<ContractInfoV>) -> Seq<JsonModel>
    decreases items,
{
    if items.len() == 0 {
        Seq::empty()
    } else {
        seq![subst(items[0], cs)] + subst_arr(items.drop_first(), cs)
    }
}

/// Member-wise substitution; keys are left alone.
pub open spec fn subst_obj(fields: Seq<(Seq<char>, JsonModel)>, cs: Seq<ContractInfoV>) -> Seq<
    (Seq<char>, JsonModel),
>
    decreases fields,
{
    if fields.len() == 0 {
        Seq::empty()
    } else {
        seq![(fields[0].0, subst(fields[0].1, cs))] + subst_obj(fields.drop_first(), cs)
    }
}

/// The first name, in depth-first member order, whose contract has no
/// address; meaningful where `subst_ok` fails.
pub open spec fn subst_missing(m: JsonModel, cs: Seq<ContractInfoV>) -> Seq<char>
    decreases m,
{
    match m {
        JsonModel::Null => Seq::empty(),
        JsonModel::Bool(_) => Seq::empty(),
        JsonModel::Int(_) => Seq::empty(),
        JsonModel::Str(s) => str_subst_missing(s, cs),
        JsonModel::Arr(items) => subst_missing_arr(items, cs),
        JsonModel::Obj(fields) => subst_missing_obj(fields, cs),
    }
}

/// The failing name of the first failing element.
pub open spec fn subst_missing_arr(items: Seq<JsonModel>, cs: Seq<ContractInfoV>) -> Seq<char>
    decreases items,
{
    if items.len() == 0 {
        Seq::empty()
    } else if !subst_ok(items[0], cs) {
        subst_missing(items[0], cs)
    } else {
        subst_missing_arr(items.drop_first(), cs)
    }
}

/// The failing name of the first failing member value.
pub open spec fn subst_missing_obj(fields: Seq<(Seq<char>, JsonModel)>, cs: Seq<ContractInfoV>) -> Seq<char>
    decreases fields,
{
    if fields.len() == 0 {
        Seq::empty()
    } else if !subst_ok(fields[0].1, cs) {
        subst_missing(fields[0].1, cs)
    } else {
        subst_missing_obj(fields.drop_first(), cs)
    }
}

/// `subst_ok_arr` agrees with the element-wise statement.
pub proof fn lemma_subst_ok_arr(items: Seq<JsonModel>, cs: Seq<ContractInfoV>)
    ensures
        subst_ok_arr(items, cs) <==> (forall|i: int|
            0 <= i < items.len() ==> subst_ok(#[trigger] items[i], cs)),
    decreases items,
{
    if items.len() > 0 {
        lemma_subst_ok_arr(items.drop_first(), cs);
        assert(forall|i: int|
            1 <= i < items.len() ==> #[trigger] items[i] == items.drop_first()[i - 1]);
    }
}

/// `subst_ok_obj` agrees with the member-wise statement.
pub proof fn lemma_subst_ok_obj(fields: Seq<(Seq<char>, JsonModel)>, cs: Seq<ContractInfoV>)
    ensures
        subst_ok_obj(fields, cs) <==> (forall|i: int|
            0 <= i < fields.len() ==> subst_ok((#[trigger] fields[i]).1, cs)),
    decreases fields,
{
    if fields.len() > 0 {
        lemma_subst_ok_obj(fields.drop_first(), cs);
        assert(forall|i: int|
            1 <= i < fields.len() ==> #[trigger] fields[i] == fields.drop_first()[i - 1]);
    }
}

/// `subst_arr` keeps length and agrees with the element-wise statement.
pub proof fn lemma_subst_arr(items: Seq<JsonModel>, cs: Seq<ContractInfoV>)
    ensures
        subst_arr(items, cs).len() == items.len(),
        forall|i: int|
            0 <= i < items.len() ==> #[trigger] subst_arr(items, cs)[i] == subst(items[i], cs),
    decreases items,
{
    if items.len() > 0 {
        lemma_subst_arr(items.drop_first(), cs);
    }
}

/// `subst_obj` keeps length and agrees with the member-wise statement.
pub proof fn lemma_subst_obj(fields: Seq<(Seq<char>, JsonModel)>, cs: Seq<ContractInfoV>)
    ensures
        subst_obj(fields, cs).len() == fields.len(),
        forall|i: int|
            0 <= i < fields.len() ==> #[trigger] subst_obj(fields, cs)[i] == (
                fields[i].0,
                subst(fields[i].1, cs),
            ),
    decreases fields,
{
    if fields.len() > 0 {
        lemma_subst_obj(fields.drop_first(), cs);
    }
}

/// When a prefix substitutes cleanly and element `i` does not, the first
/// failing name of the whole array is that of element `i`.
pub proof fn lemma_subst_missing_arr_at(items: Seq<JsonModel>, cs: Seq<ContractInfoV>, i: int)
    requires
        0 <= i < items.len(),
        forall|k: int| 0 <= k < i ==> subst_ok(#[trigger] items[k], cs),
        !subst_ok(items[i], cs),
    ensures
        subst_missing_arr(items, cs) == subst_missing(items[i], cs),
    decreases items,
{
    if i > 0 {
        assert(forall|k: int|
            0 <= k < i - 1 ==> #[trigger] items.drop_first()[k] == items[k + 1]);
        lemma_subst_missing_arr_at(items.drop_first(), cs, i - 1);
    }
}

/// The member-wise analogue of `lemma_subst_missing_arr_at`.
pub proof fn lemma_subst_missing_obj_at(
    fields: Seq<(Seq<char>, JsonModel)>,
    cs: Seq<ContractInfoV>,
    i: int,
)
    requires
        0 <= i < fields.len(),
        forall|k: int| 0 <= k < i ==> subst_ok((#[trigger] fields[k]).1, cs),
        !subst_ok(fields[i].1, cs),
    ensures
        subst_missing_obj(fields, cs) == subst_missing(fields[i].1, cs),
    decreases fields,
{
    if i > 0 {
        assert(forall|k: int|
            0 <= k < i - 1 ==> #[trigger] fields.drop_first()[k] == fields[k + 1]);
        lemma_subst_missing_obj_at(fields.drop_first(), cs, i - 1);
    }
}

/// Position of the first `&` in `s`, by a linear scan.
fn find_amp(s: &str) -> (r: Option<usize>)
    ensures
        match r {
            Option::Some(p) => first_amp(s@) == Option::Some(p as int) && p < s@.len(),
            Option::None => first_amp(s@) is None,
        },
{
    let n: usize = s.unicode_len();
    let mut i: usize = 0;
    while i < n
        invariant
            0 <= i <= n,
            n == s@.len(),
            first_amp(s@) == first_amp_from(s@, i as int),
        decreases n - i,
    {
        let c: char = s.get_char(i);
        if c == '&' {
            return Option::Some(i);
        }
        i += 1;
    }
    Option::None
}

/// First registry index named `name`, by a linear scan.
fn find_contract_index(contracts: &Vec<ContractInfo>, name: &String) -> (r: Option<usize>)
    ensures
        match r {
            Option::Some(j) => find_contract(contracts.deep_view(), name@) == Option::Some(
                j as int,
            ) && j < contracts@.len(),
            Option::None => find_contract(contracts.deep_view(), name@) is None,
        },
{
    let ghost cs: Seq<ContractInfoV> = contracts.deep_view();
    let mut j: usize = 0;
    while j < contracts.len()
        invariant
            0 <= j <= contracts@.len(),
            cs == contracts.deep_view(),
            cs.len() == contracts@.len(),
            find_contract(cs, name@) == find_contract_from(cs, name@, j as int),
        decreases contracts@.len() - j,
    {
        if contracts[j].name == *name {
            return Option::Some(j);
        }
        j += 1;
    }
    Option::None
}

/// Substitute one string: resolve the `&`-reference if it names a
/// registered contract, keep the string otherwise.
fn substitute_string(s: &String, contracts: &Vec<ContractInfo>) -> (res: Result<
    String,
    DeployError,
>)
    ensures
        res is Ok <==> str_subst_ok(s@, contracts.deep_view()),
        res matches Ok(t) ==> t@ == str_subst(s@, contracts.deep_view()),
        res matches Err(e) ==> e.deep_view() == (DeployErrorV::AddrNotFound {
            name: str_subst_missing(s@, contracts.deep_view()),
        }),
{
    match find_amp(s.as_str()) {
        Option::None => Ok(s.clone()),
        Option::Some(p) => {
            let n: usize = s.as_str().unicode_len();
            let tail: &str = s.as_str().substring_char(p + 1, n);
            let tail_owned: String = tail.to_owned();
            match find_contract_index(contracts, &tail_owned) {
                Option::None => Ok(s.clone()),
                Option::Some(j) => match &contracts[j].addr {
                    Option::Some(a) => Ok(a.clone()),
                    Option::None => Err(
                        DeployError::AddrNotFound { name: contracts[j].name.clone() },
                    ),
                },
            }
        },
    }
}

/// Walk a message and resolve every `&`-reference against the registry.
///
/// Returns the rewritten tree, or `AddrNotFound` naming the first
/// referenced contract (in depth-first member order) that has no address.
#[verifier::loop_isolation(false)]
pub fn replace_strings(value: &Json, contracts: &Vec<ContractInfo>) -> (res: Result<
    Json,
    DeployError,
>)
    ensures
        res is Ok <==> subst_ok(value.deep_view(), contracts.deep_view()),
        res matches Ok(v) ==> v.deep_view() == subst(value.deep_view(), contracts.deep_view()),
        res matches Err(e) ==> e.deep_view() == (DeployErrorV::AddrNotFound {
            name: subst_missing(value.deep_view(), contracts.deep_view()),
        }),
    decreases value,
{
    let ghost cs: Seq<ContractInfoV> = contracts.deep_view();
    match value {
        Json::Null => Ok(Json::Null),
        Json::Bool(b) => Ok(Json::Bool(*b)),
        Json::Int(i) => Ok(Json::Int(*i)),
        Json::Str(s) => match substitute_string(s, contracts) {
            Ok(t) => Ok(Json::Str(t)),
            Err(e) => Err(e),
        },
        Json::Array(items) => {
            let ghost ms: Seq<JsonModel> = json_seq_model(items@);
            proof {
                lemma_json_seq_model(items@);
            }
            let mut out: Vec<Json> = Vec::new();
            let mut idx: usize = 0;
            while idx < items.len()
                invariant
                    0 <= idx <= items@.len(),
                    ms == json_seq_model(items@),
                    ms.len() == items@.len(),
                    forall|k: int| 0 <= k < items@.len() ==> #[trigger] ms[k] == items@[k].model(),
                    cs == contracts.deep_view(),
                    out@.len() == idx,
                    forall|k: int| 0 <= k < idx ==> subst_ok(#[trigger] ms[k], cs),
                    forall|k: int|
                        0 <= k < idx ==> (#[trigger] out@[k]).model() == subst(ms[k], cs),
                decreases items@.len() - idx,
            {
                proof {
                    assert(decreases_to!(*value => value->Array_0));
                    assert(decreases_to!(value->Array_0 => value->Array_0@));
                    assert(decreases_to!(value->Array_0@ => value->Array_0@[idx as int]));
                    assert(value->Array_0@[idx as int] == items@[idx as int]);
                }
                match replace_strings(&items[idx], contracts) {
                    Ok(v) => out.push(v),
                    Err(e) => {
                        proof {
                            lemma_subst_missing_arr_at(ms, cs, idx as int);
                            lemma_subst_ok_arr(ms, cs);
                            assert(value.deep_view() == JsonModel::Arr(ms));
                            assert(!subst_ok(ms[idx as int], cs));
                            assert(!subst_ok_arr(ms, cs));
                            assert(!subst_ok(JsonModel::Arr(ms), cs));
                            assert(subst_missing(JsonModel::Arr(ms), cs) == subst_missing_arr(
                                ms,
                                cs,
                            ));
                        }
                        return Err(e);
                    },
                }
                idx += 1;
            }
            proof {
                lemma_subst_ok_arr(ms, cs);
                lemma_subst_arr(ms, cs);
                lemma_json_seq_model(out@);
                assert(json_seq_model(out@) =~= subst_arr(ms, cs));
            }
            Ok(Json::Array(out))
        },
        Json::Object(fields) => {
            let ghost ms: Seq<(Seq<char>, JsonModel)> = json_obj_model(fields@);
            proof {
                lemma_json_obj_model(fields@);
            }
            let mut out: Vec<(String, Json)> = Vec::new();
            let mut idx: usize = 0;
            while idx < fields.len()
                invariant
                    0 <= idx <= fields@.len(),
                    ms == json_obj_model(fields@),
                    ms.len() == fields@.len(),
                    forall|k: int|
                        0 <= k < fields@.len() ==> #[trigger] ms[k] == (
                            fields@[k].0@,
                            fields@[k].1.model(),
                        ),
                    cs == contracts.deep_view(),
                    out@.len() == idx,
                    forall|k: int| 0 <= k < idx ==> subst_ok((#[trigger] ms[k]).1, cs),
                    forall|k: int|
                        0 <= k < idx ==> (#[trigger] out@[k]).0@ == ms[k].0 && out@[k].1.model()
                            == subst(ms[k].1, cs),
                decreases fields@.len() - idx,
            {
                proof {
                    assert(decreases_to!(*value => value->Object_0));
                    assert(decreases_to!(value->Object_0 => value->Object_0@));
                    assert(decreases_to!(value->Object_0@ => value->Object_0@[idx as int]));
                    assert(decreases_to!(value->Object_0@[idx as int] => value->Object_0@[idx as int].1));
                    assert(value->Object_0@[idx as int].1 == fields@[idx as int].1);
                }
                match replace_strings(&fields[idx].1, contracts) {
                    Ok(v) => out.push((fields[idx].0.clone(), v)),
                    Err(e) => {
                        proof {
                            lemma_subst_missing_obj_at(ms, cs, idx as int);
                            lemma_subst_ok_obj(ms, cs);
                            assert(value.deep_view() == JsonModel::Obj(ms));
                            assert(!subst_ok(ms[idx as int].1, cs));
                            assert(!subst_ok_obj(ms, cs));
                            assert(!subst_ok(JsonModel::Obj(ms), cs));
                            assert(subst_missing(JsonModel::Obj(ms), cs) == subst_missing_obj(
                                ms,
                                cs,
                            ));
                        }
                        return Err(e);
                    },
                }
                idx += 1;
            }
            proof {
                lemma_subst_ok_obj(ms, cs);
                lemma_subst_obj(ms, cs);
                lemma_json_obj_model(out@);
                assert(json_obj_model(out@) =~= subst_obj(ms, cs));
            }
            Ok(Json::Object(out))
        },
    }
}

} // verus!
