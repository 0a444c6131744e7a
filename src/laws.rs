//! Properties of the two conversions, stated over the mathematical forms that
//! `to_yaml` and `to_json` are specified by.
use vstd::prelude::*;
use crate::convert::{json_entries_of, json_of, jsons_of, yaml_entries_of, yaml_of, yamls_of};
use crate::float_literal::is_float_literal;
use crate::value::{ErrorModel, JsonModel, YamlModel};

verus! {

broadcast use vstd::seq::group_seq_axioms;

/// Every JSON tree converts to YAML, and each sequence item converts on its own:
/// the YAML form of a sequence is the sequence of the YAML forms of its items.
pub proof fn law_yaml_sequence(s: Seq<JsonModel>)
    ensures
        yaml_of(JsonModel::Array(s)) == YamlModel::Array(s.map_values(|x: JsonModel| yaml_of(x))),
    decreases s.len(),
{
    if s.len() > 0 {
        law_yaml_sequence(s.drop_last());
    }
    assert(yamls_of(s) =~= s.map_values(|x: JsonModel| yaml_of(x)));
}

/// A two-item sequence converts to YAML item by item.
pub proof fn law_yaml_pair(a: JsonModel, b: JsonModel)
    ensures
        yaml_of(JsonModel::Array(seq![a, b])) == YamlModel::Array(seq![yaml_of(a), yaml_of(b)]),
{
    law_yaml_sequence(seq![a, b]);
    assert(seq![a, b].map_values(|x: JsonModel| yaml_of(x)) =~= seq![yaml_of(a), yaml_of(b)]);
}

/// A two-item sequence converts to JSON item by item: its items' JSON forms in
/// order, or the fault of the first item that has one.
pub proof fn law_json_pair(a: YamlModel, b: YamlModel)
    ensures
        json_of(YamlModel::Array(seq![a, b])) == match (json_of(a), json_of(b)) {
            (Ok(x), Ok(y)) => Ok(JsonModel::Array(seq![x, y])),
            (Err(e), _) => Err(e),
            (Ok(_), Err(e)) => Err(e),
        },
{
    let s = seq![a, b];
    let s1 = s.drop_last();
    assert(s1 =~= seq![a]);
    assert(s1.drop_last() =~= Seq::<YamlModel>::empty());
    assert(s1.last() == a);
    assert(s.last() == b);
    assert(jsons_of(Seq::<YamlModel>::empty()) == Ok::<Seq<JsonModel>, ErrorModel>(Seq::empty()));
    if let Ok(x) = json_of(a) {
        assert(Seq::<JsonModel>::empty().push(x) =~= seq![x]);
        assert(jsons_of(s1) == Ok::<Seq<JsonModel>, ErrorModel>(seq![x]));
        if let Ok(y) = json_of(b) {
            assert(seq![x].push(y) =~= seq![x, y]);
        }
    } else {
        assert(jsons_of(s1) is Err);
    }
}

/// Null, booleans and signed integers come back unchanged from YAML.
pub proof fn law_scalar_round_trip(j: JsonModel)
    requires
        j is Null || j is Bool || j is I64,
    ensures
        json_of(yaml_of(j)) == Ok::<JsonModel, ErrorModel>(j),
{
}

/// A JSON tree that comes back unchanged from YAML: it holds no unsigned integer,
/// and the text of each float is a floating-point literal.
pub open spec fn round_trips(j: JsonModel) -> bool
    decreases j,
{
    match j {
        JsonModel::U64(_) => false,
        JsonModel::F64(t) => is_float_literal(t),
        JsonModel::Array(s) => all_round_trip(s),
        JsonModel::Object(s) => all_entries_round_trip(s),
        _ => true,
    }
}

pub open spec fn all_round_trip(s: Seq<JsonModel>) -> bool
    decreases s,
{
    s.len() == 0 || (all_round_trip(s.drop_last()) && round_trips(s.last()))
}

pub open spec fn all_entries_round_trip(s: Seq<(Seq<char>, JsonModel)>) -> bool
    decreases s,
{
    s.len() == 0 || (all_entries_round_trip(s.drop_last()) && round_trips(s.last().1))
}

/// Converting to YAML and back gives the same JSON tree, for every tree without
/// unsigned integers whose float texts are floating-point literals.
pub proof fn law_round_trip(j: JsonModel)
    requires
        round_trips(j),
    ensures
        json_of(yaml_of(j)) == Ok::<JsonModel, ErrorModel>(j),
    decreases j,
{
    match j {
        JsonModel::Array(s) => lemma_items_round_trip(s),
        JsonModel::Object(s) => lemma_entries_round_trip(s),
        _ => {},
    }
}

proof fn lemma_items_round_trip(s: Seq<JsonModel>)
    requires
        all_round_trip(s),
    ensures
        jsons_of(yamls_of(s)) == Ok::<Seq<JsonModel>, ErrorModel>(s),
    decreases s,
{
    if s.len() > 0 {
        lemma_items_round_trip(s.drop_last());
        law_round_trip(s.last());
        assert(yamls_of(s).drop_last() =~= yamls_of(s.drop_last()));
        assert(s.drop_last().push(s.last()) =~= s);
    } else {
        assert(s =~= Seq::<JsonModel>::empty());
    }
}

proof fn lemma_entries_round_trip(s: Seq<(Seq<char>, JsonModel)>)
    requires
        all_entries_round_trip(s),
    ensures
        json_entries_of(yaml_entries_of(s)) == Ok::<Seq<(Seq<char>, JsonModel)>, ErrorModel>(s),
    decreases s,
{
    if s.len() > 0 {
        lemma_entries_round_trip(s.drop_last());
        law_round_trip(s.last().1);
        assert(yaml_entries_of(s).drop_last() =~= yaml_entries_of(s.drop_last()));
        assert(s.drop_last().push((s.last().0, s.last().1)) =~= s);
    } else {
        assert(s =~= Seq::<(Seq<char>, JsonModel)>::empty());
    }
}

/// A mapping with a key that is not a string never converts to JSON.
pub proof fn law_mapping_key_rejected(s: Seq<(YamlModel, YamlModel)>, k: int)
    requires
        0 <= k < s.len(),
        !(s[k].0 is String),
    ensures
        json_of(YamlModel::Hash(s)) is Err,
        json_entries_of(s) is Err,
    decreases s.len(),
{
    if k < s.len() - 1 {
        law_mapping_key_rejected(s.drop_last(), k);
    }
}

/// Where every entry before a key that is not a string converts, the conversion
/// fails on that key, and reports it.
pub proof fn law_mapping_key_reported(s: Seq<(YamlModel, YamlModel)>, k: int)
    requires
        0 <= k < s.len(),
        !(s[k].0 is String),
        forall|i: int| 0 <= i < k ==> (#[trigger] s[i]).0 is String && json_of(s[i].1) is Ok,
    ensures
        json_of(YamlModel::Hash(s)) == Err::<JsonModel, ErrorModel>(
            ErrorModel::UnsupportedValue(s[k].0),
        ),
    decreases s.len(),
{
    if k < s.len() - 1 {
        law_mapping_key_reported(s.drop_last(), k);
    } else {
        lemma_entries_convert(s.drop_last());
    }
}

proof fn lemma_entries_convert(s: Seq<(YamlModel, YamlModel)>)
    requires
        forall|i: int| 0 <= i < s.len() ==> (#[trigger] s[i]).0 is String && json_of(s[i].1) is Ok,
    ensures
        json_entries_of(s) is Ok,
    decreases s.len(),
{
    if s.len() > 0 {
        lemma_entries_convert(s.drop_last());
    }
}

/// An alias never converts to JSON, whatever it refers to.
pub proof fn law_alias_rejected(n: usize)
    ensures
        json_of(YamlModel::Alias(n)) == Err::<JsonModel, ErrorModel>(
            ErrorModel::UnsupportedValue(YamlModel::Alias(n)),
        ),
{
}

/// A bad value never converts to JSON.
pub proof fn law_bad_value_rejected()
    ensures
        json_of(YamlModel::BadValue) == Err::<JsonModel, ErrorModel>(ErrorModel::InvalidValue),
{
}

} // verus!
