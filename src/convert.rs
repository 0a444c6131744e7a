use vstd::prelude::*;
use crate::float_literal::{float_literal, is_float_literal};
use crate::value::{
    copy_yaml, json_entries_wf, json_entry_models, json_model, json_models, json_wf, jsons_wf,
    yaml_entries_wf, yaml_entry_models, yaml_model, yaml_models, yaml_wf, yamls_wf, Error,
    ErrorModel, JsonModel, JsonValue, YamlModel, YamlValue,
};

verus! {

broadcast use vstd::seq::group_seq_axioms, vstd::std_specs::vec::group_vec_axioms;

/// The signed integer with the same 64 bits as `u`.
pub open spec fn wrap_signed(u: u64) -> i64 {
    if u <= 0x7fff_ffff_ffff_ffff {
        u as i64
    } else {
        (u - 0x1_0000_0000_0000_0000) as i64
    }
}

/// The YAML tree that a JSON tree converts to.
pub open spec fn yaml_of(j: JsonModel) -> YamlModel
    decreases j,
{
    match j {
        JsonModel::Null => YamlModel::Null,
        JsonModel::Bool(b) => YamlModel::Boolean(b),
        JsonModel::I64(i) => YamlModel::Integer(i),
        JsonModel::U64(u) => YamlModel::Integer(wrap_signed(u)),
        JsonModel::F64(t) => YamlModel::Real(t),
        JsonModel::String(s) => YamlModel::String(s),
        JsonModel::Array(s) => YamlModel::Array(yamls_of(s)),
        JsonModel::Object(s) => YamlModel::Hash(yaml_entries_of(s)),
    }
}

pub open spec fn yamls_of(s: Seq<JsonModel>) -> Seq<YamlModel>
    decreases s,
{
    if s.len() == 0 {
        Seq::empty()
    } else {
        yamls_of(s.drop_last()).push(yaml_of(s.last()))
    }
}

pub open spec fn yaml_entries_of(s: Seq<(Seq<char>, JsonModel)>) -> Seq<(YamlModel, YamlModel)>
    decreases s,
{
    if s.len() == 0 {
        Seq::empty()
    } else {
        yaml_entries_of(s.drop_last()).push(
            (YamlModel::String(s.last().0), yaml_of(s.last().1)),
        )
    }
}

/// The JSON tree that a YAML tree converts to, or the first fault met in a
/// depth-first walk from left to right.
pub open spec fn json_of(y: YamlModel) -> Result<JsonModel, ErrorModel>
    decreases y,
{
    match y {
        YamlModel::Real(t) => if is_float_literal(t) {
            Ok(JsonModel::F64(t))
        } else {
            Err(ErrorModel::ParseFloat(t))
        },
        YamlModel::Integer(i) => Ok(JsonModel::I64(i)),
        YamlModel::String(s) => Ok(JsonModel::String(s)),
        YamlModel::Boolean(b) => Ok(JsonModel::Bool(b)),
        YamlModel::Array(s) => match jsons_of(s) {
            Ok(v) => Ok(JsonModel::Array(v)),
            Err(e) => Err(e),
        },
        YamlModel::Hash(s) => match json_entries_of(s) {
            Ok(v) => Ok(JsonModel::Object(v)),
            Err(e) => Err(e),
        },
        YamlModel::Alias(_) => Err(ErrorModel::UnsupportedValue(y)),
        YamlModel::Null => Ok(JsonModel::Null),
        YamlModel::BadValue => Err(ErrorModel::InvalidValue),
    }
}

pub open spec fn jsons_of(s: Seq<YamlModel>) -> Result<Seq<JsonModel>, ErrorModel>
    decreases s,
{
    if s.len() == 0 {
        Ok(Seq::empty())
    } else {
        match jsons_of(s.drop_last()) {
            Err(e) => Err(e),
            Ok(p) => match json_of(s.last()) {
                Err(e) => Err(e),
                Ok(x) => Ok(p.push(x)),
            },
        }
    }
}

pub open spec fn json_entries_of(s: Seq<(YamlModel, YamlModel)>) -> Result<
    Seq<(Seq<char>, JsonModel)>,
    ErrorModel,
>
    decreases s,
{
    if s.len() == 0 {
        Ok(Seq::empty())
    } else {
        match json_entries_of(s.drop_last()) {
            Err(e) => Err(e),
            Ok(p) => match s.last().0 {
                YamlModel::String(k) => match json_of(s.last().1) {
                    Err(e) => Err(e),
                    Ok(x) => Ok(p.push((k, x))),
                },
                _ => Err(ErrorModel::UnsupportedValue(s.last().0)),
            },
        }
    }
}

/// The mathematical form of a conversion's outcome.
pub open spec fn json_outcome(r: Result<JsonValue, Error>) -> Result<JsonModel, ErrorModel> {
    match r {
        Ok(j) => Ok(j@),
        Err(e) => Err(e@),
    }
}

/// The entries of the YAML form of an object, one by one.
proof fn lemma_yaml_entries_index(s: Seq<(Seq<char>, JsonModel)>)
    ensures
        yaml_entries_of(s).len() == s.len(),
        forall|i: int|
            0 <= i < s.len() ==> #[trigger] yaml_entries_of(s)[i] == (
                YamlModel::String(s[i].0),
                yaml_of(s[i].1),
            ),
    decreases s.len(),
{
    if s.len() > 0 {
        lemma_yaml_entries_index(s.drop_last());
    }
}

/// The entries of the JSON form of a mapping, one by one.
proof fn lemma_json_entries_index(s: Seq<(YamlModel, YamlModel)>)
    requires
        json_entries_of(s) is Ok,
    ensures
        json_entries_of(s)->Ok_0.len() == s.len(),
        forall|i: int|
            0 <= i < s.len() ==> (#[trigger] s[i]).0 is String && json_of(s[i].1) is Ok
                && json_entries_of(s)->Ok_0[i] == (s[i].0->String_0, json_of(s[i].1)->Ok_0),
    decreases s.len(),
{
    if s.len() > 0 {
        let d = s.drop_last();
        lemma_json_entries_index(d);
        assert forall|i: int| 0 <= i < s.len() implies (#[trigger] s[i]).0 is String && json_of(
            s[i].1,
        ) is Ok && json_entries_of(s)->Ok_0[i] == (s[i].0->String_0, json_of(s[i].1)->Ok_0) by {
            if i < s.len() - 1 {
                assert(s[i] == d[i]);
            }
        }
    }
}

/// Well-formed JSON converts to well-formed YAML.
proof fn lemma_yaml_wf(j: JsonModel)
    requires
        json_wf(j),
    ensures
        yaml_wf(yaml_of(j)),
    decreases j,
{
    match j {
        JsonModel::Array(s) => lemma_yamls_wf(s),
        JsonModel::Object(s) => {
            lemma_yaml_entries_wf(s);
            lemma_yaml_entries_index(s);
            let t = yaml_entries_of(s);
            assert forall|a: int, b: int| 0 <= a < b < t.len() implies (#[trigger] t[a]).0 != (
            #[trigger] t[b]).0 by {
                assert(s[a].0 != s[b].0);
            }
        },
        _ => {},
    }
}

proof fn lemma_yamls_wf(s: Seq<JsonModel>)
    requires
        jsons_wf(s),
    ensures
        yamls_wf(yamls_of(s)),
    decreases s,
{
    if s.len() > 0 {
        lemma_yamls_wf(s.drop_last());
        lemma_yaml_wf(s.last());
        assert(yamls_of(s).drop_last() =~= yamls_of(s.drop_last()));
    }
}

proof fn lemma_yaml_entries_wf(s: Seq<(Seq<char>, JsonModel)>)
    requires
        json_entries_wf(s),
    ensures
        yaml_entries_wf(yaml_entries_of(s)),
    decreases s,
{
    if s.len() > 0 {
        lemma_yaml_entries_wf(s.drop_last());
        lemma_yaml_wf(s.last().1);
        let t = yaml_entries_of(s);
        assert(t.drop_last() =~= yaml_entries_of(s.drop_last()));
        assert(t.last() == (YamlModel::String(s.last().0), yaml_of(s.last().1)));
        assert(yaml_wf(YamlModel::String(s.last().0)));
    }
}

/// Well-formed YAML that converts gives well-formed JSON.
proof fn lemma_json_wf(y: YamlModel)
    requires
        yaml_wf(y),
        json_of(y) is Ok,
    ensures
        json_wf(json_of(y)->Ok_0),
    decreases y,
{
    match y {
        YamlModel::Array(s) => lemma_jsons_wf(s),
        YamlModel::Hash(s) => {
            lemma_json_entries_wf(s);
            lemma_json_entries_index(s);
            let t = json_entries_of(s)->Ok_0;
            assert forall|a: int, b: int| 0 <= a < b < t.len() implies (#[trigger] t[a]).0 != (
            #[trigger] t[b]).0 by {
                assert(s[a].0 != s[b].0);
                assert(s[a].0 is String && s[b].0 is String);
            }
        },
        _ => {},
    }
}

proof fn lemma_jsons_wf(s: Seq<YamlModel>)
    requires
        yamls_wf(s),
        jsons_of(s) is Ok,
    ensures
        jsons_wf(jsons_of(s)->Ok_0),
    decreases s,
{
    if s.len() > 0 {
        lemma_jsons_wf(s.drop_last());
        lemma_json_wf(s.last());
        assert(jsons_of(s)->Ok_0.drop_last() =~= jsons_of(s.drop_last())->Ok_0);
    }
}

proof fn lemma_json_entries_wf(s: Seq<(YamlModel, YamlModel)>)
    requires
        yaml_entries_wf(s),
        json_entries_of(s) is Ok,
    ensures
        json_entries_wf(json_entries_of(s)->Ok_0),
    decreases s,
{
    if s.len() > 0 {
        lemma_json_entries_wf(s.drop_last());
        lemma_json_wf(s.last().1);
        assert(json_entries_of(s)->Ok_0.drop_last() =~= json_entries_of(s.drop_last())->Ok_0);
    }
}

fn signed_bits(u: u64) -> (r: i64)
    ensures
        r == wrap_signed(u),
{
    if u <= 0x7fff_ffff_ffff_ffff {
        u as i64
    } else {
        ((u - 0x8000_0000_0000_0000) as i64) + i64::MIN
    }
}

/// Converts a JSON tree into a YAML tree; a float keeps its decimal text and an
/// unsigned integer keeps its 64 bits.
pub fn to_yaml(json: &JsonValue) -> (r: Result<YamlValue, Error>)
    ensures
        r matches Ok(y) && y@ == yaml_of(json@) && (json_wf(json@) ==> yaml_wf(y@)),
    decreases json,
{
    proof {
        if json_wf(json@) {
            lemma_yaml_wf(json@);
        }
    }
    match json {
        JsonValue::Null => Ok(YamlValue::Null),
        JsonValue::Bool(b) => Ok(YamlValue::Boolean(*b)),
        JsonValue::I64(i) => Ok(YamlValue::Integer(*i)),
        JsonValue::U64(u) => Ok(YamlValue::Integer(signed_bits(*u))),
        JsonValue::F64(t) => Ok(YamlValue::Real(t.clone())),
        JsonValue::String(s) => Ok(YamlValue::String(s.clone())),
        JsonValue::Array(values) => {
            let mut out: Vec<YamlValue> = Vec::new();
            let mut i: usize = 0;
            while i < values.len()
                invariant
                    i <= values.len(),
                    *json == JsonValue::Array(*values),
                    out@.len() == i,
                    yaml_models(out@) == yamls_of(json_models(values@.subrange(0, i as int))),
                decreases values.len() - i,
            {
                proof {
                    assert(decreases_to!(*values => values[i as int]));
                    assert(decreases_to!(*json => json->Array_0));
                }
                let y = match to_yaml(&values[i]) {
                    Ok(y) => y,
                    Err(e) => return Err(e),
                };
                proof {
                    assert(values@.subrange(0, i + 1).drop_last() =~= values@.subrange(0, i as int));
                    let m = json_models(values@.subrange(0, i + 1));
                    assert(m.drop_last() =~= json_models(values@.subrange(0, i as int)));
                }
                let ghost prev = out@;
                out.push(y);
                proof {
                    assert(out@.drop_last() =~= prev);
                }
                i = i + 1;
            }
            proof {
                assert(values@.subrange(0, values.len() as int) =~= values@);
            }
            Ok(YamlValue::Array(out))
        },
        JsonValue::Object(entries) => {
            let mut out: Vec<(YamlValue, YamlValue)> = Vec::new();
            let mut i: usize = 0;
            while i < entries.len()
                invariant
                    i <= entries.len(),
                    *json == JsonValue::Object(*entries),
                    out@.len() == i,
                    yaml_entry_models(out@) == yaml_entries_of(
                        json_entry_models(entries@.subrange(0, i as int)),
                    ),
                decreases entries.len() - i,
            {
                proof {
                    assert(decreases_to!(*entries => entries[i as int]));
                    assert(decreases_to!(*json => json->Object_0));
                }
                let y = match to_yaml(&entries[i].1) {
                    Ok(y) => y,
                    Err(e) => return Err(e),
                };
                proof {
                    assert(entries@.subrange(0, i + 1).drop_last() =~= entries@.subrange(
                        0,
                        i as int,
                    ));
                    let m = json_entry_models(entries@.subrange(0, i + 1));
                    assert(m.drop_last() =~= json_entry_models(entries@.subrange(0, i as int)));
                    assert(m.last() == (entries@[i as int].0@, json_model(entries@[i as int].1)));
                }
                let key = YamlValue::String(entries[i].0.clone());
                let ghost prev = out@;
                out.push((key, y));
                proof {
                    assert(out@.drop_last() =~= prev);
                    assert(out@.last() == (key, y));
                    assert(yaml_entry_models(out@) == yaml_entry_models(prev).push(
                        (yaml_model(key), yaml_model(y)),
                    ));
                    let m = json_entry_models(entries@.subrange(0, i + 1));
                    assert(yaml_entries_of(m) == yaml_entries_of(m.drop_last()).push(
                        (YamlModel::String(m.last().0), yaml_of(m.last().1)),
                    ));
                }
                i = i + 1;
            }
            proof {
                assert(entries@.subrange(0, entries.len() as int) =~= entries@);
            }
            Ok(YamlValue::Hash(out))
        },
    }
}

/// A fault met in the first `k` items of `s` is the fault of all of `s`.
proof fn lemma_items_fault_prefix(s: Seq<YamlValue>, k: int)
    requires
        0 <= k <= s.len(),
        jsons_of(yaml_models(s.subrange(0, k))) is Err,
    ensures
        jsons_of(yaml_models(s)) == jsons_of(yaml_models(s.subrange(0, k))),
    decreases s.len(),
{
    if k == s.len() {
        assert(s.subrange(0, k) =~= s);
    } else {
        let d = s.drop_last();
        assert(d.subrange(0, k) =~= s.subrange(0, k));
        lemma_items_fault_prefix(d, k);
        assert(yaml_models(s).drop_last() =~= yaml_models(d));
    }
}

/// A fault met in the first `k` entries of `s` is the fault of all of `s`.
proof fn lemma_entries_fault_prefix(s: Seq<(YamlValue, YamlValue)>, k: int)
    requires
        0 <= k <= s.len(),
        json_entries_of(yaml_entry_models(s.subrange(0, k))) is Err,
    ensures
        json_entries_of(yaml_entry_models(s)) == json_entries_of(
            yaml_entry_models(s.subrange(0, k)),
        ),
    decreases s.len(),
{
    if k == s.len() {
        assert(s.subrange(0, k) =~= s);
    } else {
        let d = s.drop_last();
        assert(d.subrange(0, k) =~= s.subrange(0, k));
        lemma_entries_fault_prefix(d, k);
        assert(yaml_entry_models(s).drop_last() =~= yaml_entry_models(d));
    }
}

/// Converts a YAML tree into a JSON tree. It fails on the first node met, depth
/// first and from left to right, that JSON cannot hold: a float whose text is not a
/// floating-point literal, a mapping key that is not a string, an alias, or a bad
/// value.
pub fn to_json(yaml: &YamlValue) -> (r: Result<JsonValue, Error>)
    ensures
        json_outcome(r) == json_of(yaml@),
        yaml_wf(yaml@) ==> (r matches Ok(j) ==> json_wf(j@)),
    decreases yaml,
{
    proof {
        if yaml_wf(yaml@) && json_of(yaml@) is Ok {
            lemma_json_wf(yaml@);
        }
    }
    match yaml {
        YamlValue::Real(t) => {
            if float_literal(t.as_str()) {
                Ok(JsonValue::F64(t.clone()))
            } else {
                Err(Error::ParseFloat(t.clone()))
            }
        },
        YamlValue::Integer(i) => Ok(JsonValue::I64(*i)),
        YamlValue::String(s) => Ok(JsonValue::String(s.clone())),
        YamlValue::Boolean(b) => Ok(JsonValue::Bool(*b)),
        YamlValue::Array(values) => {
            let mut out: Vec<JsonValue> = Vec::new();
            let mut i: usize = 0;
            while i < values.len()
                invariant
                    i <= values.len(),
                    *yaml == YamlValue::Array(*values),
                    out@.len() == i,
                    jsons_of(yaml_models(values@.subrange(0, i as int))) == Ok::<
                        Seq<JsonModel>,
                        ErrorModel,
                    >(json_models(out@)),
                decreases values.len() - i,
            {
                proof {
                    assert(decreases_to!(*values => values[i as int]));
                    assert(decreases_to!(*yaml => yaml->Array_0));
                    assert(values@.subrange(0, i + 1).drop_last() =~= values@.subrange(
                        0,
                        i as int,
                    ));
                    let m = yaml_models(values@.subrange(0, i + 1));
                    assert(m.drop_last() =~= yaml_models(values@.subrange(0, i as int)));
                }
                let j = match to_json(&values[i]) {
                    Ok(j) => j,
                    Err(e) => {
                        proof {
                            lemma_items_fault_prefix(values@, i + 1);
                        }
                        return Err(e);
                    },
                };
                let ghost prev = out@;
                out.push(j);
                proof {
                    assert(out@.drop_last() =~= prev);
                }
                i = i + 1;
            }
            proof {
                assert(values@.subrange(0, values.len() as int) =~= values@);
            }
            Ok(JsonValue::Array(out))
        },
        YamlValue::Hash(entries) => {
            let mut out: Vec<(String, JsonValue)> = Vec::new();
            let mut i: usize = 0;
            while i < entries.len()
                invariant
                    i <= entries.len(),
                    *yaml == YamlValue::Hash(*entries),
                    out@.len() == i,
                    json_entries_of(yaml_entry_models(entries@.subrange(0, i as int))) == Ok::<
                        Seq<(Seq<char>, JsonModel)>,
                        ErrorModel,
                    >(json_entry_models(out@)),
                decreases entries.len() - i,
            {
                proof {
                    assert(decreases_to!(*entries => entries[i as int]));
                    assert(decreases_to!(*yaml => yaml->Hash_0));
                    assert(entries@.subrange(0, i + 1).drop_last() =~= entries@.subrange(
                        0,
                        i as int,
                    ));
                    let m = yaml_entry_models(entries@.subrange(0, i + 1));
                    assert(m.drop_last() =~= yaml_entry_models(entries@.subrange(0, i as int)));
                    assert(m.last() == (yaml_model(entries@[i as int].0), yaml_model(
                        entries@[i as int].1,
                    )));
                }
                let key = match &entries[i].0 {
                    YamlValue::String(k) => k.clone(),
                    other => {
                        proof {
                            lemma_entries_fault_prefix(entries@, i + 1);
                        }
                        return Err(Error::UnsupportedValue(copy_yaml(other)));
                    },
                };
                let j = match to_json(&entries[i].1) {
                    Ok(j) => j,
                    Err(e) => {
                        proof {
                            lemma_entries_fault_prefix(entries@, i + 1);
                        }
                        return Err(e);
                    },
                };
                let ghost prev = out@;
                out.push((key, j));
                proof {
                    assert(out@.drop_last() =~= prev);
                    assert(json_entry_models(out@) == json_entry_models(prev).push(
                        (key@, json_model(j)),
                    ));
                }
                i = i + 1;
            }
            proof {
                assert(entries@.subrange(0, entries.len() as int) =~= entries@);
            }
            Ok(JsonValue::Object(out))
        },
        YamlValue::Alias(_) => Err(Error::UnsupportedValue(copy_yaml(yaml))),
        YamlValue::Null => Ok(JsonValue::Null),
        YamlValue::BadValue => Err(Error::InvalidValue),
    }
}

} // verus!
