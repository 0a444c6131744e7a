use vstd::prelude::*;
use vstd::string::*;
use crate::float_literal::is_float_literal;

verus! {

broadcast use vstd::seq::group_seq_axioms, vstd::std_specs::vec::group_vec_axioms;

/// A JSON document tree. A float is held as decimal text: the text that std writes
/// for a double, or the text of a YAML float that was read as a floating-point
/// literal. A well-formed tree (`json_wf`) has unique keys in each object and a
/// floating-point literal in each float.
#[derive(Debug, PartialEq)]
pub enum JsonValue {
    Null,
    Bool(bool),
    I64(i64),
    U64(u64),
    F64(String),
    String(String),
    Array(Vec<JsonValue>),
    Object(Vec<(String, JsonValue)>),
}

/// A YAML document tree. A float is held as its source text until it is read. A
/// well-formed tree (`yaml_wf`) has unique keys in each mapping.
#[derive(Debug, PartialEq)]
pub enum YamlValue {
    Real(String),
    Integer(i64),
    String(String),
    Boolean(bool),
    Array(Vec<YamlValue>),
    Hash(Vec<(YamlValue, YamlValue)>),
    Alias(usize),
    Null,
    BadValue,
}

/// What can go wrong while converting a YAML tree into a JSON tree.
#[derive(Debug, PartialEq)]
pub enum Error {
    /// The text of a YAML float is not a floating-point literal; it carries that text.
    ParseFloat(String),
    /// The tree holds a malformed or absent node.
    InvalidValue,
    /// The tree holds a node that JSON cannot express; it carries that node.
    UnsupportedValue(YamlValue),
}

/// The outcome of a conversion.
pub type Result<T> = core::result::Result<T, Error>;

pub open spec fn description_of(e: ErrorModel) -> Seq<char> {
    match e {
        ErrorModel::ParseFloat(t) => if t.len() == 0 {
            "cannot parse float from empty string"@
        } else {
            "invalid float literal"@
        },
        ErrorModel::InvalidValue => "invalid value"@,
        ErrorModel::UnsupportedValue(_) => "supported value"@,
    }
}

impl Error {
    /// A short description of the kind of error.
    pub fn description(&self) -> (r: &'static str)
        ensures
            r@ == description_of(self@),
    {
        match self {
            Error::ParseFloat(t) => if t.as_str().unicode_len() == 0 {
                "cannot parse float from empty string"
            } else {
                "invalid float literal"
            },
            Error::InvalidValue => "invalid value",
            Error::UnsupportedValue(_) => "supported value",
        }
    }
}

/// The mathematical form of a JSON tree.
pub enum JsonModel {
    Null,
    Bool(bool),
    I64(i64),
    U64(u64),
    F64(Seq<char>),
    String(Seq<char>),
    Array(Seq<JsonModel>),
    Object(Seq<(Seq<char>, JsonModel)>),
}

/// The mathematical form of a YAML tree.
pub enum YamlModel {
    Real(Seq<char>),
    Integer(i64),
    String(Seq<char>),
    Boolean(bool),
    Array(Seq<YamlModel>),
    Hash(Seq<(YamlModel, YamlModel)>),
    Alias(usize),
    Null,
    BadValue,
}

/// The mathematical form of an `Error`.
pub enum ErrorModel {
    ParseFloat(Seq<char>),
    InvalidValue,
    UnsupportedValue(YamlModel),
}

pub open spec fn json_model(j: JsonValue) -> JsonModel
    decreases j,
{
    match j {
        JsonValue::Null => JsonModel::Null,
        JsonValue::Bool(b) => JsonModel::Bool(b),
        JsonValue::I64(i) => JsonModel::I64(i),
        JsonValue::U64(u) => JsonModel::U64(u),
        JsonValue::F64(t) => JsonModel::F64(t@),
        JsonValue::String(s) => JsonModel::String(s@),
        JsonValue::Array(v) => JsonModel::Array(json_models(v@)),
        JsonValue::Object(v) => JsonModel::Object(json_entry_models(v@)),
    }
}

pub open spec fn json_models(s: Seq<JsonValue>) -> Seq<JsonModel>
    decreases s,
{
    if s.len() == 0 {
        Seq::empty()
    } else {
        json_models(s.drop_last()).push(json_model(s.last()))
    }
}

pub open spec fn json_entry_models(s: Seq<(String, JsonValue)>) -> Seq<(Seq<char>, JsonModel)>
    decreases s,
{
    if s.len() == 0 {
        Seq::empty()
    } else {
        json_entry_models(s.drop_last()).push((s.last().0@, json_model(s.last().1)))
    }
}

pub open spec fn yaml_model(y: YamlValue) -> YamlModel
    decreases y,
{
    match y {
        YamlValue::Real(t) => YamlModel::Real(t@),
        YamlValue::Integer(i) => YamlModel::Integer(i),
        YamlValue::String(s) => YamlModel::String(s@),
        YamlValue::Boolean(b) => YamlModel::Boolean(b),
        YamlValue::Array(v) => YamlModel::Array(yaml_models(v@)),
        YamlValue::Hash(v) => YamlModel::Hash(yaml_entry_models(v@)),
        YamlValue::Alias(n) => YamlModel::Alias(n),
        YamlValue::Null => YamlModel::Null,
        YamlValue::BadValue => YamlModel::BadValue,
    }
}

pub open spec fn yaml_models(s: Seq<YamlValue>) -> Seq<YamlModel>
    decreases s,
{
    if s.len() == 0 {
        Seq::empty()
    } else {
        yaml_models(s.drop_last()).push(yaml_model(s.last()))
    }
}

pub open spec fn yaml_entry_models(s: Seq<(YamlValue, YamlValue)>) -> Seq<(YamlModel, YamlModel)>
    decreases s,
{
    if s.len() == 0 {
        Seq::empty()
    } else {
        yaml_entry_models(s.drop_last()).push((yaml_model(s.last().0), yaml_model(s.last().1)))
    }
}

/// No two entries share a key.
pub open spec fn json_keys_unique(s: Seq<(Seq<char>, JsonModel)>) -> bool {
    forall|a: int, b: int| 0 <= a < b < s.len() ==> (#[trigger] s[a]).0 != (#[trigger] s[b]).0
}

/// No two entries share a key.
pub open spec fn yaml_keys_unique(s: Seq<(YamlModel, YamlModel)>) -> bool {
    forall|a: int, b: int| 0 <= a < b < s.len() ==> (#[trigger] s[a]).0 != (#[trigger] s[b]).0
}

/// A JSON tree whose objects have unique keys and whose float texts are
/// floating-point literals.
pub open spec fn json_wf(j: JsonModel) -> bool
    decreases j,
{
    match j {
        JsonModel::F64(t) => is_float_literal(t),
        JsonModel::Array(s) => jsons_wf(s),
        JsonModel::Object(s) => json_keys_unique(s) && json_entries_wf(s),
        _ => true,
    }
}

pub open spec fn jsons_wf(s: Seq<JsonModel>) -> bool
    decreases s,
{
    s.len() == 0 || (jsons_wf(s.drop_last()) && json_wf(s.last()))
}

pub open spec fn json_entries_wf(s: Seq<(Seq<char>, JsonModel)>) -> bool
    decreases s,
{
    s.len() == 0 || (json_entries_wf(s.drop_last()) && json_wf(s.last().1))
}

/// A YAML tree whose mappings have unique keys.
pub open spec fn yaml_wf(y: YamlModel) -> bool
    decreases y,
{
    match y {
        YamlModel::Array(s) => yamls_wf(s),
        YamlModel::Hash(s) => yaml_keys_unique(s) && yaml_entries_wf(s),
        _ => true,
    }
}

pub open spec fn yamls_wf(s: Seq<YamlModel>) -> bool
    decreases s,
{
    s.len() == 0 || (yamls_wf(s.drop_last()) && yaml_wf(s.last()))
}

pub open spec fn yaml_entries_wf(s: Seq<(YamlModel, YamlModel)>) -> bool
    decreases s,
{
    s.len() == 0 || (yaml_entries_wf(s.drop_last()) && yaml_wf(s.last().0) && yaml_wf(
        s.last().1,
    ))
}

impl View for JsonValue {
    type V = JsonModel;

    open spec fn view(&self) -> JsonModel {
        json_model(*self)
    }
}

impl View for YamlValue {
    type V = YamlModel;

    open spec fn view(&self) -> YamlModel {
        yaml_model(*self)
    }
}

impl View for Error {
    type V = ErrorModel;

    open spec fn view(&self) -> ErrorModel {
        match self {
            Error::ParseFloat(t) => ErrorModel::ParseFloat(t@),
            Error::InvalidValue => ErrorModel::InvalidValue,
            Error::UnsupportedValue(y) => ErrorModel::UnsupportedValue(y@),
        }
    }
}

/// Returns a copy of `y` with the same mathematical form.
pub fn copy_yaml(y: &YamlValue) -> (r: YamlValue)
    ensures
        r@ == y@,
    decreases y,
{
    match y {
        YamlValue::Real(t) => YamlValue::Real(t.clone()),
        YamlValue::Integer(i) => YamlValue::Integer(*i),
        YamlValue::String(s) => YamlValue::String(s.clone()),
        YamlValue::Boolean(b) => YamlValue::Boolean(*b),
        YamlValue::Array(v) => {
            let mut out: Vec<YamlValue> = Vec::new();
            let mut i: usize = 0;
            while i < v.len()
                invariant
                    i <= v.len(),
                    *y == YamlValue::Array(*v),
                    out@.len() == i,
                    yaml_models(out@) == yaml_models(v@.subrange(0, i as int)),
                decreases v.len() - i,
            {
                proof {
                    assert(decreases_to!(*v => v[i as int]));
                    assert(decreases_to!(*y => y->Array_0));
                    assert(decreases_to!(*y => v@[i as int]));
                }
                let c = copy_yaml(&v[i]);
                proof {
                    assert(v@.subrange(0, i + 1).drop_last() =~= v@.subrange(0, i as int));
                }
                let ghost prev = out@;
                out.push(c);
                proof {
                    assert(out@.drop_last() =~= prev);
                }
                i = i + 1;
            }
            proof {
                assert(v@.subrange(0, v.len() as int) =~= v@);
            }
            YamlValue::Array(out)
        },
        YamlValue::Hash(v) => {
            let mut out: Vec<(YamlValue, YamlValue)> = Vec::new();
            let mut i: usize = 0;
            while i < v.len()
                invariant
                    i <= v.len(),
                    *y == YamlValue::Hash(*v),
                    out@.len() == i,
                    yaml_entry_models(out@) == yaml_entry_models(v@.subrange(0, i as int)),
                decreases v.len() - i,
            {
                proof {
                    assert(decreases_to!(*v => v[i as int]));
                    assert(decreases_to!(*y => y->Hash_0));
                    assert(decreases_to!(*y => v@[i as int].0));
                    assert(decreases_to!(*y => v@[i as int].1));
                }
                let k = copy_yaml(&v[i].0);
                let c = copy_yaml(&v[i].1);
                proof {
                    assert(v@.subrange(0, i + 1).drop_last() =~= v@.subrange(0, i as int));
                }
                let ghost prev = out@;
                out.push((k, c));
                proof {
                    assert(out@.drop_last() =~= prev);
                }
                i = i + 1;
            }
            proof {
                assert(v@.subrange(0, v.len() as int) =~= v@);
            }
            YamlValue::Hash(out)
        },
        YamlValue::Alias(n) => YamlValue::Alias(*n),
        YamlValue::Null => YamlValue::Null,
        YamlValue::BadValue => YamlValue::BadValue,
    }
}

} // verus!
