//! The trusted boundary to the YAML decoder.
//!
//! Decoding a front-matter block is done by `serde_yaml`; everything the
//! library states about it goes through the named outcome [`yaml_map_of`]:
//! what the text decodes to as a string-keyed mapping, or the rendered
//! decode error. Both depend on the text alone.

use vstd::prelude::*;

use crate::meta::{pairs_map, pview, unique_keys, MetaVal, MetaValue};

verus! {

#[verifier::external_type_specification]
#[verifier::external_body]
pub struct ExYamlValue(serde_yaml::Value);

pub uninterp spec fn yaml_map_of(s: Seq<char>) -> Result<Map<Seq<char>, MetaVal>, Seq<char>>;

/// Relies on serde_yaml::from_str: decoding text into a string-keyed map
/// yields the mapping the document describes, or an error; the outcome is
/// a function of the text. BTreeMap iteration yields each key once.
#[verifier::external_body]
pub(crate) fn decode_yaml_map(text: &str) -> (r: Result<Vec<(String, MetaValue)>, String>)
    ensures
        match r {
            Ok(ps) => unique_keys(pview(ps@)) && yaml_map_of(text@) == Ok::<
                Map<Seq<char>, MetaVal>,
                Seq<char>,
            >(pairs_map(pview(ps@))),
            Err(e) => yaml_map_of(text@) == Err::<Map<Seq<char>, MetaVal>, Seq<char>>(e@),
        },
{
    match serde_yaml::from_str::<std::collections::BTreeMap<String, serde_yaml::Value>>(text) {
        Ok(m) => Ok(m.into_iter().map(|(k, v)| (k, conv_value(v))).collect()),
        Err(e) => Err(e.to_string()),
    }
}

/// Relies on serde_yaml::Value: renders one decoded node into the
/// library's value type, variant by variant, moving the fields over.
#[verifier::external_body]
fn conv_value(v: serde_yaml::Value) -> MetaValue {
    match v {
        serde_yaml::Value::Null => MetaValue::Null,
        serde_yaml::Value::Bool(b) => MetaValue::Flag(b),
        serde_yaml::Value::Number(n) => MetaValue::Number(n.to_string()),
        serde_yaml::Value::String(s) => MetaValue::Scalar(s),
        serde_yaml::Value::Sequence(xs) => MetaValue::Items(xs.into_iter().map(conv_value).collect()),
        serde_yaml::Value::Mapping(m) => MetaValue::Table(
            m.into_iter().map(|(k, w)| (conv_value(k), conv_value(w))).collect(),
        ),
        serde_yaml::Value::Tagged(t) => MetaValue::Tagged(t.tag.to_string(), Box::new(conv_value(t.value))),
    }
}

} // verus!
