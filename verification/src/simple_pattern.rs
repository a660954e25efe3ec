use vstd::prelude::*;
use crate::config::ConfigurationValue;

verus! {

broadcast use vstd::string::to_string_from_display_ensures_for_str;

/// The signed 64-bit value a machine integer is written as, saturating at
/// the largest one.
pub open spec fn usize_as_number(v: usize) -> int {
    if v > 0x7fff_ffff_ffff_ffff {
        0x7fff_ffff_ffff_ffff as int
    } else {
        v as int
    }
}

/// `items` writes `values` element for element as configuration numbers.
pub open spec fn encodes_usizes(items: Seq<ConfigurationValue>, values: Seq<usize>) -> bool {
    &&& items.len() == values.len()
    &&& forall|k: int|
        0 <= k < values.len() ==> ((#[trigger] items[k]) matches ConfigurationValue::Number(n)
            && n as int == usize_as_number(values[k]))
}

/// A number clamped into the signed 64-bit range a configuration value can
/// hold.
pub fn usize_number(v: usize) -> (r: ConfigurationValue)
    ensures
        r matches ConfigurationValue::Number(n) && n as int == usize_as_number(v),
{
    let v128 = v as u128;
    let n = if v128 > 0x7fff_ffff_ffff_ffffu128 {
        0x7fff_ffff_ffff_ffffi64
    } else {
        v128 as i64
    };
    ConfigurationValue::Number(n)
}

/// A list of numbers as a configuration array.
#[verifier::loop_isolation(false)]
pub fn usize_array(values: &Vec<usize>) -> (r: ConfigurationValue)
    ensures
        r matches ConfigurationValue::Array(items) && encodes_usizes(items@, values@),
{
    let mut items: Vec<ConfigurationValue> = Vec::new();
    let mut k: usize = 0;
    while k < values.len()
        invariant
            k <= values@.len(),
            items@.len() == k,
            forall|j: int|
                0 <= j < k ==> ((#[trigger] items@[j]) matches ConfigurationValue::Number(n)
                    && n as int == usize_as_number(values@[j])),
        decreases values@.len() - k,
    {
        items.push(usize_number(values[k]));
        k += 1;
    }
    ConfigurationValue::Array(items)
}

/// Writes a pattern-switching configuration object: an indexing pattern
/// chooses among the listed patterns.
pub fn get_switch_pattern(
    index_pattern: ConfigurationValue,
    patterns: Vec<ConfigurationValue>,
) -> (r: ConfigurationValue)
    ensures
        r matches ConfigurationValue::Object(name, pairs) && name@ == "Switch"@ && pairs@.len()
            == 2,
{
    let mut pairs: Vec<(String, ConfigurationValue)> = Vec::new();
    pairs.push(("indexing".to_string(), index_pattern));
    pairs.push(("patterns".to_string(), ConfigurationValue::Array(patterns)));
    ConfigurationValue::Object("Switch".to_string(), pairs)
}

/// Writes a candidates-selection configuration object around a simple
/// pattern of the given destination size.
pub fn get_candidates_selection(pattern: ConfigurationValue, pattern_destination_size: usize) -> (r:
    ConfigurationValue)
    ensures
        r matches ConfigurationValue::Object(name, pairs) && name@ == "CandidatesSelection"@
            && pairs@.len() == 2,
{
    let mut pairs: Vec<(String, ConfigurationValue)> = Vec::new();
    pairs.push(("simple_pattern".to_string(), pattern));
    pairs.push(
        ("pattern_destination_size".to_string(), usize_number(pattern_destination_size)),
    );
    ConfigurationValue::Object("CandidatesSelection".to_string(), pairs)
}

/// Writes a Cartesian-transform configuration object, with optional shift
/// and per-dimension patterns.
pub fn get_cartesian_transform(
    sides: Vec<usize>,
    shift: Option<Vec<usize>>,
    patterns: Option<Vec<ConfigurationValue>>,
) -> (r: ConfigurationValue)
    ensures
        r matches ConfigurationValue::Object(name, pairs) && name@ == "CartesianTransform"@,
{
    let mut pairs: Vec<(String, ConfigurationValue)> = Vec::new();
    pairs.push(("sides".to_string(), usize_array(&sides)));
    if let Some(shift) = shift {
        pairs.push(("shift".to_string(), usize_array(&shift)));
    }
    if let Some(patterns) = patterns {
        pairs.push(("patterns".to_string(), ConfigurationValue::Array(patterns)));
    }
    ConfigurationValue::Object("CartesianTransform".to_string(), pairs)
}

/// Writes a hotspot-destination configuration object.
pub fn get_hotspot_destination(selected_destinations: Vec<usize>) -> (r: ConfigurationValue)
    ensures
        r matches ConfigurationValue::Object(name, pairs) && name@ == "Hotspots"@ && pairs@.len()
            == 1 && pairs@[0].0@ == "destinations"@ && (pairs@[0].1
            matches ConfigurationValue::Array(items) && encodes_usizes(
            items@,
            selected_destinations@,
        )),
{
    let mut pairs: Vec<(String, ConfigurationValue)> = Vec::new();
    pairs.push(("destinations".to_string(), usize_array(&selected_destinations)));
    ConfigurationValue::Object("Hotspots".to_string(), pairs)
}

} // verus!
