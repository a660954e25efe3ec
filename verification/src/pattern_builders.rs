use vstd::prelude::*;
use crate::config::ConfigurationValue;
use crate::simple_pattern::{encodes_usizes, usize_array, usize_number, usize_as_number};

verus! {

broadcast use vstd::string::to_string_from_display_ensures_for_str;

/// `items` writes the signed numbers `values` element for element.
pub open spec fn encodes_i32s(items: Seq<ConfigurationValue>, values: Seq<i32>) -> bool {
    &&& items.len() == values.len()
    &&& forall|k: int|
        0 <= k < values.len() ==> ((#[trigger] items[k]) matches ConfigurationValue::Number(n)
            && n == values[k] as i64)
}

/// `items` writes the booleans `values` element for element.
pub open spec fn encodes_bools(items: Seq<ConfigurationValue>, values: Seq<bool>) -> bool {
    &&& items.len() == values.len()
    &&& forall|k: int|
        0 <= k < values.len() ==> ((#[trigger] items[k]) == if values[k] {
            ConfigurationValue::True
        } else {
            ConfigurationValue::False
        })
}

/// `items` writes the rows of the signed matrix `rows` element for element.
pub open spec fn encodes_i32_rows(items: Seq<ConfigurationValue>, rows: Seq<Vec<i32>>) -> bool {
    &&& items.len() == rows.len()
    &&& forall|k: int|
        0 <= k < rows.len() ==> ((#[trigger] items[k]) matches ConfigurationValue::Array(inner)
            && encodes_i32s(inner@, rows[k]@))
}

/// The pair at `j` holds `key` and an array writing the machine integers
/// `values`.
pub open spec fn usize_array_pair(
    pairs: Seq<(String, ConfigurationValue)>,
    j: int,
    key: Seq<char>,
    values: Seq<usize>,
) -> bool {
    &&& 0 <= j < pairs.len()
    &&& pairs[j].0@ == key
    &&& (pairs[j].1 matches ConfigurationValue::Array(items) && encodes_usizes(items@, values))
}

/// The pair at `j` holds `key` and an array writing the signed numbers
/// `values`.
pub open spec fn i32_array_pair(
    pairs: Seq<(String, ConfigurationValue)>,
    j: int,
    key: Seq<char>,
    values: Seq<i32>,
) -> bool {
    &&& 0 <= j < pairs.len()
    &&& pairs[j].0@ == key
    &&& (pairs[j].1 matches ConfigurationValue::Array(items) && encodes_i32s(items@, values))
}

/// The pair at `j` holds `key` and an array writing the booleans `values`.
pub open spec fn bool_array_pair(
    pairs: Seq<(String, ConfigurationValue)>,
    j: int,
    key: Seq<char>,
    values: Seq<bool>,
) -> bool {
    &&& 0 <= j < pairs.len()
    &&& pairs[j].0@ == key
    &&& (pairs[j].1 matches ConfigurationValue::Array(items) && encodes_bools(items@, values))
}

/// A list of signed numbers as a configuration array.
#[verifier::loop_isolation(false)]
pub fn i32_array(values: &Vec<i32>) -> (r: ConfigurationValue)
    ensures
        r matches ConfigurationValue::Array(items) && encodes_i32s(items@, values@),
{
    let mut items: Vec<ConfigurationValue> = Vec::new();
    let mut k: usize = 0;
    while k < values.len()
        invariant
            k <= values@.len(),
            items@.len() == k,
            forall|j: int|
                0 <= j < k ==> ((#[trigger] items@[j]) matches ConfigurationValue::Number(n) && n
                    == values@[j] as i64),
        decreases values@.len() - k,
    {
        items.push(ConfigurationValue::Number(values[k] as i64));
        k += 1;
    }
    ConfigurationValue::Array(items)
}

/// A list of booleans as a configuration array.
#[verifier::loop_isolation(false)]
pub fn bool_array(values: &Vec<bool>) -> (r: ConfigurationValue)
    ensures
        r matches ConfigurationValue::Array(items) && encodes_bools(items@, values@),
{
    let mut items: Vec<ConfigurationValue> = Vec::new();
    let mut k: usize = 0;
    while k < values.len()
        invariant
            k <= values@.len(),
            items@.len() == k,
            forall|j: int|
                0 <= j < k ==> ((#[trigger] items@[j]) == if values@[j] {
                    ConfigurationValue::True
                } else {
                    ConfigurationValue::False
                }),
        decreases values@.len() - k,
    {
        if values[k] {
            items.push(ConfigurationValue::True);
        } else {
            items.push(ConfigurationValue::False);
        }
        k += 1;
    }
    ConfigurationValue::Array(items)
}

/// The fields of a pattern-composition configuration.
pub struct BuildCompositionCV {
    pub patterns: Vec<ConfigurationValue>,
    pub middle_sizes: Option<Vec<usize>>,
}

/// Writes the configuration of a composition of patterns, optionally fixing
/// the sizes of the intermediate spaces.
pub fn get_composition_pattern_cv(args: BuildCompositionCV) -> (r: ConfigurationValue)
    ensures
        r matches ConfigurationValue::Object(name, pairs) && name@ == "Composition"@ && {
            &&& pairs@.len() == if args.middle_sizes is Some {
                2int
            } else {
                1int
            }
            &&& pairs@[0].0@ == "patterns"@
            &&& pairs@[0].1 == ConfigurationValue::Array(args.patterns)
            &&& (args.middle_sizes matches Some(ms) ==> usize_array_pair(
                pairs@,
                1,
                "middle_sizes"@,
                ms@,
            ))
        },
{
    let mut vector: Vec<(String, ConfigurationValue)> = Vec::new();
    vector.push(("patterns".to_string(), ConfigurationValue::Array(args.patterns)));
    if let Some(middle_sizes) = args.middle_sizes {
        vector.push(("middle_sizes".to_string(), usize_array(&middle_sizes)));
    }
    ConfigurationValue::Object("Composition".to_string(), vector)
}

/// The fields of a Cartesian-transform configuration, every feature
/// optional.
pub struct BuildCartesianTransformCV {
    pub sides: Vec<usize>,
    pub multiplier: Option<Vec<i32>>,
    pub shift: Option<Vec<usize>>,
    pub permute: Option<Vec<usize>>,
    pub complement: Option<Vec<bool>>,
    pub project: Option<Vec<bool>>,
    pub random: Option<Vec<bool>>,
    pub patterns: Option<Vec<ConfigurationValue>>,
}

/// Writes the configuration of a Cartesian transform with whichever of its
/// per-dimension features are set.
#[verifier::rlimit(100)]
pub fn get_cartesian_transform_from_builder(args: BuildCartesianTransformCV) -> (r:
    ConfigurationValue)
    ensures
        r matches ConfigurationValue::Object(name, pairs) && name@ == "CartesianTransform"@
            && pairs@.len() >= 1 && usize_array_pair(pairs@, 0, "sides"@, args.sides@),
        r matches ConfigurationValue::Object(name, pairs) ==> (args.multiplier matches Some(v)
            ==> exists|j: int| #[trigger] i32_array_pair(pairs@, j, "multiplier"@, v@)),
        r matches ConfigurationValue::Object(name, pairs) ==> (args.shift matches Some(v)
            ==> exists|j: int| #[trigger] usize_array_pair(pairs@, j, "shift"@, v@)),
        r matches ConfigurationValue::Object(name, pairs) ==> (args.permute matches Some(v)
            ==> exists|j: int| #[trigger] usize_array_pair(pairs@, j, "permute"@, v@)),
        r matches ConfigurationValue::Object(name, pairs) ==> (args.complement matches Some(v)
            ==> exists|j: int| #[trigger] bool_array_pair(pairs@, j, "complement"@, v@)),
        r matches ConfigurationValue::Object(name, pairs) ==> (args.project matches Some(v)
            ==> exists|j: int| #[trigger] bool_array_pair(pairs@, j, "project"@, v@)),
        r matches ConfigurationValue::Object(name, pairs) ==> (args.random matches Some(v)
            ==> exists|j: int| #[trigger] bool_array_pair(pairs@, j, "random"@, v@)),
        r matches ConfigurationValue::Object(name, pairs) ==> (args.patterns matches Some(v)
            ==> exists|j: int|
            0 <= j < pairs@.len() && (#[trigger] pairs@[j]).0@ == "patterns"@ && pairs@[j].1
                == ConfigurationValue::Array(v)),
{
    let ghost margs = args;
    let ghost mut jmu: int = 0;
    let ghost mut jsh: int = 0;
    let ghost mut jpe: int = 0;
    let ghost mut jco: int = 0;
    let ghost mut jpr: int = 0;
    let ghost mut jra: int = 0;
    let ghost mut jpa: int = 0;
    let mut params: Vec<(String, ConfigurationValue)> = Vec::new();
    params.push(("sides".to_string(), usize_array(&args.sides)));
    if let Some(multiplier) = args.multiplier {
        proof {
            jmu = params@.len() as int;
        }
        params.push(("multiplier".to_string(), i32_array(&multiplier)));
    }
    if let Some(shift) = args.shift {
        proof {
            jsh = params@.len() as int;
        }
        params.push(("shift".to_string(), usize_array(&shift)));
    }
    if let Some(permute) = args.permute {
        proof {
            jpe = params@.len() as int;
        }
        params.push(("permute".to_string(), usize_array(&permute)));
    }
    if let Some(complement) = args.complement {
        proof {
            jco = params@.len() as int;
        }
        params.push(("complement".to_string(), bool_array(&complement)));
    }
    if let Some(project) = args.project {
        proof {
            jpr = params@.len() as int;
        }
        params.push(("project".to_string(), bool_array(&project)));
    }
    if let Some(random) = args.random {
        proof {
            jra = params@.len() as int;
        }
        params.push(("random".to_string(), bool_array(&random)));
    }
    if let Some(patterns) = args.patterns {
        proof {
            jpa = params@.len() as int;
        }
        params.push(("patterns".to_string(), ConfigurationValue::Array(patterns)));
    }
    proof {
        assert(usize_array_pair(params@, 0, "sides"@, margs.sides@));
        if margs.multiplier is Some {
            assert(i32_array_pair(params@, jmu, "multiplier"@, margs.multiplier->0@));
            assert(exists|j: int|
                #[trigger] i32_array_pair(params@, j, "multiplier"@, margs.multiplier->0@));
        }
        if margs.shift is Some {
            assert(usize_array_pair(params@, jsh, "shift"@, margs.shift->0@));
            assert(exists|j: int|
                #[trigger] usize_array_pair(params@, j, "shift"@, margs.shift->0@));
        }
        if margs.permute is Some {
            assert(usize_array_pair(params@, jpe, "permute"@, margs.permute->0@));
            assert(exists|j: int|
                #[trigger] usize_array_pair(params@, j, "permute"@, margs.permute->0@));
        }
        if margs.complement is Some {
            assert(bool_array_pair(params@, jco, "complement"@, margs.complement->0@));
            assert(exists|j: int|
                #[trigger] bool_array_pair(params@, j, "complement"@, margs.complement->0@));
        }
        if margs.project is Some {
            assert(bool_array_pair(params@, jpr, "project"@, margs.project->0@));
            assert(exists|j: int|
                #[trigger] bool_array_pair(params@, j, "project"@, margs.project->0@));
        }
        if margs.random is Some {
            assert(bool_array_pair(params@, jra, "random"@, margs.random->0@));
            assert(exists|j: int|
                #[trigger] bool_array_pair(params@, j, "random"@, margs.random->0@));
        }
        if margs.patterns is Some {
            assert(params@[jpa].0@ == "patterns"@);
            assert(params@[jpa].1 == ConfigurationValue::Array(margs.patterns->0));
            assert(0 <= jpa < params@.len());
            assert(exists|j: int|
                0 <= j < params@.len() && (#[trigger] params@[j]).0@ == "patterns"@ && params@[j].1
                    == ConfigurationValue::Array(margs.patterns->0));
        }
    }
    let result = ConfigurationValue::Object("CartesianTransform".to_string(), params);
    proof {
        assert(result matches ConfigurationValue::Object(name, pairs) && pairs@.len() >= 1
            && usize_array_pair(pairs@, 0, "sides"@, margs.sides@));
        assert(result matches ConfigurationValue::Object(name, pairs) ==> (
        margs.multiplier matches Some(v) ==> exists|j: int|
            #[trigger] i32_array_pair(pairs@, j, "multiplier"@, v@)));
        assert(result matches ConfigurationValue::Object(name, pairs) ==> (
        margs.random matches Some(v) ==> exists|j: int|
            #[trigger] bool_array_pair(pairs@, j, "random"@, v@)));
        assert(result matches ConfigurationValue::Object(name, pairs) ==> (
        margs.patterns matches Some(v) ==> exists|j: int|
            0 <= j < pairs@.len() && (#[trigger] pairs@[j]).0@ == "patterns"@ && pairs@[j].1
                == ConfigurationValue::Array(v)));
    }
    result
}

/// The fields of a linear-transform configuration.
pub struct BuildLinearTransformCV {
    pub source_size: Vec<usize>,
    pub matrix: Vec<Vec<i32>>,
    pub target_size: Vec<usize>,
}

/// Writes the configuration of a linear transform between two mixed-radix
/// spaces.
#[verifier::loop_isolation(false)]
pub fn get_linear_transform(args: BuildLinearTransformCV) -> (r: ConfigurationValue)
    ensures
        r matches ConfigurationValue::Object(name, pairs) && name@ == "LinearTransform"@ && {
            &&& pairs@.len() == 3
            &&& usize_array_pair(pairs@, 0, "source_size"@, args.source_size@)
            &&& pairs@[1].0@ == "matrix"@
            &&& (pairs@[1].1 matches ConfigurationValue::Array(rows) && encodes_i32_rows(
                rows@,
                args.matrix@,
            ))
            &&& usize_array_pair(pairs@, 2, "target_size"@, args.target_size@)
        },
{
    let mut matrix: Vec<ConfigurationValue> = Vec::new();
    let mut i: usize = 0;
    while i < args.matrix.len()
        invariant
            i <= args.matrix@.len(),
            matrix@.len() == i,
            forall|j: int|
                0 <= j < i ==> ((#[trigger] matrix@[j]) matches ConfigurationValue::Array(inner)
                    && encodes_i32s(inner@, args.matrix@[j]@)),
        decreases args.matrix@.len() - i,
    {
        matrix.push(i32_array(&args.matrix[i]));
        i += 1;
    }
    let mut params: Vec<(String, ConfigurationValue)> = Vec::new();
    params.push(("source_size".to_string(), usize_array(&args.source_size)));
    params.push(("matrix".to_string(), ConfigurationValue::Array(matrix)));
    params.push(("target_size".to_string(), usize_array(&args.target_size)));
    ConfigurationValue::Object("LinearTransform".to_string(), params)
}

} // verus!
