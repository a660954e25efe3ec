use caminos::config::ConfigurationValue;
use caminos::neighbours::{immediate_neighbours_cv_builder, ImmediateNeighboursCVBuilder};
use caminos::pattern_builders::{
    get_cartesian_transform_from_builder, get_composition_pattern_cv, get_linear_transform,
    BuildCartesianTransformCV, BuildCompositionCV, BuildLinearTransformCV,
};
use caminos::simple_pattern::{
    get_candidates_selection, get_cartesian_transform, get_hotspot_destination, get_switch_pattern,
};

fn object_name(cv: &ConfigurationValue) -> &str {
    match cv {
        ConfigurationValue::Object(name, _) => name.as_str(),
        _ => panic!("an object was expected"),
    }
}

fn object_pairs(cv: &ConfigurationValue) -> usize {
    match cv {
        ConfigurationValue::Object(_, pairs) => pairs.len(),
        _ => panic!("an object was expected"),
    }
}

#[test]
fn configuration_builders_write_the_expected_objects() {
    let empty = || ConfigurationValue::Object("Identity".to_string(), Vec::new());
    let cv = get_switch_pattern(empty(), vec![empty(), empty()]);
    assert_eq!(object_name(&cv), "Switch");
    assert_eq!(object_pairs(&cv), 2);

    let cv = get_candidates_selection(empty(), 7);
    assert_eq!(object_name(&cv), "CandidatesSelection");
    assert_eq!(object_pairs(&cv), 2);

    let cv = get_cartesian_transform(vec![4, 4], Some(vec![1, 0]), None);
    assert_eq!(object_name(&cv), "CartesianTransform");
    assert_eq!(object_pairs(&cv), 2);

    let cv = get_hotspot_destination(vec![3, 5]);
    assert_eq!(object_name(&cv), "Hotspots");
    assert_eq!(object_pairs(&cv), 1);

    let cv = get_composition_pattern_cv(BuildCompositionCV {
        patterns: vec![empty()],
        middle_sizes: Some(vec![16]),
    });
    assert_eq!(object_name(&cv), "Composition");
    assert_eq!(object_pairs(&cv), 2);

    let cv = get_cartesian_transform_from_builder(BuildCartesianTransformCV {
        sides: vec![4, 4],
        multiplier: None,
        shift: Some(vec![1, 0]),
        permute: None,
        complement: Some(vec![false, true]),
        project: None,
        random: None,
        patterns: None,
    });
    assert_eq!(object_name(&cv), "CartesianTransform");
    assert_eq!(object_pairs(&cv), 3);

    let cv = get_linear_transform(BuildLinearTransformCV {
        source_size: vec![4, 4],
        matrix: vec![vec![1, 0]],
        target_size: vec![4],
    });
    assert_eq!(object_name(&cv), "LinearTransform");
    assert_eq!(object_pairs(&cv), 3);

    let cv = immediate_neighbours_cv_builder(ImmediateNeighboursCVBuilder {
        sides: vec![8],
        vector_neighbours: vec![vec![1]],
        modular: true,
    });
    assert_eq!(object_name(&cv), "ImmediateNeighbours");
    assert_eq!(object_pairs(&cv), 3);
}

#[test]
fn builders_mirror_keys_and_values() {
    fn number(cv: &ConfigurationValue) -> i64 {
        match cv {
            ConfigurationValue::Number(n) => *n,
            _ => panic!("a number was expected"),
        }
    }
    fn numbers(cv: &ConfigurationValue) -> Vec<i64> {
        match cv {
            ConfigurationValue::Array(items) => items.iter().map(number).collect(),
            _ => panic!("an array was expected"),
        }
    }
    let cv = get_linear_transform(BuildLinearTransformCV {
        source_size: vec![2, 3],
        matrix: vec![vec![1, 0], vec![-1, 4]],
        target_size: vec![6],
    });
    match &cv {
        ConfigurationValue::Object(name, pairs) => {
            assert_eq!(name, "LinearTransform");
            assert_eq!(pairs.len(), 3);
            assert_eq!(pairs[0].0, "source_size");
            assert_eq!(numbers(&pairs[0].1), vec![2, 3]);
            assert_eq!(pairs[1].0, "matrix");
            match &pairs[1].1 {
                ConfigurationValue::Array(rows) => {
                    assert_eq!(rows.len(), 2);
                    assert_eq!(numbers(&rows[0]), vec![1, 0]);
                    assert_eq!(numbers(&rows[1]), vec![-1, 4]);
                },
                _ => panic!("an array was expected"),
            }
            assert_eq!(pairs[2].0, "target_size");
            assert_eq!(numbers(&pairs[2].1), vec![6]);
        },
        _ => panic!("an object was expected"),
    }
    let cv = get_hotspot_destination(vec![7, 9]);
    match &cv {
        ConfigurationValue::Object(name, pairs) => {
            assert_eq!(name, "Hotspots");
            assert_eq!(pairs[0].0, "destinations");
            assert_eq!(numbers(&pairs[0].1), vec![7, 9]);
        },
        _ => panic!("an object was expected"),
    }
}
