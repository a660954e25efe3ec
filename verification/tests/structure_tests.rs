use caminos::collectives::get_all2all;
use caminos::config::ConfigurationValue;
use caminos::general_pattern::{GeneralPattern, ManyToManyParam, MinFilter, RandomFilter};
use caminos::tree::Tree;
use rand::rngs::StdRng;
use rand::SeedableRng;

fn param_with_list(list: Vec<usize>, origin: Option<usize>, destination: Option<usize>, extra: Option<usize>) -> ManyToManyParam {
    let mut p = ManyToManyParam::empty();
    p.list = list;
    p.origin = origin;
    p.destination = destination;
    p.extra = extra;
    p
}

#[test]
fn test_up_down_matrix() {
    let matrix = Tree::build_up_down_matrix(2, 16);
    assert_eq!(matrix.get(0, 2).unwrap(), (0u8, 1u8));
    assert_eq!(matrix.get(6, 10).unwrap(), (2u8, 3u8));
    assert_eq!(matrix.get(15, 11).unwrap(), (3u8, 3u8));

    let matrix = Tree::build_up_down_matrix(3, 18);
    assert_eq!(matrix.get(0, 2).unwrap(), (0u8, 1u8));
    assert_eq!(matrix.get(6, 10).unwrap(), (2u8, 2u8));
    assert_eq!(matrix.get(12, 11).unwrap(), (1u8, 1u8));
    assert_eq!(matrix.get(13, 12).unwrap(), (1u8, 1u8));
    assert_eq!(matrix.get(17, 16).unwrap(), (3u8, 2u8));
}

#[test]
fn test_all2all() {
    let cv = get_all2all(64, 128, 2).unwrap();
    match cv {
        ConfigurationValue::Object(name, _) => assert_eq!(name, "TrafficCredit"),
        _ => panic!("expected an object"),
    }
}

#[test]
fn test_all2all_rejects_zero_rounds() {
    assert!(get_all2all(64, 128, 0).is_err());
}

#[test]
fn test_uniform() {
    let mut rng = StdRng::seed_from_u64(0);
    let mut uniform = RandomFilter::new(1);
    uniform.initialize(0, 10, None, &mut rng).unwrap();
    let param = param_with_list((0..10).collect(), Some(0), Some(1), None);
    let destination = uniform.get_destination(param, None, &mut rng);
    assert_eq!(destination.len(), 1);

    let mut uniform = RandomFilter::new(3);
    uniform.initialize(0, 10, None, &mut rng).unwrap();
    let param = param_with_list((0..10).collect(), Some(0), Some(3), None);
    let destination = uniform.get_destination(param, None, &mut rng);
    assert_eq!(destination.len(), 3);
}

#[test]
fn test_min_filter() {
    let mut rng = StdRng::seed_from_u64(0);
    let mut min = MinFilter::new();
    min.initialize(100, 100, None, &mut rng).unwrap();
    let param = param_with_list((0..10).collect(), None, None, None);
    assert_eq!(vec![0], min.get_destination(param, None, &mut rng));
}
