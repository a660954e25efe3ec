use caminos::general_pattern::{GeneralPattern, IdentityFilter, ManyToManyParam, MinFilter};
use caminos::resource_selection::{
    BlockSelection, ConsecutiveSelection, DiagonalSelection, IterBlockSelection, LTileSelection,
    RandomSelection,
};
use rand::rngs::StdRng;
use rand::SeedableRng;

fn param(list: Vec<usize>, extra: usize) -> ManyToManyParam {
    let mut p = ManyToManyParam::empty();
    p.list = list;
    p.extra = Some(extra);
    p
}

#[test]
fn test_consecutive_selection() {
    let mut rng = StdRng::seed_from_u64(0);
    let mut consecutive_selection = ConsecutiveSelection::new();
    consecutive_selection.initialize(10, 10, None, &mut rng).unwrap();
    let selected = consecutive_selection.get_destination(
        param(vec![1, 2, 3, 4, 5, 6, 7, 8, 9, 10], 3),
        None,
        &mut rng,
    );
    assert_eq!(selected, vec![1, 2, 3]);
}

#[test]
fn test_block_selection() {
    let mut rng = StdRng::seed_from_u64(0);
    let mut block_selection = BlockSelection::new(2, IdentityFilter::new(), false).unwrap();
    block_selection.initialize(1000, 1000, None, &mut rng).unwrap();
    let selected = block_selection.get_destination(
        param(vec![0, 1, 2, 3, 4, 5, 6, 7, 8, 9, 10], 3),
        None,
        &mut rng,
    );
    assert_eq!(selected, vec![0, 1, 2]);

    let selected = block_selection.get_destination(param(vec![9, 10, 11, 12, 13], 3), None, &mut rng);
    assert_eq!(selected, vec![10, 11, 12]);

    let mut block_selection = BlockSelection::new(2, MinFilter::new(), false).unwrap();
    block_selection.initialize(1000, 1000, None, &mut rng).unwrap();
    let selected = block_selection.get_destination(
        param(vec![0, 1, 2, 3, 4, 5, 6, 7, 8, 9, 10], 4),
        None,
        &mut rng,
    );
    assert_eq!(selected, vec![0, 2, 4, 6]);
}

#[test]
fn test_block_selection_2() {
    let mut rng = StdRng::seed_from_u64(0);
    let mut block_selection = BlockSelection::new(64, IdentityFilter::new(), false).unwrap();
    block_selection.initialize(512, 512, None, &mut rng).unwrap();
    let selected = block_selection.get_destination(
        param(vec![0, 1, 2, 65, 66, 67, 68, 69, 70, 71, 72, 99, 100, 121], 2),
        None,
        &mut rng,
    );
    assert_eq!(selected, vec![65, 66]);
    assert_eq!(2, selected.len());

    let mut block_selection = BlockSelection::new(64, MinFilter::new(), false).unwrap();
    block_selection.initialize(512, 512, None, &mut rng).unwrap();
    let selected = block_selection.get_destination(
        param(vec![0, 1, 2, 65, 66, 67, 68, 69, 70, 71, 72, 99, 100, 121], 2),
        None,
        &mut rng,
    );
    assert_eq!(selected, vec![0, 65]);
    assert_eq!(2, selected.len());

    let inner = BlockSelection::new(64, MinFilter::new(), false).unwrap();
    let mut block_selection = BlockSelection::new(256, inner, false).unwrap();
    block_selection.initialize(512, 512, None, &mut rng).unwrap();
    let selected = block_selection.get_destination(param((0..256).collect(), 64), None, &mut rng);
    assert_eq!(
        selected,
        vec![
            0, 1, 2, 3, 4, 5, 6, 7, 8, 9, 10, 11, 12, 13, 14, 15, 64, 65, 66, 67, 68, 69, 70, 71,
            72, 73, 74, 75, 76, 77, 78, 79, 128, 129, 130, 131, 132, 133, 134, 135, 136, 137, 138,
            139, 140, 141, 142, 143, 192, 193, 194, 195, 196, 197, 198, 199, 200, 201, 202, 203,
            204, 205, 206, 207
        ]
    );
    assert_eq!(64, selected.len());

    let inner = BlockSelection::new(64, MinFilter::new(), false).unwrap();
    let mut block_selection = BlockSelection::new(128, inner, false).unwrap();
    block_selection.initialize(512, 512, None, &mut rng).unwrap();
    let selected = block_selection.get_destination(param((0..256).collect(), 64), None, &mut rng);
    assert_eq!(
        selected,
        vec![
            0, 1, 2, 3, 4, 5, 6, 7, 8, 9, 10, 11, 12, 13, 14, 15, 16, 17, 18, 19, 20, 21, 22, 23,
            24, 25, 26, 27, 28, 29, 30, 31, 64, 65, 66, 67, 68, 69, 70, 71, 72, 73, 74, 75, 76, 77,
            78, 79, 80, 81, 82, 83, 84, 85, 86, 87, 88, 89, 90, 91, 92, 93, 94, 95
        ]
    );
    assert_eq!(64, selected.len());

    block_selection.initialize(512, 512, None, &mut rng).unwrap();
    let list_assigned: Vec<usize> = vec![
        0, 1, 2, 3, 4, 5, 6, 7, 8, 9, 10, 11, 12, 13, 14, 15, 16, 17, 18, 19, 20, 21, 22, 23, 24,
        25, 26, 27, 28, 29, 30, 31, 64, 65, 66, 67, 68, 69, 70, 71, 72, 73, 74, 75, 76, 77, 78, 79,
        80, 81, 82, 83, 84, 85, 86, 87, 88, 89, 90, 91, 92, 93, 94, 95,
    ];
    let left: Vec<usize> = (0..256).filter(|a| !list_assigned.contains(a)).collect();
    let selected = block_selection.get_destination(param(left, 64), None, &mut rng);
    assert_eq!(
        selected,
        vec![
            128, 129, 130, 131, 132, 133, 134, 135, 136, 137, 138, 139, 140, 141, 142, 143, 144,
            145, 146, 147, 148, 149, 150, 151, 152, 153, 154, 155, 156, 157, 158, 159, 192, 193,
            194, 195, 196, 197, 198, 199, 200, 201, 202, 203, 204, 205, 206, 207, 208, 209, 210,
            211, 212, 213, 214, 215, 216, 217, 218, 219, 220, 221, 222, 223
        ]
    );
    assert_eq!(64, selected.len());

    let mut list_assigned: Vec<usize> = vec![
        0, 1, 2, 3, 4, 5, 6, 7, 8, 9, 10, 11, 12, 13, 14, 15, 16, 17, 18, 19, 20, 21, 22, 23, 24,
        25, 26, 27, 28, 29, 30, 31, 64, 65, 66, 67, 68, 69, 70, 71, 72, 73, 74, 75, 76, 77, 78, 79,
        80, 81, 82, 83, 84, 85, 86, 87, 88, 89, 90, 91, 92, 93, 94, 95,
    ];
    list_assigned.extend_from_slice(&selected);
    let left: Vec<usize> = (0..256).filter(|a| !list_assigned.contains(a)).collect();
    let selected = block_selection.get_destination(param(left, 64), None, &mut rng);
    assert_eq!(
        selected,
        vec![
            32, 33, 34, 35, 36, 37, 38, 39, 40, 41, 42, 43, 44, 45, 46, 47, 48, 49, 50, 51, 52, 53,
            54, 55, 56, 57, 58, 59, 60, 61, 62, 63, 96, 97, 98, 99, 100, 101, 102, 103, 104, 105,
            106, 107, 108, 109, 110, 111, 112, 113, 114, 115, 116, 117, 118, 119, 120, 121, 122,
            123, 124, 125, 126, 127
        ]
    );
    assert_eq!(64, selected.len());
}

#[test]
fn test_random_block_selection() {
    let mut rng = StdRng::seed_from_u64(1);
    let mut block_selection = BlockSelection::new(2, IdentityFilter::new(), true).unwrap();
    block_selection.initialize(1000, 1000, None, &mut rng).unwrap();
    let selected = block_selection.get_destination(
        param(vec![0, 1, 2, 3, 4, 5, 6, 7, 8, 9, 10], 2),
        None,
        &mut rng,
    );
    println!("{:?}", selected);
    assert_eq!(selected.len(), 2);

    let mut block_selection = BlockSelection::new(5, IdentityFilter::new(), true).unwrap();
    block_selection.initialize(1000, 1000, None, &mut rng).unwrap();
    let selected = block_selection.get_destination(
        param(vec![0, 1, 2, 3, 4, 5, 6, 7, 8, 9, 10, 11, 12, 13, 14], 5),
        None,
        &mut rng,
    );
    println!("{:?}", selected);
    assert_eq!(selected.len(), 5);
}

#[test]
fn test_random_selection() {
    let mut rng = StdRng::seed_from_u64(0);
    let mut random_selection = RandomSelection::new();
    random_selection.initialize(10, 10, None, &mut rng).unwrap();
    let selected = random_selection.get_destination(
        param(vec![1, 2, 3, 4, 5, 6, 7, 8, 9, 10], 3),
        None,
        &mut rng,
    );
    assert_eq!(selected.len(), 3);
}

#[test]
fn test_ltile_selection() {
    let mut rng = StdRng::seed_from_u64(0);
    let mut ltile_selection = LTileSelection::new(8).unwrap();
    ltile_selection.initialize(512, 512, None, &mut rng).unwrap();
    let selected = ltile_selection.get_destination(
        param(vec![0, 1, 2, 3, 4, 5, 6, 7, 8, 9], 3),
        None,
        &mut rng,
    );
    assert_eq!(selected, vec![0, 1, 2]);

    let list: Vec<usize> = (0..512).collect();
    let selected = ltile_selection.get_destination(param(list, 64), None, &mut rng);
    assert_eq!(
        selected,
        vec![
            0, 1, 2, 3, 4, 5, 6, 7, 8, 9, 10, 11, 12, 13, 14, 15, 16, 17, 18, 19, 20, 21, 22, 23,
            24, 25, 26, 27, 28, 29, 30, 31, 64, 65, 66, 67, 68, 69, 70, 71, 128, 129, 130, 131,
            132, 133, 134, 135, 192, 193, 194, 195, 196, 197, 198, 199, 256, 257, 258, 259, 260,
            261, 262, 263
        ]
    );

    let mut list: Vec<usize> = (0..512).collect();
    list.retain(|a| !selected.contains(a));
    let selected = ltile_selection.get_destination(param(list, 64), None, &mut rng);
    assert_eq!(
        selected,
        vec![
            72, 73, 74, 75, 76, 77, 78, 79, 80, 81, 82, 83, 84, 85, 86, 87, 88, 89, 90, 91, 92, 93,
            94, 95, 96, 97, 98, 99, 100, 101, 102, 103, 136, 137, 138, 139, 140, 141, 142, 143,
            200, 201, 202, 203, 204, 205, 206, 207, 264, 265, 266, 267, 268, 269, 270, 271, 328,
            329, 330, 331, 332, 333, 334, 335
        ]
    );
}

#[test]
fn test_diagonal_selection() {
    let mut rng = StdRng::seed_from_u64(0);
    let mut diagonal_selection = DiagonalSelection::new(8).unwrap();
    diagonal_selection.initialize(512, 512, None, &mut rng).unwrap();
    let list: Vec<usize> = (0..512).collect();
    let selected = diagonal_selection.get_destination(param(list, 3), None, &mut rng);
    assert_eq!(selected, vec![0, 1, 2]);

    let mut list: Vec<usize> = (0..512).collect();
    list.retain(|a| !selected.contains(a));
    let selected = diagonal_selection.get_destination(param(list.clone(), 3), None, &mut rng);
    assert_eq!(selected, vec![8, 9, 10]);

    let selected = diagonal_selection.get_destination(param(list, 64), None, &mut rng);
    assert_eq!(
        selected,
        vec![
            8, 9, 10, 11, 12, 13, 14, 15, 80, 81, 82, 83, 84, 85, 86, 87, 152, 153, 154, 155, 156,
            157, 158, 159, 224, 225, 226, 227, 228, 229, 230, 231, 296, 297, 298, 299, 300, 301,
            302, 303, 368, 369, 370, 371, 372, 373, 374, 375, 440, 441, 442, 443, 444, 445, 446,
            447, 448, 449, 450, 451, 452, 453, 454, 455
        ]
    );
}

#[test]
fn test_iter_block_selection() {
    let mut rng = StdRng::seed_from_u64(0);
    let block = BlockSelection::new(2, IdentityFilter::new(), false).unwrap();
    let mut iter_block_selection = IterBlockSelection::new(4, block, MinFilter::new());
    iter_block_selection.initialize(1000, 1000, None, &mut rng).unwrap();
    let selected = iter_block_selection.get_destination(
        param(vec![0, 1, 2, 3, 4, 5, 6, 7, 8, 9], 3),
        None,
        &mut rng,
    );
    assert_eq!(selected, vec![0, 2, 4]);
}

#[test]
fn test_iter_block_selection_2() {
    let mut rng = StdRng::seed_from_u64(0);
    let block = BlockSelection::new(4, IdentityFilter::new(), false).unwrap();
    let mut iter_block_selection = IterBlockSelection::new(4, block, MinFilter::new());
    iter_block_selection.initialize(1000, 1000, None, &mut rng).unwrap();
    let selected = iter_block_selection.get_destination(
        param(
            vec![0, 1, 2, 3, 4, 5, 6, 7, 8, 9, 10, 11, 12, 13, 14, 15, 16, 17, 18, 19],
            7,
        ),
        None,
        &mut rng,
    );
    assert_eq!(selected, vec![0, 1, 4, 5, 8, 12, 16]);
}

#[test]
fn test_consecutive_selection_zero_extra_singleton() {
    let mut rng = StdRng::seed_from_u64(0);
    let mut consecutive_selection = ConsecutiveSelection::new();
    consecutive_selection.initialize(4, 4, None, &mut rng).unwrap();
    let selected = consecutive_selection.get_destination(param(vec![3, 5, 9], 0), None, &mut rng);
    assert_eq!(selected, vec![3]);
}
