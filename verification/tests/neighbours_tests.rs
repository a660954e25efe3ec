use caminos::neighbours::{
    get_modular_neighbours_from_vector, get_non_modular_neighbours_from_vector,
    HypercubeNeighbours, KingNeighbours, ManhattanNeighbours,
};

#[test]
fn test_manhattan_neighbours_distance_1() {
    let sides = vec![3];
    let manhattan_distance = 1;
    let vectors = ManhattanNeighbours::get_vectors_in_manhattan_distance(&sides, manhattan_distance);
    println!("{:?}", vectors);
    assert_eq!(vectors.len(), 2);
    let expected = vec![vec![-1], vec![1]];
    for (index, vector) in vectors.iter().enumerate() {
        assert_eq!(vector, &expected[index]);
    }

    let sides = vec![3, 3];
    let vectors = ManhattanNeighbours::get_vectors_in_manhattan_distance(&sides, manhattan_distance);
    println!("{:?}", vectors);
    assert_eq!(vectors.len(), 4);
    let expected = vec![vec![-1, 0], vec![0, -1], vec![0, 1], vec![1, 0]];
    for (index, vector) in vectors.iter().enumerate() {
        assert_eq!(vector, &expected[index]);
    }

    let sides = vec![3, 3, 3];
    let vectors = ManhattanNeighbours::get_vectors_in_manhattan_distance(&sides, manhattan_distance);
    println!("{:?}", vectors);
    assert_eq!(vectors.len(), 6);
    let expected = vec![
        vec![-1, 0, 0],
        vec![0, -1, 0],
        vec![0, 0, -1],
        vec![0, 0, 1],
        vec![0, 1, 0],
        vec![1, 0, 0],
    ];
    for (index, vector) in vectors.iter().enumerate() {
        assert_eq!(vector, &expected[index]);
    }
}

#[test]
fn test_manhattan_neighbours_distance_3() {
    let sides = vec![8];
    let manhattan_distance = 3;
    let vectors = ManhattanNeighbours::get_vectors_in_manhattan_distance(&sides, manhattan_distance);
    println!("{:?}", vectors);
    assert_eq!(vectors.len(), 6);
    let expected = vec![vec![-3], vec![-2], vec![-1], vec![1], vec![2], vec![3]];
    for (index, vector) in vectors.iter().enumerate() {
        assert_eq!(vector, &expected[index]);
    }

    let sides = vec![8, 8];
    let vectors = ManhattanNeighbours::get_vectors_in_manhattan_distance(&sides, manhattan_distance);
    println!("{:?}", vectors);
    assert_eq!(vectors.len(), 24);
    let expected = vec![
        vec![-3, 0],
        vec![-2, -1],
        vec![-2, 0],
        vec![-2, 1],
        vec![-1, -2],
        vec![-1, -1],
        vec![-1, 0],
        vec![-1, 1],
        vec![-1, 2],
        vec![0, -3],
        vec![0, -2],
        vec![0, -1],
        vec![0, 1],
        vec![0, 2],
        vec![0, 3],
        vec![1, -2],
        vec![1, -1],
        vec![1, 0],
        vec![1, 1],
        vec![1, 2],
        vec![2, -1],
        vec![2, 0],
        vec![2, 1],
        vec![3, 0],
    ];
    for (index, vector) in vectors.iter().enumerate() {
        assert_eq!(vector, &expected[index]);
    }
}

#[test]
fn test_king_neighbours_distance_1() {
    let sides = vec![3];
    let chessboard_distance = 1;
    let vectors = KingNeighbours::get_vectors_in_king_distance(&sides, chessboard_distance);
    println!("{:?}", vectors);
    assert_eq!(vectors.len(), 2);
    let expected = vec![vec![-1], vec![1]];
    for (index, vector) in vectors.iter().enumerate() {
        assert_eq!(vector, &expected[index]);
    }

    let sides = vec![3, 3];
    let vectors = KingNeighbours::get_vectors_in_king_distance(&sides, chessboard_distance);
    println!("{:?}", vectors);
    assert_eq!(vectors.len(), 8);
    let expected = vec![
        vec![-1, -1],
        vec![-1, 0],
        vec![-1, 1],
        vec![0, -1],
        vec![0, 1],
        vec![1, -1],
        vec![1, 0],
        vec![1, 1],
    ];
    for (index, vector) in vectors.iter().enumerate() {
        assert_eq!(vector, &expected[index]);
    }

    let sides = vec![3, 3, 3];
    let vectors = KingNeighbours::get_vectors_in_king_distance(&sides, chessboard_distance);
    println!("{:?}", vectors);
    assert_eq!(vectors.len(), 26);
    let expected = vec![
        vec![-1, -1, -1],
        vec![-1, -1, 0],
        vec![-1, -1, 1],
        vec![-1, 0, -1],
        vec![-1, 0, 0],
        vec![-1, 0, 1],
        vec![-1, 1, -1],
        vec![-1, 1, 0],
        vec![-1, 1, 1],
        vec![0, -1, -1],
        vec![0, -1, 0],
        vec![0, -1, 1],
        vec![0, 0, -1],
        vec![0, 0, 1],
        vec![0, 1, -1],
        vec![0, 1, 0],
        vec![0, 1, 1],
        vec![1, -1, -1],
        vec![1, -1, 0],
        vec![1, -1, 1],
        vec![1, 0, -1],
        vec![1, 0, 0],
        vec![1, 0, 1],
        vec![1, 1, -1],
        vec![1, 1, 0],
        vec![1, 1, 1],
    ];
    for (index, vector) in vectors.iter().enumerate() {
        assert_eq!(vector, &expected[index]);
    }
}

#[test]
fn test_king_neighbours_distance_2() {
    let sides = vec![8];
    let chessboard_distance = 2;
    let vectors = KingNeighbours::get_vectors_in_king_distance(&sides, chessboard_distance);
    println!("{:?}", vectors);
    assert_eq!(vectors.len(), 4);
    let expected = vec![vec![-2], vec![-1], vec![1], vec![2]];
    for (index, vector) in vectors.iter().enumerate() {
        assert_eq!(vector, &expected[index]);
    }

    let sides = vec![8, 8];
    let vectors = KingNeighbours::get_vectors_in_king_distance(&sides, chessboard_distance);
    println!("{:?}", vectors);
    assert_eq!(vectors.len(), 24);
}

#[test]
fn test_hypercube_neighbours() {
    let neighbours = HypercubeNeighbours::get_neighbours(8);
    let nei = vec![
        vec![1, 2, 4],
        vec![0, 3, 5],
        vec![0, 3, 6],
        vec![1, 2, 7],
        vec![0, 5, 6],
        vec![1, 4, 7],
        vec![2, 4, 7],
        vec![3, 5, 6],
    ];
    for (index, vector) in neighbours.iter().enumerate() {
        assert_eq!(vector.len(), nei[index].len());
        for value in vector.iter() {
            assert!(nei[index].contains(value));
        }
    }
}

#[test]
fn test_get_neighbours_from_vector() {
    let sides = vec![3, 3];
    let vector_neighbours = vec![vec![0, 1], vec![1, 0]];
    let neighbours = get_non_modular_neighbours_from_vector(&sides, &vector_neighbours).unwrap();
    let expected: Vec<Vec<usize>> = vec![
        vec![1, 3],
        vec![2, 4],
        vec![5],
        vec![4, 6],
        vec![5, 7],
        vec![8],
        vec![7],
        vec![8],
        vec![],
    ];
    for (index, vector) in neighbours.iter().enumerate() {
        assert_eq!(vector.len(), expected[index].len());
        for value in vector.iter() {
            assert!(expected[index].contains(value));
        }
    }

    let neighbours = get_modular_neighbours_from_vector(&sides, &vector_neighbours).unwrap();
    let expected: Vec<Vec<usize>> = vec![
        vec![1, 3],
        vec![2, 4],
        vec![0, 5],
        vec![4, 6],
        vec![5, 7],
        vec![3, 8],
        vec![7, 0],
        vec![8, 1],
        vec![6, 2],
    ];
    for (index, vector) in neighbours.iter().enumerate() {
        assert_eq!(vector.len(), expected[index].len());
        for value in vector.iter() {
            assert!(expected[index].contains(value));
        }
    }
}
