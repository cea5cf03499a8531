//! Grid input builders, visualization helpers, and the puzzle validator.

use trm::fixed::FX_ONE;
use trm::{
    compute_attention_heatmap, create_maze_input, create_sudoku_input, decode_sudoku_output,
    normalize_activations, validate_sudoku,
};

fn to_f(x: i64) -> f64 {
    x as f64 / FX_ONE as f64
}

#[test]
fn sudoku_input_pads_and_truncates_to_81() {
    let short: Vec<u8> = vec![5, 3, 7];
    let input = create_sudoku_input(&short);
    assert_eq!(input.len(), 81);
    assert_eq!(&input[0..3], &[5, 3, 7]);
    assert!(input[3..].iter().all(|&v| v == 0));

    let long: Vec<u8> = (0..100).map(|i| (i % 10) as u8).collect();
    let input2 = create_sudoku_input(&long);
    assert_eq!(input2.len(), 81);
    assert_eq!(input2[80], long[80]);
}

#[test]
fn maze_input_pads_and_truncates_to_the_grid_size() {
    let grid: Vec<u8> = vec![1, 0, 2];
    let input = create_maze_input(&grid, 3, 2);
    assert_eq!(input.len(), 6);
    assert_eq!(&input[0..3], &[1, 0, 2]);
    assert_eq!(&input[3..], &[0, 0, 0]);
}

#[test]
fn normalize_activations_maps_the_range_onto_bytes() {
    let empty: Vec<i64> = vec![];
    assert!(normalize_activations(&empty).is_empty());

    let constant: Vec<i64> = vec![5 * FX_ONE; 4];
    assert_eq!(normalize_activations(&constant), vec![128, 128, 128, 128]);

    let ramp: Vec<i64> = vec![0, FX_ONE / 2, FX_ONE];
    let bytes = normalize_activations(&ramp);
    assert_eq!(bytes[0], 0);
    assert_eq!(bytes[2], 255);
    assert!(bytes[1] == 127 || bytes[1] == 128);
}

#[test]
fn heatmap_rows_are_softmax_normalized() {
    let query: Vec<i64> = vec![FX_ONE, 2 * FX_ONE, 3 * FX_ONE];
    let key: Vec<i64> = vec![FX_ONE, FX_ONE / 2, -FX_ONE];
    let map = compute_attention_heatmap(&query, &key, 3);
    assert_eq!(map.len(), 9);
    for i in 0..3 {
        let mut sum = 0.0f64;
        for j in 0..3 {
            let v = to_f(map[i * 3 + j]);
            assert!(v >= 0.0);
            sum += v;
        }
        assert!((sum - 1.0).abs() < 1e-5, "row {} sums to {}", i, sum);
    }
}

#[test]
fn heatmap_handles_short_vectors_with_zero_fill() {
    let query: Vec<i64> = vec![FX_ONE];
    let key: Vec<i64> = vec![FX_ONE];
    let map = compute_attention_heatmap(&query, &key, 2);
    assert_eq!(map.len(), 4);
    // every row is still a softmax of its (partly zero) scores
    let row1: f64 = to_f(map[2]) + to_f(map[3]);
    assert!((row1 - 1.0).abs() < 1e-5);
}

#[test]
fn decode_renders_dots_digits_and_line_breaks() {
    let small: Vec<u8> = vec![0, 1, 2];
    assert_eq!(decode_sudoku_output(&small).as_str(), ".12");

    let grid: Vec<u8> = vec![1; 81];
    let text = decode_sudoku_output(&grid);
    let lines: Vec<&str> = text.split('\n').collect();
    assert_eq!(lines.len(), 9);
    assert!(lines.iter().all(|l| *l == "111111111"));
}

fn solved_grid() -> Vec<u8> {
    vec![
        5, 3, 4, 6, 7, 8, 9, 1, 2,
        6, 7, 2, 1, 9, 5, 3, 4, 8,
        1, 9, 8, 3, 4, 2, 5, 6, 7,
        8, 5, 9, 7, 6, 1, 4, 2, 3,
        4, 2, 6, 8, 5, 3, 7, 9, 1,
        7, 1, 3, 9, 2, 4, 8, 5, 6,
        9, 6, 1, 5, 3, 7, 2, 8, 4,
        2, 8, 7, 4, 1, 9, 6, 3, 5,
        3, 4, 5, 2, 8, 6, 1, 7, 9,
    ]
}

#[test]
fn validate_accepts_a_solved_grid() {
    assert!(validate_sudoku(&solved_grid()));
}

#[test]
fn validate_rejects_wrong_length() {
    let grid: Vec<u8> = vec![1; 80];
    assert!(!validate_sudoku(&grid));
}

#[test]
fn validate_rejects_out_of_range_cells() {
    let mut grid = solved_grid();
    grid[40] = 0;
    assert!(!validate_sudoku(&grid));
    let mut grid2 = solved_grid();
    grid2[0] = 10;
    assert!(!validate_sudoku(&grid2));
}

#[test]
fn validate_rejects_a_row_duplicate() {
    let mut grid = solved_grid();
    // copy a value across its own row
    grid[1] = grid[0];
    assert!(!validate_sudoku(&grid));
}

#[test]
fn validate_rejects_a_column_duplicate() {
    // every row reads 1..9, so rows pass but each column repeats one digit
    let mut grid: Vec<u8> = Vec::new();
    for _ in 0..9 {
        for j in 0..9 {
            grid.push((j + 1) as u8);
        }
    }
    assert!(!validate_sudoku(&grid));
}

#[test]
fn validate_rejects_a_box_duplicate() {
    // cyclic row shifts keep rows and columns distinct but break the boxes
    let mut grid: Vec<u8> = Vec::new();
    for i in 0..9 {
        for j in 0..9 {
            grid.push(((i + j) % 9 + 1) as u8);
        }
    }
    assert!(!validate_sudoku(&grid));
}
