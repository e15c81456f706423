use splat_renderer::grid::{gradient_divisor, procedural_grid, GridCell};

#[test]
fn empty_grid() {
    assert!(procedural_grid(0).is_empty());
}

#[test]
fn single_cell_grid() {
    assert_eq!(procedural_grid(1), vec![GridCell { i: 0, j: 0, k: 0, scale_variation: 0 }]);
}

#[test]
fn two_per_axis_order() {
    let cells = procedural_grid(2);
    let coords: Vec<(u32, u32, u32)> = cells.iter().map(|c| (c.i, c.j, c.k)).collect();
    assert_eq!(
        coords,
        vec![
            (0, 0, 0),
            (0, 0, 1),
            (0, 1, 0),
            (0, 1, 1),
            (1, 0, 0),
            (1, 0, 1),
            (1, 1, 0),
            (1, 1, 1),
        ]
    );
    assert_eq!(cells[7].scale_variation, 3);
}

#[test]
fn five_per_axis_has_125_cells() {
    let cells = procedural_grid(5);
    assert_eq!(cells.len(), 125);
    for i in 0..5u32 {
        for j in 0..5u32 {
            for k in 0..5u32 {
                let c = cells[((i * 5 + j) * 5 + k) as usize];
                assert_eq!((c.i, c.j, c.k), (i, j, k));
                assert_eq!(c.scale_variation, i % 3 + j % 3 + k % 3);
            }
        }
    }
}

#[test]
fn scale_variation_examples() {
    let cells = procedural_grid(3);
    assert_eq!(cells.len(), 27);
    assert_eq!(cells[21], GridCell { i: 2, j: 1, k: 0, scale_variation: 3 });
    assert_eq!(cells[26], GridCell { i: 2, j: 2, k: 2, scale_variation: 6 });
    assert!(cells.iter().all(|c| c.scale_variation <= 6));
}

#[test]
fn gradient_divisors() {
    assert_eq!(gradient_divisor(0), 1);
    assert_eq!(gradient_divisor(1), 1);
    assert_eq!(gradient_divisor(2), 1);
    assert_eq!(gradient_divisor(5), 4);
    assert_eq!(gradient_divisor(u32::MAX), u32::MAX - 1);
}
