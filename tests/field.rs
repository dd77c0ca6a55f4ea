use falling_sand::cell::CellType;
use falling_sand::cell::CellType::{Empty, Sand, Wall};
use falling_sand::field::{grid_idx, Field, FieldError};
use falling_sand::rules::Rules;

fn get_xy(w: usize, h: usize, idx: usize) -> (f32, f32) {
    let row = idx / w;
    let col = idx % w;

    (row as f32 / h as f32, col as f32 / w as f32)
}

#[test]
fn test_grid_idx() {
    for i in 0..10 {
        let gid = grid_idx(0, 0, i);
        if i % 2 == 0 {
            assert_eq!(gid, 1);
        } else {
            assert_eq!(gid, 4);
        }
    }
}

#[test]
fn test_rules_invariant() {
    let rules = Rules::new();

    let invariant = [Sand, Sand, Sand, Sand];
    assert_eq!(rules.rules(invariant), invariant);
}

#[test]
fn test_encode_nh() {
    let field = Field::new(32, 32, |idx| {
        let (x, y) = get_xy(32, 32, idx);

        let rad = (x - 0.5).powf(2.) + (y - 0.5).powf(2.);
        if rad <= (0.3 as f32).powf(2.0) && rad >= (0.2 as f32).powf(2.0) {
            CellType::Sand
        } else {
            CellType::Empty
        }
    })
    .unwrap();

    let row = 0;
    let col = 0;
    let gid = grid_idx(row, col, 0);

    assert_eq!(
        field.encodde_neighborhood(gid, row, col),
        [Empty, Empty, Empty, Empty]
    );
}

#[test]
fn test_encode_nh_small_field() {
    let row = 0;
    let col = 0;

    let mut field = Field::new(2, 3, |_| Sand).unwrap();

    field.togglerc(row, col);
    field.togglerc(row + 1, col + 1);

    let gid = grid_idx(row, col, 0);
    assert_eq!(
        field.encodde_neighborhood(gid, row, col),
        [Empty, Sand, Sand, Empty]
    );
}

#[test]
fn test_step() {
    let rules = Rules::new();
    let mut field = Field::new(4, 5, |_| Empty).unwrap();

    field.togglerc(1, 1);
    field.togglerc(2, 2);

    println!("field {:?}", field.export());

    println!("nh (1, 1) {:?}", field.encodde_neighborhood(1, 1, 1));

    field.step(1, &rules);

    println!("field {:?}", field.export());

    assert_eq!(
        field.encodde_neighborhood(1, 1, 1),
        [Empty, Empty, Sand, Sand]
    )
}

#[test]
fn grid_idx_covers_all_corners() {
    assert_eq!(grid_idx(0, 0, 0), 1);
    assert_eq!(grid_idx(0, 1, 0), 2);
    assert_eq!(grid_idx(1, 0, 0), 3);
    assert_eq!(grid_idx(1, 1, 0), 4);
    assert_eq!(grid_idx(0, 1, 1), 3);
    assert_eq!(grid_idx(1, 0, 1), 2);
    assert_eq!(grid_idx(1, 1, 1), 1);
}

#[test]
fn grid_idx_returns_after_two_steps() {
    for row in 0..4 {
        for col in 0..4 {
            for t in 0..4u32 {
                let g = grid_idx(row, col, t);
                assert_eq!(grid_idx(row, col, t + 2), g);
                assert_eq!(grid_idx(row, col, t + 1), 5 - g);
            }
        }
    }
}

#[test]
fn zero_width_is_rejected() {
    assert_eq!(Field::new(0, 3, |_| Sand).err(), Some(FieldError::InvalidDimensions));
}

#[test]
fn zero_height_is_rejected() {
    assert_eq!(Field::new_uniform(3, 0, Sand).err(), Some(FieldError::InvalidDimensions));
}

#[test]
fn uniform_small_field_scenario() {
    let mut field = Field::new_uniform(2, 3, Sand).unwrap();
    field.togglerc(0, 0);
    field.togglerc(1, 1);
    let gid = grid_idx(0, 0, 0);
    assert_eq!(field.encodde_neighborhood(gid, 0, 0), [Empty, Sand, Sand, Empty]);
}

#[test]
fn fill_receives_row_major_index() {
    let field = Field::new(3, 3, |i| if i == 4 { Wall } else { Empty }).unwrap();
    assert_eq!(field.get(1, 1), Wall);
    assert_eq!(field.get(1, 0), Empty);
    assert_eq!(field.get_idx(1, 1), 4);
    assert_eq!(field.playable_height(), 2);
}

#[test]
fn reserved_row_reads_as_wall() {
    let field = Field::new_uniform(2, 3, Empty).unwrap();
    assert_eq!(field.get(2, 0), Wall);
    assert_eq!(field.encodde_neighborhood(1, 1, 0), [Empty, Empty, Wall, Wall]);
}

#[test]
fn unreserved_grid_steps_every_row() {
    let field = Field::with_boundary(2, 3, false, |_| Empty).unwrap();
    assert_eq!(field.playable_height(), 3);
    assert_eq!(field.get(2, 1), Empty);
    assert_eq!(field.encodde_neighborhood(1, 2, 0), [Empty, Empty, Empty, Empty]);
}

#[test]
fn reads_outside_the_grid_clamp_to_the_edge() {
    let mut field = Field::new_uniform(3, 4, Empty).unwrap();
    field.set(0, 0, Sand);
    assert_eq!(field.encodde_neighborhood(4, 0, 0), [Sand, Sand, Sand, Sand]);
    assert_eq!(field.read_clamped(-7, -1), Sand);
    assert_eq!(field.read_clamped(1, 9), Empty);
    assert_eq!(field.read_clamped(40, 0), Wall);
}

#[test]
fn toggle_twice_restores_empty_and_sand_only() {
    let mut field = Field::new_uniform(3, 2, Empty).unwrap();
    field.set(0, 1, Sand);
    field.set(0, 2, Wall);
    for col in 0..3 {
        field.togglerc(0, col);
        field.togglerc(0, col);
    }
    assert_eq!(field.get(0, 0), Empty);
    assert_eq!(field.get(0, 1), Sand);
    assert_eq!(field.get(0, 2), Sand);
}

#[test]
fn toggle_flips_empty_and_sand() {
    let mut field = Field::new_uniform(2, 2, Empty).unwrap();
    field.togglerc(0, 1);
    assert_eq!(field.get(0, 1), Sand);
    field.togglerc(0, 1);
    assert_eq!(field.get(0, 1), Empty);
}

#[test]
fn sand_falls_one_row() {
    let rules = Rules::new();
    let mut field = Field::new_uniform(2, 3, Empty).unwrap();
    field.set(0, 0, Sand);
    field.step(0, &rules);
    assert_eq!(field.get(0, 0), Empty);
    assert_eq!(field.get(1, 0), Sand);
    assert_eq!(field.get(0, 1), Empty);
    assert_eq!(field.get(1, 1), Empty);
}

#[test]
fn sand_rests_on_the_wall_row() {
    let rules = Rules::new();
    let mut field = Field::new_uniform(2, 3, Empty).unwrap();
    field.set(1, 0, Sand);
    field.step(1, &rules);
    assert_eq!(field.get(1, 0), Sand);
    field.step(0, &rules);
    assert_eq!(field.get(1, 0), Sand);
    assert_eq!(field.export(), vec![0, 0, 1, 0, 2, 2]);
}

#[test]
fn step_reads_the_previous_generation_only() {
    let rules = Rules::new();
    let mut field = Field::new_uniform(2, 5, Empty).unwrap();
    field.set(0, 0, Sand);
    field.step(0, &rules);
    assert_eq!(field.get(1, 0), Sand);
    assert_eq!(field.get(2, 0), Empty);
    assert_eq!(field.get(3, 0), Empty);
}

#[test]
fn export_lists_rows_then_the_wall_row() {
    let mut field = Field::new_uniform(2, 2, Sand).unwrap();
    field.set(0, 1, Empty);
    assert_eq!(field.export(), vec![1, 0, 2, 2]);
}
