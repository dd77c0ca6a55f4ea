use falling_sand::cell::CellType::{Empty, Sand, Wall};
use falling_sand::cell::{color_hex, CellType};
use falling_sand::rules::{texture_cells, ConfigurationError, Rules};

#[test]
fn packed_sand_is_stable() {
    let rules = Rules::new();
    assert_eq!(rules.rules([Sand, Sand, Sand, Sand]), [Sand, Sand, Sand, Sand]);
}

#[test]
fn unknown_patterns_are_unchanged() {
    let rules = Rules::new();
    assert_eq!(rules.rules([Wall, Wall, Wall, Wall]), [Wall, Wall, Wall, Wall]);
    assert_eq!(rules.rules([Empty, Empty, Empty, Empty]), [Empty, Empty, Empty, Empty]);
    assert_eq!(rules.rules([Empty, Empty, Sand, Sand]), [Empty, Empty, Sand, Sand]);
}

#[test]
fn authored_rules_and_mirrors_apply() {
    let rules = Rules::new();
    assert_eq!(rules.rules([Sand, Empty, Empty, Empty]), [Empty, Empty, Sand, Empty]);
    assert_eq!(rules.rules([Empty, Sand, Empty, Empty]), [Empty, Empty, Empty, Sand]);
    assert_eq!(rules.rules([Sand, Empty, Wall, Empty]), [Empty, Empty, Wall, Sand]);
    assert_eq!(rules.rules([Empty, Sand, Empty, Wall]), [Empty, Empty, Sand, Wall]);
}

#[test]
fn with_symmetry_interleaves_mirrors() {
    let expanded = Rules::with_symmetry(vec![
        ([Sand, Wall, Empty, Empty], [Empty, Wall, Sand, Empty]),
        ([Sand, Sand, Empty, Empty], [Empty, Empty, Sand, Sand]),
    ]);
    assert_eq!(
        expanded,
        vec![
            ([Sand, Wall, Empty, Empty], [Empty, Wall, Sand, Empty]),
            ([Wall, Sand, Empty, Empty], [Wall, Empty, Empty, Sand]),
            ([Sand, Sand, Empty, Empty], [Empty, Empty, Sand, Sand]),
            ([Sand, Sand, Empty, Empty], [Empty, Empty, Sand, Sand]),
        ]
    );
}

#[test]
fn build_accepts_consistent_rules() {
    let rules = Rules::build(vec![([Sand, Empty, Empty, Empty], [Empty, Empty, Sand, Empty])]).unwrap();
    assert_eq!(rules.num_rules(), 2);
    assert_eq!(rules.rules([Empty, Sand, Empty, Empty]), [Empty, Empty, Empty, Sand]);
    assert_eq!(rules.patterns(), vec![[Sand, Empty, Empty, Empty], [Empty, Sand, Empty, Empty]]);
    assert_eq!(rules.replacements(), vec![[Empty, Empty, Sand, Empty], [Empty, Empty, Empty, Sand]]);
}

#[test]
fn build_rejects_a_clashing_mirror() {
    let r = Rules::build(vec![
        ([Sand, Empty, Empty, Empty], [Empty, Empty, Sand, Empty]),
        ([Empty, Sand, Empty, Empty], [Empty, Sand, Empty, Empty]),
    ]);
    assert_eq!(r.err(), Some(ConfigurationError { first: 0, second: 3 }));
}

#[test]
fn table_is_twice_the_authored_list() {
    let rules = Rules::new();
    assert_eq!(rules.num_rules(), 18);
    assert_eq!(rules.patterns().len(), 18);
    assert_eq!(rules.replacements().len(), 18);
    assert_eq!(rules.useful_size(), 36);
    assert_eq!(rules.texture_len(), 64);
}

#[test]
fn empty_table_sizes() {
    let rules = Rules::build(vec![]).unwrap();
    assert_eq!(rules.useful_size(), 0);
    assert_eq!(rules.texture_len(), 1);
}

#[test]
fn texture_cells_lays_out_halves_and_padding() {
    let arr = vec![[Sand, Empty, Wall, Sand], [Empty, Wall, Sand, Empty]];
    let cells = texture_cells(&arr, 4, 6);
    assert_eq!(
        cells,
        vec![
            Some(Sand), Some(Empty), Some(Empty), Some(Wall), None, None,
            Some(Wall), Some(Sand), Some(Sand), Some(Empty), None, None,
        ]
    );
}

#[test]
fn cell_codes_follow_enumeration_order() {
    let all = CellType::all();
    assert_eq!(all, vec![Empty, Sand, Wall]);
    for (i, c) in all.iter().enumerate() {
        assert_eq!(c.code() as usize, i);
    }
}

#[test]
fn cell_colors_in_hex() {
    assert_eq!(color_hex(Empty), "#000000");
    assert_eq!(color_hex(Sand), "#A8862A");
    assert_eq!(color_hex(Wall), "#949494");
    assert_eq!(Sand.color(), [168, 134, 42, 255]);
}

fn mirror(p: [CellType; 4]) -> [CellType; 4] {
    [p[1], p[0], p[3], p[2]]
}

#[test]
fn lookup_commutes_with_mirroring() {
    let rules = Rules::new();
    let all = CellType::all();
    for &a in &all {
        for &b in &all {
            for &c in &all {
                for &d in &all {
                    let p = [a, b, c, d];
                    assert_eq!(rules.rules(mirror(p)), mirror(rules.rules(p)));
                }
            }
        }
    }
}

#[test]
fn every_authored_rule_has_its_mirror() {
    let rules = Rules::new();
    let patterns = rules.patterns();
    let replacements = rules.replacements();
    for i in 0..patterns.len() {
        let twin = (mirror(patterns[i]), mirror(replacements[i]));
        assert!((0..patterns.len()).any(|j| (patterns[j], replacements[j]) == twin));
    }
}
