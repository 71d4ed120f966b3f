use synth_solver::cauldron::Cauldron;
use synth_solver::color::Color;
use synth_solver::errors::SynthError;
use synth_solver::score::ColorScoreSet;
use synth_solver::shape::Shape;
use synth_solver::types::CauldronProperties;
use synth_solver::types::Material;
use synth_solver::types::Move;
use synth_solver::types::Placement;

fn tile(color: Color, level: u32) -> Option<synth_solver::types::Tile> {
    Some(synth_solver::types::Tile { color, level, played_material_index: None })
}

fn uni_bag_board() -> Cauldron {
    let colors = [
        'B', 'G', 'Y', 'Y', 'W', 'W', 'Y', 'Y', 'Y', 'Y', 'R', 'Y', 'R', 'R', 'Y', 'R', 'Y', 'R',
        'R', 'Y', 'W', 'Y', 'Y', 'Y', 'Y',
    ];
    let levels = [
        0, 0, 0, 0, 0, 0, 0, 0, 0, 1, 0, 0, 1, 0, 0, 0, 0, 0, 0, 1, 0, 2, 0, 0, 0,
    ];
    let mut tiles = Vec::new();
    for i in 0..25 {
        let color = match colors[i] {
            'R' => Color::Red,
            'B' => Color::Blue,
            'G' => Color::Green,
            'Y' => Color::Yellow,
            _ => Color::White,
        };
        tiles.push(tile(color, levels[i]));
    }
    Cauldron {
        size: 5,
        tiles,
        bonus_scores: (3, 5, 7),
        color: Color::White,
        properties: CauldronProperties::empty(),
    }
}

fn uni_bag_materials() -> Vec<Vec<Material>> {
    vec![
        vec![Material::new(Color::Yellow, 15, Shape::from_binary([0b100, 0b100, 0b100])); 2],
        vec![Material::new(Color::Yellow, 10, Shape::from_binary([0b100, 0b110, 0b000]))],
        vec![Material::new(Color::White, 15, Shape::from_binary([0b100, 0b100, 0b100]))],
    ]
}

#[test]
fn test_calculation_basic() {
    let materials = uni_bag_materials();
    let mut cauldron = uni_bag_board();
    let mut scores = vec![ColorScoreSet::default(); materials.len()];

    let placement1 = Placement::new(2 + 5, None);
    cauldron.place(&materials, (0, 0), placement1, true, &mut scores).unwrap();

    let placement2 = Placement::new(1 + 5 * 3, None);
    cauldron.place(&materials, (1, 0), placement2, true, &mut scores).unwrap();

    let placement3 = Placement::new(3 + 5 * 2, None);
    cauldron.place(&materials, (2, 0), placement3, true, &mut scores).unwrap();

    let placement4 = Placement::new(0, None);
    cauldron.place(&materials, (0, 1), placement4, true, &mut scores).unwrap();

    let coverage = cauldron.calculate_coverage(&materials);
    let total_tiles = cauldron.tiles.len() as f32;
    assert_eq!(coverage.get_color(Color::Red) as f32 / total_tiles, 0.);
    assert_eq!(coverage.get_color(Color::Blue) as f32 / total_tiles, 0.);
    assert_eq!(coverage.get_color(Color::Green) as f32 / total_tiles, 0.);
    assert_eq!(coverage.get_color(Color::Yellow) as f32 / total_tiles, 0.36);
    assert_eq!(coverage.get_color(Color::White) as f32 / total_tiles, 0.12);

    let final_scores = cauldron.calculate_final_score(&materials, &scores);

    assert_eq!(final_scores, vec![48, 39, 28]);
}

#[test]
fn test_calculation() {
    let materials = uni_bag_materials();
    let mut cauldron = uni_bag_board();
    let mut scores = vec![ColorScoreSet::default(); materials.len()];

    cauldron.place(&materials, (0, 0), Placement::new(7, None), true, &mut scores).unwrap();
    cauldron.place(&materials, (1, 0), Placement::new(16, None), true, &mut scores).unwrap();
    cauldron.place(&materials, (2, 0), Placement::new(13, None), true, &mut scores).unwrap();
    cauldron.place(&materials, (0, 1), Placement::new(0, None), true, &mut scores).unwrap();

    let final_scores = cauldron.calculate_final_score(&materials, &scores);
    assert_eq!(final_scores, vec![48, 39, 28]);
}

#[test]
fn test_overlap() {
    let straight_material =
        Material::new(Color::White, 15, Shape::from_binary([0b100, 0b100, 0b000]));
    let material_idx = (0, 0);
    let materials = vec![vec![straight_material]];

    let mut tiles = Vec::new();
    for _ in 0..16 {
        tiles.push(tile(Color::White, 0));
    }
    let mut cauldron = Cauldron {
        size: 4,
        tiles,
        bonus_scores: (3, 5, 7),
        color: Color::White,
        properties: CauldronProperties::empty(),
    };

    let mut scores = vec![ColorScoreSet::default(); materials.len()];

    // placement at (1,1) downwards
    let placement_1 = Placement::new(1 + 4, None);
    // placement at (1,2) to the right
    let placement_2 = Placement::new(1 + 2 * 4, Some(synth_solver::shape::Transformation::Rotate90));

    cauldron.place(&materials, material_idx, placement_1, true, &mut scores).unwrap();

    assert_eq!(cauldron.get_tile((0, 2)).unwrap().level, 1);
    assert_eq!(cauldron.get_tile((2, 2)).unwrap().level, 1);

    // overwrite placement
    cauldron.place(&materials, material_idx, placement_2, true, &mut scores).unwrap();

    assert_eq!(cauldron.get_tile((0, 2)).unwrap().level, 2);

    // redo first placement, which should clear up the previous one.
    // the tile that was originally occupied by that placement should have level 0 again
    cauldron.place(&materials, material_idx, placement_1, true, &mut scores).unwrap();

    assert_eq!(cauldron.get_tile((0, 2)).unwrap().level, 3);
    assert_eq!(cauldron.get_tile((2, 2)).unwrap().level, 0);
}

#[test]
fn test_out_of_bounds_is_rejected() {
    let materials = uni_bag_materials();
    let mut cauldron = uni_bag_board();
    let mut scores = vec![ColorScoreSet::default(); materials.len()];

    // A vertical tri placed on the bottom row extends past the board.
    let result = cauldron.place(&materials, (0, 0), Placement::new(22, None), false, &mut scores);
    assert_eq!(result, Err(SynthError::OutOfBounds));

    // An index beyond the grid is out of bounds as well.
    let result = cauldron.place(&materials, (0, 0), Placement::new(99, None), false, &mut scores);
    assert_eq!(result, Err(SynthError::OutOfBounds));
}

#[test]
fn test_disallowed_overlap_is_rejected() {
    let materials = uni_bag_materials();
    let mut cauldron = uni_bag_board();
    let mut scores = vec![ColorScoreSet::default(); materials.len()];

    cauldron.place(&materials, (0, 0), Placement::new(2, None), false, &mut scores).unwrap();
    let result = cauldron.place(&materials, (0, 1), Placement::new(2, None), false, &mut scores);
    assert_eq!(result, Err(SynthError::DisallowedOverlap));
}

#[test]
fn test_hole_is_rejected() {
    let materials = uni_bag_materials();
    let mut tiles = Vec::new();
    for i in 0..25 {
        if i == 12 {
            tiles.push(None);
        } else {
            tiles.push(tile(Color::Yellow, 0));
        }
    }
    let mut cauldron = Cauldron {
        size: 5,
        tiles,
        bonus_scores: (3, 5, 7),
        color: Color::White,
        properties: CauldronProperties::empty(),
    };
    let mut scores = vec![ColorScoreSet::default(); materials.len()];

    // The vertical tri at index 2 covers the hole at index 12.
    let result = cauldron.place(&materials, (0, 0), Placement::new(2, None), false, &mut scores);
    assert_eq!(result, Err(SynthError::UnavailableTile));
}

#[test]
fn test_place_all_matches_iterated_place() {
    let materials = uni_bag_materials();
    let moves = vec![
        Move { material_index: (0, 0), placement: Placement::new(7, None) },
        Move { material_index: (1, 0), placement: Placement::new(16, None) },
        Move { material_index: (2, 0), placement: Placement::new(13, None) },
        Move { material_index: (0, 1), placement: Placement::new(0, None) },
    ];

    let mut one_by_one = uni_bag_board();
    let mut scores = vec![ColorScoreSet::default(); materials.len()];
    for mv in moves.iter() {
        one_by_one.place(&materials, mv.material_index, mv.placement, true, &mut scores).unwrap();
    }

    let mut all_at_once = uni_bag_board();
    let batch_scores = all_at_once.place_all(&materials, &moves, true).unwrap();

    for g in 0..materials.len() {
        for color in [Color::Red, Color::Blue, Color::Green, Color::Yellow, Color::White] {
            assert_eq!(batch_scores[g].get(color), scores[g].get(color));
        }
    }
    for y in 0..5usize {
        for x in 0..5usize {
            let a = one_by_one.get_tile((x, y)).unwrap();
            let b = all_at_once.get_tile((x, y)).unwrap();
            assert_eq!(a.color, b.color);
            assert_eq!(a.level, b.level);
            assert_eq!(a.played_material_index, b.played_material_index);
        }
    }
}

#[test]
fn test_coverage_total_counts_played_tiles() {
    let materials = uni_bag_materials();
    let mut cauldron = uni_bag_board();
    let mut scores = vec![ColorScoreSet::default(); materials.len()];

    cauldron.place(&materials, (0, 0), Placement::new(7, None), true, &mut scores).unwrap();
    cauldron.place(&materials, (2, 0), Placement::new(13, None), true, &mut scores).unwrap();

    let coverage = cauldron.calculate_coverage(&materials);
    let mut played = 0u64;
    for y in 0..5usize {
        for x in 0..5usize {
            if cauldron.get_tile((x, y)).unwrap().played_material_index.is_some() {
                played += 1;
            }
        }
    }
    assert_eq!(coverage.total(), played);
    assert_eq!(coverage.total(), 6);
}

#[test]
fn test_color_score_set_accumulates() {
    let mut set = ColorScoreSet::new();
    set.add(Color::Green, 12);
    set.add(Color::Green, 5);
    set.add(Color::Red, 3);
    assert_eq!(set.get(Color::Green), 17);
    assert_eq!(set.get(Color::Red), 3);
    assert_eq!(set.get(Color::White), 0);

    let pairs = set.into_colors();
    assert_eq!(pairs[0], (Color::Red, 3));
    assert_eq!(pairs[2], (Color::Green, 17));
}

#[test]
fn test_color_indices_round_trip() {
    for i in 0..5 {
        assert_eq!(Color::from_index(i).get_index(), i as usize);
    }
    assert_eq!(Color::from_mat_color_tag("ITEM_MAT_COLOR_RED"), Color::Red);
    assert_eq!(Color::from_mat_color_tag("ITEM_MAT_COLOR_BLUE"), Color::Blue);
    assert_eq!(Color::from_mat_color_tag("ITEM_MAT_COLOR_GREEN"), Color::Green);
    assert_eq!(Color::from_mat_color_tag("ITEM_MAT_COLOR_YELLOW"), Color::Yellow);
    assert_eq!(Color::from_mat_color_tag("ITEM_MAT_COLOR_WHITE"), Color::White);
}

#[test]
fn test_error_messages_are_distinct() {
    assert_ne!(SynthError::OutOfBounds.message(), SynthError::DisallowedOverlap.message());
    assert_ne!(SynthError::OutOfBounds.message(), SynthError::UnavailableTile.message());
    assert_ne!(SynthError::DisallowedOverlap.message(), SynthError::UnavailableTile.message());
}

#[test]
fn test_synergy_flag_leaves_scoring_unchanged() {
    // The synergy rule is not defined yet, so the flag must not alter any
    // score: the same placements on a synergy cauldron and on a plain one
    // give identical raw and final scores.
    let materials = vec![
        vec![
            Material::new(Color::Green, 12, Shape::from_binary([0b110, 0b111, 0b000])),
            Material::new(Color::Green, 10, Shape::from_binary([0b100, 0b110, 0b000])),
        ],
        vec![Material::new(Color::Yellow, 22, Shape::from_binary([0b010, 0b111, 0b000]))],
        vec![Material::new(Color::Green, 33, Shape::from_binary([0b110, 0b001, 0b010]))],
    ];
    let colors = [
        'B', 'B', 'G', 'G', 'B', 'B', 'B', 'G', 'G', 'B', 'G', 'G', 'G', 'G', 'G', 'G', 'G', 'G',
        'G', 'G', 'B', 'B', 'G', 'G', 'B',
    ];
    let levels = [
        0, 0, 0, 0, 0, 0, 0, 0, 1, 0, 0, 1, 0, 0, 0, 0, 0, 0, 2, 0, 0, 1, 0, 0, 0,
    ];
    let build = |properties: CauldronProperties| {
        let mut tiles = Vec::new();
        for i in 0..25 {
            let color = match colors[i] {
                'B' => Color::Blue,
                _ => Color::Green,
            };
            tiles.push(tile(color, levels[i]));
        }
        Cauldron { size: 5, tiles, bonus_scores: (3, 5, 7), color: Color::Green, properties }
    };

    let mut with_flag = build(CauldronProperties::synergy());
    let mut without_flag = build(CauldronProperties::empty());
    let mut scores_a = vec![ColorScoreSet::default(); materials.len()];
    let mut scores_b = vec![ColorScoreSet::default(); materials.len()];

    let moves = [
        ((0usize, 0usize), Placement::new(0, None)),
        ((2, 0), Placement::new(2, None)),
        (
            (1, 0),
            Placement::new(2 + 5, Some(synth_solver::shape::Transformation::Rotate270)),
        ),
        ((0, 1), Placement::new(1 + 5 * 2, None)),
    ];
    for (mi, placement) in moves.iter() {
        with_flag.place(&materials, *mi, *placement, true, &mut scores_a).unwrap();
        without_flag.place(&materials, *mi, *placement, true, &mut scores_b).unwrap();
    }

    for g in 0..materials.len() {
        for color in [Color::Red, Color::Blue, Color::Green, Color::Yellow, Color::White] {
            assert_eq!(scores_a[g].get(color), scores_b[g].get(color));
        }
    }
    assert_eq!(
        with_flag.calculate_final_score(&materials, &scores_a),
        without_flag.calculate_final_score(&materials, &scores_b)
    );
}
