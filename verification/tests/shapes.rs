use synth_solver::neighbours::ShapeNeighbours;
use synth_solver::shape::Shape;
use synth_solver::shape::Transformation;

#[test]
fn test_from_binary() {
    assert_eq!(0, Shape::from_binary([0b000, 0b000, 0b000]).0);
    assert_eq!(0b111_111_111, Shape::from_binary([0b111, 0b111, 0b111]).0);
    assert_eq!(0b011_101_010, Shape::from_binary([0b010, 0b101, 0b110]).0);
}

#[test]
fn impl_shape_test_from_binary() {
    assert_eq!(0, Shape::from_binary([0b000, 0b000, 0b000]).0);
    assert_eq!(0b111_111_111, Shape::from_binary([0b111, 0b111, 0b111]).0);
    assert_eq!(0b011_101_010, Shape::from_binary([0b010, 0b101, 0b110]).0);
}

#[test]
fn test_get() {
    let shape = Shape::from_binary([0b010, 0b101, 0b110]);

    assert!(!shape.get(0, 0));
    assert!(shape.get(1, 0));
    assert!(!shape.get(2, 0));
    assert!(shape.get(0, 1));
    assert!(!shape.get(1, 1));
    assert!(shape.get(2, 1));
    assert!(shape.get(0, 2));
    assert!(shape.get(1, 2));
    assert!(!shape.get(2, 2));
}

#[test]
fn test_get_coordinate() {
    let shape = Shape::from_binary([0b010, 0b101, 0b110]);

    assert!(!shape.get(0, 0));
    assert!(shape.get(1, 0));
    assert!(!shape.get(2, 0));
    assert!(shape.get(0, 1));
    assert!(!shape.get(1, 1));
    assert!(shape.get(2, 1));
    assert!(shape.get(0, 2));
    assert!(shape.get(1, 2));
    assert!(!shape.get(2, 2));
}

#[test]
fn test_to_braille() {
    assert_eq!("⠐⠀", Shape::from_binary([0b000, 0b010, 0b000]).to_braille());
    assert_eq!("⠿⠇", Shape::from_binary([0b111, 0b111, 0b111]).to_braille());
    assert_eq!("⠮⠂", Shape::from_binary([0b010, 0b101, 0b110]).to_braille());
}

#[test]
fn test_cache() {
    let cache = Shape::init_neighbour_cache();
    assert_eq!(cache.len(), 512);

    for i in 0..512 {
        let shape = Shape(i as u16);
        assert_eq!(shape.get_neighbours(), shape.calculate_neighbours());
        assert_eq!(cache[i], shape.calculate_neighbours());
    }

    let shape = Shape::from_binary([0b010, 0b101, 0b110]);
    assert_eq!(shape.get_neighbours(), shape.calculate_neighbours());
}

#[test]
fn impl_shape_test_cache() {
    let cache = Shape::init_neighbour_cache();

    for i in 0..512 {
        let shape = Shape(i as u16);
        assert_eq!(shape.get_neighbours(), shape.calculate_neighbours());
        assert_eq!(cache[i], shape.get_neighbours());
    }

    let shape = Shape::from_binary([0b010, 0b101, 0b110]);
    assert_eq!(shape.get_neighbours(), shape.calculate_neighbours());
}

#[test]
fn test_get_max_x_y() {
    assert_eq!(0, Shape::from_binary([0b100, 0b000, 0b000]).get_max_x());
    assert_eq!(0, Shape::from_binary([0b100, 0b000, 0b000]).get_max_y());
    assert_eq!(1, Shape::from_binary([0b000, 0b010, 0b000]).get_max_x());
    assert_eq!(1, Shape::from_binary([0b000, 0b010, 0b000]).get_max_y());
    assert_eq!(2, Shape::from_binary([0b111, 0b111, 0b111]).get_max_x());
    assert_eq!(2, Shape::from_binary([0b111, 0b111, 0b111]).get_max_y());
    assert_eq!(2, Shape::from_binary([0b010, 0b101, 0b010]).get_max_x());
    assert_eq!(2, Shape::from_binary([0b010, 0b101, 0b010]).get_max_y());

    assert_eq!(0, Shape::from_binary([0b000, 0b000, 0b100]).get_max_x());
    assert_eq!(2, Shape::from_binary([0b000, 0b000, 0b100]).get_max_y());

    assert_eq!(2, Shape::from_binary([0b001, 0b000, 0b000]).get_max_x());
    assert_eq!(0, Shape::from_binary([0b001, 0b000, 0b000]).get_max_y());
}

#[test]
fn test_is_normalized() {
    assert!(Shape::from_binary([0b111, 0b111, 0b111]).is_normalized());
    assert!(!Shape::from_binary([0b000, 0b010, 0b000]).is_normalized());

    assert!(Shape::from_binary([0b000, 0b000, 0b000]).is_normalized());

    assert!(Shape::from_binary([0b100, 0b000, 0b000]).is_normalized());
    assert!(Shape::from_binary([0b111, 0b000, 0b000]).is_normalized());
    assert!(Shape::from_binary([0b100, 0b100, 0b100]).is_normalized());
    assert!(Shape::from_binary([0b100, 0b000, 0b001]).is_normalized());
    assert!(Shape::from_binary([0b001, 0b000, 0b100]).is_normalized());

    assert!(!Shape::from_binary([0b001, 0b000, 0b000]).is_normalized());
    assert!(!Shape::from_binary([0b000, 0b000, 0b100]).is_normalized());
    assert!(!Shape::from_binary([0b000, 0b111, 0b000]).is_normalized());
    assert!(!Shape::from_binary([0b010, 0b010, 0b010]).is_normalized());
    assert!(!Shape::from_binary([0b000, 0b010, 0b001]).is_normalized());
}

#[test]
fn test_normalize() {
    assert_eq!(
        Shape::from_binary([0b000, 0b010, 0b000]).normalize(),
        Shape::from_binary([0b100, 0b000, 0b000]),
    );
    assert_eq!(
        Shape::from_binary([0b001, 0b000, 0b000]).normalize(),
        Shape::from_binary([0b100, 0b000, 0b000]),
    );
    assert_eq!(
        Shape::from_binary([0b000, 0b000, 0b100]).normalize(),
        Shape::from_binary([0b100, 0b000, 0b000]),
    );
    assert_eq!(
        Shape::from_binary([0b000, 0b111, 0b000]).normalize(),
        Shape::from_binary([0b111, 0b000, 0b000]),
    );
    assert_eq!(
        Shape::from_binary([0b010, 0b010, 0b010]).normalize(),
        Shape::from_binary([0b100, 0b100, 0b100]),
    );
    assert_eq!(
        Shape::from_binary([0b000, 0b010, 0b001]).normalize(),
        Shape::from_binary([0b100, 0b010, 0b000]),
    );
}

#[test]
fn test_normalize_is_idempotent() {
    for i in 0..512 {
        let shape = Shape(i as u16);
        assert_eq!(shape.normalize().normalize(), shape.normalize());
    }
}

#[test]
fn test_raw_transformation_rotate_90() {
    assert_eq!(
        Shape::from_binary([0b010, 0b010, 0b010]).apply_raw_transformation(Transformation::Rotate90),
        Shape::from_binary([0b000, 0b111, 0b000]),
    );
    assert_eq!(
        Shape::from_binary([0b010, 0b110, 0b000]).apply_raw_transformation(Transformation::Rotate90),
        Shape::from_binary([0b010, 0b011, 0b000]),
    );
    assert_eq!(
        Shape::from_binary([0b100, 0b000, 0b010]).apply_raw_transformation(Transformation::Rotate90),
        Shape::from_binary([0b001, 0b100, 0b000]),
    );
}

#[test]
fn test_raw_transformation_rotate_combine() {
    for i in 0..512u16 {
        assert_eq!(
            Shape(i).apply_raw_transformation(Transformation::Rotate180),
            Shape(i)
                .apply_raw_transformation(Transformation::Rotate90)
                .apply_raw_transformation(Transformation::Rotate90),
        );
        assert_eq!(
            Shape(i).apply_raw_transformation(Transformation::Rotate270),
            Shape(i)
                .apply_raw_transformation(Transformation::Rotate90)
                .apply_raw_transformation(Transformation::Rotate90)
                .apply_raw_transformation(Transformation::Rotate90),
        );
        assert_eq!(
            Shape(i),
            Shape(i)
                .apply_raw_transformation(Transformation::Rotate90)
                .apply_raw_transformation(Transformation::Rotate90)
                .apply_raw_transformation(Transformation::Rotate90)
                .apply_raw_transformation(Transformation::Rotate90),
        );
    }
}

#[test]
fn test_raw_transformation_flip() {
    assert_eq!(
        Shape::from_binary([0b100, 0b001, 0b010])
            .apply_raw_transformation(Transformation::FlipHorizontal),
        Shape::from_binary([0b001, 0b100, 0b010]),
    );
    assert_eq!(
        Shape::from_binary([0b100, 0b001, 0b010])
            .apply_raw_transformation(Transformation::FlipVertical),
        Shape::from_binary([0b010, 0b001, 0b100]),
    );

    assert_eq!(
        Shape::from_binary([0b000, 0b000, 0b000])
            .apply_raw_transformation(Transformation::FlipHorizontal),
        Shape::from_binary([0b000, 0b000, 0b000]),
    );
    assert_eq!(
        Shape::from_binary([0b111, 0b111, 0b111])
            .apply_raw_transformation(Transformation::FlipVertical),
        Shape::from_binary([0b111, 0b111, 0b111]),
    );
}

#[test]
fn test_raw_transformation_flip_twice() {
    for i in 0..512u16 {
        assert_eq!(
            Shape(i),
            Shape(i)
                .apply_raw_transformation(Transformation::FlipVertical)
                .apply_raw_transformation(Transformation::FlipVertical),
        );
        assert_eq!(
            Shape(i),
            Shape(i)
                .apply_raw_transformation(Transformation::FlipHorizontal)
                .apply_raw_transformation(Transformation::FlipHorizontal),
        );
    }
}

#[test]
fn test_raw_transformation_no_bit_loss() {
    for i in 0..512u16 {
        assert_eq!(
            i.count_ones(),
            Shape(i)
                .apply_raw_transformation(Transformation::Rotate90)
                .apply_raw_transformation(Transformation::Rotate180)
                .apply_raw_transformation(Transformation::Rotate270)
                .apply_raw_transformation(Transformation::FlipVertical)
                .apply_raw_transformation(Transformation::FlipHorizontal)
                .0
                .count_ones(),
        );
    }
}

#[test]
fn test_shape_neighbours() {
    let neighbours = ShapeNeighbours(0b00000_00000_00000_00000_00000);
    assert_eq!(neighbours.offsets().len(), 0);

    let neighbours = ShapeNeighbours(0b10000_01000_00110_00100_01111);
    assert_eq!(neighbours.offsets().len(), 9);

    let neighbours = ShapeNeighbours(0b10000_01000_00110_00111_01011);
    let offsets = neighbours.offsets();
    assert_eq!(offsets[0], (-1, -1));
    assert_eq!(offsets[1], (0, -1));
    assert_eq!(offsets[2], (2, -1));
    assert_eq!(offsets[3], (-1, 0));
    assert_eq!(offsets[4], (0, 0));
    assert_eq!(offsets[5], (1, 0));
    assert_eq!(offsets[6], (0, 1));
    assert_eq!(offsets[7], (1, 1));
    assert_eq!(offsets[8], (2, 2));
    assert_eq!(offsets[9], (3, 3));
    assert_eq!(offsets.len(), 10);
}

#[test]
fn test_neighbours_of_single_cell() {
    // A single cell in the top-left corner touches its eight surrounding
    // offsets, three of which lie outside the grid on each side.
    let shape = Shape::from_binary([0b100, 0b000, 0b000]);
    let offsets = shape.get_neighbours().offsets();
    assert_eq!(
        offsets,
        vec![(-1, -1), (0, -1), (1, -1), (-1, 0), (1, 0), (-1, 1), (0, 1), (1, 1)]
    );
}
