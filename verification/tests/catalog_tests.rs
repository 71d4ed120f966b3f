use synth_solver::catalog::create_shape;
use synth_solver::catalog::create_tiles;
use synth_solver::catalog::ItemBoard;
use synth_solver::color::Color;
use synth_solver::shape::Shape;

fn board() -> ItemBoard {
    ItemBoard {
        colors: [
            String::from("RRGGBB"),
            String::from("RYGGBB"),
            String::from("WWGG B"),
            String::from("WWGYBB"),
            String::from("RRYYBB"),
            String::from("RRYYBW"),
        ],
        bonus_levels: [
            [
                String::from("      "),
                String::from(" 1    "),
                String::from("  2   "),
                String::from("   3  "),
                String::from("      "),
                String::from("      "),
            ],
            [
                String::from("111111"),
                String::from("111111"),
                String::from("111111"),
                String::from("111111"),
                String::from("111111"),
                String::from("111111"),
            ],
            [
                String::from("222222"),
                String::from("222222"),
                String::from("222222"),
                String::from("222222"),
                String::from("222222"),
                String::from("222222"),
            ],
        ],
    }
}

#[test]
fn test_create_tiles_reads_the_window() {
    // A 5x5 cauldron reads the top-left five columns and rows.
    let tiles = create_tiles(&board(), 5, 0).unwrap();
    assert_eq!(tiles.len(), 25);
    let top_left = tiles[0].unwrap();
    assert_eq!(top_left.color, Color::Red);
    assert_eq!(top_left.level, 0);
    let bumped = tiles[1 * 5 + 1].unwrap();
    assert_eq!(bumped.color, Color::Yellow);
    assert_eq!(bumped.level, 1);
    // The space in row 2 is a hole.
    assert!(tiles[2 * 5 + 4].is_none());

    // A 4x4 cauldron reads the middle of the board instead.
    let tiles = create_tiles(&board(), 4, 0).unwrap();
    assert_eq!(tiles.len(), 16);
    let first = tiles[0].unwrap();
    assert_eq!(first.color, Color::Yellow);
    assert_eq!(first.level, 1);
}

#[test]
fn test_create_tiles_rejects_bad_boards() {
    let mut bad = board();
    bad.colors[2] = String::from("WWXGBB");
    assert!(create_tiles(&bad, 5, 0).is_err());
    // The bad character sits outside a 4x4 window's columns? It is at
    // column 2, inside the window, so the 4x4 read fails too.
    assert!(create_tiles(&bad, 4, 0).is_err());

    let mut short = board();
    short.colors[0] = String::from("RR");
    assert!(create_tiles(&short, 5, 0).is_err());
}

#[test]
fn test_create_shape_takes_a_prefix() {
    let indices = vec![0usize, 3, 6, 1];
    let shape = create_shape(&indices, 3).unwrap();
    assert_eq!(shape, Shape::from_binary([0b100, 0b100, 0b100]));

    let all = create_shape(&indices, 9).unwrap();
    assert_eq!(all, Shape::from_binary([0b110, 0b100, 0b100]));

    assert!(create_shape(&vec![0usize, 12], 2).is_err());
    // An out-of-range index beyond the prefix is never read.
    assert!(create_shape(&vec![0usize, 12], 1).is_ok());
}
