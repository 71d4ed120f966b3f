use synth_solver::color::Color;
use synth_solver::goal_result::GoalResult;
use synth_solver::progress::NullReporter;
use synth_solver::progress::ProgressTracker;
use synth_solver::shape::Shape;
use synth_solver::shape::Transformation;
use synth_solver::solver::find_optimal_routes;
use synth_solver::solver::generate_transformations;
use synth_solver::solver::pareto_insert;
use synth_solver::solver::SolverResult;
use synth_solver::solver::SolverSettings;
use synth_solver::test_data;
use synth_solver::types::Goal;
use synth_solver::types::Material;
use synth_solver::types::TransformationType;

fn uni_bag_setup() -> (synth_solver::cauldron::Cauldron, Vec<Vec<Material>>, Vec<Goal>) {
    let cauldron = test_data::uni_bag_5x5_bonus1();
    let goals = test_data::uni_bag();
    let materials = vec![
        vec![test_data::uni(), test_data::uni()],
        vec![test_data::beehive()],
        vec![test_data::broken_stone()],
    ];
    (cauldron, materials, goals)
}

#[test]
pub fn test_basic_uni_bag() {
    let (cauldron, materials, goals) = uni_bag_setup();
    let properties = SolverSettings::default();
    let optimal_routes =
        find_optimal_routes(&cauldron, &materials, &goals, &properties, None::<NullReporter>);

    assert_eq!(optimal_routes.len(), 2);
    assert_eq!(
        optimal_routes.iter().filter(|r| r.0.achieved_goals == vec![1, 1, 1]).count(),
        1
    );
    assert_eq!(
        optimal_routes.iter().filter(|r| r.0.achieved_goals == vec![2, 0, 0]).count(),
        1
    );
}

#[test]
pub fn find_optimal_test_basic_uni_bag() {
    let (cauldron, materials, goals) = uni_bag_setup();
    let properties = SolverSettings::default();
    let optimal_routes =
        find_optimal_routes(&cauldron, &materials, &goals, &properties, None::<NullReporter>);

    assert_eq!(optimal_routes.len(), 2);
    assert_eq!(
        optimal_routes.iter().filter(|r| r.0.achieved_goals == vec![1, 1, 1]).count(),
        1
    );
    assert_eq!(
        optimal_routes.iter().filter(|r| r.0.achieved_goals == vec![2, 0, 0]).count(),
        1
    );
}

#[test]
pub fn test_basic_uni_bag_with_rotations() {
    let (cauldron, materials, goals) = uni_bag_setup();
    let properties = SolverSettings {
        transformations: TransformationType::Rotate,
        allow_overlaps: false,
    };
    let optimal_routes =
        find_optimal_routes(&cauldron, &materials, &goals, &properties, None::<NullReporter>);

    assert_eq!(optimal_routes.len(), 3);
    assert_eq!(
        optimal_routes.iter().filter(|r| r.0.achieved_goals == vec![1, 1, 1]).count(),
        1
    );
    assert_eq!(
        optimal_routes.iter().filter(|r| r.0.achieved_goals == vec![1, 2, 0]).count(),
        1
    );
    assert_eq!(
        optimal_routes.iter().filter(|r| r.0.achieved_goals == vec![2, 0, 0]).count(),
        1
    );
}

#[test]
fn test_replaying_a_route_reaches_its_result() {
    let (cauldron, materials, goals) = uni_bag_setup();
    let properties = SolverSettings::default();
    let optimal_routes =
        find_optimal_routes(&cauldron, &materials, &goals, &properties, None::<NullReporter>);

    for (result, route) in optimal_routes.iter() {
        let mut board = cauldron.duplicate();
        let scores = board.place_all(&materials, route, properties.allow_overlaps).unwrap();
        let final_scores = board.calculate_final_score(&materials, &scores);
        let replayed = GoalResult::from_scores(&final_scores, &goals);
        assert_eq!(&replayed, result);
    }
}

#[test]
fn test_perfect_solution_exits_early() {
    let cauldron = test_data::uni_bag_5x5_bonus1();
    let goals = test_data::uni_bag();
    // Each group holds one overwhelming white material; the first complete
    // placement meets every threshold of every goal.
    let big = Material::new(Color::White, 150, Shape::from_binary([0b100, 0b000, 0b000]));
    let materials = vec![vec![big; 1], vec![big; 1], vec![big; 1]];
    let properties = SolverSettings::default();
    let optimal_routes =
        find_optimal_routes(&cauldron, &materials, &goals, &properties, None::<NullReporter>);

    assert!(optimal_routes.iter().any(|r| {
        (0..goals.len()).all(|g| {
            r.0.achieved_goals[g] == goals[g].effect_value_thresholds.len()
        })
    }));
}

#[test]
fn test_strictly_better() {
    let gr = |v: Vec<usize>| GoalResult { achieved_goals: v };
    assert!(gr(vec![1, 1, 1]).is_strictly_better(&gr(vec![1, 0, 1])));
    assert!(gr(vec![1, 1, 1]).is_strictly_better(&gr(vec![0, 1, 1])));
    assert!(gr(vec![1, 1, 1]).is_strictly_better(&gr(vec![0, 0, 1])));
    assert!(gr(vec![1, 0, 0]).is_strictly_better(&gr(vec![0, 0, 0])));

    assert!(!gr(vec![1, 1, 1]).is_strictly_better(&gr(vec![2, 0, 0])));
    assert!(!gr(vec![1, 0, 1]).is_strictly_better(&gr(vec![1, 1, 0])));
    assert!(!gr(vec![0, 0, 1]).is_strictly_better(&gr(vec![2, 0, 0])));
}

#[test]
fn find_optimal_test_strictly_better() {
    let gr = |v: Vec<usize>| GoalResult { achieved_goals: v };
    assert!(gr(vec![1, 1, 1]).is_strictly_better(&gr(vec![1, 0, 1])));
    assert!(gr(vec![1, 1, 1]).is_strictly_better(&gr(vec![0, 1, 1])));
    assert!(gr(vec![1, 1, 1]).is_strictly_better(&gr(vec![0, 0, 1])));
    assert!(gr(vec![1, 0, 0]).is_strictly_better(&gr(vec![0, 0, 0])));

    assert!(!gr(vec![1, 1, 1]).is_strictly_better(&gr(vec![2, 0, 0])));
    assert!(!gr(vec![1, 0, 1]).is_strictly_better(&gr(vec![1, 1, 0])));
    assert!(!gr(vec![0, 0, 1]).is_strictly_better(&gr(vec![2, 0, 0])));
}

#[test]
fn goal_result_test_strictly_better() {
    let gr = |v: Vec<usize>| GoalResult { achieved_goals: v };
    assert!(gr(vec![1, 1, 1]).is_strictly_better(&gr(vec![1, 0, 1])));
    assert!(gr(vec![1, 1, 1]).is_strictly_better(&gr(vec![0, 1, 1])));
    assert!(gr(vec![1, 1, 1]).is_strictly_better(&gr(vec![0, 0, 1])));
    assert!(gr(vec![1, 0, 0]).is_strictly_better(&gr(vec![0, 0, 0])));

    assert!(!gr(vec![1, 1, 1]).is_strictly_better(&gr(vec![2, 0, 0])));
    assert!(!gr(vec![1, 0, 1]).is_strictly_better(&gr(vec![1, 1, 0])));
    assert!(!gr(vec![0, 0, 1]).is_strictly_better(&gr(vec![2, 0, 0])));
}

#[test]
fn test_pareto_insert_keeps_frontier_minimal() {
    let gr = |v: Vec<usize>| GoalResult { achieved_goals: v };
    let mut frontier: SolverResult = Vec::new();

    assert!(pareto_insert(&mut frontier, gr(vec![1, 0, 1]), Vec::new()));
    assert!(pareto_insert(&mut frontier, gr(vec![0, 1, 1]), Vec::new()));
    assert_eq!(frontier.len(), 2);

    // A result dominating the first entry displaces it.
    assert!(pareto_insert(&mut frontier, gr(vec![1, 1, 1]), Vec::new()));
    assert_eq!(frontier.len(), 1);
    assert_eq!(frontier[0].0.achieved_goals, vec![1, 1, 1]);

    // A dominated result never joins the frontier.
    assert!(!pareto_insert(&mut frontier, gr(vec![0, 1, 0]), Vec::new()));
    assert_eq!(frontier.len(), 1);

    // An incomparable result joins it.
    assert!(pareto_insert(&mut frontier, gr(vec![2, 0, 0]), Vec::new()));
    assert_eq!(frontier.len(), 2);
    for a in frontier.iter() {
        for b in frontier.iter() {
            if a.0 != b.0 {
                assert!(!a.0.is_strictly_better(&b.0));
            }
        }
    }
}

#[test]
fn test_progress_counts_up_to_1() {
    let mut tracker = ProgressTracker::<NullReporter>::new(None);
    let empty: SolverResult = Vec::new();

    tracker.start_loop(5);
    for _ in 0..5 {
        tracker.report_progress(&empty);
        tracker.start_loop(4);
        for _ in 0..4 {
            tracker.report_progress(&empty);
            tracker.start_loop(3);
            for _ in 0..3 {
                tracker.report_progress(&empty);
                tracker.start_loop(2);
                for _ in 0..2 {
                    tracker.report_progress(&empty);
                    tracker.start_loop(1);
                    for _ in 0..1 {
                        tracker.report_progress(&empty);
                        tracker.start_loop(0);
                        tracker.end_loop();

                        tracker.bump_loop_progress();
                    }
                    tracker.end_loop();

                    tracker.bump_loop_progress();
                }
                tracker.end_loop();

                tracker.bump_loop_progress();
            }
            tracker.end_loop();

            tracker.bump_loop_progress();
        }
        tracker.end_loop();

        tracker.bump_loop_progress();
    }

    assert_eq!(tracker.progress_stack.len(), 1);

    const ROUND_AMOUNT: f32 = 0.0001;
    let fraction = tracker.get_current_progress() as f32 / 4294967296.0;
    let rounded_progress = (fraction / ROUND_AMOUNT).round() * ROUND_AMOUNT;
    assert_eq!(rounded_progress, 1.);
}

#[test]
fn test_generate_transformations_deduplicates() {
    // A full square is symmetric under every transformation.
    let square = Shape::from_binary([0b111, 0b111, 0b111]);
    assert_eq!(generate_transformations(square, TransformationType::Rotate).len(), 1);
    assert_eq!(generate_transformations(square, TransformationType::FlipHorizontal).len(), 1);

    // A vertical bar has one extra orientation under rotation.
    let bar = Shape::from_binary([0b100, 0b100, 0b100]);
    let ts = generate_transformations(bar, TransformationType::Rotate);
    assert_eq!(ts.len(), 2);
    assert!(ts[0].is_none());
    assert!(matches!(ts[1], Some(Transformation::Rotate90)));

    // An L-piece is chiral: all four rotations are distinct.
    let ell = Shape::from_binary([0b100, 0b100, 0b110]);
    assert_eq!(generate_transformations(ell, TransformationType::Rotate).len(), 4);
}

#[test]
fn test_sample_materials_match_the_game_data() {
    let uni = test_data::uni();
    assert_eq!(uni.color, Color::Yellow);
    assert_eq!(uni.effect_value, 15);
    assert_eq!(uni.shape, Shape::from_binary([0b100, 0b100, 0b100]));

    let beehive = test_data::beehive();
    assert_eq!(beehive.color, Color::Yellow);
    assert_eq!(beehive.effect_value, 10);
    assert_eq!(beehive.shape, Shape::from_binary([0b100, 0b110, 0b000]));

    let broken_stone = test_data::broken_stone();
    assert_eq!(broken_stone.color, Color::White);
    assert_eq!(broken_stone.effect_value, 15);
    assert_eq!(broken_stone.shape, Shape::from_binary([0b100, 0b100, 0b100]));
}
