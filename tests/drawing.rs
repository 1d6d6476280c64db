use leafs::fixed::UNIT;
use leafs::l_system::LSystem;
use leafs::leaf::{leaf_start, Leaf, LeafParameters};
use leafs::turtle::{check_balance, to_geom, Move, Polygon, TurtleError};

fn params() -> LeafParameters {
    LeafParameters::new(5 * UNIT, UNIT, 600_000, 1_060_000, 0, UNIT, UNIT / 4)
}

fn coords(moves: &[Move], angle: f64) -> (f64, f64) {
    moves.iter().fold((0.0, 0.0), |(x, y), m| {
        let a = m.heading as f64 * angle;
        let l = m.length as f64 / UNIT as f64;
        (x + l * a.cos(), y + l * a.sin())
    })
}

fn shape(polygons: &[Polygon]) -> Vec<Vec<Vec<Move>>> {
    polygons
        .iter()
        .map(|p| p.points.iter().map(|q| q.moves.clone()).collect())
        .collect()
}

#[test]
fn generation_zero_draws_two_origin_points() {
    let polygons = to_geom(&leaf_start()).unwrap();
    assert_eq!(polygons.len(), 2);
    for p in &polygons {
        assert_eq!(p.points.len(), 1);
        assert!(p.points[0].moves.is_empty());
    }
}

#[test]
fn generation_one_closes_four_polygons() {
    let mut sys = LSystem::new(leaf_start(), params());
    let s = sys.nth(1);
    let polygons = to_geom(&s).unwrap();
    let sizes: Vec<usize> = polygons.iter().map(|p| p.points.len()).collect();
    assert_eq!(sizes, vec![3, 2, 3, 2]);
    let main = Move { heading: 0, length: 5 * UNIT };
    assert_eq!(
        shape(&polygons[0..2]),
        vec![
            vec![vec![], vec![main], vec![main, Move { heading: 1, length: 0 }]],
            vec![vec![main], vec![main]],
        ]
    );
    assert_eq!(polygons[2].points[2].moves[1].heading, -1);
}

#[test]
fn interpretation_is_deterministic() {
    let mut sys = LSystem::new(leaf_start(), params());
    let s = sys.nth(6);
    let a = to_geom(&s).unwrap();
    let b = to_geom(&s).unwrap();
    assert_eq!(shape(&a), shape(&b));
    let angle = std::f64::consts::FRAC_PI_3;
    for (p, q) in a.iter().zip(b.iter()) {
        for (u, v) in p.points.iter().zip(q.points.iter()) {
            assert_eq!(coords(&u.moves, angle), coords(&v.moves, angle));
        }
    }
}

#[test]
fn positive_turn_then_unit_move() {
    let theta = 0.7;
    let s = vec![
        Leaf::Pile,
        Leaf::AnglePos,
        Leaf::Grow(UNIT, UNIT, None),
        Leaf::Vertex,
        Leaf::Depile,
    ];
    let polygons = to_geom(&s).unwrap();
    let moves = &polygons[0].points[0].moves;
    assert_eq!(moves, &vec![Move { heading: 1, length: UNIT }]);
    let (x, y) = coords(moves, theta);
    assert!((x - theta.cos()).abs() < 1e-12);
    assert!((y - theta.sin()).abs() < 1e-12);
}

#[test]
fn negative_turn_then_unit_move() {
    let theta = 0.7;
    let s = vec![
        Leaf::Pile,
        Leaf::AngleNeg,
        Leaf::Grow(UNIT, UNIT, None),
        Leaf::Vertex,
        Leaf::Depile,
    ];
    let polygons = to_geom(&s).unwrap();
    let moves = &polygons[0].points[0].moves;
    assert_eq!(moves, &vec![Move { heading: -1, length: UNIT }]);
    let (x, y) = coords(moves, theta);
    assert!((x - (-theta).cos()).abs() < 1e-12);
    assert!((y - (-theta).sin()).abs() < 1e-12);
}

#[test]
fn pop_restores_pose() {
    let s = vec![
        Leaf::Pile,
        Leaf::Save,
        Leaf::AnglePos,
        Leaf::Grow(2 * UNIT, UNIT, None),
        Leaf::Load,
        Leaf::Grow(UNIT, UNIT, None),
        Leaf::Vertex,
        Leaf::Depile,
    ];
    let polygons = to_geom(&s).unwrap();
    assert_eq!(polygons[0].points[0].moves, vec![Move { heading: 0, length: UNIT }]);
}

#[test]
fn nested_polygons_close_inner_first() {
    let s = vec![
        Leaf::Pile,
        Leaf::Vertex,
        Leaf::Pile,
        Leaf::Grow(UNIT, UNIT, None),
        Leaf::Vertex,
        Leaf::Depile,
        Leaf::Vertex,
        Leaf::Depile,
    ];
    let polygons = to_geom(&s).unwrap();
    assert_eq!(polygons.len(), 2);
    assert_eq!(polygons[0].points.len(), 1);
    assert_eq!(polygons[1].points.len(), 2);
}

#[test]
fn empty_sentence_draws_nothing() {
    let polygons = to_geom::<Leaf>(&vec![]).unwrap();
    assert!(polygons.is_empty());
}

#[test]
fn pop_without_save_underflows() {
    let s = vec![Leaf::Vertex, Leaf::Save, Leaf::Load, Leaf::Load];
    assert_eq!(
        to_geom(&s).err(),
        Some(TurtleError::PoseStackUnderflow { index: 3 })
    );
    assert!(!check_balance(&s));
}

#[test]
fn close_without_open_underflows() {
    let s = vec![Leaf::Pile, Leaf::Depile, Leaf::Depile, Leaf::Load];
    assert_eq!(
        to_geom(&s).err(),
        Some(TurtleError::PolygonStackUnderflow { index: 2 })
    );
    assert!(!check_balance(&s));
}

#[test]
fn unclosed_sentence_is_not_balanced() {
    let s = vec![Leaf::Save, Leaf::Pile, Leaf::Vertex];
    assert!(to_geom(&s).unwrap().is_empty());
    assert!(!check_balance(&s));
    assert!(check_balance(&vec![Leaf::Save, Leaf::Load, Leaf::Pile, Leaf::Depile]));
}
