use leafs::fixed::UNIT;
use leafs::l_system::{create_l_system, LSystem};
use leafs::leaf::{leaf_rule, leaf_start, Leaf, LeafParameters};
use leafs::turtle::check_balance;

fn params() -> LeafParameters {
    LeafParameters::new(5 * UNIT, UNIT, 600_000, 1_060_000, 0, UNIT, UNIT / 4)
}

fn terminals(s: &[Leaf]) -> usize {
    s.iter()
        .filter(|l| !matches!(l, Leaf::MainApex(..) | Leaf::SideApex(..)))
        .count()
}

fn count(s: &[Leaf], x: Leaf) -> usize {
    s.iter().filter(|l| **l == x).count()
}

#[test]
fn start_sentence_is_two_mirrored_axes() {
    let s = leaf_start();
    assert_eq!(
        s,
        vec![
            Leaf::Save,
            Leaf::Pile,
            Leaf::MainApex(0, true),
            Leaf::Vertex,
            Leaf::Depile,
            Leaf::Load,
            Leaf::Save,
            Leaf::Pile,
            Leaf::MainApex(0, false),
            Leaf::Vertex,
            Leaf::Depile,
            Leaf::Load,
        ]
    );
}

#[test]
fn terminals_are_fixed_points() {
    let p = params();
    for l in [
        Leaf::Vertex,
        Leaf::AnglePos,
        Leaf::AngleNeg,
        Leaf::Save,
        Leaf::Load,
        Leaf::Pile,
        Leaf::Depile,
    ] {
        assert_eq!(leaf_rule(l, &p), vec![l]);
    }
}

#[test]
fn main_apex_expands_to_template() {
    let p = params();
    let r = leaf_rule(Leaf::MainApex(2 * UNIT, false), &p);
    assert_eq!(
        r,
        vec![
            Leaf::Vertex,
            Leaf::Grow(5 * UNIT, UNIT, None),
            Leaf::Vertex,
            Leaf::Save,
            Leaf::AngleNeg,
            Leaf::SideApex(2 * UNIT),
            Leaf::Grow(0, UNIT, Some(2 * UNIT)),
            Leaf::Vertex,
            Leaf::Depile,
            Leaf::Load,
            Leaf::Save,
            Leaf::AngleNeg,
            Leaf::SideApex(2 * UNIT),
            Leaf::Pile,
            Leaf::Vertex,
            Leaf::Load,
            Leaf::MainApex(3 * UNIT, false),
        ]
    );
    let r = leaf_rule(Leaf::MainApex(0, true), &p);
    assert_eq!(r[4], Leaf::AnglePos);
    assert_eq!(r[11], Leaf::AnglePos);
    assert_eq!(r[16], Leaf::MainApex(UNIT, true));
}

#[test]
fn side_apex_grows_until_spent() {
    let p = params();
    assert_eq!(
        leaf_rule(Leaf::SideApex(3 * UNIT / 2), &p),
        vec![Leaf::Grow(600_000, 1_060_000, None), Leaf::SideApex(5 * UNIT / 4)]
    );
    assert_eq!(leaf_rule(Leaf::SideApex(UNIT), &p), vec![Leaf::SideApex(UNIT)]);
    assert_eq!(leaf_rule(Leaf::SideApex(0), &p), vec![Leaf::SideApex(0)]);
}

#[test]
fn growth_compounds_exactly() {
    let p = params();
    let mut sys = LSystem::new(vec![Leaf::Grow(5 * UNIT, 1_100_000, None)], p);
    let r = sys.nth(3);
    assert_eq!(r, vec![Leaf::Grow(6_655_000, 1_100_000, None)]);
    let expected = 5.0 * 1.1f64.powi(3);
    let Leaf::Grow(length, _, _) = r[0] else { panic!() };
    assert!((length as f64 / UNIT as f64 - expected).abs() < 1e-6);
}

#[test]
fn growth_rounds_down_to_the_grid() {
    let p = params();
    let r = leaf_rule(Leaf::Grow(1, 1_500_000, None), &p);
    assert_eq!(r, vec![Leaf::Grow(1, 1_500_000, None)]);
    let r = leaf_rule(Leaf::Grow(-1, 1_500_000, None), &p);
    assert_eq!(r, vec![Leaf::Grow(-2, 1_500_000, None)]);
}

#[test]
fn growth_within_epsilon_over_many_steps() {
    let p = params();
    let mut sys = LSystem::new(vec![Leaf::Grow(600_000, 1_060_000, None)], p);
    let r = sys.nth(20);
    let Leaf::Grow(length, _, None) = r[0] else { panic!() };
    let exact = 0.6 * 1.06f64.powi(20);
    let got = length as f64 / UNIT as f64;
    assert!(got <= exact + 1e-12);
    assert!(exact - got < 20.0 * 1.06f64.powi(20) / UNIT as f64);
}

#[test]
fn growth_saturates() {
    let p = params();
    let r = leaf_rule(Leaf::Grow(i64::MAX, 2 * UNIT, None), &p);
    assert_eq!(r, vec![Leaf::Grow(i64::MAX, 2 * UNIT, None)]);
}

#[test]
fn potential_decays_then_freezes() {
    let p = params();
    let mut sys = LSystem::new(vec![Leaf::Grow(UNIT, 2 * UNIT, Some(3 * UNIT / 2))], p);
    sys.step();
    assert_eq!(sys.sentence, vec![Leaf::Grow(2 * UNIT, 2 * UNIT, Some(5 * UNIT / 4))]);
    sys.step();
    assert_eq!(sys.sentence, vec![Leaf::Grow(4 * UNIT, 2 * UNIT, Some(UNIT))]);
    let frozen = sys.sentence.clone();
    for _ in 0..5 {
        sys.step();
        assert_eq!(sys.sentence, frozen);
    }
}

#[test]
fn nth_compounds_steps() {
    let p = params();
    let mut a = LSystem::new(leaf_start(), p);
    let two = a.nth(2);
    let four = a.nth(2);
    let mut b = LSystem::new(leaf_start(), p);
    assert_eq!(b.nth(4), four);
    assert_ne!(two, four);
    assert_eq!(a.sentence, four);
}

#[test]
fn terminal_count_grows() {
    let p = params();
    let mut sys = LSystem::new(leaf_start(), p);
    let mut previous = terminals(&sys.sentence);
    for _ in 0..8 {
        let apexes = sys
            .sentence
            .iter()
            .filter(|l| matches!(l, Leaf::MainApex(..)))
            .count();
        assert_eq!(apexes, 2);
        sys.step();
        let now = terminals(&sys.sentence);
        assert!(now > previous);
        assert!(now >= previous + 14 * apexes);
        previous = now;
    }
}

#[test]
fn generations_stay_balanced() {
    let p = params();
    let mut sys = LSystem::new(leaf_start(), p);
    for _ in 0..10 {
        let s = &sys.sentence;
        assert_eq!(count(s, Leaf::Save), count(s, Leaf::Load));
        assert_eq!(count(s, Leaf::Pile), count(s, Leaf::Depile));
        assert!(check_balance(s));
        sys.step();
    }
}

#[test]
fn simple_leaf_constants() {
    let mut sys = create_l_system();
    assert_eq!(sys.sentence, leaf_start());
    assert_eq!(
        sys.parameters,
        LeafParameters::new(4 * UNIT, 1_100_000, UNIT, 1_200_000, UNIT, UNIT, UNIT)
    );
    let s = sys.nth(1);
    assert_eq!(s[3], Leaf::Grow(4 * UNIT, 1_100_000, None));
    assert_eq!(s[8], Leaf::Grow(UNIT, UNIT, Some(0)));
    let s = sys.nth(1);
    assert_eq!(s[3], Leaf::Grow(4_400_000, 1_100_000, None));
}
