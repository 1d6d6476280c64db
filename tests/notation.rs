use leafs::fixed::UNIT;
use leafs::l_system::LSystem;
use leafs::leaf::{leaf_start, Leaf, LeafParameters};

#[test]
fn letters_in_notation() {
    assert_eq!(Leaf::Vertex.to_string(), ".");
    assert_eq!(Leaf::AnglePos.to_string(), "+");
    assert_eq!(Leaf::AngleNeg.to_string(), "-");
    assert_eq!(Leaf::Save.to_string(), "[");
    assert_eq!(Leaf::Load.to_string(), "]");
    assert_eq!(Leaf::Pile.to_string(), "{");
    assert_eq!(Leaf::Depile.to_string(), "}");
}

#[test]
fn quantities_in_decimal() {
    assert_eq!(Leaf::Grow(5 * UNIT, 1_060_000, None).to_string(), "G(5, 1.06)");
    assert_eq!(
        Leaf::Grow(600_000, UNIT, Some(-UNIT / 4)).to_string(),
        "G(0.6, 1, -0.25)"
    );
    assert_eq!(Leaf::MainApex(0, true).to_string(), "A(0, true)");
    assert_eq!(Leaf::MainApex(3 * UNIT, false).to_string(), "A(3, false)");
    assert_eq!(Leaf::SideApex(12_345_678).to_string(), "B(12.345678)");
    assert_eq!(Leaf::SideApex(1_000_010).to_string(), "B(1.00001)");
    assert_eq!(Leaf::SideApex(i64::MIN).to_string(), "B(-9223372036854.775808)");
}

#[test]
fn sentence_in_notation() {
    let p = LeafParameters::new(5 * UNIT, UNIT, 600_000, 1_060_000, 0, UNIT, UNIT / 4);
    let mut sys = LSystem::new(leaf_start(), p);
    assert_eq!(sys.to_string(), "[{A(0, true).}][{A(0, false).}]");
    sys.step();
    let text = sys.to_string();
    assert!(text.starts_with("[{.G(5, 1).[+B(0)G(0, 1, 0).}][+B(0){.]A(1, true).}]"));
}
