//! The leaf grammar: its letters, its parameters, its first generation and its rule.
use vstd::prelude::*;
use crate::fixed::{add_fixed, clamp, mul_fixed, scaled_product, sub_fixed, UNIT};

verus! {

/// One letter of the leaf grammar. Every quantity is fixed-point (see `UNIT`).
#[derive(Clone, Copy, Debug, PartialEq, Eq, Structural)]
pub enum Leaf {
    /// Records the turtle's position as a boundary point of the open polygon.
    Vertex,
    /// A straight move: its length, its growth rate, and an optional potential
    /// after which it stops growing.
    Grow(i64, i64, Option<i64>),
    /// The apex of the main axis: its potential and the side it branches to.
    MainApex(i64, bool),
    /// The apex of a lateral axis, with its potential.
    SideApex(i64),
    /// A turn by the positive angle.
    AnglePos,
    /// A turn by the negative angle.
    AngleNeg,
    /// Saves the turtle's pose.
    Save,
    /// Restores the last saved pose.
    Load,
    /// Opens a nested polygon.
    Pile,
    /// Closes the current polygon and returns to the enclosing one.
    Depile,
}

/// The constants that the rule reads; never changed during a run.
#[derive(Clone, Copy, Debug, PartialEq, Eq, Structural)]
pub struct LeafParameters {
    pub main_apex_length: i64,
    pub main_apex_growth_rate: i64,
    pub side_apex_length: i64,
    pub side_apex_growth_rate: i64,
    pub notch_length: i64,
    pub notch_growth_rate: i64,
    pub potential_decrement: i64,
}

impl LeafParameters {
    pub fn new(
        main_apex_length: i64,
        main_apex_growth_rate: i64,
        side_apex_length: i64,
        side_apex_growth_rate: i64,
        notch_length: i64,
        notch_growth_rate: i64,
        potential_decrement: i64,
    ) -> (r: Self)
        ensures
            r == (LeafParameters {
                main_apex_length,
                main_apex_growth_rate,
                side_apex_length,
                side_apex_growth_rate,
                notch_length,
                notch_growth_rate,
                potential_decrement,
            }),
    {
        LeafParameters {
            main_apex_length,
            main_apex_growth_rate,
            side_apex_length,
            side_apex_growth_rate,
            notch_length,
            notch_growth_rate,
            potential_decrement,
        }
    }
}

/// The letters that the rule expands: the two apexes.
pub open spec fn is_apex(l: Leaf) -> bool {
    l is MainApex || l is SideApex
}

/// Generation zero: two mirrored main axes, each inside its own pose and polygon.
pub open spec fn start_sentence() -> Seq<Leaf> {
    seq![
        Leaf::Save, Leaf::Pile, Leaf::MainApex(0, true), Leaf::Vertex, Leaf::Depile, Leaf::Load,
        Leaf::Save, Leaf::Pile, Leaf::MainApex(0, false), Leaf::Vertex, Leaf::Depile, Leaf::Load,
    ]
}

/// What one growth event of the main axis becomes.
pub open spec fn main_apex_template(time: i64, direction: bool, p: LeafParameters) -> Seq<Leaf> {
    let turn = if direction { Leaf::AnglePos } else { Leaf::AngleNeg };
    seq![
        Leaf::Vertex,
        Leaf::Grow(p.main_apex_length, p.main_apex_growth_rate, None),
        Leaf::Vertex,
        Leaf::Save,
        turn,
        Leaf::SideApex(time),
        Leaf::Grow(p.notch_length, p.notch_growth_rate, Some(time)),
        Leaf::Vertex,
        Leaf::Depile,
        Leaf::Load,
        Leaf::Save,
        turn,
        Leaf::SideApex(time),
        Leaf::Pile,
        Leaf::Vertex,
        Leaf::Load,
        Leaf::MainApex(clamp(time + UNIT) as i64, direction),
    ]
}

/// What the rule makes of one letter.
pub open spec fn rewrite(l: Leaf, p: LeafParameters) -> Seq<Leaf> {
    match l {
        Leaf::Grow(length, rate, None) => seq![
            Leaf::Grow(scaled_product(length as int, rate as int) as i64, rate, None),
        ],
        Leaf::Grow(length, rate, Some(time)) => if time > UNIT {
            seq![
                Leaf::Grow(
                    scaled_product(length as int, rate as int) as i64,
                    rate,
                    Some(clamp(time - p.potential_decrement) as i64),
                ),
            ]
        } else {
            seq![l]
        },
        Leaf::MainApex(time, direction) => main_apex_template(time, direction, p),
        Leaf::SideApex(time) => if time > UNIT {
            seq![
                Leaf::Grow(p.side_apex_length, p.side_apex_growth_rate, None),
                Leaf::SideApex(clamp(time - p.potential_decrement) as i64),
            ]
        } else {
            seq![l]
        },
        _ => seq![l],
    }
}

/// Generation zero of the leaf grammar.
pub fn leaf_start() -> (r: Vec<Leaf>)
    ensures
        r@ == start_sentence(),
{
    let r = vec![
        Leaf::Save, Leaf::Pile, Leaf::MainApex(0, true), Leaf::Vertex, Leaf::Depile, Leaf::Load,
        Leaf::Save, Leaf::Pile, Leaf::MainApex(0, false), Leaf::Vertex, Leaf::Depile, Leaf::Load,
    ];
    assert(r@ =~= start_sentence());
    r
}

/// The leaf rule: the letters that replace `input` in the next generation.
pub fn leaf_rule(input: Leaf, parameters: &LeafParameters) -> (r: Vec<Leaf>)
    ensures
        r@ == rewrite(input, *parameters),
{
    let p = parameters;
    match input {
        Leaf::Grow(length, rate, None) => vec![Leaf::Grow(mul_fixed(length, rate), rate, None)],
        Leaf::Grow(length, rate, Some(time)) => {
            if time > UNIT {
                vec![
                    Leaf::Grow(
                        mul_fixed(length, rate),
                        rate,
                        Some(sub_fixed(time, p.potential_decrement)),
                    ),
                ]
            } else {
                vec![input]
            }
        },
        Leaf::MainApex(time, direction) => {
            let turn = if direction { Leaf::AnglePos } else { Leaf::AngleNeg };
            let r = vec![
                Leaf::Vertex,
                Leaf::Grow(p.main_apex_length, p.main_apex_growth_rate, None),
                Leaf::Vertex,
                Leaf::Save,
                turn,
                Leaf::SideApex(time),
                Leaf::Grow(p.notch_length, p.notch_growth_rate, Some(time)),
                Leaf::Vertex,
                Leaf::Depile,
                Leaf::Load,
                Leaf::Save,
                turn,
                Leaf::SideApex(time),
                Leaf::Pile,
                Leaf::Vertex,
                Leaf::Load,
                Leaf::MainApex(add_fixed(time, UNIT), direction),
            ];
            assert(r@ =~= main_apex_template(time, direction, *p));
            r
        },
        Leaf::SideApex(time) => {
            if time > UNIT {
                let r = vec![
                    Leaf::Grow(p.side_apex_length, p.side_apex_growth_rate, None),
                    Leaf::SideApex(sub_fixed(time, p.potential_decrement)),
                ];
                assert(r@ =~= rewrite(input, *p));
                r
            } else {
                vec![input]
            }
        },
        _ => vec![input],
    }
}

} // verus!
