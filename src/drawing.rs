//! What the turtle draws of the first generations of the leaf grammar.
use vstd::prelude::*;
use crate::leaf::{main_apex_template, start_sentence, Leaf, LeafParameters};
use crate::l_system::{generation, rewrite_all};
use crate::growth::lemma_rewrite_all_single;
use crate::turtle::{
    apply, commands_of, interpret, run, start_run, Move, Turtle, TurtleError, TurtleInterpretation, TurtleRun,
};

verus! {

/// The state after reading `cmds` from state `st`, or `None` at an underflow.
pub open spec fn run_from(st: TurtleRun, cmds: Seq<Turtle>) -> Option<TurtleRun>
    decreases cmds.len(),
{
    if cmds.len() == 0 {
        Some(st)
    } else {
        match run_from(st, cmds.drop_last()) {
            Some(s) => apply(s, cmds.last()),
            None => None,
        }
    }
}

proof fn lemma_run_from_start(cmds: Seq<Turtle>)
    requires
        run_from(start_run(), cmds) is Some,
    ensures
        run(cmds) == Ok::<_, TurtleError>(run_from(start_run(), cmds)->Some_0),
    decreases cmds.len(),
{
    if cmds.len() > 0 {
        lemma_run_from_start(cmds.drop_last());
    }
}

proof fn lemma_run_from_concat(st: TurtleRun, a: Seq<Turtle>, b: Seq<Turtle>)
    requires
        run_from(st, a) is Some,
    ensures
        run_from(st, a + b) == run_from(run_from(st, a)->Some_0, b),
    decreases b.len(),
{
    if b.len() == 0 {
        assert(a + b =~= a);
    } else {
        lemma_run_from_concat(st, a, b.drop_last());
        assert((a + b).drop_last() =~= a + b.drop_last());
    }
}

proof fn lemma_run_from_prefixes(st: TurtleRun, c: Seq<Turtle>)
    ensures
        run_from(st, c.take(0)) == Some(st),
        forall|k: int|
            0 < k <= c.len() ==> #[trigger] run_from(st, c.take(k)) == match run_from(st, c.take(k - 1)) {
                Some(s) => apply(s, c[k - 1]),
                None => None,
            },
{
    assert(c.take(0) =~= Seq::<Turtle>::empty());
    assert forall|k: int| 0 < k <= c.len() implies #[trigger] run_from(st, c.take(k)) == match run_from(
        st,
        c.take(k - 1),
    ) {
        Some(s) => apply(s, c[k - 1]),
        None => None,
    } by {
        assert(c.take(k).drop_last() =~= c.take(k - 1));
        assert(c.take(k).last() == c[k - 1]);
    }
}

/// Rewriting distributes over concatenation.
proof fn lemma_rewrite_all_concat(a: Seq<Leaf>, b: Seq<Leaf>, p: LeafParameters)
    ensures
        rewrite_all(a + b, p) == rewrite_all(a, p) + rewrite_all(b, p),
    decreases b.len(),
{
    if b.len() == 0 {
        assert(a + b =~= a);
        assert(rewrite_all(a, p) + rewrite_all(b, p) =~= rewrite_all(a, p));
    } else {
        lemma_rewrite_all_concat(a, b.drop_last(), p);
        assert((a + b).drop_last() =~= a + b.drop_last());
        assert(rewrite_all(a + b, p) =~= rewrite_all(a, p) + rewrite_all(b, p));
    }
}

/// One main axis of generation zero.
pub open spec fn start_half(direction: bool) -> Seq<Leaf> {
    seq![Leaf::Save, Leaf::Pile, Leaf::MainApex(0, direction), Leaf::Vertex, Leaf::Depile, Leaf::Load]
}

/// One main axis of generation one.
pub open spec fn first_half(direction: bool, p: LeafParameters) -> Seq<Leaf> {
    seq![Leaf::Save, Leaf::Pile] + main_apex_template(0, direction, p) + seq![
        Leaf::Vertex,
        Leaf::Depile,
        Leaf::Load,
    ]
}

proof fn lemma_first_half(direction: bool, p: LeafParameters)
    ensures
        rewrite_all(start_half(direction), p) == first_half(direction, p),
{
    let h = start_half(direction);
    let a = seq![Leaf::Save];
    let b = seq![Leaf::Pile];
    let c = seq![Leaf::MainApex(0, direction)];
    let d = seq![Leaf::Vertex];
    let e = seq![Leaf::Depile];
    let f = seq![Leaf::Load];
    assert(h =~= a + b + c + d + e + f);
    lemma_rewrite_all_concat(a + b + c + d + e, f, p);
    lemma_rewrite_all_concat(a + b + c + d, e, p);
    lemma_rewrite_all_concat(a + b + c, d, p);
    lemma_rewrite_all_concat(a + b, c, p);
    lemma_rewrite_all_concat(a, b, p);
    lemma_rewrite_all_single(Leaf::Save, p);
    lemma_rewrite_all_single(Leaf::Pile, p);
    lemma_rewrite_all_single(Leaf::MainApex(0, direction), p);
    lemma_rewrite_all_single(Leaf::Vertex, p);
    lemma_rewrite_all_single(Leaf::Depile, p);
    lemma_rewrite_all_single(Leaf::Load, p);
    assert(rewrite_all(h, p) =~= first_half(direction, p));
}

/// The two polygons that one main axis of generation one closes: the blade
/// from the origin along the main move and out along the notch, then the
/// point at the end of the main move, recorded twice.
pub open spec fn first_outlines(direction: bool, p: LeafParameters) -> Seq<Seq<Seq<Move>>> {
    let main = Move { heading: 0, length: p.main_apex_length };
    let notch = Move { heading: if direction { 1i128 } else { -1i128 }, length: p.notch_length };
    seq![seq![seq![], seq![main], seq![main, notch]], seq![seq![main], seq![main]]]
}

/// At rest: at the origin, facing heading zero, with nothing open.
pub open spec fn at_rest(st: TurtleRun) -> bool {
    &&& st.position == Seq::<Move>::empty()
    &&& st.heading == 0
    &&& st.poses == Seq::<(Seq<Move>, int)>::empty()
    &&& st.points == Seq::<Seq<Move>>::empty()
    &&& st.saved == Seq::<Seq<Seq<Move>>>::empty()
}

/// The commands of one main axis of generation one.
pub open spec fn first_half_commands(direction: bool, p: LeafParameters) -> Seq<Turtle> {
    let turn = if direction { Turtle::Left } else { Turtle::Right };
    seq![Turtle::Push, Turtle::NewPolygon, Turtle::Vertex, Turtle::Forward(p.main_apex_length), Turtle::Vertex]
        + seq![Turtle::Push, turn, Turtle::Idle, Turtle::Forward(p.notch_length), Turtle::Vertex]
        + seq![Turtle::ClosePolygon, Turtle::Pop, Turtle::Push, turn, Turtle::Idle]
        + seq![Turtle::NewPolygon, Turtle::Vertex, Turtle::Pop, Turtle::Idle, Turtle::Vertex]
        + seq![Turtle::ClosePolygon, Turtle::Pop]
}

proof fn lemma_first_half_commands(direction: bool, p: LeafParameters)
    ensures
        commands_of(first_half(direction, p)) == first_half_commands(direction, p),
{
    let h = first_half(direction, p);
    assert(h.len() == 22);
    assert(commands_of(h) =~= first_half_commands(direction, p)) by {
        assert forall|i: int| 0 <= i < 22 implies #[trigger] commands_of(h)[i] == first_half_commands(
            direction,
            p,
        )[i] by {
            assert(commands_of(h)[i] == h[i].turtle_spec());
        }
    }
}

proof fn lemma_run_five(st: TurtleRun, a: Turtle, b: Turtle, c: Turtle, d: Turtle, e: Turtle)
    ensures
        run_from(st, seq![a, b, c, d, e]) == then(then(then(then(apply(st, a), b), c), d), e),
{
    lemma_run_from_prefixes(st, seq![a, b, c, d, e]);
    assert(seq![a, b, c, d, e].take(5) =~= seq![a, b, c, d, e]);
}

proof fn lemma_run_two(st: TurtleRun, a: Turtle, b: Turtle)
    ensures
        run_from(st, seq![a, b]) == then(apply(st, a), b),
{
    lemma_run_from_prefixes(st, seq![a, b]);
    assert(seq![a, b].take(2) =~= seq![a, b]);
}

/// The next command applied, after a state or an underflow.
pub open spec fn then(o: Option<TurtleRun>, c: Turtle) -> Option<TurtleRun> {
    match o {
        Some(s) => apply(s, c),
        None => None,
    }
}

proof fn lemma_draw_first_half(st: TurtleRun, direction: bool, p: LeafParameters)
    requires
        at_rest(st),
    ensures
        run_from(st, commands_of(first_half(direction, p))) == Some(
            TurtleRun { polygons: st.polygons + first_outlines(direction, p), ..st },
        ),
{
    lemma_first_half_commands(direction, p);
    let turn = if direction { Turtle::Left } else { Turtle::Right };
    let h: int = if direction { 1 } else { -1 };
    let main = Move { heading: 0, length: p.main_apex_length };
    let notch = Move { heading: h as i128, length: p.notch_length };
    let e = Seq::<Move>::empty();
    let c1 = seq![Turtle::Push, Turtle::NewPolygon, Turtle::Vertex, Turtle::Forward(p.main_apex_length), Turtle::Vertex];
    let c2 = seq![Turtle::Push, turn, Turtle::Idle, Turtle::Forward(p.notch_length), Turtle::Vertex];
    let c3 = seq![Turtle::ClosePolygon, Turtle::Pop, Turtle::Push, turn, Turtle::Idle];
    let c4 = seq![Turtle::NewPolygon, Turtle::Vertex, Turtle::Pop, Turtle::Idle, Turtle::Vertex];
    let c5 = seq![Turtle::ClosePolygon, Turtle::Pop];
    let blade = seq![e, seq![main], seq![main, notch]];
    let stem = seq![seq![main], seq![main]];
    let s1 = TurtleRun {
        position: seq![main],
        heading: 0,
        poses: seq![(e, 0int)],
        points: seq![e, seq![main]],
        saved: seq![Seq::<Seq<Move>>::empty()],
        polygons: st.polygons,
    };
    let s2 = TurtleRun {
        position: seq![main, notch],
        heading: h,
        poses: seq![(e, 0int), (seq![main], 0int)],
        points: blade,
        saved: seq![Seq::<Seq<Move>>::empty()],
        polygons: st.polygons,
    };
    let s3 = TurtleRun {
        position: seq![main],
        heading: h,
        poses: seq![(e, 0int), (seq![main], 0int)],
        points: Seq::empty(),
        saved: Seq::empty(),
        polygons: st.polygons.push(blade),
    };
    let s4 = TurtleRun {
        position: seq![main],
        heading: 0,
        poses: seq![(e, 0int)],
        points: stem,
        saved: seq![Seq::<Seq<Move>>::empty()],
        polygons: st.polygons.push(blade),
    };
    let s5 = TurtleRun { polygons: st.polygons + first_outlines(direction, p), ..st };
    assert(run_from(st, c1) == Some(s1)) by {
        lemma_run_five(st, c1[0], c1[1], c1[2], c1[3], c1[4]);
        assert(c1 =~= seq![c1[0], c1[1], c1[2], c1[3], c1[4]]);
        let r = then(then(then(then(apply(st, c1[0]), c1[1]), c1[2]), c1[3]), c1[4])->Some_0;
        assert(r.position =~= s1.position);
        assert(r.poses =~= s1.poses);
        assert(r.points =~= s1.points);
        assert(r.saved =~= s1.saved);
    }
    assert(run_from(s1, c2) == Some(s2)) by {
        lemma_run_five(s1, c2[0], c2[1], c2[2], c2[3], c2[4]);
        assert(c2 =~= seq![c2[0], c2[1], c2[2], c2[3], c2[4]]);
        let r = then(then(then(then(apply(s1, c2[0]), c2[1]), c2[2]), c2[3]), c2[4])->Some_0;
        assert(r.position =~= s2.position);
        assert(r.poses =~= s2.poses);
        assert(r.points =~= s2.points);
    }
    assert(run_from(s2, c3) == Some(s3)) by {
        lemma_run_five(s2, c3[0], c3[1], c3[2], c3[3], c3[4]);
        assert(c3 =~= seq![c3[0], c3[1], c3[2], c3[3], c3[4]]);
        let r = then(then(then(then(apply(s2, c3[0]), c3[1]), c3[2]), c3[3]), c3[4])->Some_0;
        assert(r.poses =~= s3.poses);
        assert(r.saved =~= s3.saved);
        assert(r.points =~= s3.points);
    }
    assert(run_from(s3, c4) == Some(s4)) by {
        lemma_run_five(s3, c4[0], c4[1], c4[2], c4[3], c4[4]);
        assert(c4 =~= seq![c4[0], c4[1], c4[2], c4[3], c4[4]]);
        let r = then(then(then(then(apply(s3, c4[0]), c4[1]), c4[2]), c4[3]), c4[4])->Some_0;
        assert(r.poses =~= s4.poses);
        assert(r.saved =~= s4.saved);
        assert(r.points =~= s4.points);
    }
    assert(run_from(s4, c5) == Some(s5)) by {
        lemma_run_two(s4, c5[0], c5[1]);
        assert(c5 =~= seq![c5[0], c5[1]]);
        let r = then(apply(s4, c5[0]), c5[1])->Some_0;
        assert(r.polygons =~= s5.polygons);
        assert(r.poses =~= s5.poses);
        assert(r.points =~= s5.points);
        assert(r.saved =~= s5.saved);
        assert(r.position =~= s5.position);
    }
    lemma_run_from_concat(st, c1, c2);
    lemma_run_from_concat(st, c1 + c2, c3);
    lemma_run_from_concat(st, c1 + c2 + c3, c4);
    lemma_run_from_concat(st, c1 + c2 + c3 + c4, c5);
}

proof fn lemma_draw_start_half(st: TurtleRun, direction: bool)
    requires
        at_rest(st),
    ensures
        run_from(st, commands_of(start_half(direction))) == Some(
            TurtleRun { polygons: st.polygons.push(seq![Seq::<Move>::empty()]), ..st },
        ),
{
    let c = commands_of(start_half(direction));
    assert(c =~= seq![Turtle::Push, Turtle::NewPolygon, Turtle::Idle, Turtle::Vertex, Turtle::ClosePolygon, Turtle::Pop]);
    lemma_run_from_prefixes(st, c);
    assert(c.take(6) =~= c);
    let r = run_from(st, c)->Some_0;
    assert(r.poses =~= st.poses);
    assert(r.points =~= st.points);
    assert(r.saved =~= st.saved);
}

/// Before any step, the leaf grammar draws two polygons, one per main axis,
/// each holding the origin alone: the apexes draw nothing.
pub proof fn law_start_outlines()
    ensures
        interpret(commands_of(start_sentence())) == Ok::<_, TurtleError>(
            seq![seq![Seq::<Move>::empty()], seq![Seq::<Move>::empty()]],
        ),
{
    let s0 = start_sentence();
    assert(s0 =~= start_half(true) + start_half(false));
    assert(commands_of(s0) =~= commands_of(start_half(true)) + commands_of(start_half(false)));
    let st = start_run();
    lemma_draw_start_half(st, true);
    let mid = TurtleRun { polygons: st.polygons.push(seq![Seq::<Move>::empty()]), ..st };
    lemma_draw_start_half(mid, false);
    lemma_run_from_concat(st, commands_of(start_half(true)), commands_of(start_half(false)));
    lemma_run_from_start(commands_of(s0));
    assert(mid.polygons.push(seq![Seq::<Move>::empty()]) =~= seq![
        seq![Seq::<Move>::empty()],
        seq![Seq::<Move>::empty()],
    ]);
}

/// After one step, the leaf grammar draws four polygons, two per main axis:
/// for each, the blade (the origin, the end of the main move, and the end of
/// the notch turned towards the axis's side), then the end of the main move
/// recorded twice.
pub proof fn law_first_generation_outlines(p: LeafParameters)
    ensures
        interpret(commands_of(generation(start_sentence(), p, 1))) == Ok::<_, TurtleError>(
            first_outlines(true, p) + first_outlines(false, p),
        ),
{
    let s0 = start_sentence();
    assert(s0 =~= start_half(true) + start_half(false));
    lemma_rewrite_all_concat(start_half(true), start_half(false), p);
    lemma_first_half(true, p);
    lemma_first_half(false, p);
    assert(generation(s0, p, 0) == s0);
    assert(generation(s0, p, 1) == rewrite_all(generation(s0, p, 0), p));
    let s1 = first_half(true, p) + first_half(false, p);
    assert(commands_of(s1) =~= commands_of(first_half(true, p)) + commands_of(first_half(false, p)));
    let st = start_run();
    lemma_draw_first_half(st, true, p);
    let mid = TurtleRun { polygons: st.polygons + first_outlines(true, p), ..st };
    lemma_draw_first_half(mid, false, p);
    lemma_run_from_concat(st, commands_of(first_half(true, p)), commands_of(first_half(false, p)));
    lemma_run_from_start(commands_of(s1));
    assert(st.polygons + first_outlines(true, p) + first_outlines(false, p) =~= first_outlines(true, p)
        + first_outlines(false, p));
}

} // verus!
