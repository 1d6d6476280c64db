//! The turtle that reads a finished sentence and outlines its polygons.
//!
//! Headings are whole numbers of turns: after `k` net turns the turtle faces
//! `k` times the turning angle. A position is the path of moves that led
//! there from the origin, so each point is exact and the angle is applied
//! only when a caller turns points into coordinates.
use vstd::prelude::*;
use crate::leaf::Leaf;

verus! {

/// What a letter asks of the turtle.
#[derive(Clone, Copy, Debug, PartialEq, Eq, Structural)]
pub enum Turtle {
    /// Record the position in the open polygon.
    Vertex,
    /// Move straight ahead by a fixed-point length.
    Forward(i64),
    /// Turn by the positive angle.
    Left,
    /// Turn by the negative angle.
    Right,
    /// Save the pose.
    Push,
    /// Restore the last saved pose.
    Pop,
    /// Start a nested polygon.
    NewPolygon,
    /// Finish the open polygon and return to the enclosing one.
    ClosePolygon,
    /// Nothing.
    Idle,
}

/// A letter that the turtle can read.
pub trait TurtleInterpretation {
    spec fn turtle_spec(&self) -> Turtle;

    fn to_turtle(&self) -> (r: Turtle)
        ensures
            r == self.turtle_spec(),
    ;
}

impl TurtleInterpretation for Leaf {
    open spec fn turtle_spec(&self) -> Turtle {
        match *self {
            Leaf::Vertex => Turtle::Vertex,
            Leaf::Grow(length, _, _) => Turtle::Forward(length),
            Leaf::MainApex(_, _) => Turtle::Idle,
            Leaf::SideApex(_) => Turtle::Idle,
            Leaf::AnglePos => Turtle::Left,
            Leaf::AngleNeg => Turtle::Right,
            Leaf::Save => Turtle::Push,
            Leaf::Load => Turtle::Pop,
            Leaf::Pile => Turtle::NewPolygon,
            Leaf::Depile => Turtle::ClosePolygon,
        }
    }

    fn to_turtle(&self) -> (r: Turtle) {
        match *self {
            Leaf::Vertex => Turtle::Vertex,
            Leaf::Grow(length, _, _) => Turtle::Forward(length),
            Leaf::MainApex(_, _) => Turtle::Idle,
            Leaf::SideApex(_) => Turtle::Idle,
            Leaf::AnglePos => Turtle::Left,
            Leaf::AngleNeg => Turtle::Right,
            Leaf::Save => Turtle::Push,
            Leaf::Load => Turtle::Pop,
            Leaf::Pile => Turtle::NewPolygon,
            Leaf::Depile => Turtle::ClosePolygon,
        }
    }
}

/// One straight move: `length` (fixed-point) along `heading` net turns. The
/// heading is wide enough to count the turns of any sentence.
#[derive(Clone, Copy, Debug, PartialEq, Eq, Structural)]
pub struct Move {
    pub heading: i128,
    pub length: i64,
}

/// A position, as the moves that lead to it from the origin.
#[derive(Debug)]
pub struct Point {
    pub moves: Vec<Move>,
}

impl View for Point {
    type V = Seq<Move>;

    open spec fn view(&self) -> Seq<Move> {
        self.moves@
    }
}

/// A closed boundary: its points in the order they were recorded.
#[derive(Debug)]
pub struct Polygon {
    pub points: Vec<Point>,
}

impl View for Polygon {
    type V = Seq<Seq<Move>>;

    open spec fn view(&self) -> Seq<Seq<Move>> {
        self.points@.map_values(|p: Point| p@)
    }
}

/// The views of a sequence of polygons.
pub open spec fn polygons_view(s: Seq<Polygon>) -> Seq<Seq<Seq<Move>>> {
    s.map_values(|p: Polygon| p@)
}

/// Why a sentence could not be drawn: the letter at `index` popped an empty stack.
#[derive(Clone, Copy, Debug, PartialEq, Eq, Structural)]
pub enum TurtleError {
    /// A pose was restored with none saved.
    PoseStackUnderflow { index: usize },
    /// A polygon was closed with no enclosing polygon.
    PolygonStackUnderflow { index: usize },
}

/// The turtle's whole state while it reads a sentence.
pub struct TurtleRun {
    pub position: Seq<Move>,
    pub heading: int,
    pub poses: Seq<(Seq<Move>, int)>,
    pub points: Seq<Seq<Move>>,
    pub saved: Seq<Seq<Seq<Move>>>,
    pub polygons: Seq<Seq<Seq<Move>>>,
}

/// At the origin, facing heading zero, with nothing recorded.
pub open spec fn start_run() -> TurtleRun {
    TurtleRun {
        position: Seq::empty(),
        heading: 0,
        poses: Seq::empty(),
        points: Seq::empty(),
        saved: Seq::empty(),
        polygons: Seq::empty(),
    }
}

/// One command applied to a state; `None` where it pops an empty stack.
pub open spec fn apply(st: TurtleRun, c: Turtle) -> Option<TurtleRun> {
    match c {
        Turtle::Vertex => Some(TurtleRun { points: st.points.push(st.position), ..st }),
        Turtle::Forward(length) => Some(
            TurtleRun {
                position: st.position.push(Move { heading: st.heading as i128, length }),
                ..st
            },
        ),
        Turtle::Left => Some(TurtleRun { heading: st.heading + 1, ..st }),
        Turtle::Right => Some(TurtleRun { heading: st.heading - 1, ..st }),
        Turtle::Push => Some(TurtleRun { poses: st.poses.push((st.position, st.heading)), ..st }),
        Turtle::Pop => if st.poses.len() == 0 {
            None
        } else {
            Some(
                TurtleRun {
                    position: st.poses.last().0,
                    heading: st.poses.last().1,
                    poses: st.poses.drop_last(),
                    ..st
                },
            )
        },
        Turtle::NewPolygon => Some(
            TurtleRun { saved: st.saved.push(st.points), points: Seq::empty(), ..st },
        ),
        Turtle::ClosePolygon => if st.saved.len() == 0 {
            None
        } else {
            Some(
                TurtleRun {
                    polygons: st.polygons.push(st.points),
                    points: st.saved.last(),
                    saved: st.saved.drop_last(),
                    ..st
                },
            )
        },
        Turtle::Idle => Some(st),
    }
}

/// The error that command `c` at `index` raises when it cannot be applied.
pub open spec fn underflow(c: Turtle, index: int) -> TurtleError {
    if c is Pop {
        TurtleError::PoseStackUnderflow { index: index as usize }
    } else {
        TurtleError::PolygonStackUnderflow { index: index as usize }
    }
}

/// The state after reading `cmds` from the start, or the first underflow.
pub open spec fn run(cmds: Seq<Turtle>) -> Result<TurtleRun, TurtleError>
    decreases cmds.len(),
{
    if cmds.len() == 0 {
        Ok(start_run())
    } else {
        match run(cmds.drop_last()) {
            Err(e) => Err(e),
            Ok(st) => match apply(st, cmds.last()) {
                Some(next) => Ok(next),
                None => Err(underflow(cmds.last(), cmds.len() - 1)),
            },
        }
    }
}

/// The commands that a sentence's letters stand for.
pub open spec fn commands_of<T: TurtleInterpretation>(s: Seq<T>) -> Seq<Turtle> {
    s.map_values(|l: T| l.turtle_spec())
}

/// The polygons that the turtle draws for `cmds`, in the order they close.
pub open spec fn interpret(cmds: Seq<Turtle>) -> Result<Seq<Seq<Seq<Move>>>, TurtleError> {
    match run(cmds) {
        Ok(st) => Ok(st.polygons),
        Err(e) => Err(e),
    }
}

/// `r` is what the turtle draws for `commands`: the polygons that close, or
/// the first underflow.
pub open spec fn drawn<T: TurtleInterpretation>(commands: Seq<T>, r: Result<Vec<Polygon>, TurtleError>) -> bool {
    match r {
        Ok(polygons) => interpret(commands_of(commands)) == Ok::<_, TurtleError>(polygons_view(polygons@)),
        Err(e) => interpret(commands_of(commands)) == Err::<Seq<Seq<Seq<Move>>>, _>(e),
    }
}

/// A saved pose.
struct Pose {
    position: Vec<Move>,
    heading: i128,
}

impl View for Pose {
    type V = (Seq<Move>, int);

    closed spec fn view(&self) -> (Seq<Move>, int) {
        (self.position@, self.heading as int)
    }
}

/// A fresh vector holding the same moves.
fn copy_moves(v: &Vec<Move>) -> (r: Vec<Move>)
    ensures
        r@ == v@,
{
    let mut r: Vec<Move> = Vec::new();
    let mut i: usize = 0;
    while i < v.len()
        invariant
            i <= v@.len(),
            r@ == v@.take(i as int),
        decreases v@.len() - i,
    {
        r.push(v[i]);
        i = i + 1;
        assert(r@ =~= v@.take(i as int));
    }
    assert(v@.take(i as int) =~= v@);
    r
}

/// Once a prefix of the commands underflows, so does the whole run, at the same letter.
proof fn lemma_run_err_extends(cmds: Seq<Turtle>, i: int)
    requires
        0 <= i <= cmds.len(),
        run(cmds.take(i)) is Err,
    ensures
        run(cmds) == run(cmds.take(i)),
    decreases cmds.len() - i,
{
    if i < cmds.len() {
        assert(cmds.take(i + 1).drop_last() =~= cmds.take(i));
        assert(run(cmds.take(i + 1)) == run(cmds.take(i)));
        lemma_run_err_extends(cmds, i + 1);
    } else {
        assert(cmds.take(i) =~= cmds);
    }
}

/// Reads `commands` from the start and returns the polygons in the order they
/// close, or the first letter that pops an empty stack.
pub fn to_geom<T: TurtleInterpretation>(commands: &Vec<T>) -> (r: Result<Vec<Polygon>, TurtleError>)
    ensures
        drawn(commands@, r),
{
    let ghost cmds = commands_of(commands@);
    let mut polygons: Vec<Polygon> = Vec::new();
    let mut position: Vec<Move> = Vec::new();
    let mut heading: i128 = 0;
    let mut states: Vec<Pose> = Vec::new();
    let mut points: Vec<Point> = Vec::new();
    let mut saved_points: Vec<Polygon> = Vec::new();
    let n = commands.len();
    let mut i: usize = 0;
    assert(cmds.take(0) =~= Seq::<Turtle>::empty());
    assert(polygons_view(polygons@) =~= Seq::empty());
    assert(polygons_view(saved_points@) =~= Seq::empty());
    assert(points@.map_values(|p: Point| p@) =~= Seq::empty());
    assert(states@.map_values(|p: Pose| p@) =~= Seq::empty());
    while i < n
        invariant
            n == commands@.len(),
            cmds == commands_of(commands@),
            i <= n,
            -(i as int) <= heading <= i,
            forall|j: int| 0 <= j < states@.len() ==> -(i as int) <= #[trigger] states@[j].heading <= i,
            run(cmds.take(i as int)) == Ok::<_, TurtleError>(
                TurtleRun {
                    position: position@,
                    heading: heading as int,
                    poses: states@.map_values(|p: Pose| p@),
                    points: points@.map_values(|p: Point| p@),
                    saved: polygons_view(saved_points@),
                    polygons: polygons_view(polygons@),
                },
            ),
        decreases n - i,
    {
        let c = commands[i].to_turtle();
        let ghost before = run(cmds.take(i as int))->Ok_0;
        proof {
            assert(cmds.take(i as int + 1).drop_last() =~= cmds.take(i as int));
            assert(cmds.take(i as int + 1).last() == cmds[i as int]);
        }
        match c {
            Turtle::Vertex => {
                let ghost old_points = points@;
                points.push(Point { moves: copy_moves(&position) });
                assert(points@.map_values(|p: Point| p@) =~= old_points.map_values(
                    |p: Point| p@,
                ).push(position@));
            },
            Turtle::Forward(length) => {
                position.push(Move { heading, length });
            },
            Turtle::Left => {
                heading = heading + 1;
            },
            Turtle::Right => {
                heading = heading - 1;
            },
            Turtle::Push => {
                let ghost old_states = states@;
                states.push(Pose { position: copy_moves(&position), heading });
                assert(states@.map_values(|p: Pose| p@) =~= old_states.map_values(
                    |p: Pose| p@,
                ).push((position@, heading as int)));
            },
            Turtle::Pop => {
                let ghost old_states = states@;
                match states.pop() {
                    Some(pose) => {
                        assert(states@.map_values(|p: Pose| p@) =~= old_states.map_values(
                            |p: Pose| p@,
                        ).drop_last());
                        assert(old_states[old_states.len() - 1] == pose);
                        position = pose.position;
                        heading = pose.heading;
                    },
                    None => {
                        proof {
                            lemma_run_err_extends(cmds, i as int + 1);
                        }
                        return Err(TurtleError::PoseStackUnderflow { index: i });
                    },
                }
            },
            Turtle::NewPolygon => {
                let ghost old_saved = saved_points@;
                let ghost old_points = points@;
                let buffer = points;
                points = Vec::new();
                saved_points.push(Polygon { points: buffer });
                assert(polygons_view(saved_points@) =~= polygons_view(old_saved).push(
                    old_points.map_values(|p: Point| p@),
                ));
                assert(points@.map_values(|p: Point| p@) =~= Seq::empty());
            },
            Turtle::ClosePolygon => {
                let ghost old_saved = saved_points@;
                let ghost old_polygons = polygons@;
                let ghost old_points = points@;
                match saved_points.pop() {
                    Some(previous) => {
                        assert(polygons_view(saved_points@) =~= polygons_view(old_saved).drop_last());
                        assert(old_saved[old_saved.len() - 1] == previous);
                        let finished = points;
                        points = previous.points;
                        polygons.push(Polygon { points: finished });
                        assert(polygons_view(polygons@) =~= polygons_view(old_polygons).push(
                            old_points.map_values(|p: Point| p@),
                        ));
                    },
                    None => {
                        proof {
                            lemma_run_err_extends(cmds, i as int + 1);
                        }
                        return Err(TurtleError::PolygonStackUnderflow { index: i });
                    },
                }
            },
            Turtle::Idle => {},
        }
        i = i + 1;
    }
    assert(cmds.take(n as int) =~= cmds);
    Ok(polygons)
}

/// The turtle reads all of `cmds` without an underflow and ends with every
/// saved pose restored and every opened polygon closed.
pub open spec fn balanced(cmds: Seq<Turtle>) -> bool {
    &&& run(cmds) is Ok
    &&& run(cmds)->Ok_0.poses.len() == 0
    &&& run(cmds)->Ok_0.saved.len() == 0
}

/// Scans a sentence for balance without drawing it.
pub fn check_balance<T: TurtleInterpretation>(commands: &Vec<T>) -> (r: bool)
    ensures
        r == balanced(commands_of(commands@)),
{
    let ghost cmds = commands_of(commands@);
    let mut poses: usize = 0;
    let mut polygons: usize = 0;
    let n = commands.len();
    let mut i: usize = 0;
    assert(cmds.take(0) =~= Seq::<Turtle>::empty());
    while i < n
        invariant
            n == commands@.len(),
            cmds == commands_of(commands@),
            i <= n,
            poses <= i,
            polygons <= i,
            run(cmds.take(i as int)) is Ok,
            run(cmds.take(i as int))->Ok_0.poses.len() == poses,
            run(cmds.take(i as int))->Ok_0.saved.len() == polygons,
        decreases n - i,
    {
        let c = commands[i].to_turtle();
        proof {
            assert(cmds.take(i as int + 1).drop_last() =~= cmds.take(i as int));
            assert(cmds.take(i as int + 1).last() == cmds[i as int]);
        }
        match c {
            Turtle::Push => {
                poses = poses + 1;
            },
            Turtle::Pop => {
                if poses == 0 {
                    proof {
                        lemma_run_err_extends(cmds, i as int + 1);
                    }
                    return false;
                }
                poses = poses - 1;
            },
            Turtle::NewPolygon => {
                polygons = polygons + 1;
            },
            Turtle::ClosePolygon => {
                if polygons == 0 {
                    proof {
                        lemma_run_err_extends(cmds, i as int + 1);
                    }
                    return false;
                }
                polygons = polygons - 1;
            },
            _ => {},
        }
        i = i + 1;
    }
    assert(cmds.take(n as int) =~= cmds);
    poses == 0 && polygons == 0
}

/// Reading the same sentence twice gives the same outcome: the same error,
/// or polygons with the same points in the same order.
pub proof fn law_drawing_is_deterministic<T: TurtleInterpretation>(
    commands: Seq<T>,
    first: Result<Vec<Polygon>, TurtleError>,
    second: Result<Vec<Polygon>, TurtleError>,
)
    requires
        drawn(commands, first),
        drawn(commands, second),
    ensures
        first is Ok <==> second is Ok,
        first is Err ==> first == second,
        first is Ok ==> polygons_view(first->Ok_0@) == polygons_view(second->Ok_0@),
{
}

/// From the start, a positive turn then a move leaves the turtle one move along
/// heading `+1`, that is at the turning angle; a negative turn, along heading
/// `-1`, at the opposite angle.
pub proof fn law_turn_sign(length: i64)
    ensures
        run(seq![Turtle::Left, Turtle::Forward(length)])->Ok_0.position == seq![
            Move { heading: 1, length },
        ],
        run(seq![Turtle::Right, Turtle::Forward(length)])->Ok_0.position == seq![
            Move { heading: -1i128, length },
        ],
{
    let l = seq![Turtle::Left, Turtle::Forward(length)];
    let r = seq![Turtle::Right, Turtle::Forward(length)];
    assert(l.drop_last().drop_last() =~= Seq::<Turtle>::empty());
    assert(r.drop_last().drop_last() =~= Seq::<Turtle>::empty());
    assert(run(l.drop_last().drop_last()) == Ok::<_, TurtleError>(start_run()));
    assert(run(r.drop_last().drop_last()) == Ok::<_, TurtleError>(start_run()));
    assert(l.drop_last().last() == Turtle::Left && r.drop_last().last() == Turtle::Right);
    assert(run(l.drop_last()) == Ok::<_, TurtleError>(TurtleRun { heading: 1, ..start_run() }));
    assert(run(r.drop_last()) == Ok::<_, TurtleError>(TurtleRun { heading: -1, ..start_run() }));
    assert(run(l)->Ok_0.position =~= seq![Move { heading: 1, length }]);
    assert(run(r)->Ok_0.position =~= seq![Move { heading: -1i128, length }]);
}

} // verus!
