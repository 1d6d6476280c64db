//! The classic L-system notation of a sentence: `.` for a vertex, `+` and `-`
//! for turns, `[` and `]` for poses, `{` and `}` for polygons, and `G(..)`,
//! `A(..)`, `B(..)` for moves and apexes, with quantities in decimal.
use vstd::prelude::*;
use vstd::string::StringExecFns;
use crate::fixed::UNIT;
use crate::leaf::Leaf;
use crate::l_system::LSystem;

verus! {

/// The decimal digit `d`.
pub open spec fn digit_char(d: int) -> char {
    if d == 0 {
        '0'
    } else if d == 1 {
        '1'
    } else if d == 2 {
        '2'
    } else if d == 3 {
        '3'
    } else if d == 4 {
        '4'
    } else if d == 5 {
        '5'
    } else if d == 6 {
        '6'
    } else if d == 7 {
        '7'
    } else if d == 8 {
        '8'
    } else {
        '9'
    }
}

/// `n` in decimal, without leading zeros.
pub open spec fn digits(n: nat) -> Seq<char>
    decreases n,
{
    if n < 10 {
        seq![digit_char(n as int)]
    } else {
        digits(n / 10) + seq![digit_char((n % 10) as int)]
    }
}

/// The last `k` decimal digits of `f`, with leading zeros.
pub open spec fn padded(f: nat, k: nat) -> Seq<char>
    decreases k,
{
    if k == 0 {
        Seq::empty()
    } else {
        padded(f / 10, (k - 1) as nat) + seq![digit_char((f % 10) as int)]
    }
}

/// The `k` digits of the fraction `f / 10^k`, trailing zeros dropped.
pub open spec fn fraction(f: nat, k: nat) -> Seq<char>
    decreases k,
{
    if k == 0 || f % 10 != 0 {
        padded(f, k)
    } else {
        fraction(f / 10, (k - 1) as nat)
    }
}

/// `x / UNIT` in decimal: a sign if negative, the whole part, and the
/// fractional part after a point where there is one.
pub open spec fn fixed_text(x: int) -> Seq<char> {
    let m: nat = if x < 0 { (-x) as nat } else { x as nat };
    let sign = if x < 0 { seq!['-'] } else { Seq::<char>::empty() };
    let frac = if m % (UNIT as nat) == 0 {
        Seq::<char>::empty()
    } else {
        seq!['.'] + fraction(m % (UNIT as nat), 6)
    };
    sign + digits(m / (UNIT as nat)) + frac
}

/// `true` or `false`.
pub open spec fn bool_text(b: bool) -> Seq<char> {
    if b {
        seq!['t', 'r', 'u', 'e']
    } else {
        seq!['f', 'a', 'l', 's', 'e']
    }
}

/// The notation of one letter.
pub open spec fn leaf_text(l: Leaf) -> Seq<char> {
    match l {
        Leaf::Vertex => seq!['.'],
        Leaf::Grow(length, rate, None) => seq!['G', '('] + fixed_text(length as int) + seq![',', ' ']
            + fixed_text(rate as int) + seq![')'],
        Leaf::Grow(length, rate, Some(time)) => seq!['G', '('] + fixed_text(length as int) + seq![
            ',',
            ' ',
        ] + fixed_text(rate as int) + seq![',', ' '] + fixed_text(time as int) + seq![')'],
        Leaf::MainApex(time, direction) => seq!['A', '('] + fixed_text(time as int) + seq![',', ' ']
            + bool_text(direction) + seq![')'],
        Leaf::SideApex(time) => seq!['B', '('] + fixed_text(time as int) + seq![')'],
        Leaf::AnglePos => seq!['+'],
        Leaf::AngleNeg => seq!['-'],
        Leaf::Save => seq!['['],
        Leaf::Load => seq![']'],
        Leaf::Pile => seq!['{'],
        Leaf::Depile => seq!['}'],
    }
}

/// The notation of a sentence: its letters' notations, in order.
pub open spec fn sentence_text(s: Seq<Leaf>) -> Seq<char>
    decreases s.len(),
{
    if s.len() == 0 {
        Seq::empty()
    } else {
        sentence_text(s.drop_last()) + leaf_text(s.last())
    }
}

fn push_digit(out: &mut String, d: u64)
    requires
        d < 10,
    ensures
        final(out)@ == old(out)@ + seq![digit_char(d as int)],
{
    if d == 0 {
        out.append("0");
        proof { reveal_strlit("0"); }
    } else if d == 1 {
        out.append("1");
        proof { reveal_strlit("1"); }
    } else if d == 2 {
        out.append("2");
        proof { reveal_strlit("2"); }
    } else if d == 3 {
        out.append("3");
        proof { reveal_strlit("3"); }
    } else if d == 4 {
        out.append("4");
        proof { reveal_strlit("4"); }
    } else if d == 5 {
        out.append("5");
        proof { reveal_strlit("5"); }
    } else if d == 6 {
        out.append("6");
        proof { reveal_strlit("6"); }
    } else if d == 7 {
        out.append("7");
        proof { reveal_strlit("7"); }
    } else if d == 8 {
        out.append("8");
        proof { reveal_strlit("8"); }
    } else {
        out.append("9");
        proof { reveal_strlit("9"); }
    }
}

fn push_digits(out: &mut String, n: u64)
    ensures
        final(out)@ == old(out)@ + digits(n as nat),
    decreases n,
{
    if n >= 10 {
        push_digits(out, n / 10);
    }
    push_digit(out, n % 10);
    assert(final(out)@ =~= old(out)@ + digits(n as nat));
}

fn push_padded(out: &mut String, f: u64, k: u64)
    ensures
        final(out)@ == old(out)@ + padded(f as nat, k as nat),
    decreases k,
{
    if k > 0 {
        push_padded(out, f / 10, k - 1);
        push_digit(out, f % 10);
    }
    assert(final(out)@ =~= old(out)@ + padded(f as nat, k as nat));
}

fn push_fraction(out: &mut String, f: u64, k: u64)
    ensures
        final(out)@ == old(out)@ + fraction(f as nat, k as nat),
    decreases k,
{
    if k == 0 || f % 10 != 0 {
        push_padded(out, f, k);
    } else {
        push_fraction(out, f / 10, k - 1);
    }
}

fn push_fixed(out: &mut String, x: i64)
    ensures
        final(out)@ == old(out)@ + fixed_text(x as int),
{
    let ghost start = out@;
    let m: u64 = if x < 0 { ((-(x + 1)) as u64) + 1 } else { x as u64 };
    if x < 0 {
        out.append("-");
        proof { reveal_strlit("-"); }
    }
    push_digits(out, m / (UNIT as u64));
    if m % (UNIT as u64) != 0 {
        out.append(".");
        proof { reveal_strlit("."); }
        push_fraction(out, m % (UNIT as u64), 6);
    }
    assert(out@ =~= start + fixed_text(x as int));
}

fn push_leaf(out: &mut String, l: Leaf)
    ensures
        final(out)@ == old(out)@ + leaf_text(l),
{
    let ghost start = out@;
    proof {
        reveal_strlit(".");
        reveal_strlit("+");
        reveal_strlit("-");
        reveal_strlit("[");
        reveal_strlit("]");
        reveal_strlit("{");
        reveal_strlit("}");
        reveal_strlit("G(");
        reveal_strlit("A(");
        reveal_strlit("B(");
        reveal_strlit(", ");
        reveal_strlit(")");
        reveal_strlit("true");
        reveal_strlit("false");
    }
    match l {
        Leaf::Vertex => out.append("."),
        Leaf::Grow(length, rate, time) => {
            out.append("G(");
            push_fixed(out, length);
            out.append(", ");
            push_fixed(out, rate);
            match time {
                Some(t) => {
                    out.append(", ");
                    push_fixed(out, t);
                },
                None => {},
            }
            out.append(")");
        },
        Leaf::MainApex(time, direction) => {
            out.append("A(");
            push_fixed(out, time);
            out.append(", ");
            if direction {
                out.append("true");
            } else {
                out.append("false");
            }
            out.append(")");
        },
        Leaf::SideApex(time) => {
            out.append("B(");
            push_fixed(out, time);
            out.append(")");
        },
        Leaf::AnglePos => out.append("+"),
        Leaf::AngleNeg => out.append("-"),
        Leaf::Save => out.append("["),
        Leaf::Load => out.append("]"),
        Leaf::Pile => out.append("{"),
        Leaf::Depile => out.append("}"),
    }
    assert(out@ =~= start + leaf_text(l));
}

impl Leaf {
    /// The letter's notation.
    pub fn to_string(&self) -> (r: String)
        ensures
            r@ == leaf_text(*self),
    {
        let mut out = String::new();
        push_leaf(&mut out, *self);
        out
    }
}

impl LSystem {
    /// The current sentence in L-system notation.
    pub fn to_string(&self) -> (r: String)
        ensures
            r@ == sentence_text(self.sentence@),
    {
        let mut out = String::new();
        let mut i: usize = 0;
        while i < self.sentence.len()
            invariant
                i <= self.sentence@.len(),
                out@ == sentence_text(self.sentence@.take(i as int)),
            decreases self.sentence@.len() - i,
        {
            proof {
                assert(self.sentence@.take(i as int + 1).drop_last() =~= self.sentence@.take(i as int));
            }
            push_leaf(&mut out, self.sentence[i]);
            i = i + 1;
        }
        assert(self.sentence@.take(i as int) =~= self.sentence@);
        out
    }
}

} // verus!
