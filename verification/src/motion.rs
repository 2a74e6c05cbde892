//! Running a motion: the pulse counts sent to the motor controller, the
//! command that carries them, and which joints are still moving.
use vstd::prelude::*;
use crate::decimal::{decimal_value, int_decimal, lemma_decimal_alphabet, lemma_decimal_round_trip, push_decimal};
use crate::rotor::Rotor;
use crate::PULSES_PER_DEGREE;

verus! {

/// ASCII code of the blank that separates the numbers of a command.
pub const SPACE: u8 = 32;

/// Which joints are still moving towards their targets, one flag per joint.
#[derive(Clone, Copy, Debug, PartialEq, Eq, Structural)]
pub struct IsRunning {
    pub sy: bool,
    pub sz: bool,
    pub ez: bool,
    pub wz: bool,
    pub wy: bool,
}

impl IsRunning {
    /// The flag of joint `r`.
    pub open spec fn moving(self, r: Rotor) -> bool {
        match r {
            Rotor::Sy => self.sy,
            Rotor::Sz => self.sz,
            Rotor::Ez => self.ez,
            Rotor::Wz => self.wz,
            Rotor::Wy => self.wy,
        }
    }

    /// No joint moving.
    pub fn new() -> (s: IsRunning)
        ensures
            forall|r: Rotor| !(#[trigger] s.moving(r)),
    {
        IsRunning { sy: false, sz: false, ez: false, wz: false, wy: false }
    }

    /// Whether the joints are to be stepped towards their targets. The
    /// stepping runs on every frame, whatever the flags say: joints that
    /// have arrived take steps of zero.
    pub fn is_running(&self) -> (b: bool)
        ensures
            b,
    {
        true
    }

    /// Marks every joint as moving.
    pub fn start_all(&mut self)
        ensures
            forall|r: Rotor| #[trigger] final(self).moving(r),
            final(self).sy && final(self).sz && final(self).ez && final(self).wz && final(self).wy,
    {
        self.sy = true;
        self.sz = true;
        self.ez = true;
        self.wz = true;
        self.wy = true;
    }

    /// Marks joint `r` as arrived, and leaves the other flags as they were.
    pub fn stop(&mut self, r: Rotor)
        ensures
            !final(self).moving(r),
            forall|s: Rotor| s != r ==> #[trigger] final(self).moving(s) == old(self).moving(s),
    {
        match r {
            Rotor::Sy => self.sy = false,
            Rotor::Sz => self.sz = false,
            Rotor::Ez => self.ez = false,
            Rotor::Wz => self.wz = false,
            Rotor::Wy => self.wy = false,
        }
    }
}

impl Default for IsRunning {
    fn default() -> (s: IsRunning)
        ensures
            forall|r: Rotor| !(#[trigger] s.moving(r)),
    {
        IsRunning::new()
    }
}

/// A joint and how far, in whole degrees, it is to turn: its slider target
/// less the angle it was last sent to.
#[derive(Clone, Copy, Debug, PartialEq, Eq, Structural)]
pub struct RotorMove {
    pub rotor: Rotor,
    pub degrees: i64,
}

/// Pulses to send to each joint's driver.
#[derive(Clone, Copy, Debug, PartialEq, Eq, Structural)]
pub struct Steps {
    pub sy: i64,
    pub sz: i64,
    pub ez: i64,
    pub wz: i64,
    pub wy: i64,
}

impl Steps {
    /// The pulses of joint `r`.
    pub open spec fn of(self, r: Rotor) -> i64 {
        match r {
            Rotor::Sy => self.sy,
            Rotor::Sz => self.sz,
            Rotor::Ez => self.ez,
            Rotor::Wz => self.wz,
            Rotor::Wy => self.wy,
        }
    }
}

/// The degrees of the last move of joint `r` in `moves`, if it has one.
pub open spec fn last_move(moves: Seq<RotorMove>, r: Rotor) -> Option<i64>
    decreases moves.len(),
{
    if moves.len() == 0 {
        None
    } else if moves.last().rotor == r {
        Some(moves.last().degrees)
    } else {
        last_move(moves.drop_last(), r)
    }
}

/// The pulses planned for joint `r`: its last move times the pulses per
/// degree, or none when it has no move.
pub open spec fn planned_pulses(moves: Seq<RotorMove>, r: Rotor) -> int {
    match last_move(moves, r) {
        Some(d) => d * PULSES_PER_DEGREE,
        None => 0,
    }
}

/// The pulses planned for every joint.
pub open spec fn planned_steps(moves: Seq<RotorMove>) -> Steps {
    Steps {
        sy: planned_pulses(moves, Rotor::Sy) as i64,
        sz: planned_pulses(moves, Rotor::Sz) as i64,
        ez: planned_pulses(moves, Rotor::Ez) as i64,
        wz: planned_pulses(moves, Rotor::Wz) as i64,
        wy: planned_pulses(moves, Rotor::Wy) as i64,
    }
}

/// Every move's pulse count fits in an `i64`.
pub open spec fn moves_fit(moves: Seq<RotorMove>) -> bool {
    forall|i: int|
        0 <= i < moves.len() ==> i64::MIN <= #[trigger] moves[i].degrees * PULSES_PER_DEGREE
            <= i64::MAX
}

/// The text of a motion command: the pulses of the shoulder y, shoulder z,
/// elbow z and wrist z joints, in decimal, separated by single blanks. The
/// wrist y joint is not part of it.
pub open spec fn command_text(s: Steps) -> Seq<u8> {
    int_decimal(s.sy as int) + seq![SPACE] + int_decimal(s.sz as int) + seq![SPACE] + int_decimal(s.ez as int)
        + seq![SPACE] + int_decimal(s.wz as int)
}

/// The blank-separated fields of `t`, as the motor controller splits a
/// command: the bytes between consecutive blanks, and before the first and
/// after the last.
pub open spec fn blank_fields(t: Seq<u8>) -> Seq<Seq<u8>>
    decreases t.len(),
{
    if t.len() == 0 {
        seq![Seq::<u8>::empty()]
    } else if t.last() == SPACE {
        blank_fields(t.drop_last()).push(Seq::<u8>::empty())
    } else {
        let f: Seq<Seq<u8>> = blank_fields(t.drop_last());
        f.update(f.len() - 1, f.last().push(t.last()))
    }
}

pub open spec fn no_blank(t: Seq<u8>) -> bool {
    forall|i: int| 0 <= i < t.len() ==> #[trigger] t[i] != SPACE
}

proof fn lemma_blank_fields_not_empty(t: Seq<u8>)
    ensures
        blank_fields(t).len() >= 1,
    decreases t.len(),
{
    if t.len() > 0 {
        lemma_blank_fields_not_empty(t.drop_last());
    }
}

proof fn lemma_blank_fields_extend(a: Seq<u8>, b: Seq<u8>)
    requires
        no_blank(b),
    ensures
        blank_fields(a + b) == blank_fields(a).update(
            blank_fields(a).len() - 1,
            blank_fields(a).last() + b,
        ),
    decreases b.len(),
{
    lemma_blank_fields_not_empty(a);
    let fa: Seq<Seq<u8>> = blank_fields(a);
    if b.len() == 0 {
        assert(a + b =~= a);
        assert(fa.last() + b =~= fa.last());
        assert(fa.update(fa.len() - 1, fa.last()) =~= fa);
    } else {
        let b1: Seq<u8> = b.drop_last();
        assert(no_blank(b1)) by {
            assert forall|i: int| 0 <= i < b1.len() implies #[trigger] b1[i] != SPACE by {
                assert(b1[i] == b[i]);
            }
        }
        lemma_blank_fields_extend(a, b1);
        lemma_blank_fields_not_empty(a + b1);
        assert((a + b).drop_last() =~= a + b1);
        assert((a + b).last() == b.last());
        assert(b[b.len() - 1] != SPACE);
        assert((fa.last() + b1).push(b.last()) =~= fa.last() + b);
        assert(blank_fields(a + b) =~= fa.update(fa.len() - 1, fa.last() + b));
    }
}

proof fn lemma_blank_fields_append(a: Seq<u8>, b: Seq<u8>)
    requires
        no_blank(b),
    ensures
        blank_fields(a + seq![SPACE] + b) == blank_fields(a).push(b),
{
    let a1: Seq<u8> = a + seq![SPACE];
    assert(a1.drop_last() =~= a);
    lemma_blank_fields_extend(a1, b);
    let fa1: Seq<Seq<u8>> = blank_fields(a1);
    assert(fa1.last() + b =~= b);
    assert(fa1.update(fa1.len() - 1, b) =~= blank_fields(a).push(b));
}

proof fn lemma_decimal_no_blank(n: int)
    ensures
        no_blank(int_decimal(n)),
{
    lemma_decimal_alphabet(n);
    let t: Seq<u8> = int_decimal(n);
    assert forall|i: int| 0 <= i < t.len() implies #[trigger] t[i] != SPACE by {
        assert(crate::decimal::is_digit(t[i]) || t[i] == crate::decimal::MINUS);
    }
}

/// A motion command splits at its blanks into exactly four fields, and the
/// fields read back, in joint order from the base, as the pulses of the
/// shoulder y, shoulder z, elbow z and wrist z joints.
pub proof fn lemma_command_fields(s: Steps)
    ensures
        blank_fields(command_text(s)).len() == 4,
        decimal_value(blank_fields(command_text(s))[0]) == Some(s.sy as int),
        decimal_value(blank_fields(command_text(s))[1]) == Some(s.sz as int),
        decimal_value(blank_fields(command_text(s))[2]) == Some(s.ez as int),
        decimal_value(blank_fields(command_text(s))[3]) == Some(s.wz as int),
{
    let d0: Seq<u8> = int_decimal(s.sy as int);
    let d1: Seq<u8> = int_decimal(s.sz as int);
    let d2: Seq<u8> = int_decimal(s.ez as int);
    let d3: Seq<u8> = int_decimal(s.wz as int);
    lemma_decimal_no_blank(s.sy as int);
    lemma_decimal_no_blank(s.sz as int);
    lemma_decimal_no_blank(s.ez as int);
    lemma_decimal_no_blank(s.wz as int);
    lemma_blank_fields_extend(Seq::<u8>::empty(), d0);
    assert(Seq::<u8>::empty() + d0 =~= d0);
    assert(seq![Seq::<u8>::empty()].update(0, Seq::<u8>::empty() + d0) =~= seq![d0]);
    let t1: Seq<u8> = d0 + seq![SPACE] + d1;
    let t2: Seq<u8> = t1 + seq![SPACE] + d2;
    lemma_blank_fields_append(d0, d1);
    lemma_blank_fields_append(t1, d2);
    lemma_blank_fields_append(t2, d3);
    assert(command_text(s) == t2 + seq![SPACE] + d3);
    assert(blank_fields(command_text(s)) =~= seq![d0, d1, d2, d3]);
    lemma_decimal_round_trip(s.sy as int);
    lemma_decimal_round_trip(s.sz as int);
    lemma_decimal_round_trip(s.ez as int);
    lemma_decimal_round_trip(s.wz as int);
}

/// The flag of each joint is the field named after it.
pub proof fn lemma_flag_fields(s: IsRunning)
    ensures
        s.moving(Rotor::Sy) == s.sy,
        s.moving(Rotor::Sz) == s.sz,
        s.moving(Rotor::Ez) == s.ez,
        s.moving(Rotor::Wz) == s.wz,
        s.moving(Rotor::Wy) == s.wy,
{
}

/// The pulses of each joint are the field named after it, both in any
/// `Steps` and in the planned ones.
pub proof fn lemma_steps_fields(s: Steps, moves: Seq<RotorMove>)
    ensures
        s.of(Rotor::Sy) == s.sy,
        s.of(Rotor::Sz) == s.sz,
        s.of(Rotor::Ez) == s.ez,
        s.of(Rotor::Wz) == s.wz,
        s.of(Rotor::Wy) == s.wy,
        moves_fit(moves) ==> planned_steps(moves).sy == planned_pulses(moves, Rotor::Sy),
        moves_fit(moves) ==> planned_steps(moves).sz == planned_pulses(moves, Rotor::Sz),
        moves_fit(moves) ==> planned_steps(moves).ez == planned_pulses(moves, Rotor::Ez),
        moves_fit(moves) ==> planned_steps(moves).wz == planned_pulses(moves, Rotor::Wz),
        moves_fit(moves) ==> planned_steps(moves).wy == planned_pulses(moves, Rotor::Wy),
{
    if moves_fit(moves) {
        lemma_planned_pulses_fit(moves, Rotor::Sy);
        lemma_planned_pulses_fit(moves, Rotor::Sz);
        lemma_planned_pulses_fit(moves, Rotor::Ez);
        lemma_planned_pulses_fit(moves, Rotor::Wz);
        lemma_planned_pulses_fit(moves, Rotor::Wy);
    }
}

proof fn lemma_planned_pulses_fit(moves: Seq<RotorMove>, r: Rotor)
    requires
        moves_fit(moves),
    ensures
        i64::MIN <= planned_pulses(moves, r) <= i64::MAX,
    decreases moves.len(),
{
    if moves.len() > 0 {
        assert(i64::MIN <= moves[moves.len() - 1].degrees * PULSES_PER_DEGREE <= i64::MAX);
        if moves.last().rotor != r {
            let rest: Seq<RotorMove> = moves.drop_last();
            assert(moves_fit(rest)) by {
                assert forall|i: int| 0 <= i < rest.len() implies i64::MIN <= #[trigger] rest[i].degrees
                    * PULSES_PER_DEGREE <= i64::MAX by {
                    assert(rest[i] == moves[i]);
                }
            }
            lemma_planned_pulses_fit(rest, r);
        }
    }
}

/// With no moves no joint gets pulses; a further move sets the pulses of its
/// own joint to its degrees times 555, whatever came before, and leaves every
/// other joint's pulses as they were.
pub proof fn lemma_planned_pulses_push(moves: Seq<RotorMove>, m: RotorMove, r: Rotor)
    ensures
        planned_pulses(Seq::<RotorMove>::empty(), r) == 0,
        m.rotor == r ==> planned_pulses(moves.push(m), r) == m.degrees * 555,
        m.rotor != r ==> planned_pulses(moves.push(m), r) == planned_pulses(moves, r),
{
    assert(moves.push(m).drop_last() =~= moves);
    assert(moves.push(m).last() == m);
}

/// A move that no later move of the same joint follows decides that joint's
/// pulses: its degrees times 555.
pub proof fn lemma_planned_pulses_last(moves: Seq<RotorMove>, k: int)
    requires
        0 <= k < moves.len(),
        forall|j: int| k < j < moves.len() ==> #[trigger] moves[j].rotor != moves[k].rotor,
    ensures
        planned_pulses(moves, moves[k].rotor) == moves[k].degrees * 555,
    decreases moves.len(),
{
    if k < moves.len() - 1 {
        let rest: Seq<RotorMove> = moves.drop_last();
        assert(moves[moves.len() - 1].rotor != moves[k].rotor);
        assert(rest[k] == moves[k]);
        assert forall|j: int| k < j < rest.len() implies #[trigger] rest[j].rotor != rest[k].rotor by {
            assert(rest[j] == moves[j]);
            assert(moves[j].rotor != moves[k].rotor);
        }
        lemma_planned_pulses_last(rest, k);
    }
}

/// The pulses for a motion: for each joint, its last move in `moves` times
/// the pulses per degree; joints without a move get none.
pub fn plan_steps(moves: &Vec<RotorMove>) -> (s: Steps)
    requires
        moves_fit(moves@),
    ensures
        forall|r: Rotor| #[trigger] s.of(r) == planned_pulses(moves@, r),
        s == planned_steps(moves@),
        s.sy == planned_pulses(moves@, Rotor::Sy),
        s.sz == planned_pulses(moves@, Rotor::Sz),
        s.ez == planned_pulses(moves@, Rotor::Ez),
        s.wz == planned_pulses(moves@, Rotor::Wz),
        s.wy == planned_pulses(moves@, Rotor::Wy),
{
    let mut s: Steps = Steps { sy: 0, sz: 0, ez: 0, wz: 0, wy: 0 };
    let mut i: usize = 0;
    while i < moves.len()
        invariant
            i <= moves.len(),
            moves_fit(moves@),
            forall|r: Rotor| #[trigger] s.of(r) == planned_pulses(moves@.take(i as int), r),
        decreases moves.len() - i,
    {
        let m: RotorMove = moves[i];
        assert(i64::MIN <= moves@[i as int].degrees * PULSES_PER_DEGREE <= i64::MAX);
        let pulses: i64 = m.degrees * PULSES_PER_DEGREE;
        let ghost before: Steps = s;
        match m.rotor {
            Rotor::Sy => s.sy = pulses,
            Rotor::Sz => s.sz = pulses,
            Rotor::Ez => s.ez = pulses,
            Rotor::Wz => s.wz = pulses,
            Rotor::Wy => s.wy = pulses,
        }
        let ghost next: Seq<RotorMove> = moves@.take(i + 1);
        assert(next.drop_last() =~= moves@.take(i as int));
        assert(next.last() == m);
        assert forall|r: Rotor| #[trigger] s.of(r) == planned_pulses(next, r) by {
            if r != m.rotor {
                assert(before.of(r) == planned_pulses(moves@.take(i as int), r));
                assert(last_move(next, r) == last_move(moves@.take(i as int), r));
            }
        }
        i = i + 1;
    }
    assert(moves@.take(moves.len() as int) =~= moves@);
    assert(s.sy == s.of(Rotor::Sy) && s.sz == s.of(Rotor::Sz) && s.ez == s.of(Rotor::Ez) && s.wz
        == s.of(Rotor::Wz) && s.wy == s.of(Rotor::Wy));
    s
}

/// The motion command for `s`, as sent to the motor controller.
pub fn run_command(s: &Steps) -> (text: Vec<u8>)
    ensures
        text@ == command_text(*s),
{
    let mut text: Vec<u8> = Vec::new();
    push_decimal(s.sy, &mut text);
    text.push(SPACE);
    push_decimal(s.sz, &mut text);
    text.push(SPACE);
    push_decimal(s.ez, &mut text);
    text.push(SPACE);
    push_decimal(s.wz, &mut text);
    assert(text@ =~= command_text(*s));
    text
}

/// Starts a motion: marks every joint as moving and gives the command that
/// sends each joint its planned pulses.
pub fn run_simulation(running: &mut IsRunning, moves: &Vec<RotorMove>) -> (command: Vec<u8>)
    requires
        moves_fit(moves@),
    ensures
        forall|r: Rotor| #[trigger] final(running).moving(r),
        command@ == command_text(planned_steps(moves@)),
{
    running.start_all();
    let s: Steps = plan_steps(moves);
    run_command(&s)
}

} // verus!
