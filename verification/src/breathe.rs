//! The breathing cycle and the session that walks through it tick by tick.

use vstd::prelude::*;
use vstd::arithmetic::div_mod::{
    lemma_fundamental_div_mod, lemma_fundamental_div_mod_converse_mod, lemma_mod_self_0,
    lemma_small_mod,
};
use crate::arith::{
    checked_lcm, is_common_multiple, lcm, lcm_u64, lemma_lcm_divides_common_multiples,
    lemma_lcm_exists, lemma_lcm_of_one, lemma_multiple_is_product, lemma_multiple_of_multiple,
};
use vstd::string::StringExecFns;
use crate::config::{or_zero, Pattern, PatternLength, PatternView};
use crate::text::{decimal, u64_to_string};

verus! {

/// One of the four phases of a breathing cycle.
#[derive(Debug, Copy, Clone, PartialEq, Eq, Hash, Structural)]
pub enum BreathPhase {
    BreathIn,
    HoldIn,
    BreathOut,
    HoldOut,
}

/// One less than the width, in characters, that a display reserves for a
/// phase name.
pub const MAX_BREATHE_PHASE_STR_LEN: usize = 8;

impl BreathPhase {
    /// The phase that follows `self` in the cycle.
    pub open spec fn spec_next(self) -> BreathPhase {
        match self {
            BreathPhase::BreathIn => BreathPhase::HoldIn,
            BreathPhase::HoldIn => BreathPhase::BreathOut,
            BreathPhase::BreathOut => BreathPhase::HoldOut,
            BreathPhase::HoldOut => BreathPhase::BreathIn,
        }
    }

    /// The phase reached from `self` after `k` steps round the cycle.
    pub open spec fn nth_next(self, k: nat) -> BreathPhase
        decreases k,
    {
        if k == 0 {
            self
        } else {
            self.nth_next((k - 1) as nat).spec_next()
        }
    }

    /// The name under which a phase is shown.
    pub open spec fn name(self) -> Seq<char> {
        match self {
            BreathPhase::BreathIn => "BreathIn"@,
            BreathPhase::HoldIn => "HoldIn"@,
            BreathPhase::BreathOut => "BreathOut"@,
            BreathPhase::HoldOut => "HoldOut"@,
        }
    }

    /// Phases are ordered cyclically; this returns the one after `self`.
    #[verifier::when_used_as_spec(spec_next)]
    pub fn next(self) -> (r: BreathPhase)
        ensures
            r == self.spec_next(),
    {
        match self {
            BreathPhase::BreathIn => BreathPhase::HoldIn,
            BreathPhase::HoldIn => BreathPhase::BreathOut,
            BreathPhase::BreathOut => BreathPhase::HoldOut,
            BreathPhase::HoldOut => BreathPhase::BreathIn,
        }
    }

    /// The name under which the phase is shown.
    pub fn as_str(self) -> (r: &'static str)
        ensures
            r@ == self.name(),
    {
        match self {
            BreathPhase::BreathIn => "BreathIn",
            BreathPhase::HoldIn => "HoldIn",
            BreathPhase::BreathOut => "BreathOut",
            BreathPhase::HoldOut => "HoldOut",
        }
    }
}

impl Default for BreathPhase {
    fn default() -> (r: BreathPhase)
        ensures
            r == BreathPhase::BreathIn,
    {
        BreathPhase::BreathIn
    }
}

/// Four steps round the cycle lead back to the phase one started from, and
/// fewer do not.
pub proof fn lemma_phase_order_is_cyclic(phase: BreathPhase)
    ensures
        phase.nth_next(4) == phase,
        phase.nth_next(1) != phase,
        phase.nth_next(2) != phase,
        phase.nth_next(3) != phase,
        BreathPhase::BreathIn.nth_next(1) == BreathPhase::HoldIn,
        BreathPhase::BreathIn.nth_next(2) == BreathPhase::BreathOut,
        BreathPhase::BreathIn.nth_next(3) == BreathPhase::HoldOut,
{
    reveal_with_fuel(BreathPhase::nth_next, 5);
}

/// Every phase name fits the width that `MAX_BREATHE_PHASE_STR_LEN` stands
/// for.
pub proof fn lemma_phase_name_len(phase: BreathPhase)
    ensures
        0 < phase.name().len() <= MAX_BREATHE_PHASE_STR_LEN + 1,
{
    reveal_strlit("BreathIn");
    reveal_strlit("HoldIn");
    reveal_strlit("BreathOut");
    reveal_strlit("HoldOut");
}

/// The lengths of the four phases in ticks: the mathematical model of a
/// breathing cycle. A phase of length zero is skipped.
pub struct PhaseLengths {
    pub breath_in: nat,
    pub hold_in: nat,
    pub breath_out: nat,
    pub hold_out: nat,
}

/// The least common multiple of `acc` and `x`, where a zero `x` does not
/// count.
pub open spec fn lcm_skipping_zero(acc: nat, x: nat) -> nat {
    if x == 0 {
        acc
    } else {
        lcm(acc, x)
    }
}

impl PhaseLengths {
    /// The phase lengths that a pattern prescribes.
    pub open spec fn of(pattern: PatternView) -> PhaseLengths {
        PhaseLengths {
            breath_in: pattern.breath_in,
            hold_in: or_zero(pattern.hold_in),
            breath_out: pattern.breath_out,
            hold_out: or_zero(pattern.hold_out),
        }
    }

    /// The length of one phase.
    pub open spec fn get(self, phase: BreathPhase) -> nat {
        match phase {
            BreathPhase::BreathIn => self.breath_in,
            BreathPhase::HoldIn => self.hold_in,
            BreathPhase::BreathOut => self.breath_out,
            BreathPhase::HoldOut => self.hold_out,
        }
    }

    /// The ticks that one full cycle takes.
    pub open spec fn cycle_length(self) -> nat {
        self.breath_in + self.hold_in + self.breath_out + self.hold_out
    }

    /// Both breaths take time, so that the cycle never stands still.
    pub open spec fn valid(self) -> bool {
        self.breath_in > 0 && self.breath_out > 0
    }

    /// `m` is positive and a multiple of every phase length that is not zero.
    pub open spec fn is_common_multiple(self, m: nat) -> bool {
        &&& m > 0
        &&& forall|phase: BreathPhase| self.get(phase) > 0 ==> m % #[trigger] self.get(phase) == 0
    }

    /// `m` is the least common multiple of the phase lengths that are not
    /// zero.
    pub open spec fn is_lcm(self, m: nat) -> bool {
        &&& self.is_common_multiple(m)
        &&& forall|k: nat| self.is_common_multiple(k) ==> m <= k
    }

    /// The least common multiple of the phase lengths that are not zero
    /// (one, if all are zero).
    pub open spec fn lcm(self) -> nat {
        choose|m: nat| self.is_lcm(m)
    }

    /// The least common multiple of the first `n` phase lengths, zeros
    /// skipped: what folding the lengths one by one arrives at.
    pub open spec fn lcm_of_first(self, n: nat) -> nat {
        let one = lcm_skipping_zero(1, self.breath_in);
        let two = lcm_skipping_zero(one, self.hold_in);
        let three = lcm_skipping_zero(two, self.breath_out);
        if n == 0 {
            1
        } else if n == 1 {
            one
        } else if n == 2 {
            two
        } else if n == 3 {
            three
        } else {
            lcm_skipping_zero(three, self.hold_out)
        }
    }

    /// The first phase after `phase`, in cyclic order, whose length is not
    /// zero; `phase` itself when the other three are all zero.
    pub open spec fn next_active(self, phase: BreathPhase) -> BreathPhase {
        let first = phase.spec_next();
        let second = first.spec_next();
        let third = second.spec_next();
        if self.get(first) > 0 {
            first
        } else if self.get(second) > 0 {
            second
        } else if self.get(third) > 0 {
            third
        } else {
            phase
        }
    }

    /// The tick within the cycle at which `phase` begins.
    pub open spec fn start_of(self, phase: BreathPhase) -> nat {
        match phase {
            BreathPhase::BreathIn => 0,
            BreathPhase::HoldIn => self.breath_in,
            BreathPhase::BreathOut => self.breath_in + self.hold_in,
            BreathPhase::HoldOut => self.breath_in + self.hold_in + self.breath_out,
        }
    }
}

/// A multiple of a multiple of `a` is a multiple of `a`.
proof fn lemma_multiple_transitive(a: nat, m: nat, n: nat)
    requires
        a > 0,
        m > 0,
        m % a == 0,
        n % m == 0,
    ensures
        n % a == 0,
{
    lemma_multiple_is_product(m, n);
    lemma_multiple_of_multiple(a, m, n / m);
    assert(m * (n / m) == (n / m) * m) by (nonlinear_arith);
}

/// A positive multiple of `a` is at least `a`.
proof fn lemma_multiple_is_no_less(a: nat, m: nat)
    requires
        a > 0,
        m > 0,
        m % a == 0,
    ensures
        a <= m,
{
    if m < a {
        lemma_small_mod(m, a);
    }
}

/// Folding one more length into a least common multiple gives a multiple of
/// what there was and of the new length, unless that is zero.
proof fn lemma_lcm_skipping_zero(acc: nat, x: nat)
    requires
        acc > 0,
    ensures
        lcm_skipping_zero(acc, x) > 0,
        lcm_skipping_zero(acc, x) % acc == 0,
        x > 0 ==> lcm_skipping_zero(acc, x) % x == 0,
{
    if x > 0 {
        lemma_lcm_exists(acc, x);
    } else {
        lemma_mod_self_0(acc as int);
    }
}

/// Whatever `acc` and a non-zero `x` both divide, their fold divides too.
proof fn lemma_lcm_skipping_zero_divides(acc: nat, x: nat, k: nat)
    requires
        acc > 0,
        k > 0,
        k % acc == 0,
        x > 0 ==> k % x == 0,
    ensures
        k % lcm_skipping_zero(acc, x) == 0,
{
    if x > 0 {
        assert(is_common_multiple(acc, x, k));
        lemma_lcm_divides_common_multiples(acc, x, k);
    }
}

impl PhaseLengths {
    /// Folding the four lengths one by one, zeros skipped, arrives at their
    /// least common multiple, and never exceeds it on the way.
    pub proof fn lemma_lcm_is_fold(self)
        ensures
            self.is_lcm(self.lcm()),
            self.lcm() == self.lcm_of_first(4),
            forall|n: nat| 0 < #[trigger] self.lcm_of_first(n) <= self.lcm(),
    {
        let a1 = self.lcm_of_first(1);
        let a2 = self.lcm_of_first(2);
        let a3 = self.lcm_of_first(3);
        let a4 = self.lcm_of_first(4);
        lemma_lcm_skipping_zero(1, self.breath_in);
        lemma_lcm_skipping_zero(a1, self.hold_in);
        lemma_lcm_skipping_zero(a2, self.breath_out);
        lemma_lcm_skipping_zero(a3, self.hold_out);
        lemma_multiple_transitive(a2, a3, a4);
        lemma_multiple_transitive(a1, a2, a4);
        assert(self.is_common_multiple(a4)) by {
            assert forall|phase: BreathPhase| self.get(phase) > 0 implies a4 % #[trigger] self.get(
                phase,
            ) == 0 by {
                match phase {
                    BreathPhase::BreathIn => lemma_multiple_transitive(self.breath_in, a1, a4),
                    BreathPhase::HoldIn => lemma_multiple_transitive(self.hold_in, a2, a4),
                    BreathPhase::BreathOut => lemma_multiple_transitive(self.breath_out, a3, a4),
                    BreathPhase::HoldOut => {},
                }
            }
        }
        assert forall|k: nat| self.is_common_multiple(k) implies a4 <= k by {
            assert(self.get(BreathPhase::BreathIn) == self.breath_in);
            assert(self.get(BreathPhase::HoldIn) == self.hold_in);
            assert(self.get(BreathPhase::BreathOut) == self.breath_out);
            assert(self.get(BreathPhase::HoldOut) == self.hold_out);
            assert(k % 1 == 0);
            lemma_lcm_skipping_zero_divides(1, self.breath_in, k);
            lemma_lcm_skipping_zero_divides(a1, self.hold_in, k);
            lemma_lcm_skipping_zero_divides(a2, self.breath_out, k);
            lemma_lcm_skipping_zero_divides(a3, self.hold_out, k);
            lemma_multiple_is_no_less(a4, k);
        }
        assert(self.is_lcm(a4));
        lemma_multiple_is_no_less(a1, a4);
        lemma_multiple_is_no_less(a2, a4);
        lemma_multiple_is_no_less(a3, a4);
    }

    /// Without holds the least common multiple of the phase lengths is that
    /// of the two breaths.
    pub proof fn lemma_lcm_without_holds(self)
        requires
            self.valid(),
            self.hold_in == 0,
            self.hold_out == 0,
        ensures
            self.lcm() == lcm(self.breath_in, self.breath_out),
    {
        self.lemma_lcm_is_fold();
        lemma_lcm_of_one(self.breath_in);
    }

    /// The least common multiple depends only on which lengths occur: not
    /// on the phases that have them, nor on the order in which they are
    /// folded.
    pub proof fn lemma_lcm_ignores_order(self, other: PhaseLengths)
        requires
            forall|p: BreathPhase|
                exists|q: BreathPhase| #[trigger] self.get(p) == #[trigger] other.get(q),
            forall|q: BreathPhase|
                exists|p: BreathPhase| #[trigger] other.get(q) == #[trigger] self.get(p),
        ensures
            self.lcm() == other.lcm(),
    {
        self.lemma_lcm_is_fold();
        other.lemma_lcm_is_fold();
        assert forall|m: nat| self.is_common_multiple(m) implies other.is_common_multiple(m) by {
            assert forall|q: BreathPhase| other.get(q) > 0 implies m % #[trigger] other.get(q)
                == 0 by {
                let p = choose|p: BreathPhase| other.get(q) == #[trigger] self.get(p);
                assert(m % self.get(p) == 0);
            }
        }
        assert forall|m: nat| other.is_common_multiple(m) implies self.is_common_multiple(m) by {
            assert forall|p: BreathPhase| self.get(p) > 0 implies m % #[trigger] self.get(p)
                == 0 by {
                let q = choose|q: BreathPhase| self.get(p) == #[trigger] other.get(q);
                assert(m % other.get(q) == 0);
            }
        }
    }

    /// The least common multiple of the phase lengths is a whole number of
    /// times each length that is not zero: steps of `lcm / length` fill a
    /// bar of `lcm` units in exactly `length` ticks.
    pub proof fn lemma_lcm_scales_every_phase(self, phase: BreathPhase)
        requires
            self.get(phase) > 0,
        ensures
            self.lcm() % self.get(phase) == 0,
            (self.lcm() / self.get(phase)) * self.get(phase) == self.lcm(),
            self.lcm() / self.get(phase) > 0,
    {
        self.lemma_lcm_is_fold();
        let len = self.get(phase);
        lemma_multiple_is_product(len, self.lcm());
        assert(len * (self.lcm() / len) == (self.lcm() / len) * len) by (nonlinear_arith);
        lemma_multiple_is_no_less(len, self.lcm());
        assert(self.lcm() / len > 0) by (nonlinear_arith)
            requires
                len * (self.lcm() / len) == self.lcm(),
                self.lcm() > 0,
                len > 0,
        ;
    }
}

/// A breathing cycle: the length of each phase, with the length of the whole
/// cycle and the least common multiple of the phase lengths worked out once.
#[derive(Debug)]
pub struct BreathCycle {
    breath_in: u64,
    hold_in: u64,
    breath_out: u64,
    hold_out: u64,
    cycle_length: u64,
    lcm: u64,
}

impl View for BreathCycle {
    type V = PhaseLengths;

    closed spec fn view(&self) -> PhaseLengths {
        PhaseLengths {
            breath_in: self.breath_in as nat,
            hold_in: self.hold_in as nat,
            breath_out: self.breath_out as nat,
            hold_out: self.hold_out as nat,
        }
    }
}

impl Clone for BreathCycle {
    fn clone(&self) -> (r: Self)
        ensures
            r == *self,
    {
        BreathCycle {
            breath_in: self.breath_in,
            hold_in: self.hold_in,
            breath_out: self.breath_out,
            hold_out: self.hold_out,
            cycle_length: self.cycle_length,
            lcm: self.lcm,
        }
    }
}

impl BreathCycle {
    /// The cycle length that the cycle holds.
    pub closed spec fn spec_cycle_length(&self) -> u64 {
        self.cycle_length
    }

    /// The least common multiple that the cycle holds.
    pub closed spec fn spec_lcm(&self) -> u64 {
        self.lcm
    }

    /// The cycle length and the least common multiple that the cycle holds
    /// are those of its phase lengths.
    pub open spec fn wf(&self) -> bool {
        &&& self.cycle_length() == self@.cycle_length()
        &&& self.lcm() == self@.lcm()
    }

    /// The length of `phase` in ticks.
    pub fn get(&self, phase: BreathPhase) -> (r: u64)
        ensures
            r == self@.get(phase),
    {
        match phase {
            BreathPhase::BreathIn => self.breath_in,
            BreathPhase::HoldIn => self.hold_in,
            BreathPhase::BreathOut => self.breath_out,
            BreathPhase::HoldOut => self.hold_out,
        }
    }

    /// The ticks that one full cycle takes: the sum of the phase lengths.
    #[verifier::when_used_as_spec(spec_cycle_length)]
    pub fn cycle_length(&self) -> (r: u64)
        ensures
            r == self.spec_cycle_length(),
            self.wf() ==> r == self@.cycle_length(),
    {
        self.cycle_length
    }

    /// The least common multiple of the phase lengths that are not zero.
    #[verifier::when_used_as_spec(spec_lcm)]
    pub fn lcm(&self) -> (r: u64)
        ensures
            r == self.spec_lcm(),
            self.wf() ==> r == self@.lcm(),
    {
        self.lcm
    }
}

/// Folds one phase length into the least common multiple so far; a phase of
/// length zero leaves it as it is.
fn fold_lcm(acc: u64, x: u64) -> (r: u64)
    requires
        lcm_skipping_zero(acc as nat, x as nat) <= u64::MAX,
    ensures
        r == lcm_skipping_zero(acc as nat, x as nat),
{
    if x != 0 {
        lcm_u64(acc, x)
    } else {
        acc
    }
}

/// The hold that a pattern gives, or zero where it gives none.
fn hold_or_zero(hold: Option<u64>) -> (r: u64)
    ensures
        r == or_zero(crate::config::duration_view(hold)),
{
    match hold {
        Some(h) => h,
        None => 0,
    }
}

/// The breathing cycle that `pattern` prescribes. The cycle length and the
/// least common multiple of the phase lengths must fit in a `u64`.
pub fn from_pattern(pattern: &Pattern) -> (cycle: BreathCycle)
    requires
        PhaseLengths::of(pattern@).cycle_length() <= u64::MAX,
        PhaseLengths::of(pattern@).lcm() <= u64::MAX,
    ensures
        cycle.wf(),
        cycle@ == PhaseLengths::of(pattern@),
{
    let hold_in = hold_or_zero(pattern.hold_in);
    let hold_out = hold_or_zero(pattern.hold_out);
    proof {
        PhaseLengths::of(pattern@).lemma_lcm_is_fold();
    }
    let ghost lengths = PhaseLengths::of(pattern@);
    assert(lengths.lcm_of_first(1) <= u64::MAX);
    let lcm = fold_lcm(1, pattern.breath_in);
    assert(lengths.lcm_of_first(2) <= u64::MAX);
    let lcm = fold_lcm(lcm, hold_in);
    assert(lengths.lcm_of_first(3) <= u64::MAX);
    let lcm = fold_lcm(lcm, pattern.breath_out);
    assert(lengths.lcm_of_first(4) <= u64::MAX);
    let lcm = fold_lcm(lcm, hold_out);
    BreathCycle {
        breath_in: pattern.breath_in,
        hold_in,
        breath_out: pattern.breath_out,
        hold_out,
        cycle_length: pattern.length(),
        lcm,
    }
}

/// Folds one phase length into the least common multiple so far, if the
/// result fits in a `u64`.
fn checked_fold_lcm(acc: u64, x: u64) -> (r: Option<u64>)
    ensures
        match r {
            Some(m) => m == lcm_skipping_zero(acc as nat, x as nat),
            None => lcm_skipping_zero(acc as nat, x as nat) > u64::MAX,
        },
{
    if x != 0 {
        checked_lcm(acc, x)
    } else {
        Some(acc)
    }
}

/// The breathing cycle that `pattern` prescribes, or `None` where the cycle
/// length or the least common multiple of the phase lengths does not fit in
/// a `u64`.
pub fn try_from_pattern(pattern: &Pattern) -> (r: Option<BreathCycle>)
    ensures
        r is Some <==> PhaseLengths::of(pattern@).cycle_length() <= u64::MAX && PhaseLengths::of(
            pattern@,
        ).lcm() <= u64::MAX,
        r matches Some(cycle) ==> cycle.wf() && cycle@ == PhaseLengths::of(pattern@),
{
    let hold_in = hold_or_zero(pattern.hold_in);
    let hold_out = hold_or_zero(pattern.hold_out);
    let ghost lengths = PhaseLengths::of(pattern@);
    proof {
        lengths.lemma_lcm_is_fold();
    }
    let breaths = match pattern.breath_in.checked_add(pattern.breath_out) {
        Some(sum) => sum,
        None => { return None; },
    };
    let holds_in = match breaths.checked_add(hold_in) {
        Some(sum) => sum,
        None => { return None; },
    };
    let cycle_length = match holds_in.checked_add(hold_out) {
        Some(sum) => sum,
        None => { return None; },
    };
    let lcm = match checked_fold_lcm(1, pattern.breath_in) {
        Some(m) => m,
        None => {
            assert(lengths.lcm_of_first(1) > u64::MAX);
            return None;
        },
    };
    let lcm = match checked_fold_lcm(lcm, hold_in) {
        Some(m) => m,
        None => {
            assert(lengths.lcm_of_first(2) > u64::MAX);
            return None;
        },
    };
    let lcm = match checked_fold_lcm(lcm, pattern.breath_out) {
        Some(m) => m,
        None => {
            assert(lengths.lcm_of_first(3) > u64::MAX);
            return None;
        },
    };
    let lcm = match checked_fold_lcm(lcm, hold_out) {
        Some(m) => m,
        None => {
            assert(lengths.lcm_of_first(4) > u64::MAX);
            return None;
        },
    };
    Some(
        BreathCycle {
            breath_in: pattern.breath_in,
            hold_in,
            breath_out: pattern.breath_out,
            hold_out,
            cycle_length,
            lcm,
        },
    )
}

/// What a session is made from.
pub struct BreathSessionOpt<'a> {
    pub pattern: &'a Pattern,
}

/// What is shown of a pattern before its session begins: the description,
/// the four durations, and the session length with its unit.
pub open spec fn summary_text(pattern: PatternView) -> Seq<char> {
    "Description:   "@ + pattern.description + "\nBreathe in:     "@ + decimal(pattern.breath_in)
        + "\nHold:           "@ + decimal(or_zero(pattern.hold_in)) + "\nBreathe out:    "@
        + decimal(pattern.breath_out) + "\nHold:           "@ + decimal(
        or_zero(pattern.hold_out),
    ) + "\nSession length: "@ + match pattern.pattern_length {
        Some(PatternLength::Time(d)) => PatternLength::Time(d).text() + " seconds"@,
        Some(PatternLength::Iterations(d)) => PatternLength::Iterations(d).text() + " "@,
        None => Seq::empty(),
    }
}

impl<'a> BreathSessionOpt<'a> {
    /// What is shown of the pattern before its session begins. The pattern
    /// must have a session length.
    pub fn summary(&self) -> (r: String)
        requires
            self.pattern@.pattern_length is Some,
        ensures
            r@ == summary_text(self.pattern@),
    {
        let mut r = String::from_str("Description:   ");
        r.append(self.pattern.description.as_str());
        r.append("\nBreathe in:     ");
        r.append(u64_to_string(self.pattern.breath_in).as_str());
        r.append("\nHold:           ");
        r.append(u64_to_string(hold_or_zero(self.pattern.hold_in)).as_str());
        r.append("\nBreathe out:    ");
        r.append(u64_to_string(self.pattern.breath_out).as_str());
        r.append("\nHold:           ");
        r.append(u64_to_string(hold_or_zero(self.pattern.hold_out)).as_str());
        r.append("\nSession length: ");
        match self.pattern.pattern_length {
            Some(length) => {
                r.append(length.to_string().as_str());
                if length._is_time() {
                    r.append(" seconds");
                } else {
                    r.append(" ");
                }
            },
            None => {},
        }
        r
    }
}

/// The ticks that a session of `pattern` lasts: the seconds that its length
/// names, or so many full cycles. Zero for a pattern without a length.
pub open spec fn session_ticks(pattern: PatternView) -> nat {
    match pattern.pattern_length {
        Some(PatternLength::Time(d)) => d as nat,
        Some(PatternLength::Iterations(d)) => (d * PhaseLengths::of(pattern).cycle_length()) as nat,
        None => 0,
    }
}

/// The cycle length, the least common multiple of the phase lengths and the
/// session length of `pattern` all fit in a `u64`.
pub open spec fn fits_u64(pattern: PatternView) -> bool {
    &&& PhaseLengths::of(pattern).cycle_length() <= u64::MAX
    &&& PhaseLengths::of(pattern).lcm() <= u64::MAX
    &&& session_ticks(pattern) <= u64::MAX
}

/// A session can be made from `pattern`: it has a length, both breaths take
/// time, and its numbers fit the machine.
pub open spec fn can_run(pattern: PatternView) -> bool {
    &&& pattern.pattern_length is Some
    &&& pattern.is_valid()
    &&& fits_u64(pattern)
}

/// Why no session can be made from a pattern.
#[derive(Debug, Clone, Copy, PartialEq, Eq, Structural)]
pub enum SessionError {
    /// The pattern has no length.
    NoLength,
    /// Breathing in or breathing out takes no time.
    EmptyBreath,
    /// The cycle length, the least common multiple of the phase lengths or
    /// the session length does not fit in a `u64`.
    TooLong,
}

/// What a display is to do after a tick.
#[derive(Debug, Clone, Copy, PartialEq, Eq, Structural)]
pub enum TickAction {
    /// The session was completed before the tick: clear the display.
    Finished,
    /// A tick was counted: move the bar of the whole session on by one and
    /// the bar of the phase by `phase_step`; where `phase_changed`, show the
    /// new phase's name and empty the bar of the phase.
    Advanced { phase_step: u64, phase_changed: bool },
}

/// The state of a session as mathematics: the model that the laws of this
/// module speak of.
pub struct SessionView {
    pub lengths: PhaseLengths,
    pub session_length: nat,
    pub total_ticks: nat,
    pub phase: BreathPhase,
    pub phase_ticks: nat,
    pub phase_changed: bool,
}

impl SessionView {
    /// A session that has not begun: in the first phase, with no tick
    /// counted, the phase freshly entered.
    pub open spec fn initial(lengths: PhaseLengths, session_length: nat) -> SessionView {
        SessionView {
            lengths,
            session_length,
            total_ticks: 0,
            phase: BreathPhase::BreathIn,
            phase_ticks: 0,
            phase_changed: true,
        }
    }

    /// The session has run its full length.
    pub open spec fn is_completed(self) -> bool {
        self.total_ticks >= self.session_length
    }

    /// Both breaths take time, the session has not run past its length, and
    /// the current phase is not yet used up (so it is not one that is
    /// skipped).
    pub open spec fn wf(self) -> bool {
        &&& self.lengths.valid()
        &&& self.total_ticks <= self.session_length
        &&& self.phase_ticks < self.lengths.get(self.phase)
    }

    /// The session at the start of the next phase that is not skipped.
    pub open spec fn enter_next_phase(self) -> SessionView {
        SessionView { phase: self.lengths.next_active(self.phase), phase_ticks: 0, ..self }
    }

    /// The session one tick later. A completed session stays as it is.
    pub open spec fn step(self) -> SessionView {
        if self.is_completed() {
            self
        } else if self.phase_ticks + 1 >= self.lengths.get(self.phase) {
            SessionView {
                total_ticks: self.total_ticks + 1,
                phase_changed: true,
                ..self.enter_next_phase()
            }
        } else {
            SessionView {
                total_ticks: self.total_ticks + 1,
                phase_ticks: self.phase_ticks + 1,
                phase_changed: false,
                ..self
            }
        }
    }

    /// The session `n` ticks later.
    pub open spec fn run(self, n: nat) -> SessionView
        decreases n,
    {
        if n == 0 {
            self
        } else {
            self.step().run((n - 1) as nat)
        }
    }

    /// The phase and the ticks within it are where the total tick count
    /// says they are, and the phase counts as changed exactly when no tick
    /// of it has passed.
    pub open spec fn on_schedule(self) -> bool {
        &&& self.total_ticks % self.lengths.cycle_length() == self.lengths.start_of(self.phase)
            + self.phase_ticks
        &&& self.phase_changed == (self.phase_ticks == 0)
    }
}

/// One more tick moves the place within a cycle one further, and back to
/// the start once the cycle is full.
proof fn lemma_next_offset(total: nat, cycle: nat)
    requires
        cycle > 0,
    ensures
        (total + 1) % cycle == if total % cycle + 1 == cycle {
            0
        } else {
            total % cycle + 1
        },
{
    let q = (total / cycle) as int;
    let r = (total % cycle) as int;
    lemma_fundamental_div_mod(total as int, cycle as int);
    assert(cycle * q == q * cycle) by (nonlinear_arith);
    if r + 1 == cycle {
        assert((q + 1) * cycle + 0 == total + 1) by (nonlinear_arith)
            requires
                total == q * cycle + r,
                r + 1 == cycle,
        ;
        lemma_fundamental_div_mod_converse_mod((total + 1) as int, cycle as int, q + 1, 0);
    } else {
        lemma_fundamental_div_mod_converse_mod((total + 1) as int, cycle as int, q, r + 1);
    }
}

impl PhaseLengths {
    /// Where both breaths take time, the phase after `phase` is the nearest
    /// one, going round the cycle, whose length is not zero: every phase
    /// passed over on the way has length zero, and a breath is never more
    /// than two steps away.
    pub proof fn lemma_next_active_is_nearest(self, phase: BreathPhase)
        requires
            self.valid(),
        ensures
            self.get(self.next_active(phase)) > 0,
            self.next_active(phase) != phase,
            exists|k: nat|
                1 <= k <= 2 && self.next_active(phase) == #[trigger] phase.nth_next(k) && forall|
                    j: nat,
                |
                    1 <= j < k ==> self.get(#[trigger] phase.nth_next(j)) == 0,
    {
        reveal_with_fuel(BreathPhase::nth_next, 3);
        if self.get(phase.nth_next(1)) > 0 {
            assert(self.next_active(phase) == phase.nth_next(1));
        } else {
            assert(self.next_active(phase) == phase.nth_next(2));
        }
    }

    /// Without holds the breaths alternate: the hold phases are never
    /// entered.
    pub proof fn lemma_no_holds_alternate(self)
        requires
            self.valid(),
            self.hold_in == 0,
            self.hold_out == 0,
        ensures
            self.next_active(BreathPhase::BreathIn) == BreathPhase::BreathOut,
            self.next_active(BreathPhase::BreathOut) == BreathPhase::BreathIn,
    {
    }

    /// The phase after `phase` begins where `phase` ends, or at the start of
    /// the cycle where `phase` ends the cycle.
    proof fn lemma_next_active_start(self, phase: BreathPhase)
        requires
            self.valid(),
            self.get(phase) > 0,
        ensures
            self.start_of(phase) + self.get(phase) <= self.cycle_length(),
            self.start_of(self.next_active(phase)) == if self.start_of(phase) + self.get(phase)
                == self.cycle_length() {
                0
            } else {
                self.start_of(phase) + self.get(phase)
            },
    {
    }
}

impl SessionView {
    /// A tick keeps a session well formed, and changes neither the cycle nor
    /// the session length.
    pub proof fn lemma_step_wf(self)
        requires
            self.wf(),
        ensures
            self.step().wf(),
            self.step().lengths == self.lengths,
            self.step().session_length == self.session_length,
    {
        self.lengths.lemma_next_active_is_nearest(self.phase);
    }

    /// What one tick does to a session that is not completed. Either the
    /// phase goes on, one tick further and not marked as changed; or the
    /// phase is used up, and the session enters the nearest phase that is
    /// not skipped, at tick zero and marked as changed. So the mark is set
    /// exactly on the ticks that reset the phase's tick count to zero, and a
    /// phase of length zero is never entered.
    pub proof fn lemma_step_effect(self)
        requires
            self.wf(),
            !self.is_completed(),
        ensures
            self.step().total_ticks == self.total_ticks + 1,
            self.step().phase_changed <==> self.step().phase_ticks == 0,
            self.step().phase_changed <==> self.phase_ticks + 1 == self.lengths.get(self.phase),
            self.step().phase_changed ==> self.step().phase == self.lengths.next_active(
                self.phase,
            ),
            !self.step().phase_changed ==> self.step().phase == self.phase
                && self.step().phase_ticks == self.phase_ticks + 1,
            self.lengths.get(self.step().phase) > 0,
    {
        self.lengths.lemma_next_active_is_nearest(self.phase);
    }

    /// A completed session is frozen: further ticks change nothing.
    pub proof fn lemma_completed_is_frozen(self, n: nat)
        requires
            self.is_completed(),
        ensures
            self.step() == self,
            self.run(n) == self,
        decreases n,
    {
        if n > 0 {
            self.lemma_completed_is_frozen((n - 1) as nat);
        }
    }

    /// Running `n + 1` ticks is running `n` ticks and one more.
    pub proof fn lemma_run_then_step(self, n: nat)
        ensures
            self.run(n + 1) == self.run(n).step(),
        decreases n,
    {
        assert(self.run(n + 1) == self.step().run(n));
        if n > 0 {
            self.step().lemma_run_then_step((n - 1) as nat);
            assert(((n - 1) as nat + 1) as nat == n);
            assert(self.run(n) == self.step().run((n - 1) as nat));
        } else {
            assert(self.step().run(0) == self.step());
        }
    }

    /// After `n` ticks a session is well formed, with the cycle and the
    /// session length it had, and has counted `n` ticks more, but never more
    /// than the session length.
    pub proof fn lemma_run_counts(self, n: nat)
        requires
            self.wf(),
        ensures
            self.run(n).wf(),
            self.run(n).lengths == self.lengths,
            self.run(n).session_length == self.session_length,
            self.run(n).total_ticks == if self.total_ticks + n <= self.session_length {
                self.total_ticks + n
            } else {
                self.session_length
            },
        decreases n,
    {
        if n > 0 {
            self.lemma_step_wf();
            self.step().lemma_run_counts((n - 1) as nat);
        }
    }

    /// A session that is ticked as often as it is long is completed, and
    /// ticking it more often than that leaves it exactly as it then is.
    pub proof fn lemma_run_completes(self, extra: nat)
        requires
            self.wf(),
            self.total_ticks == 0,
        ensures
            self.run(self.session_length).is_completed(),
            self.run(self.session_length).total_ticks == self.session_length,
            self.run(self.session_length + extra) == self.run(self.session_length),
        decreases extra,
    {
        self.lemma_run_counts(self.session_length);
        if extra > 0 {
            self.lemma_run_completes((extra - 1) as nat);
            self.lemma_run_then_step((self.session_length + extra - 1) as nat);
            self.run(self.session_length).lemma_completed_is_frozen(1);
        }
    }

    /// A tick keeps a session on schedule.
    pub proof fn lemma_step_on_schedule(self)
        requires
            self.wf(),
            self.on_schedule(),
        ensures
            self.step().on_schedule(),
    {
        if !self.is_completed() {
            lemma_next_offset(self.total_ticks, self.lengths.cycle_length());
            self.lengths.lemma_next_active_start(self.phase);
        }
    }

    /// A session stays on schedule however long it runs.
    pub proof fn lemma_run_on_schedule(self, n: nat)
        requires
            self.wf(),
            self.on_schedule(),
        ensures
            self.run(n).on_schedule(),
        decreases n,
    {
        if n > 0 {
            self.lemma_step_wf();
            self.lemma_step_on_schedule();
            self.step().lemma_run_on_schedule((n - 1) as nat);
        }
    }

    /// A new session is well formed and on schedule.
    pub proof fn lemma_initial(lengths: PhaseLengths, session_length: nat)
        requires
            lengths.valid(),
        ensures
            SessionView::initial(lengths, session_length).wf(),
            SessionView::initial(lengths, session_length).on_schedule(),
    {
        lemma_small_mod(0, lengths.cycle_length());
    }

    /// Where a session started from the beginning stands after `n` ticks,
    /// `n` no more than its length: `n` ticks are counted, and the phase and
    /// the ticks within it are those of tick `n` of the cycle, counted round
    /// and round. After a whole number of cycles the session is at the first
    /// tick of breathing in again.
    pub proof fn lemma_position(lengths: PhaseLengths, session_length: nat, n: nat)
        requires
            lengths.valid(),
            n <= session_length,
        ensures
            ({
                let s = SessionView::initial(lengths, session_length).run(n);
                &&& s.total_ticks == n
                &&& lengths.get(s.phase) > 0
                &&& s.phase_ticks < lengths.get(s.phase)
                &&& lengths.start_of(s.phase) + s.phase_ticks == n % lengths.cycle_length()
                &&& n % lengths.cycle_length() == 0 ==> s.phase == BreathPhase::BreathIn
                    && s.phase_ticks == 0
            }),
    {
        let s0 = SessionView::initial(lengths, session_length);
        SessionView::lemma_initial(lengths, session_length);
        s0.lemma_run_counts(n);
        s0.lemma_run_on_schedule(n);
    }
}

/// A running breathing session: a cycle, the ticks that the session lasts,
/// and where in it the breather is.
#[derive(Debug)]
pub struct BreathingSession {
    cycle: BreathCycle,
    session_length: u64,
    total_counter: u64,
    current_state: BreathPhase,
    state_counter: u64,
    state_changed: bool,
}

impl View for BreathingSession {
    type V = SessionView;

    closed spec fn view(&self) -> SessionView {
        SessionView {
            lengths: self.cycle@,
            session_length: self.session_length as nat,
            total_ticks: self.total_counter as nat,
            phase: self.current_state,
            phase_ticks: self.state_counter as nat,
            phase_changed: self.state_changed,
        }
    }
}

impl Clone for BreathingSession {
    fn clone(&self) -> (r: Self)
        ensures
            r == *self,
    {
        BreathingSession {
            cycle: self.cycle.clone(),
            session_length: self.session_length,
            total_counter: self.total_counter,
            current_state: self.current_state,
            state_counter: self.state_counter,
            state_changed: self.state_changed,
        }
    }
}

impl BreathingSession {
    /// The session's cycle is well formed, and so is the state that the
    /// session is in.
    pub closed spec fn wf(&self) -> bool {
        &&& self.cycle.wf()
        &&& self@.wf()
    }

    /// A well-formed session has a well-formed view.
    pub proof fn lemma_wf_view(&self)
        requires
            self.wf(),
        ensures
            self@.wf(),
    {
    }

    /// A new session of the pattern in `opt`, about to begin.
    pub fn with_opt(opt: &BreathSessionOpt) -> (session: BreathingSession)
        requires
            can_run(opt.pattern@),
        ensures
            session.wf(),
            session@ == SessionView::initial(
                PhaseLengths::of(opt.pattern@),
                session_ticks(opt.pattern@),
            ),
    {
        let cycle: BreathCycle = from_pattern(opt.pattern);
        let session_length = match opt.pattern.pattern_length {
            Some(PatternLength::Time(d)) => d,
            Some(PatternLength::Iterations(d)) => d * cycle.cycle_length,
            None => 0,
        };
        BreathingSession::begin(cycle, session_length)
    }

    /// A session of `cycle` that lasts `session_length` ticks, about to
    /// begin.
    fn begin(cycle: BreathCycle, session_length: u64) -> (session: BreathingSession)
        requires
            cycle.wf(),
            cycle@.valid(),
        ensures
            session.wf(),
            session@ == SessionView::initial(cycle@, session_length as nat),
    {
        BreathingSession {
            cycle,
            session_length,
            total_counter: 0,
            current_state: BreathPhase::BreathIn,
            state_counter: 0,
            state_changed: true,
        }
    }

    /// A new session of the pattern in `opt`, or the reason why there can
    /// be none.
    pub fn try_with_opt(opt: &BreathSessionOpt) -> (r: Result<BreathingSession, SessionError>)
        ensures
            match r {
                Ok(session) => {
                    &&& can_run(opt.pattern@)
                    &&& session.wf()
                    &&& session@ == SessionView::initial(
                        PhaseLengths::of(opt.pattern@),
                        session_ticks(opt.pattern@),
                    )
                },
                Err(SessionError::NoLength) => opt.pattern@.pattern_length is None,
                Err(SessionError::EmptyBreath) => {
                    &&& opt.pattern@.pattern_length is Some
                    &&& !opt.pattern@.is_valid()
                },
                Err(SessionError::TooLong) => {
                    &&& opt.pattern@.pattern_length is Some
                    &&& opt.pattern@.is_valid()
                    &&& !fits_u64(opt.pattern@)
                },
            },
    {
        let length = match opt.pattern.pattern_length {
            Some(length) => length,
            None => { return Err(SessionError::NoLength); },
        };
        if !opt.pattern.is_valid() {
            return Err(SessionError::EmptyBreath);
        }
        let cycle = match try_from_pattern(opt.pattern) {
            Some(cycle) => cycle,
            None => { return Err(SessionError::TooLong); },
        };
        let session_length = match length {
            PatternLength::Time(d) => d,
            PatternLength::Iterations(d) => match d.checked_mul(cycle.cycle_length) {
                Some(ticks) => ticks,
                None => { return Err(SessionError::TooLong); },
            },
        };
        Ok(BreathingSession::begin(cycle, session_length))
    }

    /// The ticks that the whole session lasts.
    pub fn session_length(&self) -> (r: u64)
        ensures
            r == self@.session_length,
    {
        self.session_length
    }

    /// The ticks counted so far.
    pub fn total_counter(&self) -> (r: u64)
        ensures
            r == self@.total_ticks,
    {
        self.total_counter
    }

    /// The phase that the session is in.
    pub fn current_state(&self) -> (r: BreathPhase)
        ensures
            r == self@.phase,
    {
        self.current_state
    }

    /// The ticks counted in the current phase.
    pub fn state_counter(&self) -> (r: u64)
        ensures
            r == self@.phase_ticks,
    {
        self.state_counter
    }

    /// The length in ticks of `phase` in this session's cycle.
    pub fn get_phase_length(&self, phase: BreathPhase) -> (r: u64)
        ensures
            r == self@.lengths.get(phase),
    {
        self.cycle.get(phase)
    }

    /// The length in ticks of the phase that the session is in.
    pub fn get_current_phase_length(&self) -> (r: u64)
        ensures
            r == self@.lengths.get(self@.phase),
    {
        self.cycle.get(self.current_state)
    }

    /// The name of the phase that the session is in.
    pub fn phase_as_str(&self) -> (r: &'static str)
        ensures
            r@ == self@.phase.name(),
    {
        self.current_state.as_str()
    }

    /// The least common multiple of the phase lengths that are not zero: the
    /// number of units of a progress bar that every phase fills exactly.
    pub fn get_lengths_lcm(&self) -> (r: u64)
        requires
            self.wf(),
        ensures
            r == self@.lengths.lcm(),
    {
        self.cycle.lcm
    }

    /// Moves on to the next phase that is not skipped, at its first tick.
    pub fn next_state(&mut self)
        requires
            old(self).wf(),
        ensures
            final(self).wf(),
            final(self)@ == old(self)@.enter_next_phase(),
    {
        let ghost origin = self.current_state;
        let ghost lengths = self.cycle@;
        let ghost mut skipped: nat = 0;
        let mut temp_state = self.current_state.next();
        while self.cycle.get(temp_state) == 0
            invariant
                self.cycle@ == lengths,
                lengths.valid(),
                skipped < 3,
                skipped == 0 ==> temp_state == origin.spec_next(),
                skipped == 1 ==> temp_state == origin.spec_next().spec_next() && lengths.get(
                    origin.spec_next(),
                ) == 0,
                skipped == 2 ==> temp_state == origin.spec_next().spec_next().spec_next()
                    && lengths.get(origin.spec_next()) == 0 && lengths.get(
                    origin.spec_next().spec_next(),
                ) == 0,
            decreases 3 - skipped,
        {
            temp_state = temp_state.next();
            proof {
                skipped = skipped + 1;
            }
        }
        self.current_state = temp_state;
        self.state_counter = 0;
    }

    /// Counts one tick. Once the session is completed this changes nothing.
    pub fn inc(&mut self)
        requires
            old(self).wf(),
        ensures
            final(self).wf(),
            final(self)@ == old(self)@.step(),
    {
        if self.total_counter >= self.session_length {
            return ;
        }
        self.total_counter += 1;
        if self.state_counter + 1 >= self.cycle.get(self.current_state) {
            self.next_state();
            self.state_changed = true;
        } else {
            self.state_counter += 1;
            self.state_changed = false;
        }
    }

    /// The units by which one tick of the current phase moves a progress
    /// bar of `get_lengths_lcm()` units, so that the whole phase fills it.
    pub fn phase_step(&self) -> (r: u64)
        requires
            self.wf(),
        ensures
            r == self@.lengths.lcm() / self@.lengths.get(self@.phase),
            r * self@.lengths.get(self@.phase) == self@.lengths.lcm(),
    {
        proof {
            self@.lengths.lemma_lcm_scales_every_phase(self@.phase);
        }
        self.cycle.lcm / self.cycle.get(self.current_state)
    }

    /// Counts one tick, unless the session is completed, and says what a
    /// display is to do about it.
    pub fn tick(&mut self) -> (action: TickAction)
        requires
            old(self).wf(),
        ensures
            final(self).wf(),
            final(self)@ == old(self)@.step(),
            match action {
                TickAction::Finished => old(self)@.is_completed(),
                TickAction::Advanced { phase_step, phase_changed } => {
                    &&& !old(self)@.is_completed()
                    &&& phase_step == final(self)@.lengths.lcm() / final(self)@.lengths.get(
                        final(self)@.phase,
                    )
                    &&& phase_changed == final(self)@.phase_changed
                },
            },
    {
        if self.is_completed() {
            return TickAction::Finished;
        }
        self.inc();
        TickAction::Advanced { phase_step: self.phase_step(), phase_changed: self.state_changed }
    }

    /// The session length in words.
    pub fn params(&self) -> (r: String)
        ensures
            r@ == "Session length: "@ + decimal(self@.session_length) + " seconds"@,
    {
        let mut r = String::from_str("Session length: ");
        r.append(u64_to_string(self.session_length).as_str());
        r.append(" seconds");
        r
    }

    /// Whether the session has run its full length.
    pub fn is_completed(&self) -> (r: bool)
        ensures
            r == self@.is_completed(),
    {
        self.total_counter >= self.session_length
    }

    /// Whether the last tick counted began a new phase; true before the
    /// first tick.
    pub fn is_state_changed(&self) -> (r: bool)
        ensures
            r == self@.phase_changed,
    {
        self.state_changed
    }
}

} // verus!
