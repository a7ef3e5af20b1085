use vstd::arithmetic::div_mod::lemma_fundamental_div_mod_converse;
use vstd::prelude::*;

verus! {

/// The increase of one window as an exact fraction.
///
/// `total` is the growth that was observed between the first and the last
/// sample of the window, `observed` the time between those two samples and
/// `range` the nominal width of the window. Under a constant rate the
/// increase over the whole window is `total * range / observed`.
pub struct IncreaseModel {
    pub total: nat,
    pub range: nat,
    pub observed: nat,
}

impl IncreaseModel {
    /// Both durations are positive.
    pub open spec fn valid(self) -> bool {
        self.range > 0 && self.observed > 0
    }

    pub open spec fn numerator(self) -> nat {
        self.total * self.range
    }

    pub open spec fn denominator(self) -> nat {
        self.observed
    }

    /// The increase rounded down to a whole number.
    pub open spec fn whole_part(self) -> nat {
        self.numerator() / self.denominator()
    }

    /// What rounding down leaves over, in units of `1 / observed`.
    pub open spec fn remainder(self) -> nat {
        self.numerator() % self.denominator()
    }

    /// Whether the increase is exactly the whole number `n`.
    pub open spec fn is_exactly(self, n: nat) -> bool {
        self.numerator() == n * self.denominator()
    }

    /// The whole part and the remainder put the fraction together again,
    /// and an increase is a whole number exactly when nothing is left
    /// over.
    pub proof fn lemma_whole_and_remainder(self)
        requires
            self.valid(),
        ensures
            self.numerator() == self.whole_part() * self.denominator() + self.remainder(),
            self.remainder() < self.denominator(),
            forall|n: nat|
                #[trigger] self.is_exactly(n) <==> (self.whole_part() == n && self.remainder()
                    == 0),
    {
        let x = self.numerator() as int;
        let d = self.denominator() as int;
        assert(x == (x / d) * d + x % d && 0 <= x % d < d) by (nonlinear_arith)
            requires
                d > 0,
        ;
        assert forall|n: nat| #[trigger]
            self.is_exactly(n) <==> (self.whole_part() == n && self.remainder() == 0) by {
            if self.is_exactly(n) {
                lemma_fundamental_div_mod_converse(x, d, n as int, 0);
            }
        }
    }
}

/// The finished increase of one window.
#[derive(Clone, Copy, Debug, PartialEq, Eq)]
pub struct Increase {
    total: u128,
    range: u64,
    observed: u64,
}

impl View for Increase {
    type V = IncreaseModel;

    closed spec fn view(&self) -> IncreaseModel {
        IncreaseModel {
            total: self.total as nat,
            range: self.range as nat,
            observed: self.observed as nat,
        }
    }
}

impl Increase {
    pub open spec fn wf(&self) -> bool {
        self@.valid()
    }

    /// An increase of `total` seen over `observed`, for a window of width
    /// `range`.
    pub fn new(total: u128, range: u64, observed: u64) -> (increase: Increase)
        requires
            range > 0,
            observed > 0,
        ensures
            increase.wf(),
            increase@ == (IncreaseModel {
                total: total as nat,
                range: range as nat,
                observed: observed as nat,
            }),
    {
        Increase { total, range, observed }
    }

    /// The growth that was observed, with every reset made up for.
    pub fn total(&self) -> (total: u128)
        ensures
            total == self@.total,
    {
        self.total
    }

    /// The nominal width of the window.
    pub fn range(&self) -> (range: u64)
        ensures
            range == self@.range,
    {
        self.range
    }

    /// The time between the first and the last sample of the window.
    pub fn observed(&self) -> (observed: u64)
        ensures
            observed == self@.observed,
    {
        self.observed
    }

    /// The increase rounded down, or `None` where that number is too large
    /// for a `u128`.
    pub fn whole_part(&self) -> (whole: Option<u128>)
        requires
            self.wf(),
        ensures
            whole is Some <==> self@.whole_part() <= u128::MAX,
            whole matches Some(w) ==> w == self@.whole_part(),
            whole matches Some(w) ==> w * self@.denominator() <= self@.numerator() < (w + 1)
                * self@.denominator(),
    {
        let observed: u128 = self.observed as u128;
        let range: u128 = self.range as u128;
        let quotient: u128 = self.total / observed;
        let rest: u128 = self.total % observed;
        assert(rest * range <= u128::MAX) by (nonlinear_arith)
            requires
                rest < 0x1_0000_0000_0000_0000,
                range < 0x1_0000_0000_0000_0000,
        ;
        let part: u128 = rest * range;
        let low: u128 = part / observed;
        proof {
            lemma_split_fraction(
                self.total as int,
                self.range as int,
                self.observed as int,
            );
            assert(quotient * range >= 0) by (nonlinear_arith)
                requires
                    quotient >= 0,
                    range >= 0,
            ;
            self@.lemma_whole_and_remainder();
            let w = self@.whole_part() as int;
            let d = self@.denominator() as int;
            assert((w + 1) * d == w * d + d) by (nonlinear_arith);
        }
        match quotient.checked_mul(range) {
            None => None,
            Some(high) => high.checked_add(low),
        }
    }

    /// What [`Increase::whole_part`] leaves over, in units of
    /// `1 / observed`.
    pub fn remainder(&self) -> (rest: u64)
        requires
            self.wf(),
        ensures
            rest == self@.remainder(),
            rest < self@.denominator(),
            self@.numerator() == self@.whole_part() * self@.denominator() + rest,
    {
        let observed: u128 = self.observed as u128;
        let range: u128 = self.range as u128;
        let rest: u128 = self.total % observed;
        assert(rest * range <= u128::MAX) by (nonlinear_arith)
            requires
                rest < 0x1_0000_0000_0000_0000,
                range < 0x1_0000_0000_0000_0000,
        ;
        let part: u128 = rest * range;
        proof {
            lemma_split_fraction(
                self.total as int,
                self.range as int,
                self.observed as int,
            );
            self@.lemma_whole_and_remainder();
        }
        (part % observed) as u64
    }
}

/// Dividing `total * range` by `observed` in two steps: first `total`
/// alone, then what that division left over.
proof fn lemma_split_fraction(total: int, range: int, observed: int)
    requires
        total >= 0,
        range >= 0,
        observed > 0,
    ensures
        (total * range) / observed == (total / observed) * range + ((total % observed) * range)
            / observed,
        (total * range) % observed == ((total % observed) * range) % observed,
        ((total % observed) * range) / observed >= 0,
{
    let q = total / observed;
    let r = total % observed;
    let part = r * range;
    let low = part / observed;
    let rest = part % observed;
    assert(total == q * observed + r && 0 <= r < observed) by (nonlinear_arith)
        requires
            observed > 0,
            q == total / observed,
            r == total % observed,
    ;
    assert(part == low * observed + rest && 0 <= rest < observed && (part >= 0 ==> low >= 0))
        by (nonlinear_arith)
        requires
            observed > 0,
            low == part / observed,
            rest == part % observed,
    ;
    assert(part >= 0) by (nonlinear_arith)
        requires
            part == r * range,
            r >= 0,
            range >= 0,
    ;
    assert(total * range == (q * range + low) * observed + rest) by (nonlinear_arith)
        requires
            total == q * observed + r,
            part == r * range,
            part == low * observed + rest,
    ;
    lemma_fundamental_div_mod_converse(total * range, observed, q * range + low, rest);
}

} // verus!
