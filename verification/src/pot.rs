//! Pots of a hand.

use crate::text::{decimal, u64_to_decimal};
use crate::{ChipCount, Seat};
use vstd::prelude::*;

verus! {

/// Pot(s) in the current hand.
#[derive(Debug)]
pub struct Pot {
    pub main: ChipCount,
    /// Only in all-in situations.
    pub side_pots: Vec<SidePot>,
}

/// A pot that only some seats can win.
#[derive(Debug)]
pub struct SidePot {
    pub amount: ChipCount,
    /// Players who contributed to this side pot.
    pub eligible_seats: Vec<Seat>,
}

/// Mathematical picture of a pot: the main pot and, per side pot, its amount and seats.
pub struct PotView {
    pub main: u64,
    pub side_pots: Seq<(u64, Seq<u8>)>,
}

impl View for SidePot {
    type V = (u64, Seq<u8>);

    open spec fn view(&self) -> (u64, Seq<u8>) {
        (self.amount, self.eligible_seats@)
    }
}

impl View for Pot {
    type V = PotView;

    open spec fn view(&self) -> PotView {
        PotView { main: self.main, side_pots: side_views(self.side_pots@) }
    }
}

/// The side pots as (amount, seats) pairs.
pub open spec fn side_views(s: Seq<SidePot>) -> Seq<(u64, Seq<u8>)> {
    s.map_values(|sp: SidePot| sp@)
}

/// Sum of the amounts of the side pots.
pub open spec fn side_total(sps: Seq<(u64, Seq<u8>)>) -> int
    decreases sps.len(),
{
    if sps.len() == 0 {
        0
    } else {
        side_total(sps.drop_last()) + sps.last().0
    }
}

/// The first seat of `seats` that is not a valid seat, if any.
pub open spec fn first_invalid_seat(seats: Seq<u8>) -> Option<u8>
    decreases seats.len(),
{
    if seats.len() == 0 {
        None
    } else if seats[0] >= 2 {
        Some(seats[0])
    } else {
        first_invalid_seat(seats.drop_first())
    }
}

/// What is wrong with side pot number `i`, if anything: a zero amount, no eligible seats, or an
/// invalid seat.
pub open spec fn side_pot_problem(i: nat, sp: (u64, Seq<u8>)) -> Option<Seq<char>> {
    if sp.0 == 0 {
        Some("side pot "@ + decimal(i) + " amount is zero"@)
    } else if sp.1.len() == 0 {
        Some("side pot "@ + decimal(i) + " has no eligible seats"@)
    } else if first_invalid_seat(sp.1) is Some {
        Some(
            "side pot "@ + decimal(i) + " invalid seat "@ + decimal(
                first_invalid_seat(sp.1)->0 as nat,
            ),
        )
    } else {
        None
    }
}

/// The problem of the first faulty side pot from index `i` on, if any.
pub open spec fn pot_problem_from(sps: Seq<(u64, Seq<u8>)>, i: nat) -> Option<Seq<char>>
    decreases sps.len() - i,
{
    if i >= sps.len() {
        None
    } else if side_pot_problem(i, sps[i as int]) is Some {
        side_pot_problem(i, sps[i as int])
    } else {
        pot_problem_from(sps, i + 1)
    }
}

impl SidePot {
    /// A copy of the side pot.
    pub fn duplicate(&self) -> (c: SidePot)
        ensures
            c@ == self@,
    {
        SidePot { amount: self.amount, eligible_seats: self.eligible_seats.clone() }
    }
}

impl Pot {
    /// An empty pot.
    pub fn empty() -> (p: Pot)
        ensures
            p@.main == 0,
            p@.side_pots.len() == 0,
    {
        Pot { main: 0, side_pots: Vec::new() }
    }

    /// A copy of the pot.
    pub fn duplicate(&self) -> (c: Pot)
        ensures
            c@ == self@,
    {
        let mut side: Vec<SidePot> = Vec::new();
        let mut i: usize = 0;
        while i < self.side_pots.len()
            invariant
                i <= self.side_pots@.len(),
                side@.len() == i,
                side_views(side@) == side_views(self.side_pots@.take(i as int)),
            decreases self.side_pots@.len() - i,
        {
            let ghost before = side@;
            let d = self.side_pots[i].duplicate();
            side.push(d);
            proof {
                assert(self.side_pots@.take(i + 1) =~= self.side_pots@.take(i as int).push(
                    self.side_pots@[i as int],
                ));
                assert forall|k: int| 0 <= k < i + 1 implies side_views(side@)[k] == side_views(
                    self.side_pots@.take(i + 1),
                )[k] by {
                    if k < i {
                        assert(side@[k] == before[k]);
                        assert(side_views(before)[k] == side_views(self.side_pots@.take(i as int))[k]);
                    }
                }
                assert(side_views(side@) =~= side_views(self.side_pots@.take(i + 1)));
            }
            i = i + 1;
        }
        assert(self.side_pots@.take(i as int) =~= self.side_pots@);
        let c = Pot { main: self.main, side_pots: side };
        assert(c@.side_pots =~= self@.side_pots);
        c
    }

    /// Whether the side pots' total fits in a `u64`.
    pub fn side_pots_fit(&self) -> (b: bool)
        ensures
            b == (side_total(self@.side_pots) <= u64::MAX),
    {
        let ghost sps = self@.side_pots;
        let mut sum: u64 = 0;
        let mut i: usize = 0;
        while i < self.side_pots.len()
            invariant
                sps == self@.side_pots,
                i <= sps.len(),
                sum == side_total(sps.take(i as int)),
            decreases sps.len() - i,
        {
            proof {
                assert(sps.take(i + 1).drop_last() =~= sps.take(i as int));
                assert(sps[i as int] == self.side_pots@[i as int]@);
            }
            let amount = self.side_pots[i].amount;
            if amount > u64::MAX - sum {
                proof {
                    lemma_side_total_prefix(sps, i + 1);
                }
                return false;
            }
            sum = sum + amount;
            i = i + 1;
        }
        assert(sps.take(i as int) =~= sps);
        true
    }

    /// Sum of the side pots.
    pub fn side_pots_total(&self) -> (t: ChipCount)
        requires
            side_total(self@.side_pots) <= u64::MAX,
        ensures
            t == side_total(self@.side_pots),
    {
        let ghost sps = self@.side_pots;
        let mut sum: u64 = 0;
        let mut i: usize = 0;
        while i < self.side_pots.len()
            invariant
                sps == self@.side_pots,
                i <= sps.len(),
                sum == side_total(sps.take(i as int)),
                side_total(sps) <= u64::MAX,
            decreases sps.len() - i,
        {
            proof {
                assert(sps.take(i + 1).drop_last() =~= sps.take(i as int));
                lemma_side_total_prefix(sps, i + 1);
                lemma_side_total_nonneg(sps.take(i + 1));
                assert(sps[i as int] == self.side_pots@[i as int]@);
            }
            sum = sum + self.side_pots[i].amount;
            i = i + 1;
        }
        assert(sps.take(i as int) =~= sps);
        sum
    }

    /// Main pot plus all side pots.
    pub fn total(&self) -> (t: ChipCount)
        requires
            self@.main + side_total(self@.side_pots) <= u64::MAX,
        ensures
            t == self@.main + side_total(self@.side_pots),
    {
        let ghost sps = self@.side_pots;
        let mut sum: u64 = 0;
        let mut i: usize = 0;
        while i < self.side_pots.len()
            invariant
                sps == self@.side_pots,
                i <= sps.len(),
                sum == side_total(sps.take(i as int)),
                self@.main + side_total(sps) <= u64::MAX,
            decreases sps.len() - i,
        {
            proof {
                assert(sps.take(i + 1).drop_last() =~= sps.take(i as int));
                lemma_side_total_prefix(sps, i + 1);
                lemma_side_total_nonneg(sps.take(i + 1));
                assert(sps[i as int] == self.side_pots@[i as int]@);
            }
            sum = sum + self.side_pots[i].amount;
            i = i + 1;
        }
        assert(sps.take(i as int) =~= sps);
        proof {
            lemma_side_total_nonneg(sps);
        }
        self.main + sum
    }

    /// Side pots must have a positive amount, at least one eligible seat, and only valid seats.
    pub fn validate(&self) -> (r: Result<(), String>)
        ensures
            r is Ok <==> pot_problem_from(self@.side_pots, 0) is None,
            r matches Err(m) ==> pot_problem_from(self@.side_pots, 0) == Some(m@),
    {
        let ghost sps = self@.side_pots;
        let mut i: usize = 0;
        while i < self.side_pots.len()
            invariant
                sps == self@.side_pots,
                i <= sps.len(),
                pot_problem_from(sps, 0) == pot_problem_from(sps, i as nat),
            decreases sps.len() - i,
        {
            let side = &self.side_pots[i];
            assert(sps[i as int] == side@);
            if side.amount == 0 {
                return Err(
                    String::from_str("side pot ").concat(u64_to_decimal(i as u64).as_str()).concat(
                        " amount is zero",
                    ),
                );
            }
            if side.eligible_seats.len() == 0 {
                return Err(
                    String::from_str("side pot ").concat(u64_to_decimal(i as u64).as_str()).concat(
                        " has no eligible seats",
                    ),
                );
            }
            let mut k: usize = 0;
            let ghost seats = side.eligible_seats@;
            assert(seats.subrange(0, seats.len() as int) =~= seats);
            while k < side.eligible_seats.len()
                invariant
                    sps == self@.side_pots,
                    i < sps.len(),
                    sps[i as int] == side@,
                    side.amount != 0,
                    seats.len() > 0,
                    pot_problem_from(sps, 0) == pot_problem_from(sps, i as nat),
                    seats == side.eligible_seats@,
                    k <= seats.len(),
                    first_invalid_seat(seats) == first_invalid_seat(seats.subrange(k as int, seats.len() as int)),
                decreases seats.len() - k,
            {
                let seat = side.eligible_seats[k];
                proof {
                    let rest = seats.subrange(k as int, seats.len() as int);
                    assert(rest.drop_first() =~= seats.subrange(k + 1, seats.len() as int));
                }
                if !crate::hand::seat_is_valid(seat) {
                    return Err(
                        String::from_str("side pot ").concat(u64_to_decimal(i as u64).as_str()).concat(
                            " invalid seat ",
                        ).concat(u64_to_decimal(seat as u64).as_str()),
                    );
                }
                k = k + 1;
            }
            proof {
                assert(seats.subrange(k as int, seats.len() as int).len() == 0);
            }
            i = i + 1;
        }
        Ok(())
    }
}

/// The side pots together hold no negative amount.
pub proof fn lemma_side_total_nonneg(sps: Seq<(u64, Seq<u8>)>)
    ensures
        side_total(sps) >= 0,
    decreases sps.len(),
{
    if sps.len() > 0 {
        lemma_side_total_nonneg(sps.drop_last());
    }
}

proof fn lemma_side_total_prefix(sps: Seq<(u64, Seq<u8>)>, k: int)
    requires
        0 <= k <= sps.len(),
    ensures
        side_total(sps.take(k)) <= side_total(sps),
    decreases sps.len() - k,
{
    if k < sps.len() {
        lemma_side_total_prefix(sps, k + 1);
        assert(sps.take(k + 1).drop_last() =~= sps.take(k));
        assert(sps.take(k + 1).last() == sps[k]);
    } else {
        assert(sps.take(k) =~= sps);
    }
}

} // verus!
