use vstd::prelude::*;

verus! {

/// Three-way result of a fight, used both for a single card-versus-card
/// fight and for the aggregated shop-versus-shop result.
#[derive(Clone, Copy, Debug, PartialEq, Eq, Structural)]
pub enum FightResult {
    Win,
    Loss,
    Tie,
}

/// A card with a purchase price and two combat stats.
#[derive(Clone, Copy, Debug, PartialEq, Eq, Structural)]
pub struct Card {
    pub price: u32,
    pub damage: u32,
    pub health: u32,
}

/// The result of `a` fighting `b`, from `a`'s perspective:
/// the card with the higher damage wins, equal damage is a tie.
pub open spec fn fight_spec(a: Card, b: Card) -> FightResult {
    if a.damage > b.damage {
        FightResult::Win
    } else if a.damage < b.damage {
        FightResult::Loss
    } else {
        FightResult::Tie
    }
}

impl Card {
    /// Fight another card: higher damage wins, equal damage ties.
    pub fn fight(&self, other: &Card) -> (r: FightResult)
        ensures
            r == fight_spec(*self, *other),
    {
        if self.damage > other.damage {
            FightResult::Win
        } else if self.damage < other.damage {
            FightResult::Loss
        } else {
            FightResult::Tie
        }
    }
}

} // verus!
