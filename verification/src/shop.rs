use vstd::prelude::*;

use crate::card::Card;
use crate::card::FightResult;
use crate::card::fight_spec;
use crate::render::decimal_digits;
use crate::render::u32_decimal;

verus! {

/// An ordered collection of cards with aggregate statistics and an
/// all-pairs fight comparison against another shop.
pub struct Shop {
    pub cards: Vec<Card>,
}

/// Sum of `damage` over a sequence of cards; 0 for the empty sequence.
pub open spec fn sum_damage(s: Seq<Card>) -> int
    decreases s.len(),
{
    if s.len() == 0 {
        0
    } else {
        sum_damage(s.drop_last()) + s.last().damage
    }
}

/// Sum of `health` over a sequence of cards; 0 for the empty sequence.
pub open spec fn sum_health(s: Seq<Card>) -> int
    decreases s.len(),
{
    if s.len() == 0 {
        0
    } else {
        sum_health(s.drop_last()) + s.last().health
    }
}

/// Maximum `price` over a sequence of cards; meaningful only when the
/// sequence is non-empty.
pub open spec fn max_price(s: Seq<Card>) -> u32
    recommends
        s.len() > 0,
    decreases s.len(),
{
    if s.len() <= 1 {
        s[0].price
    } else if s.last().price >= max_price(s.drop_last()) {
        s.last().price
    } else {
        max_price(s.drop_last())
    }
}

/// Extending a prefix of `s` by one card adds that card's stats to the sums.
proof fn lemma_sum_take_step(s: Seq<Card>, i: int)
    requires
        0 <= i < s.len(),
    ensures
        sum_damage(s.take(i + 1)) == sum_damage(s.take(i)) + s[i].damage,
        sum_health(s.take(i + 1)) == sum_health(s.take(i)) + s[i].health,
{
    assert(s.take(i + 1).drop_last() =~= s.take(i));
    assert(s.take(i + 1).last() == s[i]);
}

/// The sums over a prefix never exceed the sums over the whole sequence.
proof fn lemma_sum_take_le(s: Seq<Card>, i: int)
    requires
        0 <= i <= s.len(),
    ensures
        sum_damage(s.take(i)) <= sum_damage(s),
        sum_health(s.take(i)) <= sum_health(s),
    decreases s.len() - i,
{
    if i == s.len() {
        assert(s.take(i) =~= s);
    } else {
        lemma_sum_take_step(s, i);
        lemma_sum_take_le(s, i + 1);
    }
}

/// Extending a prefix of `s` by one card updates the running maximum price.
proof fn lemma_max_price_take_step(s: Seq<Card>, i: int)
    requires
        1 <= i < s.len(),
    ensures
        max_price(s.take(i + 1)) == if s[i].price >= max_price(s.take(i)) {
            s[i].price
        } else {
            max_price(s.take(i))
        },
{
    assert(s.take(i + 1).drop_last() =~= s.take(i));
    assert(s.take(i + 1).last() == s[i]);
}

/// The maximum price of a non-empty sequence is the price of one of its
/// cards, and no card's price exceeds it.
pub proof fn lemma_max_price_is_max(s: Seq<Card>)
    requires
        s.len() > 0,
    ensures
        exists|i: int| 0 <= i < s.len() && s[i].price == max_price(s),
        forall|i: int| 0 <= i < s.len() ==> s[i].price <= max_price(s),
    decreases s.len(),
{
    if s.len() == 1 {
        assert(s[0].price == max_price(s));
    } else {
        lemma_max_price_is_max(s.drop_last());
        if s.last().price >= max_price(s.drop_last()) {
            assert(s[s.len() - 1].price == max_price(s));
        } else {
            let j = choose|j: int|
                0 <= j < s.drop_last().len() && s.drop_last()[j].price == max_price(s.drop_last());
            assert(s[j].price == max_price(s));
        }
        assert forall|i: int| 0 <= i < s.len() implies s[i].price <= max_price(s) by {
            if i < s.len() - 1 {
                assert(s.drop_last()[i] == s[i]);
            }
        }
    }
}

/// How many cards of `s` the card `c` beats.
pub open spec fn row_wins(c: Card, s: Seq<Card>) -> int
    decreases s.len(),
{
    if s.len() == 0 {
        0
    } else {
        row_wins(c, s.drop_last()) + if fight_spec(c, s.last()) == FightResult::Win {
            1int
        } else {
            0int
        }
    }
}

/// How many cards of `s` the card `c` loses to.
pub open spec fn row_losses(c: Card, s: Seq<Card>) -> int
    decreases s.len(),
{
    if s.len() == 0 {
        0
    } else {
        row_losses(c, s.drop_last()) + if fight_spec(c, s.last()) == FightResult::Loss {
            1int
        } else {
            0int
        }
    }
}

/// Over all pairings of a card of `a` against a card of `b`, how many
/// does `a`'s card win.
pub open spec fn wins(a: Seq<Card>, b: Seq<Card>) -> int
    decreases a.len(),
{
    if a.len() == 0 {
        0
    } else {
        wins(a.drop_last(), b) + row_wins(a.last(), b)
    }
}

/// Over all pairings of a card of `a` against a card of `b`, how many
/// does `a`'s card lose.
pub open spec fn losses(a: Seq<Card>, b: Seq<Card>) -> int
    decreases a.len(),
{
    if a.len() == 0 {
        0
    } else {
        losses(a.drop_last(), b) + row_losses(a.last(), b)
    }
}

/// The aggregate outcome of shop `a` against shop `b`: whichever side wins
/// more of the all-pairs card fights wins; equal counts tie.
pub open spec fn fight_store_spec(a: Seq<Card>, b: Seq<Card>) -> FightResult {
    if wins(a, b) > losses(a, b) {
        FightResult::Win
    } else if wins(a, b) < losses(a, b) {
        FightResult::Loss
    } else {
        FightResult::Tie
    }
}

/// Extending the opponent prefix by one card adds that single pairing's
/// contribution to a card's win and loss rows.
proof fn lemma_row_take_step(c: Card, s: Seq<Card>, j: int)
    requires
        0 <= j < s.len(),
    ensures
        row_wins(c, s.take(j + 1)) == row_wins(c, s.take(j)) + if fight_spec(c, s[j])
            == FightResult::Win {
            1int
        } else {
            0int
        },
        row_losses(c, s.take(j + 1)) == row_losses(c, s.take(j)) + if fight_spec(c, s[j])
            == FightResult::Loss {
            1int
        } else {
            0int
        },
{
    assert(s.take(j + 1).drop_last() =~= s.take(j));
    assert(s.take(j + 1).last() == s[j]);
}

/// Extending the prefix of `a` by one card adds that card's full row
/// against `b` to the pair counts.
proof fn lemma_wins_take_step(a: Seq<Card>, b: Seq<Card>, i: int)
    requires
        0 <= i < a.len(),
    ensures
        wins(a.take(i + 1), b) == wins(a.take(i), b) + row_wins(a[i], b),
        losses(a.take(i + 1), b) == losses(a.take(i), b) + row_losses(a[i], b),
{
    assert(a.take(i + 1).drop_last() =~= a.take(i));
    assert(a.take(i + 1).last() == a[i]);
}

/// Against an empty opposing shop there are no pairings at all.
proof fn lemma_counts_empty_opponent(a: Seq<Card>)
    ensures
        wins(a, Seq::<Card>::empty()) == 0,
        losses(a, Seq::<Card>::empty()) == 0,
    decreases a.len(),
{
    if a.len() > 0 {
        lemma_counts_empty_opponent(a.drop_last());
    }
}

/// Removing the last card of `a` removes, from `b`'s point of view, exactly
/// that card's column of pairings.
proof fn lemma_counts_drop_last_column(b: Seq<Card>, a: Seq<Card>)
    requires
        a.len() > 0,
    ensures
        losses(b, a) == losses(b, a.drop_last()) + row_wins(a.last(), b),
        wins(b, a) == wins(b, a.drop_last()) + row_losses(a.last(), b),
    decreases b.len(),
{
    if b.len() > 0 {
        lemma_counts_drop_last_column(b.drop_last(), a);
    }
}

/// Each pairing that is a win for a card of `a` is the same pairing seen as
/// a loss from `b`'s side, so the two counts transpose.
proof fn lemma_counts_transpose(a: Seq<Card>, b: Seq<Card>)
    ensures
        wins(a, b) == losses(b, a),
        losses(a, b) == wins(b, a),
    decreases a.len(),
{
    if a.len() == 0 {
        assert(a =~= Seq::<Card>::empty());
        lemma_counts_empty_opponent(b);
    } else {
        lemma_counts_transpose(a.drop_last(), b);
        lemma_counts_drop_last_column(b, a);
    }
}

/// The shop fight is anti-symmetric in outcome: swapping the two shops
/// swaps `Win` and `Loss`, and a `Tie` stays a `Tie`.
pub proof fn lemma_fight_store_antisymmetric(a: Seq<Card>, b: Seq<Card>)
    ensures
        fight_store_spec(a, b) == FightResult::Win <==> fight_store_spec(b, a)
            == FightResult::Loss,
        fight_store_spec(a, b) == FightResult::Loss <==> fight_store_spec(b, a)
            == FightResult::Win,
        fight_store_spec(a, b) == FightResult::Tie <==> fight_store_spec(b, a)
            == FightResult::Tie,
{
    lemma_counts_transpose(a, b);
}

/// A shop fighting an identical copy of itself always ties: every pairing's
/// mirror pairing cancels it, and each card ties against itself.
pub proof fn lemma_fight_store_self_tie(a: Seq<Card>)
    ensures
        fight_store_spec(a, a) == FightResult::Tie,
{
    lemma_counts_transpose(a, a);
}

/// An empty shop ties against any shop, on either side: there are no
/// pairings, so both counters stay at zero.
pub proof fn lemma_fight_store_empty(b: Seq<Card>)
    ensures
        fight_store_spec(Seq::<Card>::empty(), b) == FightResult::Tie,
        fight_store_spec(b, Seq::<Card>::empty()) == FightResult::Tie,
{
    lemma_counts_empty_opponent(b);
}

impl Shop {
    /// The price of the most expensive card in the shop, or `None` when the
    /// shop holds no cards.
    pub fn most_expensive(&self) -> (r: Option<u32>)
        ensures
            r is Some <==> self.cards@.len() > 0,
            r is Some ==> r->0 == max_price(self.cards@),
            r is Some ==> exists|i: int|
                0 <= i < self.cards@.len() && self.cards@[i].price == r->0,
            r is Some ==> forall|i: int|
                0 <= i < self.cards@.len() ==> self.cards@[i].price <= r->0,
    {
        if self.cards.len() == 0 {
            return None;
        }
        let ghost s = self.cards@;
        let mut best: u32 = self.cards[0].price;
        let mut i: usize = 1;
        while i < self.cards.len()
            invariant
                1 <= i <= s.len(),
                self.cards@ == s,
                best == max_price(s.take(i as int)),
            decreases s.len() - i,
        {
            proof {
                lemma_max_price_take_step(s, i as int);
            }
            if self.cards[i].price >= best {
                best = self.cards[i].price;
            }
            i = i + 1;
        }
        proof {
            assert(s.take(s.len() as int) =~= s);
            lemma_max_price_is_max(s);
        }
        Some(best)
    }

    /// The total damage of all cards in the shop; 0 when the shop is empty.
    pub fn total_damage(&self) -> (r: u32)
        requires
            sum_damage(self.cards@) <= u32::MAX,
        ensures
            r == sum_damage(self.cards@),
    {
        let ghost s = self.cards@;
        let mut total: u32 = 0;
        let mut i: usize = 0;
        while i < self.cards.len()
            invariant
                0 <= i <= s.len(),
                self.cards@ == s,
                sum_damage(s) <= u32::MAX,
                total == sum_damage(s.take(i as int)),
            decreases s.len() - i,
        {
            proof {
                lemma_sum_take_step(s, i as int);
                lemma_sum_take_le(s, i as int + 1);
            }
            total = total + self.cards[i].damage;
            i = i + 1;
        }
        proof {
            assert(s.take(s.len() as int) =~= s);
        }
        total
    }

    /// The total health of all cards in the shop; 0 when the shop is empty.
    pub fn total_health(&self) -> (r: u32)
        requires
            sum_health(self.cards@) <= u32::MAX,
        ensures
            r == sum_health(self.cards@),
    {
        let ghost s = self.cards@;
        let mut total: u32 = 0;
        let mut i: usize = 0;
        while i < self.cards.len()
            invariant
                0 <= i <= s.len(),
                self.cards@ == s,
                sum_health(s) <= u32::MAX,
                total == sum_health(s.take(i as int)),
            decreases s.len() - i,
        {
            proof {
                lemma_sum_take_step(s, i as int);
                lemma_sum_take_le(s, i as int + 1);
            }
            total = total + self.cards[i].health;
            i = i + 1;
        }
        proof {
            assert(s.take(s.len() as int) =~= s);
        }
        total
    }

    /// Simulate a fight against another shop. Every card of `self` fights
    /// every card of `other` exactly once; the shop whose cards win more of
    /// those pairings wins overall, and equal counts are a tie.
    pub fn fight_store(&self, other: &Shop) -> (r: FightResult)
        requires
            self.cards@.len() * other.cards@.len() <= u64::MAX,
        ensures
            r == fight_store_spec(self.cards@, other.cards@),
    {
        let ghost a = self.cards@;
        let ghost b = other.cards@;
        let n = self.cards.len();
        let m = other.cards.len();
        let mut shop1: u64 = 0;
        let mut shop2: u64 = 0;
        let mut i: usize = 0;
        while i < n
            invariant
                0 <= i <= n,
                n == a.len(),
                m == b.len(),
                self.cards@ == a,
                other.cards@ == b,
                a.len() * b.len() <= u64::MAX,
                shop1 == wins(a.take(i as int), b),
                shop2 == losses(a.take(i as int), b),
                shop1 + shop2 <= i * m,
            decreases n - i,
        {
            let ghost c = a[i as int];
            let mut j: usize = 0;
            while j < m
                invariant
                    0 <= i < n,
                    0 <= j <= m,
                    n == a.len(),
                    m == b.len(),
                    self.cards@ == a,
                    other.cards@ == b,
                    c == a[i as int],
                    a.len() * b.len() <= u64::MAX,
                    shop1 == wins(a.take(i as int), b) + row_wins(c, b.take(j as int)),
                    shop2 == losses(a.take(i as int), b) + row_losses(c, b.take(j as int)),
                    shop1 + shop2 <= i * m + j,
                decreases m - j,
            {
                proof {
                    lemma_row_take_step(c, b, j as int);
                    assert(i * m + j < n * m) by (nonlinear_arith)
                        requires
                            0 <= i < n && 0 <= j < m,
                    ;
                }
                match self.cards[i].fight(&other.cards[j]) {
                    FightResult::Win => shop1 = shop1 + 1,
                    FightResult::Loss => shop2 = shop2 + 1,
                    _ => (),
                }
                j = j + 1;
            }
            proof {
                assert(b.take(m as int) =~= b);
                lemma_wins_take_step(a, b, i as int);
                assert(i * m + m == (i + 1) * m) by (nonlinear_arith);
            }
            i = i + 1;
        }
        proof {
            assert(a.take(n as int) =~= a);
        }
        if shop1 > shop2 {
            FightResult::Win
        } else if shop1 < shop2 {
            FightResult::Loss
        } else {
            FightResult::Tie
        }
    }

    /// A one-line human-readable summary of the shop's statistics: the most
    /// expensive card's price, the total damage and the total health, in
    /// that order.
    pub fn summary(&self) -> (r: String)
        requires
            self.cards@.len() > 0,
            sum_damage(self.cards@) <= u32::MAX,
            sum_health(self.cards@) <= u32::MAX,
        ensures
            r@ == summary_spec(self.cards@),
    {
        let p = self.most_expensive().unwrap();
        let d = self.total_damage();
        let h = self.total_health();
        let mut r = String::from_str("|Shop: ");
        r.append(u32_decimal(p).as_str());
        r.append("/");
        r.append(u32_decimal(d).as_str());
        r.append("/");
        r.append(u32_decimal(h).as_str());
        r.append("|");
        proof {
            assert(r@ =~= summary_spec(self.cards@));
        }
        r
    }
}

/// The fixed textual template of a shop's summary line, embedding the
/// maximum price, the total damage and the total health, in that order.
pub open spec fn summary_spec(s: Seq<Card>) -> Seq<char>
    recommends
        s.len() > 0,
{
    "|Shop: "@ + decimal_digits(max_price(s) as int) + "/"@ + decimal_digits(sum_damage(s))
        + "/"@ + decimal_digits(sum_health(s)) + "|"@
}

} // verus!
