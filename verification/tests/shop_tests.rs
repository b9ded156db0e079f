use card_shop::card::Card;
use card_shop::card::FightResult;
use card_shop::shop::Shop;

fn card(price: u32, damage: u32, health: u32) -> Card {
    Card { price, damage, health }
}

fn shop_a() -> Shop {
    Shop { cards: vec![card(3, 5, 10), card(7, 2, 4)] }
}

fn shop_b() -> Shop {
    Shop { cards: vec![card(5, 5, 5)] }
}

#[test]
fn most_expensive_is_the_maximum_price() {
    let shop = Shop { cards: vec![card(4, 0, 0), card(19, 1, 1), card(11, 2, 2)] };
    assert_eq!(shop.most_expensive(), Some(19));
}

#[test]
fn most_expensive_single_card() {
    let shop = Shop { cards: vec![card(6, 1, 1)] };
    assert_eq!(shop.most_expensive(), Some(6));
}

#[test]
fn most_expensive_equal_prices() {
    let shop = Shop { cards: vec![card(8, 1, 1), card(8, 2, 2)] };
    assert_eq!(shop.most_expensive(), Some(8));
}

#[test]
fn most_expensive_empty_shop_is_none() {
    let shop = Shop { cards: vec![] };
    assert_eq!(shop.most_expensive(), None);
}

#[test]
fn totals_sum_all_cards() {
    let shop = Shop { cards: vec![card(1, 2, 3), card(4, 5, 6), card(7, 8, 9)] };
    assert_eq!(shop.total_damage(), 15);
    assert_eq!(shop.total_health(), 18);
}

#[test]
fn totals_of_empty_shop_are_zero() {
    let shop = Shop { cards: vec![] };
    assert_eq!(shop.total_damage(), 0);
    assert_eq!(shop.total_health(), 0);
}

#[test]
fn card_fight_goes_by_damage() {
    let strong = card(1, 9, 1);
    let weak = card(9, 3, 9);
    assert_eq!(strong.fight(&weak), FightResult::Win);
    assert_eq!(weak.fight(&strong), FightResult::Loss);
    assert_eq!(weak.fight(&weak), FightResult::Tie);
}

#[test]
fn fight_store_example_scenario() {
    // Pairings: (damage 5 vs 5) ties, (damage 2 vs 5) loses, so the
    // counters end at 0 wins and 1 loss.
    assert_eq!(shop_a().fight_store(&shop_b()), FightResult::Loss);
}

#[test]
fn fight_store_is_antisymmetric_on_the_example() {
    assert_eq!(shop_a().fight_store(&shop_b()), FightResult::Loss);
    assert_eq!(shop_b().fight_store(&shop_a()), FightResult::Win);
}

#[test]
fn fight_store_against_identical_copy_is_tie() {
    assert_eq!(shop_a().fight_store(&shop_a()), FightResult::Tie);
    assert_eq!(shop_b().fight_store(&shop_b()), FightResult::Tie);
}

#[test]
fn fight_store_with_empty_shop_is_tie() {
    let empty = Shop { cards: vec![] };
    assert_eq!(empty.fight_store(&shop_a()), FightResult::Tie);
    assert_eq!(shop_a().fight_store(&empty), FightResult::Tie);
    let empty_again = Shop { cards: vec![] };
    assert_eq!(empty.fight_store(&empty_again), FightResult::Tie);
}

#[test]
fn fight_store_counts_every_pairing() {
    // 2x2 pairings: a0 beats both of b's cards, a1 loses to both, so the
    // counters tie at 2 each.
    let a = Shop { cards: vec![card(1, 9, 1), card(1, 1, 1)] };
    let b = Shop { cards: vec![card(1, 5, 1), card(1, 5, 1)] };
    assert_eq!(a.fight_store(&b), FightResult::Tie);
}

#[test]
fn fight_store_majority_wins() {
    // Three cards of a beat b's single card, one loses: 3 wins to 1.
    let a = Shop { cards: vec![card(1, 9, 1), card(1, 8, 1), card(1, 7, 1), card(1, 2, 1)] };
    let b = Shop { cards: vec![card(1, 5, 1)] };
    assert_eq!(a.fight_store(&b), FightResult::Win);
    assert_eq!(b.fight_store(&a), FightResult::Loss);
}

#[test]
fn summary_shows_the_three_statistics_in_order() {
    let text = shop_a().summary();
    assert_eq!(text, "|Shop: 7/7/14|");
    let first = text.find('7').unwrap();
    let second = text[first + 1..].find('7').unwrap() + first + 1;
    let third = text[second + 1..].find("14").unwrap() + second + 1;
    assert!(first < second && second < third);
}

#[test]
fn summary_of_single_card_shop() {
    let shop = Shop { cards: vec![card(12, 340, 5600)] };
    assert_eq!(shop.summary(), "|Shop: 12/340/5600|");
}

#[test]
fn summary_renders_zero_statistics() {
    let shop = Shop { cards: vec![card(0, 0, 0)] };
    assert_eq!(shop.summary(), "|Shop: 0/0/0|");
}

#[test]
fn summary_renders_large_values() {
    let shop = Shop { cards: vec![card(u32::MAX, u32::MAX, u32::MAX)] };
    assert_eq!(shop.summary(), "|Shop: 4294967295/4294967295/4294967295|");
}
