pub mod card;
pub mod render;
pub mod shop;

pub use card::Card;
pub use card::FightResult;
pub use shop::Shop;
