pub mod catalog;
pub mod color;
pub mod currency;
pub mod format;
pub mod pipe;
pub mod purchase;
pub mod random;
pub mod shape;
pub mod state;
pub mod tick;
pub mod time;
pub mod unlock;
pub mod upgrades;
