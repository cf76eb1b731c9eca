//! The store: tokens, transfers and balances, held in memory.

pub mod balance_repository;
pub mod database;
pub mod models;
pub mod token_repository;
pub mod transfer_repository;

pub use balance_repository::BalanceRepository;
pub use database::Database;
pub use models::{Token, Transfer};
pub use token_repository::TokenRepository;
pub use transfer_repository::TransferRepository;
