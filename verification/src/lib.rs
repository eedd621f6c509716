//! The verified core of a trading engine for one derivatives and one spot exchange.

pub mod bits;
pub mod decimal;
pub mod execution;
pub mod funding;
pub mod gateway;
pub mod grid_live;
pub mod grid_paper;
pub mod grid_scanner;
pub mod guardian;
pub mod json;
pub mod manip_radar;
pub mod matrix;
pub mod ml_engine;
pub mod models;
pub mod order;
pub mod orderbook;
pub mod paper;
pub mod portfolio;
pub mod profit;
pub mod screen;
pub mod side;
pub mod spot;
pub mod strategy;
pub mod telegram;
pub mod text;
