//! Verified core of a Cineplanet showtime and seat recommender.
pub mod app;
pub mod checkout;
pub mod cli;
pub mod clock;
pub mod demo;
pub mod display;
pub mod domain;
pub mod keys;
pub mod listing;
pub mod live;
pub mod order;
pub mod ranking;
pub mod recommendation;
pub mod score;
pub mod seats;
pub mod settings;
pub mod text;
pub mod viewing;
