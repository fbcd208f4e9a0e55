//! Market-data collection, pricing and relay logic for BTC prediction markets.

pub mod book;
pub mod calendar;
pub mod db;
pub mod debug;
pub mod feed;
pub mod json;
pub mod kernel;
pub mod normalizer;
pub mod num;
pub mod ring;
pub mod shipment;
pub mod text;
pub mod venue;
pub mod ws_relay;
