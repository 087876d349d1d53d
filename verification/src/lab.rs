pub mod aggregator;
pub mod leacteur;
pub mod message_producer;
pub mod messages;
pub mod models;
pub mod sink;
pub mod tweetmodel;
pub mod utils;
