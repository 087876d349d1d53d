//! The rows of the tweets table.
use vstd::prelude::*;

verus! {

/// A tweet as stored in the database.
#[derive(Debug, Default)]
pub struct NewTweet {
    pub tweet_id: String,
    pub user_id: Option<String>,
    pub text: String,
    pub followers_count: i32,
    pub retweet_count: i32,
    pub favorite_count: i32,
    pub engagement_score: String,
    pub sentiment_score: String,
}

} // verus!
