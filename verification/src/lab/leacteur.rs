//! The integer part of the scores a worker gives a tweet.
use crate::lab::messages::Tweet;
use vstd::prelude::*;

verus! {

/// The engagement a tweet gathered: its favorites plus its retweets;
/// `None` when the sum exceeds `usize`.
pub fn engagement_total(tweet: &Tweet) -> (total: Option<usize>)
    ensures
        match total {
            Some(t) => t == tweet.favorite_count + tweet.retweet_count,
            None => tweet.favorite_count + tweet.retweet_count > usize::MAX,
        },
{
    tweet.favorite_count.checked_add(tweet.retweet_count)
}

} // verus!
