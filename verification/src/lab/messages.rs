//! Messages exchanged by the actors of the tweet pipeline.
use vstd::prelude::*;

verus! {

/// Declares `std::time::SystemTime` so that message types can carry it.
#[verifier::external_type_specification]
#[verifier::external_body]
pub struct ExSystemTime(std::time::SystemTime);

/// Asks a sink to insert the users it buffered up to the given time.
pub struct InsertUsers(pub std::time::SystemTime);

/// Asks a sink to drop its buffered users.
pub struct FlushUsers;

/// Asks a sink to insert the tweets it buffered up to the given time.
pub struct InsertTweets(pub std::time::SystemTime);

/// Asks a sink to drop its buffered tweets.
pub struct FlushTweets;

/// A tweet as read from the stream.
#[derive(Debug, Clone)]
pub struct Tweet {
    pub text: String,
    pub user: String,
    pub retweet_count: usize,
    pub favorite_count: usize,
    pub followers_count: usize,
}

/// The mathematical content of a [`Tweet`].
pub struct TweetView {
    pub text: Seq<char>,
    pub user: Seq<char>,
    pub retweet_count: usize,
    pub favorite_count: usize,
    pub followers_count: usize,
}

impl TweetView {
    /// The tweet with no text, no user and all counters at zero.
    pub open spec fn blank() -> TweetView {
        TweetView {
            text: Seq::empty(),
            user: Seq::empty(),
            retweet_count: 0,
            favorite_count: 0,
            followers_count: 0,
        }
    }

    /// A tweet is worth forwarding when it has a text or an author.
    pub open spec fn valid(self) -> bool {
        self.text.len() > 0 || self.user.len() > 0
    }
}

impl View for Tweet {
    type V = TweetView;

    open spec fn view(&self) -> TweetView {
        TweetView {
            text: self.text@,
            user: self.user@,
            retweet_count: self.retweet_count,
            favorite_count: self.favorite_count,
            followers_count: self.followers_count,
        }
    }
}

impl Tweet {
    /// An empty tweet.
    pub fn new() -> (tweet: Tweet)
        ensures
            tweet@ == TweetView::blank(),
    {
        Tweet {
            text: String::new(),
            user: String::new(),
            retweet_count: 0,
            favorite_count: 0,
            followers_count: 0,
        }
    }

    /// True when the tweet has a non-empty text or a non-empty user.
    pub fn is_valid(&self) -> (valid: bool)
        ensures
            valid == self@.valid(),
    {
        if !self.text.as_str().is_empty() || !self.user.as_str().is_empty() {
            return true;
        }
        false
    }
}

/// What the message producer hands to a worker: a tweet, or the order to stop.
#[derive(Debug, Clone)]
pub enum TweetMessage {
    Tweet(Tweet),
    Halt,
}

/// The mathematical content of a [`TweetMessage`].
pub enum TweetMessageView {
    Tweet(TweetView),
    Halt,
}

impl View for TweetMessage {
    type V = TweetMessageView;

    open spec fn view(&self) -> TweetMessageView {
        match self {
            TweetMessage::Tweet(t) => TweetMessageView::Tweet(t@),
            TweetMessage::Halt => TweetMessageView::Halt,
        }
    }
}

/// Asks the spawner to start the given number of workers.
pub struct InitializeWorkers(pub u32);

/// Asks the spawner to stop its most recent worker.
pub struct RemoveWorker;

/// Asks the spawner to start one more worker.
pub struct AddWorker;

} // verus!
