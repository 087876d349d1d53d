//! The message of the first version of the pipeline, which carries the text
//! of a tweet only.
use vstd::prelude::*;

verus! {

/// The text of a tweet, or the order to stop.
#[derive(Debug, Clone)]
pub enum TweetMessage {
    TweetText(String),
    Halt,
}

/// The mathematical content of a [`TweetMessage`].
pub enum TweetTextView {
    TweetText(Seq<char>),
    Halt,
}

impl View for TweetMessage {
    type V = TweetTextView;

    open spec fn view(&self) -> TweetTextView {
        match self {
            TweetMessage::TweetText(s) => TweetTextView::TweetText(s@),
            TweetMessage::Halt => TweetTextView::Halt,
        }
    }
}

} // verus!
