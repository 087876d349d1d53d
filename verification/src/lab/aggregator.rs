//! The aggregator's buffers of users and tweet details, which the sinks pull.
use crate::lab::messages::Tweet;
use crate::lab::models::User;
use vstd::prelude::*;

verus! {

/// A fresh user id: a random version 4 UUID in its hyphenated form.
///
/// Wraps `uuid::Uuid::new_v4` and the `Display` of `Uuid`. `new_v4` sets the
/// version nibble to 4 and the variant bits to `10`; `Display` prints the 16
/// bytes as lowercase hex with hyphens after the 4th, 6th, 8th and 10th byte,
/// 36 characters in all. Which id comes out is left open: it is random.
#[verifier::external_body]
fn random_user_id() -> (id: String)
    ensures
        is_v4_uuid_text(id@),
{
    uuid::Uuid::new_v4().to_string()
}

/// True when `s` is a version 4 UUID in hyphenated lowercase form:
/// `xxxxxxxx-xxxx-4xxx-yxxx-xxxxxxxxxxxx` with `x` a lowercase hex digit and
/// `y` one of `8`, `9`, `a`, `b`.
pub open spec fn is_v4_uuid_text(s: Seq<char>) -> bool {
    &&& s.len() == 36
    &&& forall|i: int|
        0 <= i < 36 ==> if i == 8 || i == 13 || i == 18 || i == 23 {
            s[i] == '-'
        } else {
            ('0' <= #[trigger] s[i] <= '9') || ('a' <= s[i] <= 'f')
        }
    &&& s[14] == '4'
    &&& (s[19] == '8' || s[19] == '9' || s[19] == 'a' || s[19] == 'b')
}

/// The author of a tweet under the given id.
pub fn author_with_id(tweet: &Tweet, id: String) -> (user: User)
    ensures
        user.username@ == tweet.user@,
        user.id@ == id@,
{
    User { id, username: tweet.user.clone() }
}

/// The author of a tweet, under a fresh random id.
pub fn author_of(tweet: &Tweet) -> (user: User)
    ensures
        user.username@ == tweet.user@,
        is_v4_uuid_text(user.id@),
{
    author_with_id(tweet, random_user_id())
}

/// The mathematical content of a [`TweetLedger`]: the buffered users and
/// tweet details, oldest first.
pub struct LedgerView<D> {
    pub users: Seq<User>,
    pub details: Seq<D>,
}

/// The state after one tweet was recorded with its author.
pub open spec fn ledger_record<D>(v: LedgerView<D>, user: User, details: D) -> LedgerView<D> {
    LedgerView { users: v.users.push(user), details: v.details.push(details) }
}

/// The state after the users were pulled.
pub open spec fn ledger_without_users<D>(v: LedgerView<D>) -> LedgerView<D> {
    LedgerView { users: Seq::empty(), details: v.details }
}

/// The state after the tweet details were pulled.
pub open spec fn ledger_without_details<D>(v: LedgerView<D>) -> LedgerView<D> {
    LedgerView { users: v.users, details: Seq::empty() }
}

/// The users and tweet details that the aggregator buffers until the sinks
/// pull them.
pub struct TweetLedger<D> {
    users: Vec<User>,
    tweet_details: Vec<D>,
}

impl<D> View for TweetLedger<D> {
    type V = LedgerView<D>;

    closed spec fn view(&self) -> LedgerView<D> {
        LedgerView { users: self.users@, details: self.tweet_details@ }
    }
}

impl<D> TweetLedger<D> {
    /// Empty buffers.
    pub fn new() -> (l: TweetLedger<D>)
        ensures
            l@ == (LedgerView::<D> { users: Seq::empty(), details: Seq::empty() }),
    {
        TweetLedger { users: Vec::new(), tweet_details: Vec::new() }
    }

    /// Buffers a tweet's details together with its author.
    pub fn record(&mut self, user: User, details: D)
        ensures
            final(self)@ == ledger_record(old(self)@, user, details),
    {
        self.users.push(user);
        self.tweet_details.push(details);
    }

    /// Hands out the buffered users, oldest first, and empties their buffer.
    pub fn pull_users(&mut self) -> (users: Vec<User>)
        ensures
            users@ == old(self)@.users,
            final(self)@ == ledger_without_users(old(self)@),
    {
        let mut taken: Vec<User> = Vec::new();
        std::mem::swap(&mut taken, &mut self.users);
        taken
    }

    /// Hands out the buffered tweet details, oldest first, and empties their
    /// buffer.
    pub fn pull_tweets(&mut self) -> (details: Vec<D>)
        ensures
            details@ == old(self)@.details,
            final(self)@ == ledger_without_details(old(self)@),
    {
        let mut taken: Vec<D> = Vec::new();
        std::mem::swap(&mut taken, &mut self.tweet_details);
        taken
    }
}

/// Law: what a pull hands out is everything recorded since the previous
/// pull of the same kind, in order; a second pull hands out nothing; and
/// pulling one kind leaves the other untouched.
pub proof fn lemma_pull_returns_records<D>(v: LedgerView<D>, user: User, details: D)
    ensures
        ledger_record(ledger_without_users(v), user, details).users == seq![user],
        ledger_record(ledger_without_details(v), user, details).details == seq![details],
        ledger_without_users(ledger_without_users(v)).users == Seq::<User>::empty(),
        ledger_without_details(ledger_without_details(v)).details == Seq::<D>::empty(),
        ledger_without_users(v).details == v.details,
        ledger_without_details(v).users == v.users,
{
    assert(Seq::<User>::empty().push(user) =~= seq![user]);
    assert(Seq::<D>::empty().push(details) =~= seq![details]);
}

/// The state after tweets were recorded one after the other, the i-th with
/// author `users[i]` and details `details[i]`.
pub open spec fn ledger_record_all<D>(v: LedgerView<D>, users: Seq<User>, details: Seq<D>) -> LedgerView<D>
    decreases users.len(),
{
    if users.len() == 0 || details.len() == 0 {
        v
    } else {
        ledger_record(
            ledger_record_all(v, users.drop_last(), details.drop_last()),
            users.last(),
            details.last(),
        )
    }
}

/// Law: after any number of tweets were recorded into empty buffers, a pull
/// of the details hands out all of them in arrival order and leaves the
/// users as recorded; a second pull hands out nothing; the same holds of the
/// users.
pub proof fn lemma_pulls_return_all<D>(users: Seq<User>, details: Seq<D>)
    requires
        users.len() == details.len(),
    ensures
        ({
            let empty = LedgerView::<D> { users: Seq::empty(), details: Seq::empty() };
            let full = ledger_record_all(empty, users, details);
            &&& full.details == details
            &&& full.users == users
            &&& ledger_without_details(full).users == users
            &&& ledger_without_details(ledger_without_details(full)).details == Seq::<D>::empty()
            &&& ledger_without_users(full).details == details
            &&& ledger_without_users(ledger_without_users(full)).users == Seq::<User>::empty()
        }),
    decreases users.len(),
{
    if users.len() > 0 {
        lemma_pulls_return_all(users.drop_last(), details.drop_last());
        assert(users.drop_last().push(users.last()) =~= users);
        assert(details.drop_last().push(details.last()) =~= details);
    }
}

} // verus!
