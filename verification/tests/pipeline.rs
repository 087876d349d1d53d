use actor_framework::actor_spawner::WorkerPool;
use actor_framework::lab::aggregator::{author_of, author_with_id, TweetLedger};
use actor_framework::lab::leacteur::engagement_total;
use actor_framework::lab::message_producer::{Dispatcher, Scaling};
use actor_framework::lab::messages::Tweet;
use actor_framework::lab::models::User;
use actor_framework::lab::sink::{availability_for_roll, db_is_available, plan_after_pull};

#[test]
fn tweet_new_is_blank_and_invalid() {
    let t = Tweet::new();
    assert_eq!(t.text, "");
    assert_eq!(t.user, "");
    assert_eq!(t.retweet_count + t.favorite_count + t.followers_count, 0);
    assert!(!t.is_valid());
}

#[test]
fn tweet_with_text_or_user_is_valid() {
    let mut t = Tweet::new();
    t.user = "u".to_string();
    assert!(t.is_valid());
    let mut t = Tweet::new();
    t.text = "x".to_string();
    assert!(t.is_valid());
}

#[test]
fn dispatcher_serves_subscribers_in_turn() {
    let mut d = Dispatcher::new(3);
    let mut got = Vec::new();
    for _ in 0..4 {
        let p = d.on_chunk(200_000);
        assert_eq!(p.scaling, Scaling::Steady);
        got.push(p.recipient.unwrap());
    }
    assert_eq!(got, vec![0, 1, 2, 0]);
}

#[test]
fn dispatcher_asks_for_workers_when_chunks_are_fast() {
    let mut d = Dispatcher::new(3);
    let p = d.on_chunk(40_000);
    assert_eq!(p.scaling, Scaling::AddWorker);
    assert_eq!(p.recipient, Some(0));
    let mut full = Dispatcher::new(10);
    assert_eq!(full.on_chunk(10).scaling, Scaling::Steady);
    let mut d = Dispatcher::new(3);
    assert_eq!(d.on_chunk(40_001).scaling, Scaling::Steady);
}

#[test]
fn dispatcher_shrinks_when_chunks_are_slow() {
    let mut d = Dispatcher::new(7);
    let p = d.on_chunk(100_001);
    assert_eq!(p.scaling, Scaling::RemoveWorker);
    assert_eq!(p.recipient, Some(6));
    assert_eq!(d.index(), 0);
    let mut few = Dispatcher::new(5);
    assert_eq!(few.on_chunk(100_001).scaling, Scaling::Steady);
    let mut d = Dispatcher::new(7);
    assert_eq!(d.on_chunk(100_000).scaling, Scaling::Steady);
}

#[test]
fn dispatcher_without_subscribers_sends_nothing() {
    let mut d = Dispatcher::new(0);
    let p = d.on_chunk(0);
    assert_eq!(p.scaling, Scaling::AddWorker);
    assert_eq!(p.recipient, None);
    assert_eq!(d.index(), 0);
}

#[test]
fn worker_ids_follow_slots() {
    let mut pool: WorkerPool<&str> = WorkerPool::new();
    assert_eq!(pool.ids_to_start(3), vec![1, 2, 3]);
    pool.append(vec!["a", "b", "c"]);
    assert_eq!(pool.next_id(), 4);
    pool.push("d");
    assert_eq!(pool.ids_to_start(2), vec![5, 6]);
    assert_eq!(pool.pop(), Some("d"));
    assert_eq!(pool.len(), 3);
    assert_eq!(pool.next_id(), 4);
}

#[test]
fn empty_pool_pops_nothing() {
    let mut pool: WorkerPool<u8> = WorkerPool::new();
    assert_eq!(pool.pop(), None);
    assert_eq!(pool.ids_to_start(0), Vec::<u32>::new());
}

#[test]
fn ledger_pulls_what_was_recorded() {
    let mut l: TweetLedger<u32> = TweetLedger::new();
    l.record(User { id: "1".into(), username: "a".into() }, 10);
    l.record(User { id: "2".into(), username: "b".into() }, 20);
    let users = l.pull_users();
    assert_eq!(users.len(), 2);
    assert_eq!(users[1].username, "b");
    assert!(l.pull_users().is_empty());
    assert_eq!(l.pull_tweets(), vec![10, 20]);
    assert!(l.pull_tweets().is_empty());
}

#[test]
fn author_gets_a_fresh_uuid() {
    let mut t = Tweet::new();
    t.user = "carol".into();
    let a = author_of(&t);
    let b = author_of(&t);
    assert_eq!(a.username, "carol");
    assert_eq!(a.id.chars().count(), 36);
    assert_ne!(a.id, b.id);
}

#[test]
fn engagement_adds_favorites_and_retweets() {
    let mut t = Tweet::new();
    t.favorite_count = 7;
    t.retweet_count = 5;
    assert_eq!(engagement_total(&t), Some(12));
    t.favorite_count = usize::MAX;
    assert_eq!(engagement_total(&t), None);
}

#[test]
fn sink_plans() {
    let p = plan_after_pull(3, true);
    assert!(p.insert);
    assert_eq!(p.retry_after_millis, 200);
    let p = plan_after_pull(0, true);
    assert!(!p.insert);
    assert_eq!(p.retry_after_millis, 200);
    let p = plan_after_pull(3, false);
    assert!(!p.insert);
    assert_eq!(p.retry_after_millis, 5000);
}

#[test]
fn rolls_above_eight_mean_unavailable() {
    assert!(availability_for_roll(1));
    assert!(availability_for_roll(8));
    assert!(!availability_for_roll(9));
    let mut seen_up = false;
    for _ in 0..500 {
        seen_up |= db_is_available();
    }
    assert!(seen_up);
}

#[test]
fn author_id_is_a_hyphenated_v4_uuid() {
    let mut t = Tweet::new();
    t.user = "dave".into();
    let a = author_of(&t);
    let chars: Vec<char> = a.id.chars().collect();
    assert_eq!(chars.len(), 36);
    for (i, c) in chars.iter().enumerate() {
        if i == 8 || i == 13 || i == 18 || i == 23 {
            assert_eq!(*c, '-');
        } else {
            assert!(c.is_ascii_digit() || ('a'..='f').contains(c));
        }
    }
    assert_eq!(chars[14], '4');
    assert!("89ab".contains(chars[19]));
}

#[test]
fn author_with_id_keeps_the_id() {
    let mut t = Tweet::new();
    t.user = "erin".into();
    let a = author_with_id(&t, "u-1".to_string());
    assert_eq!(a.id, "u-1");
    assert_eq!(a.username, "erin");
}

#[test]
fn ledger_pulls_many_records_in_arrival_order() {
    let mut l: TweetLedger<u32> = TweetLedger::new();
    for i in 0..5u32 {
        l.record(User { id: i.to_string(), username: format!("user{}", i) }, i * 10);
    }
    let details = l.pull_tweets();
    assert_eq!(details, vec![0, 10, 20, 30, 40]);
    assert!(l.pull_tweets().is_empty());
    let users = l.pull_users();
    assert_eq!(users.len(), 5);
    for (i, u) in users.iter().enumerate() {
        assert_eq!(u.id, i.to_string());
    }
    assert!(l.pull_users().is_empty());
}
