use ciyi::leaderboard::generate_leaderboard;
use ciyi::protocol::{FetchReason, FetchRequest, FetchedData, WinRecord};
use ciyi::registry::CiYiGameManager;
use ciyi::session::WordCorpus;

fn rec(user: &str, name: &str, channel: &str) -> WinRecord {
    WinRecord {
        user_id: user.to_string(),
        username: name.to_string(),
        channel_id: channel.to_string(),
        timestamp: 0,
    }
}

#[test]
fn empty_leaderboard_message() {
    assert_eq!(generate_leaderboard(&Vec::new(), None, 10), "当前还没有人猜对过哦！");
}

#[test]
fn one_user_n_records_single_line() {
    let rs = vec![rec("u", "a", "c1"), rec("u", "b", "c2"), rec("u", "c", "c1")];
    assert_eq!(generate_leaderboard(&rs, None, 10), "1. c 3");
}

#[test]
fn leaderboard_orders_by_wins_and_limits() {
    let rs = vec![
        rec("x", "xia", "c1"),
        rec("y", "yan", "c1"),
        rec("y", "yan", "c2"),
        rec("z", "zhu", "c1"),
        rec("y", "yan2", "c1"),
    ];
    assert_eq!(generate_leaderboard(&rs, None, 10), "1. yan2 3\n2. xia 1\n3. zhu 1");
    assert_eq!(generate_leaderboard(&rs, None, 2), "1. yan2 3\n2. xia 1");
    assert_eq!(generate_leaderboard(&rs, None, 0), "");
    assert_eq!(generate_leaderboard(&rs, Some("c2"), 10), "1. yan 1");
    assert_eq!(generate_leaderboard(&rs, Some("c3"), 10), "当前还没有人猜对过哦！");
}

#[test]
fn registry_leaderboards() {
    let corpus = WordCorpus {
        all_words: vec!["苹果".to_string()],
        question_words: vec!["苹果".to_string()],
    };
    let mut m = CiYiGameManager::new(corpus, false, 10, 10);
    assert_eq!(m.get_global_leaderboard(), "当前还没有人猜对过哦！");
    for ch in ["c1", "c2"] {
        let data = FetchedData {
            request: FetchRequest { word_to_fetch: "苹果".to_string(), reason: FetchReason::NewGame },
            result: Ok(Vec::new()),
        };
        m.commit_guess(ch, "u", "lin", "苹果".to_string(), Some(data), 0);
    }
    assert_eq!(m.get_global_leaderboard(), "1. lin 2");
    assert_eq!(m.get_channel_leaderboard("c2"), "1. lin 1");
}
