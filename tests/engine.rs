use ciyi::day::is_other_china_day;
use ciyi::protocol::{fresh_candidates, FetchReason, FetchRequest, FetchedData, WinRecord};
use ciyi::registry::CiYiGameManager;
use ciyi::session::{CiYiGameState, WordCorpus};

const T0: i64 = 1_700_000_000;
const DAY: i64 = 86_400;

fn words(ws: &[&str]) -> Vec<String> {
    ws.iter().map(|w| w.to_string()).collect()
}

fn corpus(all: &[&str], pool: &[&str]) -> WordCorpus {
    WordCorpus { all_words: words(all), question_words: words(pool) }
}

fn fetched(word: &str, reason: FetchReason, list: &[&str]) -> Option<FetchedData> {
    Some(FetchedData {
        request: FetchRequest { word_to_fetch: word.to_string(), reason },
        result: Ok(words(list)),
    })
}

fn game(all: &[&str], pool: &[&str]) -> CiYiGameManager {
    CiYiGameManager::new(corpus(all, pool), false, 10, 10)
}

#[test]
fn fresh_channel_win_then_already_played() {
    let mut m = game(&["苹果", "香蕉"], &["苹果"]);
    let req = m.prepare_guess("c1", T0).expect("a new game needs a fetch");
    assert_eq!(req.reason, FetchReason::NewGame);
    assert_eq!(req.word_to_fetch, "苹果");
    let r = m.commit_guess("c1", "u1", "alice", "苹果".to_string(),
        fetched("苹果", FetchReason::NewGame, &["香蕉", "苹果"]), T0);
    assert!(r.contains("猜测：1 次"));
    assert_eq!(r, "恭喜你猜对了！\n答案：苹果\n猜测：1 次");
    assert!(m.session("c1").unwrap().is_finished);
    assert!(m.prepare_guess("c1", T0 + 60).is_none());
    let again = m.commit_guess("c1", "u1", "alice", "香蕉".to_string(), None, T0 + 60);
    assert_eq!(again, "每天只能玩一次哦！");
}

#[test]
fn winning_appends_one_record() {
    let mut m = game(&["苹果", "香蕉"], &["苹果"]);
    m.commit_guess("c1", "u9", "zoe", "香蕉".to_string(),
        fetched("苹果", FetchReason::NewGame, &["香蕉"]), T0);
    assert_eq!(m.win_records().len(), 0);
    m.commit_guess("c1", "u9", "zoe", "苹果".to_string(), None, T0 + 5);
    let recs: &Vec<WinRecord> = m.win_records();
    assert_eq!(recs.len(), 1);
    assert_eq!(recs[0].user_id, "u9");
    assert_eq!(recs[0].username, "zoe");
    assert_eq!(recs[0].channel_id, "c1");
    assert_eq!(recs[0].timestamp, T0 + 5);
    assert_eq!(m.session("c1").unwrap().current_guesses.len(), 2);
}

#[test]
fn hint_records_rank_and_neighbours() {
    let mut m = game(&["苹果", "甲乙", "丙丁", "戊己"], &["苹果"]);
    let r = m.commit_guess("c", "u", "n", "丙丁".to_string(),
        fetched("苹果", FetchReason::NewGame, &["甲乙", "丙丁", "戊己"]), T0);
    let s = m.session("c").unwrap();
    assert_eq!(s.hints.len(), 1);
    assert_eq!(s.hints[0].rank, 2);
    assert_eq!(s.hints[0].text, "？乙 ) 丙丁 ( 戊？ #2");
    assert_eq!(r, "1. ？乙 ) 丙丁 ( 戊？ #2\n...");
}

#[test]
fn hint_at_list_ends_uses_placeholder() {
    let mut m = game(&["苹果", "甲乙", "丙丁", "戊己"], &["苹果"]);
    m.commit_guess("c", "u", "n", "甲乙".to_string(),
        fetched("苹果", FetchReason::NewGame, &["甲乙", "丙丁", "戊己"]), T0);
    let r = m.commit_guess("c", "u", "n", "戊己".to_string(), None, T0);
    assert_eq!(r, "1. ？？ ) 甲乙 ( 丙？ #1\n2. ？丁 ) 戊己 ( ？？ #3\n...");
}

#[test]
fn hints_stay_sorted_by_rank() {
    let list = ["甲乙", "丙丁", "戊己", "庚辛"];
    let mut m = game(&["苹果", "甲乙", "丙丁", "戊己", "庚辛"], &["苹果"]);
    m.commit_guess("c", "u", "n", "庚辛".to_string(),
        fetched("苹果", FetchReason::NewGame, &list), T0);
    m.commit_guess("c", "u", "n", "甲乙".to_string(), None, T0);
    m.commit_guess("c", "u", "n", "戊己".to_string(), None, T0);
    let ranks: Vec<usize> = m.session("c").unwrap().hints.iter().map(|h| h.rank).collect();
    assert_eq!(ranks, vec![1, 3, 4]);
}

#[test]
fn hint_display_limit_and_two_digit_rank() {
    let mut list: Vec<String> = (0..12).map(|i| format!("词{}", i)).collect();
    list.push("苹果".to_string());
    let mut all = list.clone();
    all.push("苹果".to_string());
    let all_refs: Vec<&str> = all.iter().map(|s| s.as_str()).collect();
    let list_refs: Vec<&str> = list.iter().map(|s| s.as_str()).collect();
    let mut m = CiYiGameManager::new(corpus(&all_refs, &["苹果"]), false, 1, 10);
    let r = m.commit_guess("c", "u", "n", "词10".to_string(),
        fetched("苹果", FetchReason::NewGame, &list_refs), T0);
    assert_eq!(r, "1. ？9 ) 词10 ( 词？ #11\n...");
    let r2 = m.commit_guess("c", "u", "n", "词0".to_string(), None, T0);
    assert_eq!(r2, "1. ？？ ) 词0 ( 词？ #1\n...");
}

#[test]
fn repeated_guess_is_rejected() {
    let mut m = game(&["苹果", "丙丁"], &["苹果"]);
    m.commit_guess("c", "u", "n", "丙丁".to_string(),
        fetched("苹果", FetchReason::NewGame, &["丙丁"]), T0);
    let r = m.commit_guess("c", "u", "n", "丙丁".to_string(), None, T0);
    assert_eq!(r, "丙丁 已猜过");
    assert_eq!(m.session("c").unwrap().current_guesses.len(), 1);
    assert_eq!(m.session("c").unwrap().hints.len(), 1);
}

#[test]
fn unknown_word_is_rejected() {
    let mut m = game(&["苹果"], &["苹果"]);
    let r = m.commit_guess("c", "u", "n", "火星".to_string(),
        fetched("苹果", FetchReason::NewGame, &["火星"]), T0);
    assert_eq!(r, "火星 不在词库中");
    assert_eq!(m.session("c").unwrap().current_guesses.len(), 0);
}

#[test]
fn word_missing_from_rank_list_adds_no_hint() {
    let mut m = game(&["苹果", "香蕉"], &["苹果"]);
    let r = m.commit_guess("c", "u", "n", "香蕉".to_string(),
        fetched("苹果", FetchReason::NewGame, &["甲乙"]), T0);
    assert_eq!(r, "...");
    assert_eq!(m.session("c").unwrap().current_guesses.len(), 1);
}

#[test]
fn fetch_failure_leaves_state_unchanged() {
    let mut m = game(&["苹果"], &["苹果"]);
    let data = FetchedData {
        request: FetchRequest { word_to_fetch: "苹果".to_string(), reason: FetchReason::NewGame },
        result: Err("timeout".to_string()),
    };
    let r = m.commit_guess("c", "u", "n", "苹果".to_string(), Some(data), T0);
    assert_eq!(r, "获取词语排名失败：timeout");
    assert!(m.session("c").is_none());
}

#[test]
fn commit_without_session_asks_to_retry() {
    let mut m = game(&["苹果"], &["苹果"]);
    let r = m.commit_guess("c", "u", "n", "苹果".to_string(), None, T0);
    assert_eq!(r, "游戏尚未开始，请重试");
}

#[test]
fn rollover_picks_an_unused_target() {
    let mut m = game(&["苹果", "香蕉"], &["苹果", "香蕉"]);
    m.commit_guess("c", "u", "n", "苹果".to_string(),
        fetched("苹果", FetchReason::NewGame, &["香蕉"]), T0);
    assert!(m.session("c").unwrap().is_finished);
    let req = m.prepare_guess("c", T0 + DAY).expect("a new day needs a fetch");
    assert_eq!(req.reason, FetchReason::NewDay);
    assert_eq!(req.word_to_fetch, "香蕉");
    let r = m.commit_guess("c", "u", "n", "苹果".to_string(),
        Some(FetchedData { request: req, result: Ok(words(&["苹果"])) }), T0 + DAY);
    assert_eq!(r, "1. ？？ ) 苹果 ( ？？ #1\n...");
    let s = m.session("c").unwrap();
    assert_eq!(s.target_word, "香蕉");
    assert!(!s.is_finished);
    assert_eq!(s.last_start_time, T0 + DAY);
    assert_eq!(s.global_history.len(), 2);
    assert_eq!(s.current_guesses, words(&["苹果"]));
}

#[test]
fn unfinished_session_does_not_roll_over() {
    let mut m = game(&["苹果", "香蕉"], &["苹果", "香蕉"]);
    m.commit_guess("c", "u", "n", "香蕉".to_string(),
        fetched("苹果", FetchReason::NewGame, &["香蕉"]), T0);
    assert!(m.prepare_guess("c", T0 + 3 * DAY).is_none());
}

#[test]
fn exhausted_pool_reports_empty() {
    let mut m = game(&["苹果"], &["苹果"]);
    m.commit_guess("c", "u", "n", "苹果".to_string(),
        fetched("苹果", FetchReason::NewGame, &[]), T0);
    assert!(m.prepare_guess("c", T0 + DAY).is_none());
    let r = m.commit_guess("c", "u", "n", "苹果".to_string(), None, T0 + DAY);
    assert_eq!(r, "题库已空");
}

#[test]
fn toggle_creates_session_then_missing_list_is_fetched() {
    let mut m = game(&["苹果"], &["苹果"]);
    assert_eq!(m.toggle_direct_guess_mode("c", T0), "直接猜测模式 已开启");
    let s = m.session("c").unwrap();
    assert!(s.direct_guess_enabled);
    assert_eq!(s.target_word, "苹果");
    assert!(s.words_rank_list.is_empty());
    let req = m.prepare_guess("c", T0).unwrap();
    assert_eq!(req.reason, FetchReason::MissingRankList);
    assert_eq!(req.word_to_fetch, "苹果");
    m.commit_guess("c", "u", "n", "苹果".to_string(),
        fetched("苹果", FetchReason::MissingRankList, &["香蕉"]), T0);
    assert_eq!(m.session("c").unwrap().words_rank_list, words(&["香蕉"]));
    assert_eq!(m.toggle_direct_guess_mode("c", T0), "直接猜测模式 已关闭");
}

#[test]
fn direct_guess_status() {
    let mut m = CiYiGameManager::new(corpus(&["苹果"], &["苹果"]), true, 10, 10);
    assert!(m.get_direct_guess_status("c", T0));
    m.commit_guess("c", "u", "n", "苹果".to_string(),
        fetched("苹果", FetchReason::NewGame, &[]), T0);
    assert!(!m.get_direct_guess_status("c", T0));
    assert!(m.get_direct_guess_status("c", T0 + DAY));
    m.toggle_direct_guess_mode("c", T0);
    assert!(!m.get_direct_guess_status("c", T0 + DAY));
}

#[test]
fn day_boundary_is_midnight_in_utc_plus_eight() {
    // 1970-01-01 15:59:59 UTC is 23:59:59 in UTC+8.
    assert!(is_other_china_day(57_600, 57_599));
    assert!(!is_other_china_day(57_600, 57_600 + DAY - 1));
    assert!(is_other_china_day(-28_801, -28_800));
    assert!(!is_other_china_day(i64::MAX, i64::MAX - 1));
    assert!(is_other_china_day(i64::MIN, 0));
}

#[test]
fn parts_round_trip() {
    let mut m = game(&["苹果", "丙丁"], &["苹果"]);
    m.commit_guess("c", "u", "n", "丙丁".to_string(),
        fetched("苹果", FetchReason::NewGame, &["丙丁"]), T0);
    m.commit_guess("c", "u", "n", "苹果".to_string(), None, T0 + 1);
    let (states, records) = m.into_parts();
    assert_eq!(states.len(), 1);
    assert_eq!(records.len(), 1);
    let m2 = CiYiGameManager::from_parts(states, records, corpus(&["苹果"], &["苹果"]), false, 10, 10)
        .expect("stored sessions are well formed");
    let s = m2.session("c").unwrap();
    assert_eq!(s.target_word, "苹果");
    assert_eq!(s.hints[0].text, "？？ ) 丙丁 ( ？？ #1");
    assert_eq!(m2.win_records()[0].timestamp, T0 + 1);
}

#[test]
fn malformed_parts_are_refused() {
    let mut m = game(&["苹果"], &["苹果"]);
    m.toggle_direct_guess_mode("c", T0);
    let (mut states, records) = m.into_parts();
    states[0].global_history.clear();
    assert!(CiYiGameManager::from_parts(states, records, corpus(&["苹果"], &["苹果"]), false, 10, 10)
        .is_none());
}

#[test]
fn candidates_are_the_unused_pool_words() {
    let pool = words(&["苹果", "香蕉", "橘子"]);
    assert_eq!(fresh_candidates(&pool, &words(&["香蕉"])), words(&["苹果", "橘子"]));
    assert!(fresh_candidates(&pool, &pool).is_empty());
}

#[test]
fn session_guess_reports_win_flag() {
    let c = corpus(&["苹果", "香蕉"], &["苹果"]);
    let mut s = CiYiGameState {
        channel_id: "c".to_string(),
        target_word: "苹果".to_string(),
        last_start_time: T0,
        global_history: words(&["苹果"]),
        current_guesses: Vec::new(),
        words_rank_list: words(&["香蕉"]),
        hints: Vec::new(),
        is_finished: false,
        direct_guess_enabled: false,
    };
    assert_eq!(s.guess("香蕉".to_string(), &c, 10), ("1. ？？ ) 香蕉 ( ？？ #1\n...".to_string(), false));
    assert_eq!(s.guess("苹果".to_string(), &c, 10), ("恭喜你猜对了！\n答案：苹果\n猜测：2 次".to_string(), true));
    assert!(s.is_finished);
    assert!(!s.is_new_day_in_china_timezone(T0 + 60));
    assert!(s.is_new_day_in_china_timezone(T0 + DAY));
}
