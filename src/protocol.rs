//! The two-phase guess protocol as a model: fetch requests and results, win
//! records, and what preparing and committing a guess do to the sessions.

use vstd::prelude::*;

use crate::day::china_day;
use crate::session::{guess_step, CiYiGameState, SessionView};
use crate::text::{contains_word, views};

verus! {

/// Why a ranked list has to be fetched before a guess can be committed.
#[derive(Clone, Copy, Debug, PartialEq, Eq, Structural)]
pub enum FetchReason {
    NewGame,
    NewDay,
    MissingRankList,
}

/// A ranked list to fetch, for `word_to_fetch`, outside any lock.
pub struct FetchRequest {
    pub word_to_fetch: String,
    pub reason: FetchReason,
}

/// A fetch request together with what the fetch returned: the ranked list, or
/// the error's text.
pub struct FetchedData {
    pub request: FetchRequest,
    pub result: Result<Vec<String>, String>,
}

/// The mathematical value of a `FetchedData`.
pub struct FetchedView {
    pub word: Seq<char>,
    pub reason: FetchReason,
    pub result: Result<Seq<Seq<char>>, Seq<char>>,
}

impl View for FetchedData {
    type V = FetchedView;

    open spec fn view(&self) -> FetchedView {
        FetchedView {
            word: self.request.word_to_fetch@,
            reason: self.request.reason,
            result: match self.result {
                Ok(l) => Ok(views(l@)),
                Err(e) => Err(e@),
            },
        }
    }
}

/// One correct guess: who made it, where, and when (Unix seconds).
pub struct WinRecord {
    pub user_id: String,
    pub username: String,
    pub channel_id: String,
    pub timestamp: i64,
}

/// The mathematical value of a `WinRecord`.
pub struct RecordView {
    pub user_id: Seq<char>,
    pub username: Seq<char>,
    pub channel_id: Seq<char>,
    pub timestamp: i64,
}

impl View for WinRecord {
    type V = RecordView;

    open spec fn view(&self) -> RecordView {
        RecordView {
            user_id: self.user_id@,
            username: self.username@,
            channel_id: self.channel_id@,
            timestamp: self.timestamp,
        }
    }
}

/// The values of a list of win records.
pub open spec fn record_views(rs: Seq<WinRecord>) -> Seq<RecordView> {
    rs.map_values(|r: WinRecord| r@)
}

/// The values of a list of sessions.
pub open spec fn session_views(ss: Seq<CiYiGameState>) -> Seq<SessionView> {
    ss.map_values(|s: CiYiGameState| s@)
}

/// A finished session whose start lies on an earlier UTC+8 day than `now`.
pub open spec fn rollover_due(s: SessionView, now: i64) -> bool {
    s.is_finished && china_day(now) != china_day(s.last_start_time)
}

/// The pool holds a word that `history` does not.
pub open spec fn has_fresh_word(pool: Seq<Seq<char>>, history: Seq<Seq<char>>) -> bool {
    exists|w: Seq<char>| pool.contains(w) && !history.contains(w)
}

/// Position of the first session of channel `c` at or after `i`, or -1.
pub open spec fn find_from(ss: Seq<SessionView>, c: Seq<char>, i: int) -> int
    decreases ss.len() - i,
{
    if i < 0 || i >= ss.len() {
        -1
    } else if ss[i].channel_id == c {
        i
    } else {
        find_from(ss, c, i + 1)
    }
}

/// Position of the session of channel `c`, or -1 where it has none.
pub open spec fn find_session(ss: Seq<SessionView>, c: Seq<char>) -> int {
    find_from(ss, c, 0)
}

pub proof fn lemma_find_from(ss: Seq<SessionView>, c: Seq<char>, i: int)
    requires
        0 <= i,
    ensures
        find_from(ss, c, i) == -1 <==> forall|j: int| i <= j < ss.len() ==> ss[j].channel_id != c,
        find_from(ss, c, i) != -1 ==> i <= find_from(ss, c, i) < ss.len() && ss[find_from(
            ss,
            c,
            i,
        )].channel_id == c,
    decreases ss.len() - i,
{
    if i < ss.len() && ss[i].channel_id != c {
        lemma_find_from(ss, c, i + 1);
    }
}

/// A channel's new session for `target`, as a fresh game starts it.
pub open spec fn fresh_session(
    c: Seq<char>,
    target: Seq<char>,
    list: Seq<Seq<char>>,
    now: i64,
    direct: bool,
) -> SessionView {
    SessionView {
        channel_id: c,
        target_word: target,
        last_start_time: now,
        global_history: seq![target],
        current_guesses: Seq::empty(),
        words_rank_list: list,
        hints: Seq::empty(),
        is_finished: false,
        direct_guess_enabled: direct,
    }
}

/// `history` with `w` added, unless it is there already.
pub open spec fn add_word(history: Seq<Seq<char>>, w: Seq<char>) -> Seq<Seq<char>> {
    if history.contains(w) {
        history
    } else {
        history.push(w)
    }
}

/// The sessions after a fetched ranked list `list` is installed for channel `c`.
pub open spec fn apply_fetch(
    ss: Seq<SessionView>,
    c: Seq<char>,
    word: Seq<char>,
    reason: FetchReason,
    list: Seq<Seq<char>>,
    now: i64,
    direct: bool,
) -> Seq<SessionView> {
    let i = find_session(ss, c);
    match reason {
        FetchReason::NewGame => {
            let n = fresh_session(c, word, list, now, direct);
            if i == -1 {
                ss.push(n)
            } else {
                ss.update(i, n)
            }
        },
        FetchReason::NewDay => {
            if i == -1 {
                ss
            } else {
                let s = ss[i];
                ss.update(
                    i,
                    SessionView {
                        target_word: word,
                        last_start_time: now,
                        global_history: add_word(s.global_history, word),
                        current_guesses: Seq::empty(),
                        words_rank_list: list,
                        hints: Seq::empty(),
                        is_finished: false,
                        ..s
                    },
                )
            }
        },
        FetchReason::MissingRankList => {
            if i == -1 {
                ss
            } else {
                ss.update(i, SessionView { words_rank_list: list, ..ss[i] })
            }
        },
    }
}

/// The reply when a fetch failed.
pub open spec fn fetch_failed_message(e: Seq<char>) -> Seq<char> {
    "获取词语排名失败："@ + e
}

/// The reply when the channel has no session yet.
pub open spec fn not_started_message() -> Seq<char> {
    "游戏尚未开始，请重试"@
}

/// The reply when a finished channel's target pool has run out.
pub open spec fn pool_empty_message() -> Seq<char> {
    "题库已空"@
}

/// The reply to a mode toggle.
pub open spec fn toggle_message(enabled: bool) -> Seq<char> {
    if enabled {
        "直接猜测模式 已开启"@
    } else {
        "直接猜测模式 已关闭"@
    }
}

/// Sessions, win records and reply of a committed guess of `w` by `user`
/// (`name`) in channel `c` at time `now`.
pub open spec fn commit_step(
    ss: Seq<SessionView>,
    rs: Seq<RecordView>,
    c: Seq<char>,
    user: Seq<char>,
    name: Seq<char>,
    w: Seq<char>,
    fetched: Option<FetchedView>,
    now: i64,
    words: Seq<Seq<char>>,
    pool: Seq<Seq<char>>,
    limit: nat,
    direct: bool,
) -> (Seq<SessionView>, Seq<RecordView>, Seq<char>) {
    if fetched is Some && fetched->Some_0.result is Err {
        (ss, rs, fetch_failed_message(fetched->Some_0.result->Err_0))
    } else {
        let ss1 = match fetched {
            Some(d) => apply_fetch(ss, c, d.word, d.reason, d.result->Ok_0, now, direct),
            None => ss,
        };
        let i = find_session(ss1, c);
        if i == -1 {
            (ss1, rs, not_started_message())
        } else if rollover_due(ss1[i], now) && !has_fresh_word(pool, ss1[i].global_history) {
            (ss1, rs, pool_empty_message())
        } else {
            let (n, msg, won) = guess_step(ss1[i], w, words, limit);
            let rs1 = if won {
                rs.push(RecordView { user_id: user, username: name, channel_id: c, timestamp: now })
            } else {
                rs
            };
            (ss1.update(i, n), rs1, msg)
        }
    }
}

/// The value of an optional fetch result.
pub open spec fn fetched_view(d: Option<FetchedData>) -> Option<FetchedView> {
    match d {
        Some(x) => Some(x@),
        None => None,
    }
}

/// The value of an optional fetch request: the word and the reason.
pub open spec fn request_view(r: Option<FetchRequest>) -> Option<(Seq<char>, FetchReason)> {
    match r {
        Some(q) => Some((q.word_to_fetch@, q.reason)),
        None => None,
    }
}

/// What `prepare_guess` may answer for channel `c` at time `now`: a new game
/// from the pool where the channel has no session; on a rollover a word of
/// the pool that the channel has not had, or nothing when none is left; the
/// current target's list where an active session lacks it; else nothing.
pub open spec fn prepare_allows(
    ss: Seq<SessionView>,
    pool: Seq<Seq<char>>,
    c: Seq<char>,
    now: i64,
    r: Option<(Seq<char>, FetchReason)>,
) -> bool {
    let i = find_session(ss, c);
    if i == -1 {
        r matches Some(q) && q.1 == FetchReason::NewGame && pool.contains(q.0)
    } else if rollover_due(ss[i], now) {
        if has_fresh_word(pool, ss[i].global_history) {
            r matches Some(q) && q.1 == FetchReason::NewDay && pool.contains(q.0)
                && !ss[i].global_history.contains(q.0)
        } else {
            r is None
        }
    } else if !ss[i].is_finished && ss[i].words_rank_list.len() == 0 {
        r == Some((ss[i].target_word, FetchReason::MissingRankList))
    } else {
        r is None
    }
}

/// The words of `pool` that `history` lacks: the targets a new day may draw.
pub fn fresh_candidates(pool: &Vec<String>, history: &Vec<String>) -> (r: Vec<String>)
    ensures
        forall|k: int|
            0 <= k < r.len() ==> views(pool@).contains(#[trigger] r@[k]@) && !views(
                history@,
            ).contains(r@[k]@),
        forall|w: Seq<char>|
            views(pool@).contains(w) && !views(history@).contains(w) ==> #[trigger] views(
                r@,
            ).contains(w),
        r.len() == 0 <==> !has_fresh_word(views(pool@), views(history@)),
{
    let ghost pv = views(pool@);
    let ghost hv = views(history@);
    let mut out: Vec<String> = Vec::new();
    let mut i: usize = 0;
    while i < pool.len()
        invariant
            i <= pool.len(),
            pv == views(pool@),
            hv == views(history@),
            forall|k: int|
                0 <= k < out.len() ==> pv.contains(#[trigger] out@[k]@) && !hv.contains(
                    out@[k]@,
                ),
            out.len() == 0 ==> forall|j: int| 0 <= j < i ==> hv.contains(#[trigger] pv[j]),
            forall|j: int| 0 <= j < i && !hv.contains(#[trigger] pv[j]) ==> views(out@).contains(pv[j]),
        decreases pool.len() - i,
    {
        let ghost before = views(out@);
        if !contains_word(history.as_slice(), &pool[i]) {
            assert(pv[i as int] == pool@[i as int]@);
            out.push(pool[i].clone());
            assert(views(out@) =~= before.push(pv[i as int]));
            assert(views(out@)[before.len() as int] == pv[i as int]);
            assert forall|j: int| 0 <= j < i && !hv.contains(#[trigger] pv[j]) implies views(out@).contains(pv[j]) by {
                let k = choose|k: int| 0 <= k < before.len() && before[k] == pv[j];
                assert(views(out@)[k] == pv[j]);
            }
        } else {
            assert(views(out@) == before);
        }
        i = i + 1;
    }
    proof {
        assert forall|w: Seq<char>| pv.contains(w) && !hv.contains(w) implies #[trigger] views(out@).contains(w) by {
            let j = choose|j: int| 0 <= j < pv.len() && pv[j] == w;
        }
        if out.len() == 0 {
            assert forall|w: Seq<char>| pv.contains(w) implies hv.contains(w) by {
                let j = choose|j: int| 0 <= j < pv.len() && pv[j] == w;
                assert(hv.contains(pv[j]));
            }
        } else {
            assert(pv.contains(out@[0]@) && !hv.contains(out@[0]@));
        }
    }
    out
}
} // verus!
