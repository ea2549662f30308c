//! The registry of sessions by channel, with the two-phase guess protocol.

use vstd::prelude::*;

use crate::day::china_day;
use crate::leaderboard::{generate_leaderboard, leaderboard_text};
use crate::protocol::{
    add_word, apply_fetch, commit_step, fetched_view, find_from, find_session, fresh_candidates,
    fresh_session, lemma_find_from, prepare_allows, record_views, request_view,
    session_views, toggle_message, FetchReason, FetchRequest, FetchedData, FetchedView,
    RecordView, WinRecord,
};
use crate::session::{hints_sorted, session_wf, CiYiGameState, HintView, SessionView, WordCorpus};
use crate::text::{contains_word, views};

verus! {

/// Relies on fastrand::usize: a value drawn from `0..n`, which panics only
/// on an empty range.
#[verifier::external_body]
fn random_below(n: usize) -> (r: usize)
    requires
        n > 0,
    ensures
        r < n,
{
    fastrand::usize(..n)
}

/// Every channel's game session, the win records, and the corpus and settings
/// that the games are played with.
pub struct CiYiGameManager {
    states: Vec<CiYiGameState>,
    win_records: Vec<WinRecord>,
    corpus: WordCorpus,
    direct_guess_default: bool,
    history_display: usize,
    rank_display: usize,
}

impl CiYiGameManager {
    /// The sessions, in order of creation.
    pub closed spec fn sessions(&self) -> Seq<SessionView> {
        session_views(self.states@)
    }

    /// The win records, oldest first.
    pub closed spec fn records(&self) -> Seq<RecordView> {
        record_views(self.win_records@)
    }

    /// Every word that may be guessed.
    pub closed spec fn words(&self) -> Seq<Seq<char>> {
        views(self.corpus.all_words@)
    }

    /// The pool of target words.
    pub closed spec fn pool(&self) -> Seq<Seq<char>> {
        views(self.corpus.question_words@)
    }

    /// Whether new sessions start in direct-guess mode.
    pub closed spec fn direct_default(&self) -> bool {
        self.direct_guess_default
    }

    /// Hint lines shown per reply.
    pub closed spec fn hint_limit(&self) -> nat {
        self.history_display as nat
    }

    /// Leaderboard entries shown per reply.
    pub closed spec fn rank_limit(&self) -> nat {
        self.rank_display as nat
    }

    /// Every session is well formed and the target pool is not empty.
    pub closed spec fn wf(&self) -> bool {
        &&& self.corpus.question_words.len() > 0
        &&& forall|i: int| 0 <= i < self.sessions().len() ==> session_wf(#[trigger] self.sessions()[i])
    }

    /// An empty registry over `corpus`, with the given settings.
    pub fn new(
        corpus: WordCorpus,
        direct_guess: bool,
        history_display: usize,
        rank_display: usize,
    ) -> (r: Self)
        requires
            corpus.question_words.len() > 0,
        ensures
            r.wf(),
            r.sessions() == Seq::<SessionView>::empty(),
            r.records() == Seq::<RecordView>::empty(),
            r.words() == views(corpus.all_words@),
            r.pool() == views(corpus.question_words@),
            r.direct_default() == direct_guess,
            r.hint_limit() == history_display,
            r.rank_limit() == rank_display,
    {
        let r = CiYiGameManager {
            states: Vec::new(),
            win_records: Vec::new(),
            corpus,
            direct_guess_default: direct_guess,
            history_display,
            rank_display,
        };
        assert(r.sessions() =~= Seq::<SessionView>::empty());
        assert(r.records() =~= Seq::<RecordView>::empty());
        r
    }

    /// Position of the session of `channel_id`.
    fn find_index(&self, channel_id: &String) -> (r: Option<usize>)
        ensures
            r is None <==> find_session(self.sessions(), channel_id@) == -1,
            r matches Some(i) ==> i == find_session(self.sessions(), channel_id@) && i
                < self.states.len(),
    {
        let ghost ss = self.sessions();
        proof {
            lemma_find_from(ss, channel_id@, 0);
        }
        let mut i: usize = 0;
        while i < self.states.len()
            invariant
                i <= self.states.len(),
                ss == self.sessions(),
                find_from(ss, channel_id@, 0) == find_from(ss, channel_id@, i as int),
            decreases self.states.len() - i,
        {
            if self.states[i].channel_id == *channel_id {
                return Some(i);
            }
            i = i + 1;
        }
        None
    }

    /// The session of `channel_id`, if it has one.
    pub fn session(&self, channel_id: &str) -> (r: Option<&CiYiGameState>)
        ensures
            r is None <==> find_session(self.sessions(), channel_id@) == -1,
            r matches Some(s) ==> s@ == self.sessions()[find_session(
                self.sessions(),
                channel_id@,
            )],
    {
        let c = String::from_str(channel_id);
        match self.find_index(&c) {
            Some(i) => Some(&self.states[i]),
            None => None,
        }
    }

    /// The sessions, in order of creation.
    pub fn states(&self) -> (r: &Vec<CiYiGameState>)
        ensures
            session_views(r@) == self.sessions(),
    {
        &self.states
    }

    /// The win records, oldest first.
    pub fn win_records(&self) -> (r: &Vec<WinRecord>)
        ensures
            record_views(r@) == self.records(),
    {
        &self.win_records
    }
}

impl CiYiGameManager {
    /// The setup (corpus and settings) of `self` and `o` agree.
    pub open spec fn same_setup(&self, o: &Self) -> bool {
        &&& self.words() == o.words()
        &&& self.pool() == o.pool()
        &&& self.direct_default() == o.direct_default()
        &&& self.hint_limit() == o.hint_limit()
        &&& self.rank_limit() == o.rank_limit()
    }

    /// First phase of a guess, without side effects: says which ranked list,
    /// if any, must be fetched before the guess can be committed.
    pub fn prepare_guess(&self, channel_id: &str, now: i64) -> (r: Option<FetchRequest>)
        requires
            self.wf(),
        ensures
            prepare_allows(self.sessions(), self.pool(), channel_id@, now, request_view(r)),
    {
        let c = String::from_str(channel_id);
        let ghost ss = self.sessions();
        match self.find_index(&c) {
            None => {
                let k = random_below(self.corpus.question_words.len());
                let w = self.corpus.question_words[k].clone();
                assert(self.pool()[k as int] == w@);
                Some(FetchRequest { word_to_fetch: w, reason: FetchReason::NewGame })
            },
            Some(i) => {
                let st = &self.states[i];
                assert(ss[i as int] == st@);
                if st.is_finished && st.is_new_day_in_china_timezone(now) {
                    let cands = fresh_candidates(&self.corpus.question_words, &st.global_history);
                    if cands.len() == 0 {
                        return None;
                    }
                    let k = random_below(cands.len());
                    let w = cands[k].clone();
                    assert(self.pool().contains(cands@[k as int]@));
                    return Some(FetchRequest { word_to_fetch: w, reason: FetchReason::NewDay });
                }
                if !st.is_finished && st.words_rank_list.len() == 0 {
                    return Some(
                        FetchRequest {
                            word_to_fetch: st.target_word.clone(),
                            reason: FetchReason::MissingRankList,
                        },
                    );
                }
                None
            },
        }
    }

    /// Moves the session at `i` out, leaving an empty one in its place.
    fn take_session(&mut self, i: usize) -> (r: CiYiGameState)
        requires
            i < old(self).states.len(),
            old(self).wf(),
        ensures
            r@ == old(self).sessions()[i as int],
            final(self).sessions().len() == old(self).sessions().len(),
            forall|k: int|
                0 <= k < old(self).sessions().len() && k != i
                    ==> #[trigger] final(self).sessions()[k] == old(self).sessions()[k],
            final(self).corpus.question_words.len() > 0,
            final(self).win_records == old(self).win_records,
            final(self).corpus == old(self).corpus,
            final(self).direct_guess_default == old(self).direct_guess_default,
            final(self).history_display == old(self).history_display,
            final(self).rank_display == old(self).rank_display,
    {
        let r = self.states.remove(i);
        self.states.insert(
            i,
            CiYiGameState {
                channel_id: String::new(),
                target_word: String::new(),
                last_start_time: 0,
                global_history: Vec::new(),
                current_guesses: Vec::new(),
                words_rank_list: Vec::new(),
                hints: Vec::new(),
                is_finished: false,
                direct_guess_enabled: false,
            },
        );
        assert forall|k: int|
            0 <= k < old(self).sessions().len() && k != i implies #[trigger] self.sessions()[k]
            == old(self).sessions()[k] by {
            assert(self.states@[k] == old(self).states@[k]);
        }
        r
    }

    /// Puts `st` at position `i`.
    fn put_session(&mut self, i: usize, st: CiYiGameState)
        requires
            i < old(self).states.len(),
            old(self).corpus.question_words.len() > 0,
            forall|k: int|
                0 <= k < old(self).sessions().len() && k != i ==> session_wf(
                    #[trigger] old(self).sessions()[k],
                ),
            session_wf(st@),
        ensures
            final(self).sessions() == old(self).sessions().update(i as int, st@),
            final(self).wf(),
            final(self).win_records == old(self).win_records,
            final(self).corpus == old(self).corpus,
            final(self).direct_guess_default == old(self).direct_guess_default,
            final(self).history_display == old(self).history_display,
            final(self).rank_display == old(self).rank_display,
    {
        let ghost sv = st@;
        self.states.remove(i);
        self.states.insert(i, st);
        assert(self.sessions() =~= old(self).sessions().update(i as int, sv));
        assert forall|k: int| 0 <= k < self.sessions().len() implies session_wf(
            #[trigger] self.sessions()[k],
        ) by {
            if k != i {
                assert(self.sessions()[k] == old(self).sessions()[k]);
            }
        }
    }

    /// Installs a fetched ranked list for `channel_id` as `reason` says.
    fn install_fetch(&mut self, channel_id: &String, request: FetchRequest, list: Vec<String>, now: i64)
        requires
            old(self).wf(),
        ensures
            final(self).wf(),
            final(self).sessions() == apply_fetch(
                old(self).sessions(),
                channel_id@,
                request.word_to_fetch@,
                request.reason,
                views(list@),
                now,
                old(self).direct_default(),
            ),
            final(self).win_records == old(self).win_records,
            final(self).corpus == old(self).corpus,
            final(self).direct_guess_default == old(self).direct_guess_default,
            final(self).history_display == old(self).history_display,
            final(self).rank_display == old(self).rank_display,
    {
        let ghost ss = self.sessions();
        let ghost wv = request.word_to_fetch@;
        let ghost lv = views(list@);
        let found = self.find_index(channel_id);
        match request.reason {
            FetchReason::NewGame => {
                let w = request.word_to_fetch;
                let mut history: Vec<String> = Vec::new();
                history.push(w.clone());
                let st = CiYiGameState {
                    channel_id: channel_id.clone(),
                    target_word: w,
                    last_start_time: now,
                    global_history: history,
                    current_guesses: Vec::new(),
                    words_rank_list: list,
                    hints: Vec::new(),
                    is_finished: false,
                    direct_guess_enabled: self.direct_guess_default,
                };
                assert(st@.global_history =~= seq![wv]);
                assert(st@.current_guesses =~= Seq::<Seq<char>>::empty());
                assert(st@.hints =~= Seq::<HintView>::empty());
                assert(st@ == fresh_session(
                    channel_id@,
                    wv,
                    lv,
                    now,
                    self.direct_guess_default,
                ));
                assert(st@.global_history[0] == st@.target_word);
                match found {
                    Some(i) => {
                        self.put_session(i, st);
                    },
                    None => {
                        let ghost sv = st@;
                        self.states.push(st);
                        assert(self.sessions() =~= ss.push(sv));
                    },
                }
            },
            FetchReason::NewDay => {
                if let Some(i) = found {
                    let mut st = self.take_session(i);
                    let ghost s0 = st@;
                    assert(s0 == ss[i as int]);
                    let w = request.word_to_fetch;
                    if !contains_word(st.global_history.as_slice(), &w) {
                        st.global_history.push(w.clone());
                    }
                    st.hints = Vec::new();
                    st.current_guesses = Vec::new();
                    st.target_word = w;
                    st.words_rank_list = list;
                    st.last_start_time = now;
                    st.is_finished = false;
                    assert(st@.global_history =~= add_word(s0.global_history, wv));
                    assert(st@.current_guesses =~= Seq::<Seq<char>>::empty());
                    assert(st@.hints =~= Seq::<HintView>::empty());
                    assert(st@.global_history.contains(wv)) by {
                        if !s0.global_history.contains(wv) {
                            assert(st@.global_history[s0.global_history.len() as int] == wv);
                        }
                    }
                    let ghost sv = st@;
                    self.put_session(i, st);
                    assert(self.sessions() =~= ss.update(i as int, sv));
                }
            },
            FetchReason::MissingRankList => {
                if let Some(i) = found {
                    let mut st = self.take_session(i);
                    assert(st@ == ss[i as int]);
                    st.words_rank_list = list;
                    let ghost sv = st@;
                    self.put_session(i, st);
                    assert(self.sessions() =~= ss.update(i as int, sv));
                }
            },
        }
    }
}

impl CiYiGameManager {
    /// Second phase of a guess: installs what was fetched, if anything, then
    /// applies the guess of `guess_word` by `user_id` (`username`) to the
    /// channel's session, records a win, and returns the reply.
    pub fn commit_guess(
        &mut self,
        channel_id: &str,
        user_id: &str,
        username: &str,
        guess_word: String,
        fetched_data: Option<FetchedData>,
        now: i64,
    ) -> (r: String)
        requires
            old(self).wf(),
        ensures
            final(self).wf(),
            final(self).same_setup(old(self)),
            forall|i: int|
                0 <= i < final(self).sessions().len() ==> hints_sorted(
                    #[trigger] final(self).sessions()[i].hints,
                ),
            (final(self).sessions(), final(self).records(), r@) == commit_step(
                old(self).sessions(),
                old(self).records(),
                channel_id@,
                user_id@,
                username@,
                guess_word@,
                fetched_view(fetched_data),
                now,
                old(self).words(),
                old(self).pool(),
                old(self).hint_limit(),
                old(self).direct_default(),
            ),
    {
        let c = String::from_str(channel_id);
        if let Some(data) = fetched_data {
            let FetchedData { request, result } = data;
            match result {
                Err(e) => {
                    let mut m = String::from_str("获取词语排名失败：");
                    m.append(e.as_str());
                    return m;
                },
                Ok(list) => {
                    self.install_fetch(&c, request, list, now);
                },
            }
        }
        let ghost ss1 = self.sessions();
        let i = match self.find_index(&c) {
            Some(i) => i,
            None => {
                proof {
                    reveal_strlit("游戏尚未开始，请重试");
                }
                return String::from_str("游戏尚未开始，请重试");
            },
        };
        assert(session_wf(ss1[i as int]));
        if self.states[i].is_finished && self.states[i].is_new_day_in_china_timezone(now) {
            let cands = fresh_candidates(
                &self.corpus.question_words,
                &self.states[i].global_history,
            );
            if cands.len() == 0 {
                return String::from_str("题库已空");
            }
        }
        let mut st = self.take_session(i);
        let (m, won) = st.guess(guess_word, &self.corpus, self.history_display);
        let ghost sv = st@;
        self.put_session(i, st);
        assert(self.sessions() =~= ss1.update(i as int, sv));
        if won {
            let rec = WinRecord {
                user_id: String::from_str(user_id),
                username: String::from_str(username),
                channel_id: c,
                timestamp: now,
            };
            let ghost rv = rec@;
            let ghost rs0 = self.records();
            self.win_records.push(rec);
            assert(self.records() =~= rs0.push(rv));
        }
        m
    }

    /// Flips the channel's direct-guess mode, first creating its session, with
    /// a target drawn from the pool and no ranked list yet, where it has none.
    pub fn toggle_direct_guess_mode(&mut self, channel_id: &str, now: i64) -> (r: String)
        requires
            old(self).wf(),
        ensures
            final(self).wf(),
            final(self).same_setup(old(self)),
            final(self).records() == old(self).records(),
            ({
                let ss = old(self).sessions();
                let i = find_session(ss, channel_id@);
                if i == -1 {
                    let n = final(self).sessions().last();
                    &&& final(self).sessions() == ss.push(n)
                    &&& old(self).pool().contains(n.target_word)
                    &&& n == fresh_session(
                        channel_id@,
                        n.target_word,
                        Seq::empty(),
                        now,
                        !old(self).direct_default(),
                    )
                    &&& r@ == toggle_message(!old(self).direct_default())
                } else {
                    &&& final(self).sessions() == ss.update(
                        i,
                        SessionView { direct_guess_enabled: !ss[i].direct_guess_enabled, ..ss[i] },
                    )
                    &&& r@ == toggle_message(!ss[i].direct_guess_enabled)
                }
            }),
    {
        let c = String::from_str(channel_id);
        let ghost ss = self.sessions();
        let enabled = match self.find_index(&c) {
            Some(i) => {
                let mut st = self.take_session(i);
                st.direct_guess_enabled = !st.direct_guess_enabled;
                let e = st.direct_guess_enabled;
                let ghost sv = st@;
                self.put_session(i, st);
                assert(self.sessions() =~= ss.update(i as int, sv));
                e
            },
            None => {
                let k = random_below(self.corpus.question_words.len());
                let w = self.corpus.question_words[k].clone();
                assert(self.pool()[k as int] == w@);
                let mut history: Vec<String> = Vec::new();
                history.push(w.clone());
                let st = CiYiGameState {
                    channel_id: c,
                    target_word: w,
                    last_start_time: now,
                    global_history: history,
                    current_guesses: Vec::new(),
                    words_rank_list: Vec::new(),
                    hints: Vec::new(),
                    is_finished: false,
                    direct_guess_enabled: !self.direct_guess_default,
                };
                let ghost sv = st@;
                assert(sv.global_history =~= seq![sv.target_word]);
                assert(sv.current_guesses =~= Seq::<Seq<char>>::empty());
                assert(sv.words_rank_list =~= Seq::<Seq<char>>::empty());
                assert(sv.hints =~= Seq::<HintView>::empty());
                assert(sv.global_history[0] == sv.target_word);
                self.states.push(st);
                assert(self.sessions() =~= ss.push(sv));
                !self.direct_guess_default
            },
        };
        proof {
            reveal_strlit("直接猜测模式 已开启");
            reveal_strlit("直接猜测模式 已关闭");
        }
        if enabled {
            String::from_str("直接猜测模式 已开启")
        } else {
            String::from_str("直接猜测模式 已关闭")
        }
    }

    /// Whether a bare two-character message in the channel counts as a guess:
    /// the configured default where the channel has no session; else its mode,
    /// while the session is playable (active, or due for a new day).
    pub fn get_direct_guess_status(&self, channel_id: &str, now: i64) -> (r: bool)
        ensures
            ({
                let ss = self.sessions();
                let i = find_session(ss, channel_id@);
                if i == -1 {
                    r == self.direct_default()
                } else {
                    r == ((china_day(now) != china_day(ss[i].last_start_time)
                        || !ss[i].is_finished) && ss[i].direct_guess_enabled)
                }
            }),
    {
        let c = String::from_str(channel_id);
        match self.find_index(&c) {
            Some(i) => {
                let st = &self.states[i];
                (st.is_new_day_in_china_timezone(now) || !st.is_finished) && st.direct_guess_enabled
            },
            None => self.direct_guess_default,
        }
    }
}

/// Whether `st` is well formed: its target is in its history and its hints
/// are ordered by rank.
pub fn check_session(st: &CiYiGameState) -> (r: bool)
    ensures
        r == session_wf(st@),
{
    if !contains_word(st.global_history.as_slice(), &st.target_word) {
        return false;
    }
    if !st.is_finished && contains_word(st.current_guesses.as_slice(), &st.target_word) {
        return false;
    }
    let ghost hs = st@.hints;
    let mut i: usize = 1;
    while i < st.hints.len()
        invariant
            1 <= i,
            hs == st@.hints,
            hs.len() == st.hints.len(),
            forall|a: int, b: int| 0 <= a < b < i && b < hs.len() ==> hs[a].rank <= hs[b].rank,
        decreases st.hints.len() - i,
    {
        if st.hints[i - 1].rank > st.hints[i].rank {
            assert(hs[i - 1].rank > hs[i as int].rank);
            return false;
        }
        assert forall|a: int, b: int| 0 <= a < b < i + 1 && b < hs.len() implies hs[a].rank
            <= hs[b].rank by {
            if b == i && a < i - 1 {
                assert(hs[a].rank <= hs[i - 1].rank);
            }
        }
        i = i + 1;
    }
    true
}

impl CiYiGameManager {
    /// The registry made of stored sessions and win records, where every
    /// session is well formed; `None` otherwise.
    pub fn from_parts(
        states: Vec<CiYiGameState>,
        win_records: Vec<WinRecord>,
        corpus: WordCorpus,
        direct_guess: bool,
        history_display: usize,
        rank_display: usize,
    ) -> (r: Option<Self>)
        requires
            corpus.question_words.len() > 0,
        ensures
            r is Some <==> forall|i: int|
                0 <= i < states.len() ==> session_wf(#[trigger] session_views(states@)[i]),
            r matches Some(m) ==> {
                &&& m.wf()
                &&& m.sessions() == session_views(states@)
                &&& m.records() == record_views(win_records@)
                &&& m.words() == views(corpus.all_words@)
                &&& m.pool() == views(corpus.question_words@)
                &&& m.direct_default() == direct_guess
                &&& m.hint_limit() == history_display
                &&& m.rank_limit() == rank_display
            },
    {
        let ghost sv = session_views(states@);
        let mut i: usize = 0;
        while i < states.len()
            invariant
                i <= states.len(),
                sv == session_views(states@),
                forall|k: int| 0 <= k < i ==> session_wf(#[trigger] sv[k]),
            decreases states.len() - i,
        {
            if !check_session(&states[i]) {
                assert(!session_wf(sv[i as int]));
                return None;
            }
            i = i + 1;
        }
        Some(
            CiYiGameManager {
                states,
                win_records,
                corpus,
                direct_guess_default: direct_guess,
                history_display,
                rank_display,
            },
        )
    }

    /// The sessions and win records, for storage.
    pub fn into_parts(self) -> (r: (Vec<CiYiGameState>, Vec<WinRecord>))
        ensures
            session_views(r.0@) == self.sessions(),
            record_views(r.1@) == self.records(),
    {
        (self.states, self.win_records)
    }

    /// The leaderboard over every channel's wins.
    pub fn get_global_leaderboard(&self) -> (r: String)
        requires
            self.records().len() <= u32::MAX,
        ensures
            r@ == leaderboard_text(self.records(), None, self.rank_limit()),
    {
        generate_leaderboard(&self.win_records, None, self.rank_display)
    }

    /// The leaderboard over the wins in `channel_id`.
    pub fn get_channel_leaderboard(&self, channel_id: &str) -> (r: String)
        requires
            self.records().len() <= u32::MAX,
        ensures
            r@ == leaderboard_text(self.records(), Some(channel_id@), self.rank_limit()),
    {
        generate_leaderboard(&self.win_records, Some(channel_id), self.rank_display)
    }
}
} // verus!

verus! {

/// Storing and restoring a registry keeps it as it is: every session of a
/// well-formed registry passes the check of `from_parts`, which then gives back
/// the sessions and win records that `into_parts` handed out.
pub proof fn lemma_parts_round_trip(m: &CiYiGameManager)
    requires
        m.wf(),
    ensures
        m.pool().len() > 0,
        forall|i: int| 0 <= i < m.sessions().len() ==> session_wf(#[trigger] m.sessions()[i]),
{
}

proof fn lemma_find_same_channels(ss: Seq<SessionView>, tt: Seq<SessionView>, c: Seq<char>, k: int)
    requires
        0 <= k,
        ss.len() == tt.len(),
        forall|j: int| 0 <= j < ss.len() ==> #[trigger] ss[j].channel_id == tt[j].channel_id,
    ensures
        find_from(ss, c, k) == find_from(tt, c, k),
    decreases ss.len() - k,
{
    if k < ss.len() {
        lemma_find_same_channels(ss, tt, c, k + 1);
    }
}

/// A guess of a word already guessed against the current target changes
/// nothing: no session, no win record; on an active session the reply says
/// the word was guessed before.
pub proof fn lemma_repeated_guess_rejected(
    ss: Seq<SessionView>,
    rs: Seq<RecordView>,
    c: Seq<char>,
    user: Seq<char>,
    name: Seq<char>,
    w: Seq<char>,
    now: i64,
    words: Seq<Seq<char>>,
    pool: Seq<Seq<char>>,
    limit: nat,
    direct: bool,
)
    requires
        find_session(ss, c) != -1,
        ss[find_session(ss, c)].current_guesses.contains(w),
    ensures
        ({
            let (ss2, rs2, msg) = commit_step(ss, rs, c, user, name, w, None, now, words, pool, limit, direct);
            &&& ss2 == ss
            &&& rs2 == rs
            &&& !ss[find_session(ss, c)].is_finished ==> msg == crate::session::repeated_message(w)
        }),
{
    let i = find_session(ss, c);
    lemma_find_from(ss, c, 0);
    assert(ss.update(i, ss[i]) =~= ss);
}

/// Guessing the target of an active session finishes it and appends exactly
/// one win record, for that channel and user.
pub proof fn lemma_target_guess_wins(
    ss: Seq<SessionView>,
    rs: Seq<RecordView>,
    c: Seq<char>,
    user: Seq<char>,
    name: Seq<char>,
    now: i64,
    words: Seq<Seq<char>>,
    pool: Seq<Seq<char>>,
    limit: nat,
    direct: bool,
)
    requires
        find_session(ss, c) != -1,
        session_wf(ss[find_session(ss, c)]),
        !ss[find_session(ss, c)].is_finished,
        words.contains(ss[find_session(ss, c)].target_word),
    ensures
        ({
            let i = find_session(ss, c);
            let (ss2, rs2, msg) = commit_step(
                ss,
                rs,
                c,
                user,
                name,
                ss[i].target_word,
                None,
                now,
                words,
                pool,
                limit,
                direct,
            );
            &&& ss2.len() == ss.len()
            &&& ss2[i].is_finished
            &&& rs2 == rs.push(
                RecordView { user_id: user, username: name, channel_id: c, timestamp: now },
            )
        }),
{
    lemma_find_from(ss, c, 0);
}

/// After a rollover, the channel's new target is a word that its history did
/// not hold before.
pub proof fn lemma_rollover_target_is_fresh(
    ss: Seq<SessionView>,
    rs: Seq<RecordView>,
    pool: Seq<Seq<char>>,
    c: Seq<char>,
    now: i64,
    w: Seq<char>,
    list: Seq<Seq<char>>,
    user: Seq<char>,
    name: Seq<char>,
    g: Seq<char>,
    words: Seq<Seq<char>>,
    limit: nat,
    direct: bool,
)
    requires
        find_session(ss, c) != -1,
        prepare_allows(ss, pool, c, now, Some((w, FetchReason::NewDay))),
    ensures
        ({
            let i = find_session(ss, c);
            let fetched = FetchedView { word: w, reason: FetchReason::NewDay, result: Ok(list) };
            let (ss2, rs2, msg) = commit_step(
                ss,
                rs,
                c,
                user,
                name,
                g,
                Some(fetched),
                now,
                words,
                pool,
                limit,
                direct,
            );
            &&& ss2[i].target_word == w
            &&& !ss[i].global_history.contains(ss2[i].target_word)
        }),
{
    let i = find_session(ss, c);
    lemma_find_from(ss, c, 0);
    let ss1 = apply_fetch(ss, c, w, FetchReason::NewDay, list, now, direct);
    assert forall|j: int| 0 <= j < ss.len() implies #[trigger] ss[j].channel_id == ss1[j].channel_id by {}
    lemma_find_same_channels(ss, ss1, c, 0);
}

} // verus!
