//! One channel's game session and the guess transition on it.

use vstd::prelude::*;

use crate::text::{contains_word, decimal, first_index, position_of, push_decimal, views};

verus! {

/// The two word sets a game draws on: every word that may be guessed, and the
/// pool that daily targets are drawn from.
pub struct WordCorpus {
    pub all_words: Vec<String>,
    pub question_words: Vec<String>,
}

/// Feedback for one guessed word: rendered text and its similarity rank.
pub struct Hint {
    pub text: String,
    pub rank: usize,
}

/// The mathematical value of a `Hint`.
pub struct HintView {
    pub text: Seq<char>,
    pub rank: int,
}

impl View for Hint {
    type V = HintView;

    open spec fn view(&self) -> HintView {
        HintView { text: self.text@, rank: self.rank as int }
    }
}

/// The values of a list of hints.
pub open spec fn hint_views(hs: Seq<Hint>) -> Seq<HintView> {
    hs.map_values(|h: Hint| h@)
}

/// Hints ordered by rank, closest first.
pub open spec fn hints_sorted(hs: Seq<HintView>) -> bool {
    forall|i: int, j: int| 0 <= i < j < hs.len() ==> hs[i].rank <= hs[j].rank
}

/// `p` splits `hs` into the hints of rank at most `rank` and those above it.
pub open spec fn is_rank_boundary(hs: Seq<HintView>, rank: int, p: int) -> bool {
    &&& 0 <= p <= hs.len()
    &&& forall|i: int| 0 <= i < p ==> hs[i].rank <= rank
    &&& forall|i: int| p <= i < hs.len() ==> hs[i].rank > rank
}

/// `h` placed after every hint of rank at most its own and before the others.
pub open spec fn insert_by_rank(hs: Seq<HintView>, h: HintView) -> Seq<HintView> {
    hs.insert(choose|p: int| is_rank_boundary(hs, h.rank, p), h)
}

/// Inserting by rank keeps a sorted hint list sorted.
pub proof fn lemma_insert_by_rank_sorted(hs: Seq<HintView>, h: HintView)
    requires
        hints_sorted(hs),
    ensures
        hints_sorted(insert_by_rank(hs, h)),
        insert_by_rank(hs, h).len() == hs.len() + 1,
{
    let p = lemma_rank_boundary_exists(hs, h.rank);
    let q = choose|q: int| is_rank_boundary(hs, h.rank, q);
    let r = hs.insert(q, h);
    assert forall|i: int, j: int| 0 <= i < j < r.len() implies r[i].rank <= r[j].rank by {
        if i < q && j > q {
            assert(r[i] == hs[i]);
            assert(r[j] == hs[j - 1]);
        }
    }
}

/// A sorted hint list has a boundary for every rank.
pub proof fn lemma_rank_boundary_exists(hs: Seq<HintView>, rank: int) -> (p: int)
    requires
        hints_sorted(hs),
    ensures
        is_rank_boundary(hs, rank, p),
    decreases hs.len(),
{
    if hs.len() == 0 {
        0
    } else if hs.last().rank <= rank {
        hs.len() as int
    } else {
        let p = lemma_rank_boundary_exists(hs.drop_last(), rank);
        assert forall|i: int| p <= i < hs.len() implies hs[i].rank > rank by {
            if i < hs.len() - 1 {
                assert(hs.drop_last()[i] == hs[i]);
            }
        }
        assert forall|i: int| 0 <= i < p implies hs[i].rank <= rank by {
            assert(hs.drop_last()[i] == hs[i]);
        }
        p
    }
}

/// The mark for the word ranked just above position `i`: its second character.
pub open spec fn prev_mark(list: Seq<Seq<char>>, i: int) -> Seq<char> {
    if i > 0 && list[i - 1].len() >= 2 {
        list[i - 1].subrange(1, 2)
    } else {
        "？"@
    }
}

/// The mark for the word ranked just below position `i`: its first character.
pub open spec fn next_mark(list: Seq<Seq<char>>, i: int) -> Seq<char> {
    if i + 1 < list.len() && list[i + 1].len() >= 1 {
        list[i + 1].subrange(0, 1)
    } else {
        "？"@
    }
}

/// The hint text for word `w` found at position `i` of the ranked list.
pub open spec fn hint_text(list: Seq<Seq<char>>, w: Seq<char>, i: int) -> Seq<char> {
    "？"@ + prev_mark(list, i) + " ) "@ + w + " ( "@ + next_mark(list, i) + "？ #"@ + decimal(
        (i + 1) as nat,
    )
}

/// The hint recorded for a word of the ranked list.
pub open spec fn hint_for(list: Seq<Seq<char>>, w: Seq<char>) -> HintView {
    let i = first_index(list, w);
    HintView { text: hint_text(list, w, i), rank: i + 1 }
}

/// The first `k` hints, one numbered line each.
pub open spec fn hint_lines(hs: Seq<HintView>, k: nat) -> Seq<char>
    decreases k,
{
    if k == 0 {
        Seq::empty()
    } else {
        hint_lines(hs, (k - 1) as nat) + decimal(k) + ". "@ + hs[k - 1].text + "\n"@
    }
}

/// The reply to a guess that missed: up to `limit` hints, then an ellipsis.
pub open spec fn hints_message(hs: Seq<HintView>, limit: nat) -> Seq<char> {
    let k = if limit < hs.len() {
        limit
    } else {
        hs.len()
    };
    hint_lines(hs, k) + "..."@
}

/// The reply to the winning guess.
pub open spec fn win_message(target: Seq<char>, count: nat) -> Seq<char> {
    "恭喜你猜对了！\n答案："@ + target + "\n猜测："@ + decimal(count) + " 次"@
}

/// The reply on a session already won today.
pub open spec fn played_message() -> Seq<char> {
    "每天只能玩一次哦！"@
}

/// The reply to a word guessed before.
pub open spec fn repeated_message(w: Seq<char>) -> Seq<char> {
    w + " 已猜过"@
}

/// The reply to a word outside the dictionary.
pub open spec fn unknown_message(w: Seq<char>) -> Seq<char> {
    w + " 不在词库中"@
}

/// The mathematical value of a session.
pub struct SessionView {
    pub channel_id: Seq<char>,
    pub target_word: Seq<char>,
    pub last_start_time: i64,
    pub global_history: Seq<Seq<char>>,
    pub current_guesses: Seq<Seq<char>>,
    pub words_rank_list: Seq<Seq<char>>,
    pub hints: Seq<HintView>,
    pub is_finished: bool,
    pub direct_guess_enabled: bool,
}

/// What a guess of `w` does to session `s`: the next session, the reply, and
/// whether the guess won.
pub open spec fn guess_step(s: SessionView, w: Seq<char>, words: Seq<Seq<char>>, limit: nat) -> (
    SessionView,
    Seq<char>,
    bool,
) {
    if s.is_finished {
        (s, played_message(), false)
    } else if s.current_guesses.contains(w) {
        (s, repeated_message(w), false)
    } else if !words.contains(w) {
        (s, unknown_message(w), false)
    } else if w == s.target_word {
        let n = SessionView { current_guesses: s.current_guesses.push(w), is_finished: true, ..s };
        (n, win_message(s.target_word, n.current_guesses.len()), true)
    } else {
        let hints = if s.words_rank_list.contains(w) {
            insert_by_rank(s.hints, hint_for(s.words_rank_list, w))
        } else {
            s.hints
        };
        let n = SessionView { current_guesses: s.current_guesses.push(w), hints, ..s };
        (n, hints_message(hints, limit), false)
    }
}

/// Per-channel game state.
pub struct CiYiGameState {
    pub channel_id: String,
    pub target_word: String,
    /// Unix time, in seconds, at which the current target was chosen.
    pub last_start_time: i64,
    pub global_history: Vec<String>,
    pub current_guesses: Vec<String>,
    pub words_rank_list: Vec<String>,
    pub hints: Vec<Hint>,
    pub is_finished: bool,
    pub direct_guess_enabled: bool,
}

impl View for CiYiGameState {
    type V = SessionView;

    open spec fn view(&self) -> SessionView {
        SessionView {
            channel_id: self.channel_id@,
            target_word: self.target_word@,
            last_start_time: self.last_start_time,
            global_history: views(self.global_history@),
            current_guesses: views(self.current_guesses@),
            words_rank_list: views(self.words_rank_list@),
            hints: hint_views(self.hints@),
            is_finished: self.is_finished,
            direct_guess_enabled: self.direct_guess_enabled,
        }
    }
}

/// A session is well formed when its target has been recorded in its history,
/// its hints are ordered by rank, and, while it is active, its target is not
/// among the words guessed.
pub open spec fn session_wf(s: SessionView) -> bool {
    &&& s.global_history.contains(s.target_word)
    &&& hints_sorted(s.hints)
    &&& !s.is_finished ==> !s.current_guesses.contains(s.target_word)
}

/// Builds the hint for the word at position `i` of the ranked list.
fn make_hint(list: &Vec<String>, w: &String, i: usize) -> (h: Hint)
    requires
        i < list.len(),
    ensures
        h@ == (HintView { text: hint_text(views(list@), w@, i as int), rank: i + 1 }),
{
    let vs = Ghost(views(list@));
    let prev: &str = if i > 0 && list[i - 1].as_str().unicode_len() >= 2 {
        list[i - 1].as_str().substring_char(1, 2)
    } else {
        "？"
    };
    let next: &str = if i + 1 < list.len() && list[i + 1].as_str().unicode_len() >= 1 {
        list[i + 1].as_str().substring_char(0, 1)
    } else {
        "？"
    };
    assert(prev@ == prev_mark(vs@, i as int));
    assert(next@ == next_mark(vs@, i as int));
    let mut text = String::from_str("？");
    text.append(prev);
    text.append(" ) ");
    text.append(w.as_str());
    text.append(" ( ");
    text.append(next);
    text.append("？ #");
    push_decimal(&mut text, (i + 1) as u64);
    Hint { text, rank: i + 1 }
}

/// Inserts `h` after every hint of rank at most its own.
fn insert_hint(hints: &mut Vec<Hint>, h: Hint)
    requires
        hints_sorted(hint_views(old(hints)@)),
    ensures
        hint_views(final(hints)@) == insert_by_rank(hint_views(old(hints)@), h@),
        hints_sorted(hint_views(final(hints)@)),
{
    let ghost hs = hint_views(hints@);
    let mut p: usize = 0;
    while p < hints.len() && hints[p].rank <= h.rank
        invariant
            p <= hints.len(),
            hs == hint_views(hints@),
            forall|i: int| 0 <= i < p ==> hs[i].rank <= h.rank,
        decreases hints.len() - p,
    {
        p = p + 1;
    }
    proof {
        assert(is_rank_boundary(hs, h.rank as int, p as int)) by {
            assert forall|i: int| p <= i < hs.len() implies hs[i].rank > h.rank by {
                assert(hs[p as int].rank > h.rank);
            }
        }
        let q = choose|q: int| is_rank_boundary(hs, h.rank as int, q);
        if q < p {
            assert(hs[q].rank > h.rank);
        } else if q > p {
            assert(hs[p as int].rank <= h.rank);
        }
        lemma_insert_by_rank_sorted(hs, h@);
    }
    let ghost hv = h@;
    hints.insert(p, h);
    assert(hint_views(hints@) =~= hs.insert(p as int, hv));
}

/// Renders up to `limit` hints as numbered lines followed by an ellipsis.
pub fn render_hints(hints: &Vec<Hint>, limit: usize) -> (r: String)
    ensures
        r@ == hints_message(hint_views(hints@), limit as nat),
{
    let ghost hs = hint_views(hints@);
    let k: usize = if limit < hints.len() {
        limit
    } else {
        hints.len()
    };
    let mut s = String::new();
    let mut i: usize = 0;
    while i < k
        invariant
            i <= k <= hints.len(),
            hs == hint_views(hints@),
            s@ == hint_lines(hs, i as nat),
        decreases k - i,
    {
        push_decimal(&mut s, (i + 1) as u64);
        s.append(". ");
        s.append(hints[i].text.as_str());
        s.append("\n");
        i = i + 1;
        assert(s@ =~= hint_lines(hs, i as nat));
    }
    s.append("...");
    s
}

impl CiYiGameState {
    /// Applies one guess to an unfinished session: rejects a repeated word or
    /// one outside the dictionary, finishes the session on the target word,
    /// and otherwise records the word's hint, if the ranked list holds it.
    /// Returns the reply and whether the guess won.
    pub fn guess(&mut self, guess_word: String, corpus: &WordCorpus, history_display: usize) -> (r: (
        String,
        bool,
    ))
        requires
            session_wf(old(self)@),
        ensures
            (final(self)@, r.0@, r.1) == guess_step(
                old(self)@,
                guess_word@,
                views(corpus.all_words@),
                history_display as nat,
            ),
            session_wf(final(self)@),
    {
        let ghost s0 = self@;
        if self.is_finished {
            proof {
                reveal_strlit("每天只能玩一次哦！");
            }
            return (String::from_str("每天只能玩一次哦！"), false);
        }
        if contains_word(self.current_guesses.as_slice(), &guess_word) {
            let mut m = guess_word.clone();
            m.append(" 已猜过");
            return (m, false);
        }
        if !contains_word(corpus.all_words.as_slice(), &guess_word) {
            let mut m = guess_word.clone();
            m.append(" 不在词库中");
            return (m, false);
        }
        let ghost w = guess_word@;
        self.current_guesses.push(guess_word.clone());
        assert(self@.current_guesses =~= s0.current_guesses.push(w));
        if guess_word == self.target_word {
            self.is_finished = true;
            let mut m = String::from_str("恭喜你猜对了！\n答案：");
            m.append(self.target_word.as_str());
            m.append("\n猜测：");
            push_decimal(&mut m, self.current_guesses.len() as u64);
            m.append(" 次");
            (m, true)
        } else {
            proof {
                if self@.current_guesses.contains(s0.target_word) {
                    let k = choose|k: int|
                        0 <= k < self@.current_guesses.len() && self@.current_guesses[k]
                            == s0.target_word;
                    assert(k < s0.current_guesses.len());
                    assert(s0.current_guesses[k] == self@.current_guesses[k]);
                }
            }
            match position_of(&self.words_rank_list, &guess_word) {
                Some(i) => {
                    let h = make_hint(&self.words_rank_list, &guess_word, i);
                    insert_hint(&mut self.hints, h);
                },
                None => {},
            }
            let m = render_hints(&self.hints, history_display);
            (m, false)
        }
    }
}

} // verus!
