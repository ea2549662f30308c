//! Leaderboards: wins counted per user, highest first.

use vstd::prelude::*;

use crate::protocol::{record_views, RecordView, WinRecord};
use crate::text::{decimal, push_decimal};

verus! {

/// A user's number of wins, under the name last seen for them.
pub struct UserScore {
    pub user_id: String,
    pub username: String,
    pub score: u32,
}

/// The mathematical value of a `UserScore`.
pub struct ScoreView {
    pub user_id: Seq<char>,
    pub username: Seq<char>,
    pub score: nat,
}

impl View for UserScore {
    type V = ScoreView;

    open spec fn view(&self) -> ScoreView {
        ScoreView { user_id: self.user_id@, username: self.username@, score: self.score as nat }
    }
}

/// The values of a list of scores.
pub open spec fn score_views(s: Seq<UserScore>) -> Seq<ScoreView> {
    s.map_values(|x: UserScore| x@)
}

/// Position of the first score of user `u` at or after `i`, or -1.
pub open spec fn user_from(s: Seq<ScoreView>, u: Seq<char>, i: int) -> int
    decreases s.len() - i,
{
    if i < 0 || i >= s.len() {
        -1
    } else if s[i].user_id == u {
        i
    } else {
        user_from(s, u, i + 1)
    }
}

/// The record counts towards the board of `channel` (every record counts
/// towards the global board, `None`).
pub open spec fn counts_for(r: RecordView, channel: Option<Seq<char>>) -> bool {
    match channel {
        Some(c) => r.channel_id == c,
        None => true,
    }
}

/// Wins per user over the records that count for `channel`, users in order of
/// their first win, each under the name of their latest record.
pub open spec fn aggregate(rs: Seq<RecordView>, channel: Option<Seq<char>>) -> Seq<ScoreView>
    decreases rs.len(),
{
    if rs.len() == 0 {
        Seq::empty()
    } else {
        let prev = aggregate(rs.drop_last(), channel);
        let r = rs.last();
        if !counts_for(r, channel) {
            prev
        } else {
            let j = user_from(prev, r.user_id, 0);
            if j == -1 {
                prev.push(ScoreView { user_id: r.user_id, username: r.username, score: 1 })
            } else {
                prev.update(j, ScoreView { username: r.username, score: prev[j].score + 1, ..prev[j] })
            }
        }
    }
}

/// Scores ordered from most wins to fewest.
pub open spec fn scores_sorted(s: Seq<ScoreView>) -> bool {
    forall|i: int, j: int| 0 <= i < j < s.len() ==> s[i].score >= s[j].score
}

/// `p` splits `s` into the scores of at least `score` wins and those below.
pub open spec fn is_score_boundary(s: Seq<ScoreView>, score: nat, p: int) -> bool {
    &&& 0 <= p <= s.len()
    &&& forall|i: int| 0 <= i < p ==> s[i].score >= score
    &&& forall|i: int| p <= i < s.len() ==> s[i].score < score
}

/// `x` placed after every score with as many wins or more.
pub open spec fn insert_by_score(s: Seq<ScoreView>, x: ScoreView) -> Seq<ScoreView> {
    s.insert(choose|p: int| is_score_boundary(s, x.score, p), x)
}

/// The scores ordered by wins, highest first, equal ones in their order in `s`.
pub open spec fn sort_by_score(s: Seq<ScoreView>) -> Seq<ScoreView>
    decreases s.len(),
{
    if s.len() == 0 {
        s
    } else {
        insert_by_score(sort_by_score(s.drop_last()), s.last())
    }
}

/// Line `i` of a board: its place, the name, and the wins.
pub open spec fn board_line(s: Seq<ScoreView>, i: int) -> Seq<char> {
    decimal((i + 1) as nat) + ". "@ + s[i].username + " "@ + decimal(s[i].score)
}

/// The first `k` lines of a board, joined by newlines.
pub open spec fn board_lines(s: Seq<ScoreView>, k: nat) -> Seq<char>
    decreases k,
{
    if k == 0 {
        Seq::empty()
    } else if k == 1 {
        board_line(s, 0)
    } else {
        board_lines(s, (k - 1) as nat) + "\n"@ + board_line(s, k - 1)
    }
}

/// The reply when nobody has won yet.
pub open spec fn empty_board_message() -> Seq<char> {
    "当前还没有人猜对过哦！"@
}

/// The board of `channel` over `rs`, showing up to `limit` users.
pub open spec fn leaderboard_text(rs: Seq<RecordView>, channel: Option<Seq<char>>, limit: nat) -> Seq<
    char,
> {
    let agg = aggregate(rs, channel);
    if agg.len() == 0 {
        empty_board_message()
    } else {
        let s = sort_by_score(agg);
        board_lines(s, if limit < s.len() { limit } else { s.len() })
    }
}

proof fn lemma_user_from(s: Seq<ScoreView>, u: Seq<char>, i: int)
    requires
        0 <= i,
    ensures
        user_from(s, u, i) == -1 || (i <= user_from(s, u, i) < s.len() && s[user_from(
            s,
            u,
            i,
        )].user_id == u),
    decreases s.len() - i,
{
    if i < s.len() && s[i].user_id != u {
        lemma_user_from(s, u, i + 1);
    }
}

proof fn lemma_aggregate_bounded(rs: Seq<RecordView>, channel: Option<Seq<char>>)
    ensures
        aggregate(rs, channel).len() <= rs.len(),
        forall|k: int|
            0 <= k < aggregate(rs, channel).len() ==> #[trigger] aggregate(rs, channel)[k].score
                <= rs.len(),
    decreases rs.len(),
{
    if rs.len() > 0 {
        lemma_aggregate_bounded(rs.drop_last(), channel);
        let prev = aggregate(rs.drop_last(), channel);
        lemma_user_from(prev, rs.last().user_id, 0);
    }
}

proof fn lemma_score_boundary_exists(s: Seq<ScoreView>, score: nat) -> (p: int)
    requires
        scores_sorted(s),
    ensures
        is_score_boundary(s, score, p),
    decreases s.len(),
{
    if s.len() == 0 {
        0
    } else if s.last().score >= score {
        s.len() as int
    } else {
        let p = lemma_score_boundary_exists(s.drop_last(), score);
        assert forall|i: int| p <= i < s.len() implies s[i].score < score by {
            if i < s.len() - 1 {
                assert(s.drop_last()[i] == s[i]);
            }
        }
        assert forall|i: int| 0 <= i < p implies s[i].score >= score by {
            assert(s.drop_last()[i] == s[i]);
        }
        p
    }
}

/// Inserting by wins keeps an ordered board ordered.
pub proof fn lemma_insert_by_score_sorted(s: Seq<ScoreView>, x: ScoreView)
    requires
        scores_sorted(s),
    ensures
        scores_sorted(insert_by_score(s, x)),
        insert_by_score(s, x).len() == s.len() + 1,
{
    let p = lemma_score_boundary_exists(s, x.score);
    let q = choose|q: int| is_score_boundary(s, x.score, q);
    let r = s.insert(q, x);
    assert forall|i: int, j: int| 0 <= i < j < r.len() implies r[i].score >= r[j].score by {
        if i < q && j > q {
            assert(r[i] == s[i]);
            assert(r[j] == s[j - 1]);
        }
    }
}

/// Counts wins per user over the records that count for `channel`.
fn count_wins(records: &Vec<WinRecord>, channel: &Option<String>) -> (r: Vec<UserScore>)
    requires
        records.len() <= u32::MAX,
    ensures
        score_views(r@) == aggregate(
            record_views(records@),
            match channel {
                Some(c) => Some(c@),
                None => None,
            },
        ),
{
    let ghost ch = match channel {
        Some(c) => Some(c@),
        None => None,
    };
    let ghost rv = record_views(records@);
    let mut scores: Vec<UserScore> = Vec::new();
    let mut i: usize = 0;
    assert(rv.take(0) =~= Seq::<RecordView>::empty());
    assert(score_views(scores@) =~= Seq::<ScoreView>::empty());
    while i < records.len()
        invariant
            i <= records.len() <= u32::MAX,
            rv == record_views(records@),
            ch == match channel {
                Some(c) => Some(c@),
                None => None,
            },
            score_views(scores@) == aggregate(rv.take(i as int), ch),
        decreases records.len() - i,
    {
        let ghost prev = score_views(scores@);
        proof {
            assert(rv.take(i + 1).drop_last() =~= rv.take(i as int));
            assert(rv.take(i + 1).last() == records@[i as int]@);
            lemma_aggregate_bounded(rv.take(i as int), ch);
            lemma_user_from(prev, records@[i as int].user_id@, 0);
        }
        let rec = &records[i];
        let counts = match channel {
            Some(c) => {
                rec.channel_id == *c
            },
            None => true,
        };
        if counts {
            let mut j: usize = 0;
            while j < scores.len() && !(scores[j].user_id == rec.user_id)
                invariant
                    j <= scores.len(),
                    prev == score_views(scores@),
                    user_from(prev, rec.user_id@, 0) == user_from(prev, rec.user_id@, j as int),
                decreases scores.len() - j,
            {
                j = j + 1;
            }
            if j == scores.len() {
                scores.push(
                    UserScore { user_id: rec.user_id.clone(), username: rec.username.clone(), score: 1 },
                );
                assert(score_views(scores@) =~= prev.push(
                    ScoreView { user_id: rec.user_id@, username: rec.username@, score: 1 },
                ));
            } else {
                assert(prev[j as int].score <= i);
                let old_score = scores.remove(j);
                let n = UserScore {
                    user_id: old_score.user_id,
                    username: rec.username.clone(),
                    score: old_score.score + 1,
                };
                let ghost nv = n@;
                scores.insert(j, n);
                assert(score_views(scores@) =~= prev.update(j as int, nv));
            }
        }
        proof {
            let t = rv.take(i + 1);
            assert(t.last() == rv[i as int]);
            assert(rv[i as int] == records@[i as int]@);
        }
        i = i + 1;
    }
    assert(rv.take(i as int) =~= rv);
    scores
}

/// Orders scores by wins, highest first, keeping the order of equal ones.
fn sort_scores(scores: &Vec<UserScore>) -> (r: Vec<UserScore>)
    ensures
        score_views(r@) == sort_by_score(score_views(scores@)),
{
    let ghost sv = score_views(scores@);
    let mut out: Vec<UserScore> = Vec::new();
    let mut i: usize = 0;
    assert(sv.take(0) =~= Seq::<ScoreView>::empty());
    assert(score_views(out@) =~= Seq::<ScoreView>::empty());
    while i < scores.len()
        invariant
            i <= scores.len(),
            sv == score_views(scores@),
            score_views(out@) == sort_by_score(sv.take(i as int)),
            scores_sorted(score_views(out@)),
        decreases scores.len() - i,
    {
        let ghost ov = score_views(out@);
        let x = UserScore {
            user_id: scores[i].user_id.clone(),
            username: scores[i].username.clone(),
            score: scores[i].score,
        };
        let mut p: usize = 0;
        while p < out.len() && out[p].score >= x.score
            invariant
                p <= out.len(),
                ov == score_views(out@),
                forall|k: int| 0 <= k < p ==> ov[k].score >= x.score,
            decreases out.len() - p,
        {
            p = p + 1;
        }
        proof {
            assert(is_score_boundary(ov, x.score as nat, p as int)) by {
                assert forall|k: int| p <= k < ov.len() implies ov[k].score < x.score by {
                    assert(ov[p as int].score < x.score);
                }
            }
            let q = choose|q: int| is_score_boundary(ov, x.score as nat, q);
            if q < p {
                assert(ov[q].score < x.score);
            } else if q > p {
                assert(ov[p as int].score >= x.score);
            }
            lemma_insert_by_score_sorted(ov, x@);
            assert(sv.take(i + 1).drop_last() =~= sv.take(i as int));
            assert(sv.take(i + 1).last() == x@);
        }
        let ghost xv = x@;
        out.insert(p, x);
        assert(score_views(out@) =~= ov.insert(p as int, xv));
        i = i + 1;
    }
    assert(sv.take(i as int) =~= sv);
    out
}

/// The leaderboard over the records that count for `channel_id` (all of
/// them where it is `None`): up to `limit` lines `"{place}. {name} {wins}"`
/// joined by newlines, most wins first; a fixed message where nobody has won.
pub fn generate_leaderboard(records: &Vec<WinRecord>, channel_id: Option<&str>, limit: usize) -> (r:
    String)
    requires
        records.len() <= u32::MAX,
    ensures
        r@ == leaderboard_text(
            record_views(records@),
            match channel_id {
                Some(c) => Some(c@),
                None => None,
            },
            limit as nat,
        ),
{
    let channel: Option<String> = match channel_id {
        Some(c) => Some(String::from_str(c)),
        None => None,
    };
    let scores = count_wins(records, &channel);
    if scores.len() == 0 {
        return String::from_str("当前还没有人猜对过哦！");
    }
    let sorted = sort_scores(&scores);
    let ghost s = score_views(sorted@);
    proof {
        lemma_sort_len(score_views(scores@));
    }
    let k: usize = if limit < sorted.len() {
        limit
    } else {
        sorted.len()
    };
    let mut out = String::new();
    let mut i: usize = 0;
    while i < k
        invariant
            i <= k <= sorted.len(),
            s == score_views(sorted@),
            out@ == board_lines(s, i as nat),
        decreases k - i,
    {
        if i > 0 {
            out.append("\n");
        }
        push_decimal(&mut out, (i + 1) as u64);
        out.append(". ");
        out.append(sorted[i].username.as_str());
        out.append(" ");
        push_decimal(&mut out, sorted[i].score as u64);
        i = i + 1;
        assert(out@ =~= board_lines(s, i as nat));
    }
    out
}

proof fn lemma_sort_len(s: Seq<ScoreView>)
    ensures
        sort_by_score(s).len() == s.len(),
        scores_sorted(sort_by_score(s)),
    decreases s.len(),
{
    if s.len() > 0 {
        lemma_sort_len(s.drop_last());
        lemma_insert_by_score_sorted(sort_by_score(s.drop_last()), s.last());
    }
}

/// With no records, the board is the fixed message that nobody has won.
pub proof fn lemma_empty_leaderboard(channel: Option<Seq<char>>, limit: nat)
    ensures
        leaderboard_text(Seq::empty(), channel, limit) == empty_board_message(),
{
}

proof fn lemma_aggregate_one_user(rs: Seq<RecordView>)
    requires
        rs.len() > 0,
        forall|k: int| 0 <= k < rs.len() ==> #[trigger] rs[k].user_id == rs[0].user_id,
    ensures
        aggregate(rs, None) == seq![
            ScoreView { user_id: rs[0].user_id, username: rs.last().username, score: rs.len() },
        ],
    decreases rs.len(),
{
    if rs.len() > 1 {
        let p = rs.drop_last();
        assert(p[0] == rs[0]);
        assert forall|k: int| 0 <= k < p.len() implies #[trigger] p[k].user_id == p[0].user_id by {
            assert(p[k] == rs[k]);
        }
        lemma_aggregate_one_user(p);
        let prev = aggregate(p, None);
        assert(user_from(prev, rs.last().user_id, 0) == 0);
        assert(aggregate(rs, None) =~= seq![
            ScoreView { user_id: rs[0].user_id, username: rs.last().username, score: rs.len() },
        ]);
    } else {
        assert(rs.drop_last() =~= Seq::<RecordView>::empty());
        assert(aggregate(rs.drop_last(), None) =~= Seq::<ScoreView>::empty());
        assert(user_from(Seq::<ScoreView>::empty(), rs.last().user_id, 0) == -1);
        assert(rs.last() == rs[0]);
        assert(aggregate(rs, None) =~= seq![
            ScoreView { user_id: rs[0].user_id, username: rs.last().username, score: rs.len() },
        ]);
    }
}

/// With `n` records, all of one user, the global board is the single line
/// of that user, under the latest name, with score `n`.
pub proof fn lemma_single_user_leaderboard(rs: Seq<RecordView>, limit: nat)
    requires
        rs.len() > 0,
        limit > 0,
        forall|k: int| 0 <= k < rs.len() ==> #[trigger] rs[k].user_id == rs[0].user_id,
    ensures
        leaderboard_text(rs, None, limit) == decimal(1) + ". "@ + rs.last().username + " "@
            + decimal(rs.len()),
{
    lemma_aggregate_one_user(rs);
    let x = ScoreView { user_id: rs[0].user_id, username: rs.last().username, score: rs.len() };
    let one = seq![x];
    assert(one.drop_last() =~= Seq::<ScoreView>::empty());
    let e = Seq::<ScoreView>::empty();
    assert(is_score_boundary(e, x.score, 0));
    let q = choose|q: int| is_score_boundary(e, x.score, q);
    assert(q == 0);
    assert(sort_by_score(one.drop_last()) == e);
    assert(insert_by_score(e, x) =~= one);
    assert(sort_by_score(one) =~= one);
}

} // verus!
