//! Text helpers: decimal rendering and lookups in word lists.

use vstd::prelude::*;

verus! {

/// The character of a decimal digit.
pub open spec fn digit_char(d: nat) -> char {
    if d == 0 {
        '0'
    } else if d == 1 {
        '1'
    } else if d == 2 {
        '2'
    } else if d == 3 {
        '3'
    } else if d == 4 {
        '4'
    } else if d == 5 {
        '5'
    } else if d == 6 {
        '6'
    } else if d == 7 {
        '7'
    } else if d == 8 {
        '8'
    } else {
        '9'
    }
}

/// The decimal notation of `n`, without leading zeros.
pub open spec fn decimal(n: nat) -> Seq<char>
    decreases n,
{
    if n < 10 {
        seq![digit_char(n)]
    } else {
        decimal(n / 10).push(digit_char(n % 10))
    }
}

/// The character sequences held by a list of strings.
pub open spec fn views(v: Seq<String>) -> Seq<Seq<char>> {
    v.map_values(|s: String| s@)
}

fn digit_str(d: u64) -> (r: &'static str)
    requires
        d < 10,
    ensures
        r@ == seq![digit_char(d as nat)],
{
    let r = if d == 0 {
        "0"
    } else if d == 1 {
        "1"
    } else if d == 2 {
        "2"
    } else if d == 3 {
        "3"
    } else if d == 4 {
        "4"
    } else if d == 5 {
        "5"
    } else if d == 6 {
        "6"
    } else if d == 7 {
        "7"
    } else if d == 8 {
        "8"
    } else {
        "9"
    };
    proof {
        reveal_strlit("0");
        reveal_strlit("1");
        reveal_strlit("2");
        reveal_strlit("3");
        reveal_strlit("4");
        reveal_strlit("5");
        reveal_strlit("6");
        reveal_strlit("7");
        reveal_strlit("8");
        reveal_strlit("9");
    }
    assert(r@ =~= seq![digit_char(d as nat)]);
    r
}

/// Appends the decimal notation of `n` to `s`.
pub fn push_decimal(s: &mut String, n: u64)
    ensures
        final(s)@ == old(s)@ + decimal(n as nat),
    decreases n,
{
    if n >= 10 {
        push_decimal(s, n / 10);
    }
    s.append(digit_str(n % 10));
    assert(final(s)@ =~= old(s)@ + decimal(n as nat)) by {
        if n >= 10 {
            assert(decimal(n as nat) == decimal((n / 10) as nat).push(digit_char((n % 10) as nat)));
        }
    }
}

/// Whether `list` holds a string equal to `w`.
pub fn contains_word(list: &[String], w: &String) -> (r: bool)
    ensures
        r == views(list@).contains(w@),
{
    let mut i: usize = 0;
    while i < list.len()
        invariant
            i <= list.len(),
            forall|j: int| 0 <= j < i ==> list@[j]@ != w@,
        decreases list.len() - i,
    {
        if list[i] == *w {
            assert(views(list@)[i as int] == w@);
            return true;
        }
        i = i + 1;
    }
    proof {
        if views(list@).contains(w@) {
            let k = choose|k: int| 0 <= k < views(list@).len() && views(list@)[k] == w@;
            assert(list@[k]@ == w@);
        }
    }
    false
}

/// Whether `i` is the first position of `w` in `list`.
pub open spec fn is_first_index(list: Seq<Seq<char>>, w: Seq<char>, i: int) -> bool {
    &&& 0 <= i < list.len()
    &&& list[i] == w
    &&& forall|j: int| 0 <= j < i ==> list[j] != w
}

/// The first position of `w` in `list`, where `list` holds it.
pub open spec fn first_index(list: Seq<Seq<char>>, w: Seq<char>) -> int {
    choose|i: int| is_first_index(list, w, i)
}

/// The first position of a string equal to `w` in `list`.
pub fn position_of(list: &Vec<String>, w: &String) -> (r: Option<usize>)
    ensures
        r is None <==> !views(list@).contains(w@),
        r matches Some(i) ==> i == first_index(views(list@), w@) && is_first_index(
            views(list@),
            w@,
            i as int,
        ),
{
    let mut i: usize = 0;
    while i < list.len()
        invariant
            i <= list.len(),
            forall|j: int| 0 <= j < i ==> list@[j]@ != w@,
        decreases list.len() - i,
    {
        if list[i] == *w {
            proof {
                let vs = views(list@);
                assert(is_first_index(vs, w@, i as int));
                let k = first_index(vs, w@);
                assert(is_first_index(vs, w@, k));
                if k < i {
                    assert(vs[k] == w@);
                } else if k > i {
                    assert(vs[i as int] == w@);
                }
                assert(vs.contains(w@));
            }
            return Some(i);
        }
        i = i + 1;
    }
    proof {
        if views(list@).contains(w@) {
            let k = choose|k: int| 0 <= k < views(list@).len() && views(list@)[k] == w@;
            assert(list@[k]@ == w@);
        }
    }
    None
}

/// The Unicode White_Space property, which `char::is_whitespace` tests.
pub open spec fn is_white_space(c: char) -> bool {
    let u = c as u32;
    (0x9 <= u <= 0xD) || u == 0x20 || u == 0x85 || u == 0xA0 || u == 0x1680 || (0x2000 <= u
        <= 0x200A) || u == 0x2028 || u == 0x2029 || u == 0x202F || u == 0x205F || u == 0x3000
}

/// Whether `c` is white space.
pub fn white_space(c: char) -> (r: bool)
    ensures
        r == is_white_space(c),
{
    let u = c as u32;
    (0x9 <= u && u <= 0xD) || u == 0x20 || u == 0x85 || u == 0xA0 || u == 0x1680 || (0x2000 <= u
        && u <= 0x200A) || u == 0x2028 || u == 0x2029 || u == 0x202F || u == 0x205F || u == 0x3000
}

/// The separator of runs: a line break where `by_line`, else white space.
pub open spec fn is_separator(by_line: bool, c: char) -> bool {
    if by_line {
        c == '\n'
    } else {
        is_white_space(c)
    }
}

/// Scanning the first `n` characters of `s`: the spans of the runs completed
/// so far, and the start of the run under way (-1 where none is).
pub open spec fn scan_runs(s: Seq<char>, n: nat, by_line: bool) -> (Seq<(int, int)>, int)
    decreases n,
{
    if n == 0 {
        (Seq::empty(), -1)
    } else {
        let (done, start) = scan_runs(s, (n - 1) as nat, by_line);
        if is_separator(by_line, s[n - 1]) {
            if start == -1 {
                (done, -1)
            } else {
                (done.push((start, n - 1)), -1)
            }
        } else if start == -1 {
            (done, n - 1)
        } else {
            (done, start)
        }
    }
}

/// The spans of the maximal runs of non-separator characters of `s`.
pub open spec fn run_spans(s: Seq<char>, by_line: bool) -> Seq<(int, int)> {
    let (done, start) = scan_runs(s, s.len(), by_line);
    if start == -1 {
        done
    } else {
        done.push((start, s.len() as int))
    }
}

/// The words of `s`: its maximal runs of non-white-space characters, in order.
pub open spec fn split_words(s: Seq<char>) -> Seq<Seq<char>> {
    run_spans(s, false).map_values(|p: (int, int)| s.subrange(p.0, p.1))
}

/// The non-empty lines of `s`, in order.
pub open spec fn split_lines(s: Seq<char>) -> Seq<Seq<char>> {
    run_spans(s, true).map_values(|p: (int, int)| s.subrange(p.0, p.1))
}

/// Spans found while scanning lie within the scanned characters.
pub proof fn lemma_scan_bounds(s: Seq<char>, n: nat, by_line: bool)
    requires
        n <= s.len(),
    ensures
        ({
            let (done, start) = scan_runs(s, n, by_line);
            &&& -1 <= start < n
            &&& forall|k: int|
                0 <= k < done.len() ==> 0 <= (#[trigger] done[k]).0 <= done[k].1 <= n
                    && (start == -1 || done[k].1 <= start)
        }),
    decreases n,
{
    if n > 0 {
        lemma_scan_bounds(s, (n - 1) as nat, by_line);
    }
}

/// Whether `c` separates runs.
fn separator(by_line: bool, c: char) -> (r: bool)
    ensures
        r == is_separator(by_line, c),
{
    if by_line {
        c == '\n'
    } else {
        white_space(c)
    }
}

/// The spans of the maximal runs of non-separator characters of `text`.
pub fn run_spans_of(text: &str, by_line: bool) -> (r: Vec<(usize, usize)>)
    ensures
        r@.len() == run_spans(text@, by_line).len(),
        forall|k: int|
            0 <= k < r@.len() ==> (#[trigger] r@[k]).0 == run_spans(text@, by_line)[k].0
                && r@[k].1 == run_spans(text@, by_line)[k].1,
{
    let n = text.unicode_len();
    let mut spans: Vec<(usize, usize)> = Vec::new();
    let mut start: usize = 0;
    let mut in_word = false;
    let mut i: usize = 0;
    while i < n
        invariant
            n == text@.len(),
            i <= n,
            ({
                let (done, st) = scan_runs(text@, i as nat, by_line);
                &&& spans@.len() == done.len()
                &&& forall|k: int|
                    0 <= k < done.len() ==> (#[trigger] spans@[k]).0 == done[k].0 && spans@[k].1
                        == done[k].1
                &&& in_word <==> st != -1
                &&& in_word ==> st == start
            }),
        decreases n - i,
    {
        proof {
            lemma_scan_bounds(text@, i as nat, by_line);
        }
        let c = text.get_char(i);
        if separator(by_line, c) {
            if in_word {
                spans.push((start, i));
                in_word = false;
            }
        } else if !in_word {
            start = i;
            in_word = true;
        }
        i = i + 1;
    }
    proof {
        lemma_scan_bounds(text@, n as nat, by_line);
    }
    if in_word {
        spans.push((start, n));
    }
    spans
}

/// Position of the first character at or after `i` that is not white space,
/// or the length of `s`.
pub open spec fn skip_space(s: Seq<char>, i: int) -> int
    decreases s.len() - i,
{
    if i < 0 || i >= s.len() || !is_white_space(s[i]) {
        i
    } else {
        skip_space(s, i + 1)
    }
}

/// End of `s[..j]` without its trailing white space.
pub open spec fn back_space(s: Seq<char>, j: int) -> int
    decreases j,
{
    if j <= 0 || j > s.len() || !is_white_space(s[j - 1]) {
        j
    } else {
        back_space(s, j - 1)
    }
}

/// `s` without leading and trailing white space.
pub open spec fn trim(s: Seq<char>) -> Seq<char> {
    let a = skip_space(s, 0);
    let b = back_space(s, s.len() as int);
    if a >= b {
        Seq::empty()
    } else {
        s.subrange(a, b)
    }
}

proof fn lemma_skip_space(s: Seq<char>, i: int)
    requires
        0 <= i <= s.len(),
    ensures
        i <= skip_space(s, i) <= s.len(),
    decreases s.len() - i,
{
    if i < s.len() && is_white_space(s[i]) {
        lemma_skip_space(s, i + 1);
    }
}

proof fn lemma_back_space(s: Seq<char>, j: int)
    requires
        0 <= j <= s.len(),
    ensures
        0 <= back_space(s, j) <= j,
    decreases j,
{
    if j > 0 && is_white_space(s[j - 1]) {
        lemma_back_space(s, j - 1);
    }
}

/// The ranked list in a plain-text body: the non-empty lines of the body
/// without its leading and trailing white space, in order.
pub fn parse_rank_list(body: &str) -> (r: Vec<String>)
    ensures
        views(r@) == split_lines(trim(body@)),
{
    let n = body.unicode_len();
    let mut a: usize = 0;
    proof {
        lemma_skip_space(body@, 0);
    }
    while a < n && white_space(body.get_char(a))
        invariant
            n == body@.len(),
            a <= n,
            skip_space(body@, 0) == skip_space(body@, a as int),
        decreases n - a,
    {
        a = a + 1;
    }
    let mut b: usize = n;
    while b > 0 && white_space(body.get_char(b - 1))
        invariant
            n == body@.len(),
            b <= n,
            back_space(body@, n as int) == back_space(body@, b as int),
        decreases b,
    {
        b = b - 1;
    }
    let t: &str = if a >= b {
        ""
    } else {
        body.substring_char(a, b)
    };
    proof {
        reveal_strlit("");
    }
    assert(t@ =~= trim(body@));
    let spans = run_spans_of(t, true);
    let ghost sp = run_spans(t@, true);
    proof {
        lemma_scan_bounds(t@, t@.len(), true);
    }
    assert(forall|k: int| 0 <= k < sp.len() ==> 0 <= (#[trigger] sp[k]).0 <= sp[k].1 <= t@.len());
    let mut out: Vec<String> = Vec::new();
    let mut k: usize = 0;
    while k < spans.len()
        invariant
            k <= spans.len(),
            spans@.len() == sp.len(),
            sp == run_spans(t@, true),
            forall|j: int|
                0 <= j < sp.len() ==> (#[trigger] spans@[j]).0 == sp[j].0 && spans@[j].1
                    == sp[j].1,
            forall|j: int| 0 <= j < sp.len() ==> 0 <= (#[trigger] sp[j]).0 <= sp[j].1 <= t@.len(),
            views(out@) == split_lines(t@).subrange(0, k as int),
        decreases spans.len() - k,
    {
        let (x, y) = spans[k];
        let line = String::from_str(t.substring_char(x, y));
        let ghost before = views(out@);
        out.push(line);
        assert(views(out@) =~= before.push(line@));
        assert(views(out@) =~= split_lines(t@).subrange(0, k + 1));
        k = k + 1;
    }
    assert(views(out@) =~= split_lines(t@));
    out
}

} // verus!
