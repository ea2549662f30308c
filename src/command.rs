//! Command table, command-line parsing and the help texts.

use vstd::prelude::*;

use crate::config::Config;
use crate::text::{contains_word, run_spans, run_spans_of, split_words, lemma_scan_bounds, views};

verus! {

/// A function of the plugin and the command words that trigger it.
pub struct CommandEntry {
    pub function: String,
    pub commands: Vec<String>,
}

/// The command table.
pub struct CommandConfig {
    pub command: Vec<CommandEntry>,
}

/// Position of the first entry at or after `i` that `cmd` triggers, or -1.
pub open spec fn entry_from(es: Seq<CommandEntry>, cmd: Seq<char>, i: int) -> int
    decreases es.len() - i,
{
    if i < 0 || i >= es.len() {
        -1
    } else if views(es[i].commands@).contains(cmd) {
        i
    } else {
        entry_from(es, cmd, i + 1)
    }
}

impl CommandConfig {
    /// The function of the first entry that lists `cmd_str` among its
    /// command words.
    pub fn get_function_by_command(&self, cmd_str: &str) -> (r: Option<&String>)
        ensures
            ({
                let k = entry_from(self.command@, cmd_str@, 0);
                if k == -1 {
                    r is None
                } else {
                    r matches Some(f) && f@ == self.command@[k].function@
                }
            }),
    {
        let c = String::from_str(cmd_str);
        let mut i: usize = 0;
        while i < self.command.len()
            invariant
                i <= self.command.len(),
                c@ == cmd_str@,
                entry_from(self.command@, cmd_str@, 0) == entry_from(
                    self.command@,
                    cmd_str@,
                    i as int,
                ),
            decreases self.command.len() - i,
        {
            let e = &self.command[i];
            if contains_word(e.commands.as_slice(), &c) {
                return Some(&e.function);
            }
            i = i + 1;
        }
        None
    }
}

/// The help line of an entry: its first command word, after the prefix and a
/// space where there is a prefix; the function marked disabled where the
/// entry has no command word.
pub open spec fn command_line(prefix: Seq<char>, e: CommandEntry) -> Seq<char> {
    let first = if e.commands@.len() > 0 {
        e.commands@[0]@
    } else {
        e.function@ + "(禁用)"@
    };
    if prefix.len() == 0 {
        first
    } else {
        prefix + " "@ + first
    }
}

/// The help lines of the first `k` entries, joined by newlines.
pub open spec fn command_lines(prefix: Seq<char>, es: Seq<CommandEntry>, k: nat) -> Seq<char>
    decreases k,
{
    if k == 0 {
        Seq::empty()
    } else if k == 1 {
        command_line(prefix, es[0])
    } else {
        command_lines(prefix, es, (k - 1) as nat) + "\n"@ + command_line(prefix, es[k - 1])
    }
}

/// The first configured prefix, or none.
pub open spec fn first_prefix(config: &Config) -> Seq<char> {
    if config.plugin.prefixes@.len() > 0 {
        config.plugin.prefixes@[0]@
    } else {
        Seq::empty()
    }
}

/// The help text: one line per command entry, with the first prefix.
pub fn show_commands(config: &Config, commands: &CommandConfig) -> (r: String)
    ensures
        r@ == command_lines(first_prefix(config), commands.command@, commands.command@.len()),
{
    let prefix: &str = if config.plugin.prefixes.len() > 0 {
        config.plugin.prefixes[0].as_str()
    } else {
        ""
    };
    proof {
        reveal_strlit("");
    }
    assert(prefix@ == first_prefix(config));
    let mut out = String::new();
    let mut i: usize = 0;
    while i < commands.command.len()
        invariant
            i <= commands.command.len(),
            prefix@ == first_prefix(config),
            out@ == command_lines(prefix@, commands.command@, i as nat),
        decreases commands.command.len() - i,
    {
        if i > 0 {
            out.append("\n");
        }
        let e = &commands.command[i];
        if prefix.unicode_len() > 0 {
            out.append(prefix);
            out.append(" ");
        }
        if e.commands.len() > 0 {
            out.append(e.commands[0].as_str());
        } else {
            out.append(e.function.as_str());
            out.append("(禁用)");
        }
        i = i + 1;
        assert(out@ =~= command_lines(prefix@, commands.command@, i as nat));
    }
    out
}

/// The rules of the game.
pub open spec fn rules_text() -> Seq<char> {
    "目标\n    猜出系统选择的两字词语\n\n反馈\n    每次猜测后，获得：\n    - 与目标词语的相似度排名\n    - 相邻词提示\n\n示例\n    1. ？器 ) 镯子 ( 玉？   #14\n    2. ？子 ) 玉佩 ( 东？   #15\n    3. ？佩 ) 东西 ( 冥？   #16\n\n    #14   → 相似度排名（越小越近）\n    玉？   → 相邻词提示（？为“佩”）\n\n周期\n    每日一词，猜对则次日刷新\n    系统记录猜对次数，可查排行"@
}

/// The rules of the game, as shown to players.
pub fn show_rules() -> (r: String)
    ensures
        r@ == rules_text(),
{
    String::from_str(
        "目标\n    猜出系统选择的两字词语\n\n反馈\n    每次猜测后，获得：\n    - 与目标词语的相似度排名\n    - 相邻词提示\n\n示例\n    1. ？器 ) 镯子 ( 玉？   #14\n    2. ？子 ) 玉佩 ( 东？   #15\n    3. ？佩 ) 东西 ( 冥？   #16\n\n    #14   → 相似度排名（越小越近）\n    玉？   → 相邻词提示（？为“佩”）\n\n周期\n    每日一词，猜对则次日刷新\n    系统记录猜对次数，可查排行",
    )
}

/// The characters of a list of string slices.
pub open spec fn str_views(v: Seq<&str>) -> Seq<Seq<char>> {
    v.map_values(|s: &str| s@)
}

/// `cmd` begins with `p`.
pub open spec fn has_prefix(cmd: Seq<char>, p: Seq<char>) -> bool {
    p.len() <= cmd.len() && cmd.subrange(0, p.len() as int) == p
}

/// Length of the longest of the first `n` prefixes that `cmd` begins with, or
/// -1 where it begins with none.
pub open spec fn longest_prefix(ps: Seq<Seq<char>>, cmd: Seq<char>, n: nat) -> int
    decreases n,
{
    if n == 0 {
        -1
    } else {
        let best = longest_prefix(ps, cmd, (n - 1) as nat);
        if has_prefix(cmd, ps[n - 1]) && ps[n - 1].len() > best {
            ps[n - 1].len() as int
        } else {
            best
        }
    }
}

/// Whether `s` begins with `p`.
fn starts_with(s: &str, p: &str) -> (r: bool)
    ensures
        r == has_prefix(s@, p@),
{
    let n = p.unicode_len();
    if n > s.unicode_len() {
        return false;
    }
    let mut i: usize = 0;
    while i < n
        invariant
            n == p@.len() <= s@.len(),
            i <= n,
            forall|k: int| 0 <= k < i ==> s@[k] == p@[k],
        decreases n - i,
    {
        if s.get_char(i) != p.get_char(i) {
            assert(s@.subrange(0, n as int)[i as int] != p@[i as int]);
            return false;
        }
        i = i + 1;
    }
    assert(s@.subrange(0, n as int) =~= p@);
    true
}

/// Splits `text` into white-space separated words, where the first is the
/// command. With no prefixes the command stands as written; otherwise the
/// longest prefix that it begins with is removed from it, and where it
/// begins with none there is no command. `None` also where `text` has no
/// words.
pub fn parse_command<'a>(text: &'a str, prefixes: &[String]) -> (r: Option<(&'a str, Vec<&'a str>)>)
    ensures
        ({
            let ws = split_words(text@);
            let best = longest_prefix(views(prefixes@), ws[0], prefixes@.len());
            if ws.len() == 0 || (prefixes@.len() > 0 && best == -1) {
                r is None
            } else {
                &&& r is Some
                &&& str_views(r->Some_0.1@) == ws.subrange(1, ws.len() as int)
                &&& prefixes@.len() == 0 ==> r->Some_0.0@ == ws[0]
                &&& prefixes@.len() > 0 ==> r->Some_0.0@ == ws[0].subrange(best, ws[0].len() as int)
            }
        }),
{
    let n = text.unicode_len();
    let spans = run_spans_of(text, false);
    proof {
        lemma_scan_bounds(text@, n as nat, false);
    }
    let ghost sp = run_spans(text@, false);
    assert(spans@.len() == sp.len());
    assert(forall|k: int| 0 <= k < sp.len() ==> (#[trigger] spans@[k]).0 == sp[k].0 && spans@[k].1 == sp[k].1);
    assert(forall|k: int| 0 <= k < sp.len() ==> 0 <= (#[trigger] sp[k]).0 <= sp[k].1 <= n);
    if spans.len() == 0 {
        return None;
    }
    let ghost ws = split_words(text@);
    let (a, b) = spans[0];
    let mut command: &'a str = text.substring_char(a, b);
    assert(command@ == ws[0]);
    let mut words: Vec<&'a str> = Vec::new();
    let mut k: usize = 1;
    while k < spans.len()
        invariant
            1 <= k <= spans.len(),
            spans@.len() == sp.len(),
            ws == split_words(text@),
            sp == run_spans(text@, false),
            n == text@.len(),
            forall|j: int| 0 <= j < sp.len() ==> (#[trigger] spans@[j]).0 == sp[j].0 && spans@[j].1 == sp[j].1,
            forall|j: int| 0 <= j < sp.len() ==> 0 <= (#[trigger] sp[j]).0 <= sp[j].1 <= n,
            str_views(words@) == ws.subrange(1, k as int),
        decreases spans.len() - k,
    {
        let (a, b) = spans[k];
        let w = text.substring_char(a, b);
        let ghost before = str_views(words@);
        words.push(w);
        assert(ws.len() == sp.len());
        assert(w@ == ws[k as int]);
        assert(str_views(words@) =~= before.push(w@));
        assert(str_views(words@) =~= ws.subrange(1, k + 1));
        k = k + 1;
    }
    if prefixes.len() == 0 {
        return Some((command, words));
    }
    let ghost pv = views(prefixes@);
    let mut best: usize = 0;
    let mut found = false;
    let mut j: usize = 0;
    while j < prefixes.len()
        invariant
            j <= prefixes.len(),
            pv == views(prefixes@),
            command@ == ws[0],
            found <==> longest_prefix(pv, ws[0], j as nat) != -1,
            found ==> best == longest_prefix(pv, ws[0], j as nat),
            best <= command@.len(),
        decreases prefixes.len() - j,
    {
        let p = prefixes[j].as_str();
        assert(p@ == pv[j as int]);
        if starts_with(command, p) {
            let len = p.unicode_len();
            if !found || len > best {
                best = len;
                found = true;
            }
        }
        j = j + 1;
    }
    if !found {
        return None;
    }
    command = command.substring_char(best, command.unicode_len());
    Some((command, words))
}

/// The reply to a guess that is not a two-character word.
pub open spec fn invalid_input_message(p: Seq<char>) -> Seq<char> {
    "无效输入："@ + p
}

/// The word of a guess command: its first parameter, where that has exactly
/// two characters; otherwise the reply that rejects the input.
pub fn guess_param(params: &[&str]) -> (r: Result<String, String>)
    ensures
        params@.len() > 0 && params@[0]@.len() == 2 ==> (r matches Ok(w) && w@ == params@[0]@),
        params@.len() > 0 && params@[0]@.len() != 2 ==> (r matches Err(m) && m@
            == invalid_input_message(params@[0]@)),
        params@.len() == 0 ==> (r matches Err(m) && m@ == invalid_input_message(Seq::empty())),
{
    let mut m = String::from_str("无效输入：");
    if params.len() == 0 {
        assert(m@ =~= invalid_input_message(Seq::empty()));
        return Err(m);
    }
    let p: &str = params[0];
    if p.unicode_len() == 2 {
        Ok(String::from_str(p))
    } else {
        m.append(p);
        Err(m)
    }
}

} // verus!
