//! Plugin settings and the group filter.

use vstd::prelude::*;

use crate::text::{contains_word, views};

verus! {

/// Group filter: a non-empty white list admits only its groups; the black
/// list always refuses its groups.
pub struct ChannelConfig {
    pub white: Vec<String>,
    pub black: Vec<String>,
}

/// Behaviour settings.
pub struct PluginConfig {
    /// Reply only when the bot is mentioned.
    pub only_at: bool,
    /// Command prefixes; empty for none.
    pub prefixes: Vec<String>,
    /// Mention the user in replies.
    pub at_user: bool,
    /// Quote the user's message in replies.
    pub quote_user: bool,
    /// Whether new sessions start in direct-guess mode.
    pub direct_guess: bool,
    /// Hint lines shown per reply.
    pub history_display: usize,
    /// Leaderboard entries shown per reply.
    pub rank_display: usize,
}

/// All settings.
pub struct Config {
    pub channel: ChannelConfig,
    pub plugin: PluginConfig,
}

/// Whether messages of `group_id` are handled: it is not black-listed, and
/// the white list is empty or holds it.
pub fn should_process_group(group_id: &str, white_list: &[String], black_list: &[String]) -> (r:
    bool)
    ensures
        r == (!views(black_list@).contains(group_id@) && (white_list@.len() == 0 || views(
            white_list@,
        ).contains(group_id@))),
{
    let g = String::from_str(group_id);
    if contains_word(black_list, &g) {
        return false;
    }
    if white_list.len() != 0 && !contains_word(white_list, &g) {
        return false;
    }
    true
}

} // verus!
