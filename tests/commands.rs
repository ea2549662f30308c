use ciyi::command::{
    guess_param, parse_command, show_commands, show_rules, CommandConfig, CommandEntry,
};
use ciyi::config::{should_process_group, ChannelConfig, Config, PluginConfig};
use ciyi::text::parse_rank_list;

fn strings(ws: &[&str]) -> Vec<String> {
    ws.iter().map(|w| w.to_string()).collect()
}

fn table() -> CommandConfig {
    CommandConfig {
        command: vec![
            CommandEntry { function: "帮助".to_string(), commands: strings(&["词意帮助", "词意指令"]) },
            CommandEntry { function: "猜测".to_string(), commands: strings(&["词意猜测"]) },
            CommandEntry { function: "关闭".to_string(), commands: Vec::new() },
        ],
    }
}

fn config(prefixes: &[&str]) -> Config {
    Config {
        channel: ChannelConfig { white: Vec::new(), black: Vec::new() },
        plugin: PluginConfig {
            only_at: false,
            prefixes: strings(prefixes),
            at_user: false,
            quote_user: true,
            direct_guess: false,
            history_display: 10,
            rank_display: 10,
        },
    }
}

#[test]
fn function_lookup_by_command_word() {
    let t = table();
    assert_eq!(t.get_function_by_command("词意指令").map(|s| s.as_str()), Some("帮助"));
    assert_eq!(t.get_function_by_command("词意猜测").map(|s| s.as_str()), Some("猜测"));
    assert_eq!(t.get_function_by_command("无"), None);
}

#[test]
fn help_lines_with_and_without_prefix() {
    assert_eq!(show_commands(&config(&[]), &table()), "词意帮助\n词意猜测\n关闭(禁用)");
    assert_eq!(
        show_commands(&config(&["!", "。"]), &table()),
        "! 词意帮助\n! 词意猜测\n! 关闭(禁用)"
    );
}

#[test]
fn rules_text() {
    let r = show_rules();
    assert!(r.starts_with("目标\n"));
    assert!(r.contains("#14   → 相似度排名（越小越近）"));
    assert!(r.ends_with("系统记录猜对次数，可查排行"));
}

#[test]
fn group_filter() {
    let black = strings(&["9"]);
    assert!(should_process_group("1", &[], &black));
    assert!(!should_process_group("9", &[], &black));
    assert!(should_process_group("1", &strings(&["1", "2"]), &black));
    assert!(!should_process_group("3", &strings(&["1", "2"]), &black));
    assert!(!should_process_group("9", &strings(&["9"]), &black));
}

#[test]
fn parse_without_prefixes() {
    let (cmd, args) = parse_command("  词意猜测 \t苹果  x ", &[]).unwrap();
    assert_eq!(cmd, "词意猜测");
    assert_eq!(args, vec!["苹果", "x"]);
    assert!(parse_command(" \u{3000} ", &[]).is_none());
}

#[test]
fn parse_strips_longest_prefix() {
    let ps = strings(&["/", "//", "。"]);
    let (cmd, args) = parse_command("//词意榜", &ps).unwrap();
    assert_eq!(cmd, "词意榜");
    assert!(args.is_empty());
    let (cmd, _) = parse_command("。词意榜 a", &ps).unwrap();
    assert_eq!(cmd, "词意榜");
    assert!(parse_command("词意榜", &ps).is_none());
}

#[test]
fn guess_parameter_must_be_two_characters() {
    assert_eq!(guess_param(&["苹果"]), Ok("苹果".to_string()));
    assert_eq!(guess_param(&["苹果树"]), Err("无效输入：苹果树".to_string()));
    assert_eq!(guess_param(&[]), Err("无效输入：".to_string()));
}

#[test]
fn rank_list_body_lines() {
    assert_eq!(parse_rank_list("  甲乙\n\n丙丁\r\n戊 己  \n"), strings(&["甲乙", "丙丁\r", "戊 己"]));
    assert!(parse_rank_list(" \n \n").is_empty());
}
