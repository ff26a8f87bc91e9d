use ghostnet::shell::{interpret_line, tokenize, ShellAction};

fn toks(v: &[&str]) -> Vec<String> {
    v.iter().map(|s| s.to_string()).collect()
}

#[test]
fn tokenize_honors_quotes() {
    assert_eq!(tokenize("send 0xabc \"hello world\""), Ok(toks(&["send", "0xabc", "hello world"])));
    assert_eq!(tokenize("  a   b  "), Ok(toks(&["a", "b"])));
    assert_eq!(tokenize("it's"), Err("unterminated quote".to_string()));
    assert_eq!(tokenize("\"it's\""), Ok(toks(&["it's"])));
    assert_eq!(tokenize("'say \"hi\"'"), Ok(toks(&["say \"hi\""])));
    assert_eq!(tokenize("\u{201C}smart quotes\u{201D}"), Ok(toks(&["smart quotes"])));
    assert_eq!(tokenize("\u{2018}x y\u{2019}"), Ok(toks(&["x y"])));
    assert_eq!(tokenize("a \"\" b"), Ok(toks(&["a", "", "b"])));
    assert_eq!(tokenize("ab\"c d\"e"), Ok(toks(&["abc de"])));
    assert_eq!(tokenize(""), Ok(vec![]));
    assert_eq!(tokenize("\"open"), Err("unterminated quote".to_string()));
}

#[test]
fn quoted_arguments_come_back() {
    let args = ["hello world", "it's", "", "tab\there"];
    let line = args.iter().map(|a| format!("\"{a}\"")).collect::<Vec<_>>().join(" ");
    assert_eq!(tokenize(&line), Ok(toks(&args)));
}

#[test]
fn shell_lines() {
    assert_eq!(interpret_line("   "), ShellAction::Skip);
    assert_eq!(interpret_line("\u{feff}\u{feff}  exit \n"), ShellAction::Exit);
    assert_eq!(interpret_line("quit"), ShellAction::Exit);
    assert_eq!(interpret_line(":q"), ShellAction::Exit);
    assert_eq!(interpret_line("clear"), ShellAction::Clear);
    assert_eq!(interpret_line("cls"), ShellAction::Clear);
    assert_eq!(interpret_line("Exit"), ShellAction::Run(toks(&["ghostnet", "Exit"])));
    assert_eq!(interpret_line("GhostNet"), ShellAction::Skip);
    assert_eq!(
        interpret_line("ghostnet send 0x1 'hi there'"),
        ShellAction::Run(toks(&["ghostnet", "send", "0x1", "hi there"]))
    );
    assert_eq!(
        interpret_line("identity list"),
        ShellAction::Run(toks(&["ghostnet", "identity", "list"]))
    );
    assert_eq!(
        interpret_line("send \"unterminated"),
        ShellAction::Invalid("unterminated quote".to_string())
    );
}

#[test]
fn plain_words_come_back() {
    let words = ["identity", "load", "--name", "work-laptop", "é€"];
    assert_eq!(tokenize(&words.join(" ")), Ok(toks(&words)));
}

#[test]
fn unquoted_lines_split_like_split_whitespace() {
    for line in ["a  b\tc", "  lead", "trail  ", "\u{3000}x\u{a0}y", "", "one"] {
        let want: Vec<String> = line.split_whitespace().map(String::from).collect();
        assert_eq!(tokenize(line), Ok(want), "{line:?}");
    }
}

#[test]
fn program_name_prefix_is_ignored() {
    for rest in ["send 0x1 'hi there'", "  identity list  ", "status"] {
        assert_eq!(interpret_line(&format!("GhostNet {rest}")), interpret_line(rest));
    }
}
