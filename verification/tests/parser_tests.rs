use minishell::parser::{parse_pipeline, parse_simple, tokenize, tokenize_with};
use minishell::parser2;
use minishell::structs::{OpKind, SimpleCmd, StreamTarget, TargetFile, Token};

fn word(s: &str) -> Token {
    Token::Word(s.to_string())
}

fn strings(v: &[&str]) -> Vec<String> {
    v.iter().map(|s| s.to_string()).collect()
}

#[test]
fn test_tokenize() {
    let input = "echo hello > file.txt";
    let tokens = tokenize(&input);
    println!("{:?}", tokens);
}

#[test]
fn test_pipeline() {
    let input = "cat /var/log/syslog \
  | grep \"ERROR\" \
  | awk '{print $1, $2, $5}' \
  | sort \
  | uniq -c \
  | sort -nr \
  | head -20
";
    let _ = input;
    let input2 = "ls -1 nonexistent 2>> /tmp/bee/cow.md";
    let tokens = parse_pipeline(&tokenize(&input2));
    println!("{:?}", tokens);
}

#[test]
fn tokenize_recognises_redirection() {
    let tokens = tokenize("echo hello > file.txt");
    assert_eq!(
        tokens,
        vec![word("echo"), word("hello"), Token::Op(OpKind::RedirOutTruncate), word("file.txt")]
    );
}

#[test]
fn tokenize_all_operators() {
    let tokens = tokenize("1> > 1>> >> 2> 2>> | < x");
    assert_eq!(
        tokens,
        vec![
            Token::Op(OpKind::RedirOutTruncate),
            Token::Op(OpKind::RedirOutTruncate),
            Token::Op(OpKind::RedirOutAppend),
            Token::Op(OpKind::RedirOutAppend),
            Token::Op(OpKind::RedirErrTruncate),
            Token::Op(OpKind::RedirErrAppend),
            Token::Op(OpKind::Pipeline),
            Token::Op(OpKind::RedirIn),
            word("x"),
        ]
    );
}

#[test]
fn tokenize_last_word_is_never_an_operator() {
    assert_eq!(tokenize("echo |"), vec![word("echo"), word("|")]);
    assert_eq!(tokenize(">"), vec![word(">")]);
}

#[test]
fn tokenize_spaces_and_empty_quotes() {
    assert_eq!(tokenize("   a    b  "), vec![word("a"), word("b")]);
    assert_eq!(tokenize("''"), Vec::<Token>::new());
    assert_eq!(tokenize(""), Vec::<Token>::new());
}

#[test]
fn tokenize_single_quotes_keep_text() {
    assert_eq!(tokenize("echo 'a  \\b \"c\"'"), vec![word("echo"), word("a  \\b \"c\"")]);
    assert_eq!(tokenize("'unterminated  x"), vec![word("unterminated  x")]);
    assert_eq!(tokenize("a'b'c"), vec![word("abc")]);
}

#[test]
fn tokenize_double_quote_escapes() {
    assert_eq!(tokenize(r#""a\"b\$c\\d\`e\nf""#), vec![word("a\"b$c\\d`e\\nf")]);
    assert_eq!(tokenize("\"x\\"), vec![word("x\\")]);
    assert_eq!(tokenize("\"a b\" c"), vec![word("a b"), word("c")]);
}

#[test]
fn tokenize_backslash() {
    assert_eq!(tokenize("a\\ b"), vec![word("a b")]);
    assert_eq!(tokenize("a\\"), vec![word("a\\")]);
    assert_eq!(tokenize("\\'x"), vec![word("'x")]);
}

#[test]
fn quoted_operator_is_a_word() {
    assert_eq!(tokenize("'|' x"), vec![word("|"), word("x")]);
    assert_eq!(tokenize("echo '>' x"), vec![word("echo"), word(">"), word("x")]);
    assert_eq!(tokenize(r"echo \> x"), vec![word("echo"), word(">"), word("x")]);
    assert_eq!(tokenize(r#"echo ">" x"#), vec![word("echo"), word(">"), word("x")]);
}

fn vars(v: &[(&str, &str)]) -> Vec<(String, String)> {
    v.iter().map(|(a, b)| (a.to_string(), b.to_string())).collect()
}

#[test]
fn variables_expand_outside_single_quotes() {
    let env = vars(&[("HOME", "/home/u"), ("X", "1"), ("X", "2")]);
    assert_eq!(
        tokenize_with("echo $HOME '$HOME'", &env),
        vec![word("echo"), word("/home/u"), word("$HOME")]
    );
    assert_eq!(tokenize_with("\"$HOME/x\" a$X", &env), vec![word("/home/u/x"), word("a1")]);
    assert_eq!(tokenize_with("\\$HOME \"\\$X\"", &env), vec![word("$HOME"), word("$X")]);
    assert_eq!(tokenize_with("a $UNSET b", &env), vec![word("a"), word("b")]);
    assert_eq!(tokenize_with("$ $1 x$", &env), vec![word("$"), word("$1"), word("x$")]);
}

#[test]
fn tokenize_keeps_dollar_text() {
    assert_eq!(tokenize("echo $HOME"), vec![word("echo"), word("$HOME")]);
    assert_eq!(tokenize("\"$HOME/x\" a$X '$Y'"), vec![word("$HOME/x"), word("a$X"), word("$Y")]);
    assert_eq!(tokenize("cost $ 5"), vec![word("cost"), word("$"), word("5")]);
}

#[test]
fn expanded_operator_is_a_word() {
    let env = vars(&[("P", "|")]);
    assert_eq!(tokenize_with("$P x", &env), vec![word("|"), word("x")]);
}

#[test]
fn input_redirection() {
    assert_eq!(tokenize("cat < in.txt"), vec![word("cat"), Token::Op(OpKind::RedirIn), word("in.txt")]);
    let c = SimpleCmd::build("cat < in.txt");
    assert_eq!(c.args, strings(&["cat"]));
    assert_eq!(c.stdin, Some("in.txt".to_string()));
    let c = SimpleCmd::build("sort < a < b > out");
    assert_eq!(c.stdin, Some("b".to_string()));
    assert_eq!(c.stdout, StreamTarget::File(TargetFile { path: "out".to_string(), append: false }));
    assert_eq!(SimpleCmd::build("cat").stdin, None);
}

#[test]
fn parser2_gives_words_only() {
    assert_eq!(parser2::tokenize("echo hello > file.txt"), strings(&["echo", "hello", ">", "file.txt"]));
    assert_eq!(parser2::tokenize("a 'b c' \"d\\\"e\""), strings(&["a", "b c", "d\"e"]));
    assert_eq!(parser2::tokenize("  "), Vec::<String>::new());
    assert_eq!(parser2::tokenize("a $X '$X' b"), strings(&["a", "$X", "$X", "b"]));
}

#[test]
fn parse_pipeline_redirect_append_stderr() {
    let cmds = parse_pipeline(&tokenize("ls -1 nonexistent 2>> /tmp/bee/cow.md"));
    assert_eq!(
        cmds,
        vec![SimpleCmd {
            args: strings(&["ls", "-1", "nonexistent"]),
            stdout: StreamTarget::Terminal,
            stderr: StreamTarget::File(TargetFile { path: "/tmp/bee/cow.md".to_string(), append: true }),
            stdin: None,
        }]
    );
}

#[test]
fn parse_pipeline_splits_at_pipes() {
    let cmds = parse_pipeline(&tokenize("cat f | grep x | wc -l"));
    assert_eq!(cmds.len(), 3);
    assert_eq!(cmds[0].args, strings(&["cat", "f"]));
    assert_eq!(cmds[1].args, strings(&["grep", "x"]));
    assert_eq!(cmds[2].args, strings(&["wc", "-l"]));
}

#[test]
fn parse_pipeline_empty_segments() {
    let cmds = parse_pipeline(&tokenize("| a |"));
    assert_eq!(cmds.len(), 2);
    assert!(cmds[0].args.is_empty());
    assert_eq!(cmds[1].args, strings(&["a", "|"]));
    assert_eq!(parse_pipeline(&[]).len(), 1);
}

#[test]
fn parse_simple_redirections() {
    let c = parse_simple(&tokenize("cmd a 1> out 2> err b"));
    assert_eq!(c.args, strings(&["cmd", "a", "b"]));
    assert_eq!(c.stdout, StreamTarget::File(TargetFile { path: "out".to_string(), append: false }));
    assert_eq!(c.stderr, StreamTarget::File(TargetFile { path: "err".to_string(), append: false }));
    let c = parse_simple(&tokenize("x >> o > p"));
    assert_eq!(c.stdout, StreamTarget::File(TargetFile { path: "p".to_string(), append: false }));
}

#[test]
fn parse_simple_operator_after_operator_is_no_target() {
    let c = parse_simple(&tokenize("echo a > > b"));
    assert_eq!(c.args, strings(&["echo", "a", "b"]));
    assert_eq!(c.stdout, StreamTarget::Terminal);
}

#[test]
fn parse_simple_trailing_operator_token_dropped() {
    let c = parse_simple(&[word("a"), Token::Op(OpKind::RedirErrAppend)]);
    assert_eq!(c.args, strings(&["a"]));
    assert_eq!(c.stderr, StreamTarget::Terminal);
}

#[test]
fn build_parses_a_line() {
    let c = SimpleCmd::build("echo 'hi there' >> log");
    assert_eq!(c.args, strings(&["echo", "hi there"]));
    assert_eq!(c.stdout, StreamTarget::File(TargetFile { path: "log".to_string(), append: true }));
}

#[test]
fn operators_only_reinterpret_words() {
    let line = "a > 'b c' 2>> \"|\" | < x >";
    let tokens = tokenize(line);
    let words = parser2::tokenize(line);
    assert_eq!(tokens.len(), words.len());
    for (t, w) in tokens.iter().zip(words.iter()) {
        match t {
            Token::Word(s) => assert_eq!(s, w),
            Token::Op(_) => assert!(["1>", ">", "1>>", ">>", "2>", "2>>", "|", "<"].contains(&w.as_str())),
        }
    }
}

#[test]
fn space_separates_two_plain_words() {
    assert_eq!(tokenize("2>> x"), vec![Token::Op(OpKind::RedirErrAppend), word("x")]);
    assert_eq!(tokenize("ab cd"), vec![word("ab"), word("cd")]);
}

#[test]
fn double_quotes_keep_plain_text() {
    assert_eq!(tokenize("\"a 'b' | c\""), vec![word("a 'b' | c")]);
    assert_eq!(tokenize("\"\""), Vec::<Token>::new());
}

#[test]
fn backslash_takes_next_character() {
    assert_eq!(tokenize("\\ "), vec![word(" ")]);
    assert_eq!(tokenize("\\\""), vec![word("\"")]);
}
