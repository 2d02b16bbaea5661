use minishell::utils::executable_name;
use minishell::cmd::run::{command_kind, pipeline_plan, Builtin, CommandKind, StageWiring};
use minishell::cmd::utils::{executable_choice, exit_status, is_executable_mode, not_found_report, search_paths, split_char};
use minishell::redirect::{PendingRedirect, RedirectFailure};
use minishell::structs::{MyHelper, SimpleCmd};
use minishell::text::{parse_usize, to_decimal};

fn strings(v: &[&str]) -> Vec<String> {
    v.iter().map(|s| s.to_string()).collect()
}

#[test]
fn parse_usize_like_std() {
    for s in ["0", "42", "+7", "007", "-1", "", "+", "1a", " 1", "18446744073709551615", "18446744073709551616", "99999999999999999999"] {
        assert_eq!(parse_usize(s), s.parse::<usize>().ok(), "{s}");
    }
    assert_eq!(parse_usize("+12"), Some(12));
}

#[test]
fn decimal_roundtrip() {
    assert_eq!(to_decimal(0), "0");
    assert_eq!(to_decimal(1234), "1234");
    for n in [0usize, 9, 10, 99, 100, 65535, usize::MAX] {
        assert_eq!(parse_usize(&to_decimal(n)), Some(n));
    }
}

#[test]
fn search_path_candidates() {
    assert_eq!(search_paths("/bin:/usr/bin", "ls"), strings(&["/bin/ls", "/usr/bin/ls"]));
    assert_eq!(search_paths("a::b", "x"), strings(&["a/x", "/x", "b/x"]));
    assert_eq!(search_paths("", "x"), strings(&["/x"]));
    assert_eq!(split_char("a:b:", ':'), strings(&["a", "b", ""]));
}

#[test]
fn exec_bit_and_status() {
    assert!(is_executable_mode(0o755));
    assert!(is_executable_mode(0o100));
    assert!(!is_executable_mode(0o644));
    assert!(!is_executable_mode(0o011));
    assert_eq!(exit_status(Some(3)), 3);
    assert_eq!(exit_status(None), 2);
    let r = not_found_report("frob");
    assert_eq!(r.out, strings(&["frob: command not found"]));
    assert_eq!(r.status, 1);
}

#[test]
fn command_kinds() {
    assert_eq!(command_kind(&SimpleCmd::build("")), CommandKind::Empty);
    assert_eq!(command_kind(&SimpleCmd::build("cd /tmp")), CommandKind::Builtin(Builtin::Cd));
    assert_eq!(command_kind(&SimpleCmd::build("history 3")), CommandKind::Builtin(Builtin::History));
    assert_eq!(command_kind(&SimpleCmd::build("exit")), CommandKind::Builtin(Builtin::Exit));
    assert_eq!(command_kind(&SimpleCmd::build("ls -l")), CommandKind::External);
}

#[test]
fn pipeline_plans() {
    assert!(pipeline_plan(0).is_empty());
    assert!(pipeline_plan(1).is_empty());
    let p = pipeline_plan(3);
    assert_eq!(
        p,
        vec![
            StageWiring { input: None, output: Some(0), keeps_status: false, wait_all: false },
            StageWiring { input: Some(0), output: Some(1), keeps_status: false, wait_all: false },
            StageWiring { input: Some(1), output: None, keeps_status: true, wait_all: true },
        ]
    );
}

#[test]
fn first_executable_candidate() {
    let c = strings(&["/a/x", "/b/x", "/c/x"]);
    assert_eq!(executable_choice(&c, &[None, Some(0o755), Some(0o755)]), "/b/x");
    assert_eq!(executable_choice(&c, &[Some(0o644), None, Some(0o700)]), "/c/x");
    assert_eq!(executable_choice(&c, &[Some(0o644), None, None]), "");
    assert_eq!(executable_choice(&c, &[]), "");
}

#[test]
fn redirect_guard_steps() {
    assert!(matches!(PendingRedirect::after_dup(1, -1), Err(RedirectFailure::Dup)));
    let p = PendingRedirect::after_dup(1, 5).ok().unwrap();
    assert!(matches!(p.after_dup2(-1), Err(RedirectFailure::Dup2 { close: 5 })));
    let p = PendingRedirect::after_dup(2, 7).ok().unwrap();
    let mut g = p.after_dup2(2).ok().unwrap();
    assert_eq!(g.release(), Some((7, 2)));
    assert_eq!(g.release(), None);
    let p = PendingRedirect::after_dup(1, 0).ok().unwrap();
    let mut g = p.after_dup2(1).ok().unwrap();
    assert_eq!(g.release(), None);
}

#[test]
fn completion() {
    let h = MyHelper::new();
    let (start, m) = h.complete("ec", 2);
    assert_eq!((start, m), (0, vec!["echo "]));
    let (start, m) = h.complete("x e", 3);
    assert_eq!((start, m), (2, vec!["echo ", "exit "]));
    let (start, m) = h.complete("", 0);
    assert_eq!(start, 0);
    assert_eq!(m, vec!["cd ", "echo ", "exit ", "type ", "pwd ", "history "]);
    let (start, m) = h.complete("a\thi", 4);
    assert_eq!((start, m), (2, vec!["history "]));
    let (start, m) = h.complete("pwdx", 3);
    assert_eq!((start, m), (0, vec!["pwd "]));
    let (_, m) = h.complete("zz", 2);
    assert!(m.is_empty());
}

#[test]
fn completion_counts_bytes() {
    let h = MyHelper::new();
    assert_eq!(h.complete("hé ec", 6), (4, vec!["echo "]));
    assert_eq!(h.complete("ec é", 2), (0, vec!["echo "]));
    assert_eq!(h.complete("é", 2), (0, Vec::<&str>::new()));
    assert_eq!(h.complete("日本 h", 8), (7, vec!["history "]));
}

#[test]
fn split_then_join_gives_back_the_text() {
    for s in ["", ":", "a", "/bin::/usr/bin:", "x:y"] {
        assert_eq!(split_char(s, ':').join(":"), s);
    }
}

#[test]
fn run_dispatch_agrees_with_is_builtin() {
    for name in ["cd", "echo", "exit", "type", "pwd", "history", "ls", "cdx"] {
        let kind = command_kind(&SimpleCmd::build(name));
        assert_eq!(
            matches!(kind, CommandKind::Builtin(_)),
            minishell::cmd::built_in_cmds::is_builtin(name)
        );
    }
}

#[test]
fn executable_names() {
    assert_eq!(executable_name("/usr/bin/ls"), "ls");
    assert_eq!(executable_name("ls"), "ls");
    assert_eq!(executable_name("/usr/bin/"), "");
}
