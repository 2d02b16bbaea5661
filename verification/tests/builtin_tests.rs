use minishell::built_in_cmds;
use minishell::cmd::built_in_cmds::{
    cd_cmd, cd_error, echo_cmd, history_cmd, is_builtin, type_cmd, type_lookup_result,
    history_file_report, write_history_plan, CdErrorKind, CdStep, HistoryFlag, HistoryStep, TypeStep,
};
use rustyline::history::{FileHistory, History};

fn strings(v: &[&str]) -> Vec<String> {
    v.iter().map(|s| s.to_string()).collect()
}

fn history_of(entries: &[&str]) -> FileHistory {
    let mut h = FileHistory::new();
    for e in entries {
        h.add(e).unwrap();
    }
    h
}

#[test]
fn builtin_names_are_recognised() {
    for name in ["cd", "echo", "exit", "type", "pwd", "history"] {
        assert!(is_builtin(name));
        assert!(built_in_cmds::is_builtin(name));
    }
    for name in ["ls", "", "cd ", "Echo", "historyx"] {
        assert!(!is_builtin(name));
        assert!(!built_in_cmds::is_builtin(name));
    }
}

#[test]
fn echo_joins_with_spaces() {
    let r = echo_cmd(&strings(&["a", "b  c", "d"]));
    assert_eq!(r.out, strings(&["a b  c d"]));
    assert!(r.err.is_empty());
    assert_eq!(r.status, 0);
    let r = echo_cmd(&[]);
    assert_eq!(r.out, strings(&[""]));
}

#[test]
fn type_answers() {
    match type_cmd(&strings(&["echo"])) {
        TypeStep::Done(r) => {
            assert_eq!(r.out, strings(&["echo is a shell builtin"]));
            assert_eq!(r.status, 0);
        }
        TypeStep::Lookup(_) => panic!("builtin looked up"),
    }
    match type_cmd(&strings(&["ls"])) {
        TypeStep::Lookup(name) => assert_eq!(name, "ls"),
        TypeStep::Done(_) => panic!("no lookup"),
    }
    for args in [strings(&[]), strings(&["a", "b"])] {
        match type_cmd(&args) {
            TypeStep::Done(r) => {
                assert_eq!(r.err, strings(&["type: usage: type NAME"]));
                assert_eq!(r.status, 2);
            }
            TypeStep::Lookup(_) => panic!("usage expected"),
        }
    }
    let r = type_lookup_result("ls", "/bin/ls");
    assert_eq!(r.out, strings(&["ls is /bin/ls"]));
    assert_eq!(r.status, 0);
    let r = type_lookup_result("nope", "");
    assert_eq!(r.err, strings(&["nope: not found"]));
    assert_eq!(r.status, 1);
}

#[test]
fn cd_steps_and_errors() {
    assert!(matches!(cd_cmd(&[]), CdStep::Stay));
    assert!(matches!(cd_cmd(&strings(&["~"])), CdStep::Home));
    match cd_cmd(&strings(&["/tmp", "ignored"])) {
        CdStep::Dir(d) => assert_eq!(d, "/tmp"),
        _ => panic!("dir expected"),
    }
    let r = cd_error("/nope", CdErrorKind::NotFound);
    assert_eq!(r.err, strings(&["cd: /nope: No such file or directory"]));
    assert_eq!(r.status, 1);
    let r = cd_error("/root", CdErrorKind::PermissionDenied);
    assert_eq!(r.err, strings(&["cd: /root: Permission denied"]));
    let r = cd_error("x", CdErrorKind::Other);
    assert_eq!(r.err, strings(&["cd: x: Error"]));
}

#[test]
fn history_lists_entries() {
    let h = history_of(&["ls", "pwd", "echo hi"]);
    match history_cmd(&h, &[]) {
        HistoryStep::Done(r) => {
            assert_eq!(r.out, strings(&["  1 ls", "  2 pwd", "  3 echo hi"]));
            assert_eq!(r.status, 0);
        }
        _ => panic!("listing expected"),
    }
    match history_cmd(&h, &strings(&["2"])) {
        HistoryStep::Done(r) => assert_eq!(r.out, strings(&["  2 pwd", "  3 echo hi"])),
        _ => panic!("listing expected"),
    }
    match history_cmd(&h, &strings(&["10"])) {
        HistoryStep::Done(r) => assert_eq!(r.out.len(), 3),
        _ => panic!("listing expected"),
    }
    match history_cmd(&h, &strings(&["0"])) {
        HistoryStep::Done(r) => assert!(r.out.is_empty()),
        _ => panic!("listing expected"),
    }
}

#[test]
fn history_usage_and_flags() {
    let h = history_of(&["a"]);
    for args in [strings(&["1", "2"]), strings(&["x"]), strings(&["-r", "f", "g"])] {
        match history_cmd(&h, &args) {
            HistoryStep::Done(r) => {
                assert_eq!(r.err, strings(&["history: usage: history [N]"]));
                assert_eq!(r.status, 2);
            }
            _ => panic!("usage expected"),
        }
    }
    match history_cmd(&h, &strings(&["-w", "file"])) {
        HistoryStep::File(HistoryFlag::Write, p) => assert_eq!(p, "file"),
        _ => panic!("write expected"),
    }
    assert!(matches!(history_cmd(&h, &strings(&["-r", "f"])), HistoryStep::File(HistoryFlag::Read, _)));
    assert!(matches!(history_cmd(&h, &strings(&["-a", "f"])), HistoryStep::File(HistoryFlag::Append, _)));
    match history_cmd(&h, &strings(&["-x", "f"])) {
        HistoryStep::Done(r) => {
            assert_eq!(r.err, strings(&["history: invalid argument: -x"]));
            assert_eq!(r.status, 2);
        }
        _ => panic!("error expected"),
    }
}

#[test]
fn history_write_plans() {
    let h = history_of(&["a", "b", "c"]);
    let w = write_history_plan(&h, 2, true);
    assert_eq!((w.start, w.lines.clone(), w.done), (2, strings(&["c"]), 3));
    let w = write_history_plan(&h, 2, false);
    assert_eq!((w.start, w.lines.clone(), w.done), (0, strings(&["a", "b", "c"]), 3));
    let w = write_history_plan(&h, 3, true);
    assert!(w.lines.is_empty());
    let w = write_history_plan(&h, 7, true);
    assert!(w.lines.is_empty());
    assert_eq!(w.done, 3);
}

#[test]
fn top_level_history() {
    let h = history_of(&["a", "b", "c"]);
    match built_in_cmds::history_cmd(&h, &[]) {
        Some(HistoryStep::Done(r)) => assert_eq!(r.out, strings(&["  1 a", "  2 b", "  3 c"])),
        _ => panic!("listing expected"),
    }
    match built_in_cmds::history_cmd(&h, &strings(&["2", "ignored"])) {
        Some(HistoryStep::Done(r)) => assert_eq!(r.out, strings(&["  2 b", "  3 c"])),
        _ => panic!("listing expected"),
    }
    match built_in_cmds::history_cmd(&h, &strings(&["0"])) {
        Some(HistoryStep::Done(r)) => assert!(r.out.is_empty()),
        _ => panic!("listing expected"),
    }
    assert!(built_in_cmds::history_cmd(&h, &strings(&["4"])).is_none());
    assert!(matches!(
        built_in_cmds::history_cmd(&h, &strings(&["-w", "f", "x"])),
        Some(HistoryStep::File(HistoryFlag::Write, _))
    ));
    for args in [strings(&["-w"]), strings(&["-q", "f"]), strings(&["zzz"])] {
        match built_in_cmds::history_cmd(&h, &args) {
            Some(HistoryStep::Done(r)) => {
                assert!(r.out.is_empty() && r.err.is_empty());
                assert_eq!(r.status, 0);
            }
            _ => panic!("nothing expected"),
        }
    }
}

#[test]
fn top_level_type_and_cd() {
    match built_in_cmds::type_cmd(&[]) {
        built_in_cmds::TypeQuery::Done(r) => assert_eq!(r.out, strings(&[""])),
        _ => panic!("empty line expected"),
    }
    match built_in_cmds::type_cmd(&strings(&["cd", "x"])) {
        built_in_cmds::TypeQuery::Done(r) => {
            assert_eq!(r.out, strings(&["cd x: not found", "cd is a shell builtin"]))
        }
        _ => panic!("builtin expected"),
    }
    match built_in_cmds::type_cmd(&strings(&["ls"])) {
        built_in_cmds::TypeQuery::Lookup { first, name } => {
            assert!(first.is_empty());
            assert_eq!(name, "ls");
            let r = built_in_cmds::type_answer(first, &name, "");
            assert_eq!(r.out, strings(&["ls: not found"]));
        }
        _ => panic!("lookup expected"),
    }
    let r = built_in_cmds::type_answer(strings(&["a b: not found"]), "a", "/bin/a");
    assert_eq!(r.out, strings(&["a b: not found", "a is /bin/a"]));
    let r = built_in_cmds::cd_failure("/x");
    assert_eq!(r.out, strings(&["cd: /x: No such file or directory"]));
}

#[test]
fn history_file_reports() {
    let r = history_file_report("h.txt", None);
    assert!(r.out.is_empty() && r.err.is_empty());
    assert_eq!(r.status, 0);
    let r = history_file_report("h.txt", Some("No such file".to_string()));
    assert_eq!(r.err, strings(&["history: h.txt No such file"]));
    assert_eq!(r.status, 1);
}
