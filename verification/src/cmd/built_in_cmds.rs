//! The commands the shell runs itself.
use vstd::prelude::*;
use rustyline::history::FileHistory;
use rustyline::history::History;
use crate::structs::texts;
use crate::text::{str_equals, join, join_strings, decimal, to_decimal, parse_usize, spec_parse_usize};

verus! {

/// The names of the commands the shell runs itself, in the order the shell lists them.
pub open spec fn builtin_names() -> Seq<Seq<char>> {
    seq![
        seq!['c', 'd'],
        seq!['e', 'c', 'h', 'o'],
        seq!['e', 'x', 'i', 't'],
        seq!['t', 'y', 'p', 'e'],
        seq!['p', 'w', 'd'],
        seq!['h', 'i', 's', 't', 'o', 'r', 'y'],
    ]
}

/// Whether `cmd` names one of the commands the shell runs itself.
pub fn is_builtin(cmd: &str) -> (r: bool)
    ensures
        r == builtin_names().contains(cmd@),
{
    proof {
        reveal_strlit("cd");
        reveal_strlit("echo");
        reveal_strlit("exit");
        reveal_strlit("type");
        reveal_strlit("pwd");
        reveal_strlit("history");
    }
    let ghost names = builtin_names();
    let r = str_equals(cmd, "cd") || str_equals(cmd, "echo") || str_equals(cmd, "exit")
        || str_equals(cmd, "type") || str_equals(cmd, "pwd") || str_equals(cmd, "history");
    proof {
        assert(names[0] =~= "cd"@);
        assert(names[1] =~= "echo"@);
        assert(names[2] =~= "exit"@);
        assert(names[3] =~= "type"@);
        assert(names[4] =~= "pwd"@);
        assert(names[5] =~= "history"@);
        if r {
            if cmd@ == names[0] { assert(names.contains(cmd@)); }
            else if cmd@ == names[1] { assert(names.contains(cmd@)); }
            else if cmd@ == names[2] { assert(names.contains(cmd@)); }
            else if cmd@ == names[3] { assert(names.contains(cmd@)); }
            else if cmd@ == names[4] { assert(names.contains(cmd@)); }
            else { assert(names.contains(cmd@)); }
        }
    }
    r
}


/// What a command writes to standard output and to standard error, line by line, and
/// the status it ends with.
pub struct Report {
    pub out: Vec<String>,
    pub err: Vec<String>,
    pub status: i32,
}

/// A report with one line on standard error.
fn error_report(line: String, status: i32) -> (r: Report)
    ensures
        texts(r.out@) == Seq::<Seq<char>>::empty(),
        texts(r.err@) == seq![line@],
        r.status == status,
{
    let mut err: Vec<String> = Vec::new();
    err.push(line);
    let r = Report { out: Vec::new(), err, status };
    assert(texts(r.out@) =~= Seq::<Seq<char>>::empty());
    assert(texts(r.err@) =~= seq![line@]);
    r
}

/// A report with one line on standard output.
fn output_report(line: String, status: i32) -> (r: Report)
    ensures
        texts(r.out@) == seq![line@],
        texts(r.err@) == Seq::<Seq<char>>::empty(),
        r.status == status,
{
    let mut out: Vec<String> = Vec::new();
    out.push(line);
    let r = Report { out, err: Vec::new(), status };
    assert(texts(r.err@) =~= Seq::<Seq<char>>::empty());
    assert(texts(r.out@) =~= seq![line@]);
    r
}

/// `echo`: one line, the arguments joined by single spaces.
pub fn echo_cmd(args: &[String]) -> (r: Report)
    ensures
        texts(r.out@) == seq![join(texts(args@), seq![' '])],
        texts(r.err@) == Seq::<Seq<char>>::empty(),
        r.status == 0,
{
    proof { reveal_strlit(" "); }
    let line = join_strings(args, " ");
    assert(" "@ =~= seq![' ']);
    output_report(line, 0)
}

/// What `type` does next.
pub enum TypeStep {
    /// It is done, with this report.
    Done(Report),
    /// The name must be looked up among the executables on the search path.
    Lookup(String),
}

/// `type NAME`, up to the search of the executables: a usage error unless there is
/// exactly one argument, the answer for a builtin, or the name to look up.
pub fn type_cmd(args: &[String]) -> (r: TypeStep)
    ensures
        args@.len() != 1 ==> (r matches TypeStep::Done(rep) && texts(rep.out@).len() == 0
            && texts(rep.err@) == seq!["type: usage: type NAME"@] && rep.status == 2),
        args@.len() == 1 && builtin_names().contains(args@[0]@) ==> (r matches TypeStep::Done(rep)
            && texts(rep.out@) == seq![args@[0]@ + " is a shell builtin"@]
            && texts(rep.err@).len() == 0 && rep.status == 0),
        args@.len() == 1 && !builtin_names().contains(args@[0]@) ==> (r matches TypeStep::Lookup(name)
            && name@ == args@[0]@),
{
    if args.len() != 1 {
        return TypeStep::Done(error_report(String::from_str("type: usage: type NAME"), 2));
    }
    let cmd = args[0].clone();
    if is_builtin(cmd.as_str()) {
        let mut line = cmd;
        line.append(" is a shell builtin");
        return TypeStep::Done(output_report(line, 0));
    }
    TypeStep::Lookup(cmd)
}

/// `type NAME` once the search path was searched: `file` is the executable found, or
/// empty where none was.
pub fn type_lookup_result(name: &str, file: &str) -> (r: Report)
    ensures
        file@.len() > 0 ==> texts(r.out@) == seq![name@ + " is "@ + file@] && texts(r.err@).len() == 0
            && r.status == 0,
        file@.len() == 0 ==> texts(r.err@) == seq![name@ + ": not found"@] && texts(r.out@).len() == 0
            && r.status == 1,
{
    if !file.is_empty() {
        let mut line = String::from_str(name);
        line.append(" is ");
        line.append(file);
        output_report(line, 0)
    } else {
        let mut line = String::from_str(name);
        line.append(": not found");
        error_report(line, 1)
    }
}

/// What `cd` does next.
pub enum CdStep {
    /// Nothing: `cd` without arguments ends with status 0.
    Stay,
    /// Change to the home directory.
    Home,
    /// Change to this directory.
    Dir(String),
}

/// `cd`, up to the change of directory: no argument leaves the directory, `~` means the
/// home directory, anything else is the directory itself; arguments after the first are
/// ignored.
pub fn cd_cmd(args: &[String]) -> (r: CdStep)
    ensures
        args@.len() == 0 ==> r is Stay,
        args@.len() > 0 && args@[0]@ == "~"@ ==> r is Home,
        args@.len() > 0 && args@[0]@ != "~"@ ==> (r matches CdStep::Dir(d) && d@ == args@[0]@),
{
    if args.len() == 0 {
        return CdStep::Stay;
    }
    if str_equals(args[0].as_str(), "~") {
        CdStep::Home
    } else {
        CdStep::Dir(args[0].clone())
    }
}

/// Why a change of directory failed.
pub enum CdErrorKind {
    NotFound,
    PermissionDenied,
    Other,
}

/// The text `cd` gives for a kind of failure.
pub open spec fn cd_error_text(kind: CdErrorKind) -> Seq<char> {
    match kind {
        CdErrorKind::NotFound => "No such file or directory"@,
        CdErrorKind::PermissionDenied => "Permission denied"@,
        CdErrorKind::Other => "Error"@,
    }
}

/// The report of `cd` when changing to `path` failed.
pub fn cd_error(path: &str, kind: CdErrorKind) -> (r: Report)
    ensures
        texts(r.err@) == seq!["cd: "@ + path@ + ": "@ + cd_error_text(kind)],
        texts(r.out@).len() == 0,
        r.status == 1,
{
    let mut line = String::from_str("cd: ");
    line.append(path);
    line.append(": ");
    match kind {
        CdErrorKind::NotFound => line.append("No such file or directory"),
        CdErrorKind::PermissionDenied => line.append("Permission denied"),
        CdErrorKind::Other => line.append("Error"),
    }
    error_report(line, 1)
}

// ---------------------------------------------------------------------------
// History.
// ---------------------------------------------------------------------------

/// The line editor's history kept in a file, `rustyline::history::FileHistory`; its
/// entries are seen only through [`history_entries`].
#[verifier::external_type_specification]
#[verifier::external_body]
pub struct ExFileHistory(FileHistory);

/// The entries of a line-editor history, oldest first: the lines that
/// `FileHistory::iter` yields, in its order.
pub uninterp spec fn history_entries(h: FileHistory) -> Seq<Seq<char>>;

/// `History::len` of `FileHistory`: claimed to be the number of entries that `iter` yields
/// (both read the same in-memory list of entries).
#[verifier::external_body]
fn history_len(history: &FileHistory) -> (n: usize)
    ensures
        n == history_entries(*history).len(),
{
    history.len()
}

/// `FileHistory::iter`: claimed to yield the entries of the history, oldest first; each is
/// copied out as a `String`.
#[verifier::external_body]
fn history_iter(history: &FileHistory) -> (v: Vec<String>)
    ensures
        texts(v@) == history_entries(*history),
{
    history.iter().cloned().collect()
}

/// The number of entries of a history.
pub fn history_size(history: &FileHistory) -> (n: usize)
    ensures
        n == history_entries(*history).len(),
{
    history_len(history)
}

/// The line with which the history listing shows entry `entry` at position `k`.
pub open spec fn history_line(k: nat, entry: Seq<char>) -> Seq<char> {
    "  "@ + decimal(k) + " "@ + entry
}

/// How many of the oldest entries a listing of the last `bound` ones passes over.
pub open spec fn listing_skip(size: nat, bound: nat) -> nat {
    if bound < size { (size - bound) as nat } else { 0 }
}

/// The listing of the last `bound` entries of `entries`, each numbered by its position
/// counted from one.
pub open spec fn history_listing(entries: Seq<Seq<char>>, bound: nat) -> Seq<Seq<char>> {
    let skip = listing_skip(entries.len(), bound);
    Seq::new((entries.len() - skip) as nat, |i: int| history_line((skip + i + 1) as nat, entries[skip + i]))
}

/// The `history` options that act on a file.
pub enum HistoryFlag {
    /// `-r`: read the file into the history.
    Read,
    /// `-w`: write the whole history to the file.
    Write,
    /// `-a`: append to the file what was not written yet.
    Append,
}

/// The option a `history` flag names.
pub open spec fn spec_history_flag(flag: Seq<char>) -> Option<HistoryFlag> {
    if flag == "-r"@ {
        Some(HistoryFlag::Read)
    } else if flag == "-w"@ {
        Some(HistoryFlag::Write)
    } else if flag == "-a"@ {
        Some(HistoryFlag::Append)
    } else {
        None
    }
}

/// What `history` does next.
pub enum HistoryStep {
    /// It is done, with this report.
    Done(Report),
    /// Act on the history file at this path.
    File(HistoryFlag, String),
}

/// The usage line of `history`.
pub open spec fn history_usage() -> Seq<char> {
    "history: usage: history [N]"@
}

/// `history [N]` and `history FLAG PATH`: lists the last N entries (all without N), or
/// names the action on a file; other argument lists are usage errors (status 2).
pub fn history_cmd(history: &FileHistory, args: &[String]) -> (r: HistoryStep)
    ensures
        ({
            let entries = history_entries(*history);
            if args@.len() == 0 {
                r matches HistoryStep::Done(rep) && texts(rep.out@) == history_listing(entries, entries.len())
                    && texts(rep.err@).len() == 0 && rep.status == 0
            } else if spec_parse_usize(args@[0]@) is Some {
                if args@.len() == 1 {
                    r matches HistoryStep::Done(rep)
                        && texts(rep.out@) == history_listing(entries, spec_parse_usize(args@[0]@)->0 as nat)
                        && texts(rep.err@).len() == 0 && rep.status == 0
                } else {
                    r matches HistoryStep::Done(rep) && texts(rep.err@) == seq![history_usage()]
                        && texts(rep.out@).len() == 0 && rep.status == 2
                }
            } else if args@.len() == 2 {
                match spec_history_flag(args@[0]@) {
                    Some(f) => r matches HistoryStep::File(g, p) && g == f && p@ == args@[1]@,
                    None => r matches HistoryStep::Done(rep)
                        && texts(rep.err@) == seq!["history: invalid argument: "@ + args@[0]@]
                        && texts(rep.out@).len() == 0 && rep.status == 2,
                }
            } else {
                r matches HistoryStep::Done(rep) && texts(rep.err@) == seq![history_usage()]
                    && texts(rep.out@).len() == 0 && rep.status == 2
            }
        }),
{
    let size = history_len(history);
    let bound = if args.len() == 0 {
        size
    } else {
        match parse_usize(args[0].as_str()) {
            Some(val) => {
                if args.len() == 1 {
                    val
                } else {
                    return HistoryStep::Done(error_report(String::from_str("history: usage: history [N]"), 2));
                }
            },
            None => {
                if args.len() == 2 {
                    return history_flags(args[0].as_str(), &args[1]);
                } else {
                    return HistoryStep::Done(error_report(String::from_str("history: usage: history [N]"), 2));
                }
            },
        }
    };
    let skip = if bound < size { size - bound } else { 0 };
    let entries = history_iter(history);
    let ghost all = history_entries(*history);
    let mut out: Vec<String> = Vec::new();
    let mut i: usize = skip;
    while i < entries.len()
        invariant
            skip <= i <= entries.len(),
            entries.len() == size,
            texts(entries@) == all,
            all.len() == size,
            skip == listing_skip(size as nat, bound as nat),
            texts(out@) == history_listing(all, bound as nat).take(i - skip),
        decreases entries.len() - i,
    {
        let mut line = String::from_str("  ");
        line.append(to_decimal(i + 1).as_str());
        line.append(" ");
        line.append(entries[i].as_str());
        let ghost prev = texts(out@);
        out.push(line);
        proof {
            assert(texts(entries@)[i as int] == entries@[i as int]@);
            assert(texts(out@) =~= prev.push(history_line((i + 1) as nat, all[i as int])));
            assert(history_listing(all, bound as nat).take(i + 1 - skip) =~= prev.push(
                history_line((i + 1) as nat, all[i as int])));
        }
        i = i + 1;
    }
    assert(history_listing(all, bound as nat).take(size - skip) =~= history_listing(all, bound as nat));
    let rep = Report { out, err: Vec::new(), status: 0 };
    assert(texts(rep.err@) =~= Seq::<Seq<char>>::empty());
    HistoryStep::Done(rep)
}

/// `history FLAG PATH`: the action on the file, or the error for an unknown flag.
fn history_flags(flag: &str, history_path: &String) -> (r: HistoryStep)
    ensures
        match spec_history_flag(flag@) {
            Some(f) => r matches HistoryStep::File(g, p) && g == f && p@ == history_path@,
            None => r matches HistoryStep::Done(rep)
                && texts(rep.err@) == seq!["history: invalid argument: "@ + flag@]
                && texts(rep.out@).len() == 0 && rep.status == 2,
        },
{
    if str_equals(flag, "-r") {
        HistoryStep::File(HistoryFlag::Read, history_path.clone())
    } else if str_equals(flag, "-w") {
        HistoryStep::File(HistoryFlag::Write, history_path.clone())
    } else if str_equals(flag, "-a") {
        HistoryStep::File(HistoryFlag::Append, history_path.clone())
    } else {
        let mut line = String::from_str("history: invalid argument: ");
        line.append(flag);
        HistoryStep::Done(error_report(line, 2))
    }
}

/// The entries after the first `written` ones (none where `written` reaches past the end).
pub open spec fn pending_lines(entries: Seq<Seq<char>>, written: nat) -> Seq<Seq<char>> {
    entries.skip(if written <= entries.len() { written as int } else { entries.len() as int })
}

/// The report of `history` once the file action of a flag is done: nothing and status 0
/// where it succeeded, else one line `history: PATH ERROR` on standard error and status 1.
pub fn history_file_report(history_path: &str, error: Option<String>) -> (r: Report)
    ensures
        error is None ==> texts(r.out@).len() == 0 && texts(r.err@).len() == 0 && r.status == 0,
        error matches Some(e) ==> texts(r.out@).len() == 0
            && texts(r.err@) == seq!["history: "@ + history_path@ + " "@ + e@] && r.status == 1,
{
    match error {
        None => {
            let r = Report { out: Vec::new(), err: Vec::new(), status: 0 };
            assert(texts(r.out@) =~= Seq::<Seq<char>>::empty());
            assert(texts(r.err@) =~= Seq::<Seq<char>>::empty());
            r
        },
        Some(e) => {
            let mut line = String::from_str("history: ");
            line.append(history_path);
            line.append(" ");
            line.append(e.as_str());
            error_report(line, 1)
        },
    }
}

/// The three flags that act on a file are not numbers, so `history FLAG PATH` reaches the
/// file action for each of them, and each names its own action.
pub proof fn law_history_flags_reachable()
    ensures
        spec_parse_usize("-r"@) is None && spec_history_flag("-r"@) == Some(HistoryFlag::Read),
        spec_parse_usize("-w"@) is None && spec_history_flag("-w"@) == Some(HistoryFlag::Write),
        spec_parse_usize("-a"@) is None && spec_history_flag("-a"@) == Some(HistoryFlag::Append),
{
    reveal_strlit("-r");
    reveal_strlit("-w");
    reveal_strlit("-a");
    assert(!crate::text::is_digit("-r"@[0]));
    assert(!crate::text::is_digit("-w"@[0]));
    assert(!crate::text::is_digit("-a"@[0]));
    assert("-r"@ != "-w"@ && "-r"@ != "-a"@ && "-w"@ != "-a"@) by {
        assert("-r"@[1] != "-w"@[1] && "-r"@[1] != "-a"@[1] && "-w"@[1] != "-a"@[1]);
    }
}

/// How a history file is written: the count of entries taken as written once the file
/// is open, the lines to write, and the count once they are written.
pub struct HistoryWrite {
    pub start: usize,
    pub lines: Vec<String>,
    pub done: usize,
}

/// Writing the history to a file, where `saved` entries were written before: appending
/// writes the entries after those, overwriting writes them all; afterwards all count as
/// written.
pub fn write_history_plan(history: &FileHistory, saved: usize, append: bool) -> (w: HistoryWrite)
    ensures
        w.start == (if append { saved } else { 0 }),
        texts(w.lines@) == pending_lines(history_entries(*history), w.start as nat),
        w.done == history_entries(*history).len(),
{
    let start = if append { saved } else { 0 };
    let entries = history_iter(history);
    let ghost all = history_entries(*history);
    let mut lines: Vec<String> = Vec::new();
    let first = if start <= entries.len() { start } else { entries.len() };
    let mut i = first;
    while i < entries.len()
        invariant
            first <= i <= entries.len(),
            texts(entries@) == all,
            texts(lines@) == all.subrange(first as int, i as int),
        decreases entries.len() - i,
    {
        let ghost prev = texts(lines@);
        assert(texts(entries@)[i as int] == entries@[i as int]@);
        lines.push(entries[i].clone());
        assert(texts(lines@) =~= prev.push(all[i as int]));
        assert(all.subrange(first as int, i + 1) =~= prev.push(all[i as int]));
        i = i + 1;
    }
    assert(all.subrange(first as int, all.len() as int) =~= all.skip(first as int));
    let done = history_len(history);
    HistoryWrite { start, lines, done }
}

/// Once a write has counted all entries as written, an append writes nothing; an
/// overwrite always writes every entry.
pub proof fn law_append_after_write(entries: Seq<Seq<char>>)
    ensures
        pending_lines(entries, entries.len()) == Seq::<Seq<char>>::empty(),
        pending_lines(entries, 0) == entries,
{
    assert(pending_lines(entries, entries.len()) =~= Seq::<Seq<char>>::empty());
    assert(pending_lines(entries, 0) =~= entries);
}

/// A listing of the last `bound` entries shows as many lines as there are entries, at most
/// `bound`, and its last line, where there is one, shows the newest entry numbered by the
/// size of the history.
pub proof fn law_listing_shows_last(entries: Seq<Seq<char>>, bound: nat)
    ensures
        history_listing(entries, bound).len() == (if bound < entries.len() { bound } else { entries.len() }),
        history_listing(entries, bound).len() > 0 ==> history_listing(entries, bound).last()
            == history_line(entries.len(), entries.last()),
{
}
} // verus!
