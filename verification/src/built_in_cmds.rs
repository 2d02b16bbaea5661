//! The builtin commands of the crate's top-level command set: the same names as
//! [`crate::cmd::built_in_cmds`], with their own `history`, `type` and `cd` messages.
use vstd::prelude::*;
use rustyline::history::FileHistory;
use crate::cmd::built_in_cmds::{
    builtin_names, history_entries, history_listing, spec_history_flag, HistoryFlag, HistoryStep, Report,
};
use crate::structs::texts;
use crate::text::{join, join_strings, spec_parse_usize, parse_usize, str_equals};

verus! {

/// Whether `cmd` names one of the commands the shell runs itself; the same names as
/// [`crate::cmd::built_in_cmds::is_builtin`] recognises.
pub fn is_builtin(cmd: &str) -> (r: bool)
    ensures
        r == builtin_names().contains(cmd@),
{
    crate::cmd::built_in_cmds::is_builtin(cmd)
}

/// A report of lines on standard output only, with status 0.
fn plain_report(out: Vec<String>) -> (r: Report)
    ensures
        r.out@ == out@,
        texts(r.err@).len() == 0,
        r.status == 0,
{
    Report { out, err: Vec::new(), status: 0 }
}

/// `history` of this command set: without arguments lists every entry; `history N` lists
/// the last N entries, and gives `None` where N exceeds the number of entries (the count
/// of entries to pass over would be negative); `history -r|-w|-a PATH` names the action on
/// the file; any other first argument, or a flag without a path, does nothing. Arguments
/// after those used are ignored.
pub fn history_cmd(history: &FileHistory, args: &[String]) -> (r: Option<HistoryStep>)
    ensures
        ({
            let entries = history_entries(*history);
            if args@.len() == 0 {
                r matches Some(HistoryStep::Done(rep)) && texts(rep.out@) == history_listing(entries, entries.len())
                    && texts(rep.err@).len() == 0 && rep.status == 0
            } else if spec_parse_usize(args@[0]@) is Some {
                let n = spec_parse_usize(args@[0]@)->0;
                if n <= entries.len() {
                    r matches Some(HistoryStep::Done(rep)) && texts(rep.out@) == history_listing(entries, n as nat)
                        && texts(rep.err@).len() == 0 && rep.status == 0
                } else {
                    r is None
                }
            } else {
                match spec_history_flag(args@[0]@) {
                    Some(f) => if args@.len() >= 2 {
                        r matches Some(HistoryStep::File(g, p)) && g == f && p@ == args@[1]@
                    } else {
                        r matches Some(HistoryStep::Done(rep)) && texts(rep.out@).len() == 0
                            && texts(rep.err@).len() == 0 && rep.status == 0
                    },
                    None => r matches Some(HistoryStep::Done(rep)) && texts(rep.out@).len() == 0
                        && texts(rep.err@).len() == 0 && rep.status == 0,
                }
            }
        }),
{
    if args.len() == 0 {
        return Some(crate::cmd::built_in_cmds::history_cmd(history, args));
    }
    match parse_usize(args[0].as_str()) {
        Some(n) => {
            let size = crate::cmd::built_in_cmds::history_size(history);
            if n > size {
                return None;
            }
            let one = vstd::slice::slice_subrange(args, 0, 1);
            assert(one@ =~= seq![args@[0]]);
            Some(crate::cmd::built_in_cmds::history_cmd(history, one))
        },
        None => {
            let flag = args[0].as_str();
            if str_equals(flag, "-r") || str_equals(flag, "-w") || str_equals(flag, "-a") {
                if args.len() >= 2 {
                    let two = vstd::slice::slice_subrange(args, 0, 2);
                    assert(two@ =~= seq![args@[0], args@[1]]);
                    return Some(crate::cmd::built_in_cmds::history_cmd(history, two));
                }
            }
            let r = plain_report(Vec::new());
            assert(texts(r.out@) =~= Seq::<Seq<char>>::empty());
            Some(HistoryStep::Done(r))
        },
    }
}

/// What `type` of this command set does next.
pub enum TypeQuery {
    /// It is done, with this report.
    Done(Report),
    /// The name is looked up on the search path, after the lines `first` are printed.
    Lookup { first: Vec<String>, name: String },
}

/// `type` of this command set, up to the search of the executables: no argument prints an
/// empty line; more than one prints the arguments joined by spaces followed by
/// `: not found`, then goes on with the first; a builtin is answered; any other name is
/// looked up. Everything goes to standard output.
pub fn type_cmd(args: &[String]) -> (r: TypeQuery)
    ensures
        args@.len() == 0 ==> (r matches TypeQuery::Done(rep) && texts(rep.out@) == seq![Seq::<char>::empty()]
            && texts(rep.err@).len() == 0),
        args@.len() > 0 ==> ({
            let first = if args@.len() > 1 {
                seq![join(texts(args@), " "@) + ": not found"@]
            } else {
                Seq::<Seq<char>>::empty()
            };
            if builtin_names().contains(args@[0]@) {
                r matches TypeQuery::Done(rep) && texts(rep.out@) == first.push(args@[0]@ + " is a shell builtin"@)
                    && texts(rep.err@).len() == 0
            } else {
                r matches TypeQuery::Lookup { first: f, name: n } && texts(f@) == first && n@ == args@[0]@
            }
        }),
{
    if args.len() == 0 {
        let mut out: Vec<String> = Vec::new();
        out.push(String::new());
        let r = plain_report(out);
        assert(texts(r.out@) =~= seq![Seq::<char>::empty()]);
        return TypeQuery::Done(r);
    }
    let mut first: Vec<String> = Vec::new();
    if args.len() > 1 {
        let mut line = join_strings(args, " ");
        line.append(": not found");
        first.push(line);
        assert(texts(first@) =~= seq![join(texts(args@), " "@) + ": not found"@]);
    } else {
        assert(texts(first@) =~= Seq::<Seq<char>>::empty());
    }
    let cmd = args[0].clone();
    if is_builtin(cmd.as_str()) {
        let ghost before = texts(first@);
        let mut line = cmd;
        line.append(" is a shell builtin");
        first.push(line);
        assert(texts(first@) =~= before.push(args@[0]@ + " is a shell builtin"@));
        return TypeQuery::Done(plain_report(first));
    }
    TypeQuery::Lookup { first, name: cmd }
}

/// `type` of this command set once the search path was searched, `file` being the
/// executable found or empty: the lines `first`, then the answer, all on standard output.
pub fn type_answer(first: Vec<String>, name: &str, file: &str) -> (r: Report)
    ensures
        texts(r.out@) == texts(first@).push(
            if file@.len() > 0 { name@ + " is "@ + file@ } else { name@ + ": not found"@ }),
        texts(r.err@).len() == 0,
        r.status == 0,
{
    let ghost before = texts(first@);
    let mut out = first;
    let mut line = String::from_str(name);
    if !file.is_empty() {
        line.append(" is ");
        line.append(file);
    } else {
        line.append(": not found");
    }
    out.push(line);
    assert(texts(out@) =~= before.push(line@));
    plain_report(out)
}

/// The line `cd` of this command set prints when changing to `path` failed, whatever the
/// cause: on standard output.
pub fn cd_failure(path: &str) -> (r: Report)
    ensures
        texts(r.out@) == seq!["cd: "@ + path@ + ": No such file or directory"@],
        texts(r.err@).len() == 0,
        r.status == 0,
{
    let mut line = String::from_str("cd: ");
    line.append(path);
    line.append(": No such file or directory");
    let mut out: Vec<String> = Vec::new();
    out.push(line);
    assert(texts(out@) =~= seq![line@]);
    plain_report(out)
}

} // verus!
