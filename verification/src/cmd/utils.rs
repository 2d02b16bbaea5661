//! Finding executables and reading the outcome of running them.
use vstd::prelude::*;
use crate::structs::texts;
use crate::text::{chars_of, join, string_of};
use crate::cmd::built_in_cmds::Report;

verus! {

/// The pieces of `s` between the occurrences of `sep`, after the pieces `acc` and with the
/// piece `cur` begun: one more piece than there are separators.
pub open spec fn split_from(s: Seq<char>, sep: char, cur: Seq<char>, acc: Seq<Seq<char>>) -> Seq<Seq<char>>
    decreases s.len(),
{
    if s.len() == 0 {
        acc.push(cur)
    } else if s[0] == sep {
        split_from(s.drop_first(), sep, Seq::empty(), acc.push(cur))
    } else {
        split_from(s.drop_first(), sep, cur.push(s[0]), acc)
    }
}

/// The pieces of `s` between the occurrences of `sep`, as `str::split` gives them.
pub open spec fn split_on(s: Seq<char>, sep: char) -> Seq<Seq<char>> {
    split_from(s, sep, Seq::empty(), Seq::empty())
}

/// Splits `s` at each occurrence of `sep`.
pub fn split_char(s: &str, sep: char) -> (r: Vec<String>)
    ensures
        texts(r@) == split_on(s@, sep),
{
    let c = chars_of(s);
    let mut out: Vec<String> = Vec::new();
    let mut cur: Vec<char> = Vec::new();
    let mut i: usize = 0;
    assert(c@.skip(0) =~= s@);
    assert(texts(out@) =~= Seq::<Seq<char>>::empty());
    assert(cur@ =~= Seq::<char>::empty());
    while i < c.len()
        invariant
            c@ == s@,
            i <= c.len(),
            split_from(c@.skip(i as int), sep, cur@, texts(out@)) == split_on(s@, sep),
        decreases c.len() - i,
    {
        let ghost rest = c@.skip(i as int);
        assert(rest.drop_first() =~= c@.skip(i + 1));
        if c[i] == sep {
            let ghost prev = texts(out@);
            let piece = string_of(cur.as_slice());
            out.push(piece);
            assert(texts(out@) =~= prev.push(cur@));
            cur = Vec::new();
            assert(cur@ =~= Seq::<char>::empty());
        } else {
            cur.push(c[i]);
        }
        i = i + 1;
    }
    assert(c@.skip(i as int) =~= Seq::<char>::empty());
    let ghost prev = texts(out@);
    let piece = string_of(cur.as_slice());
    out.push(piece);
    assert(texts(out@) =~= prev.push(cur@));
    out
}

/// The path of `cmd` in the directory `dir`.
pub open spec fn path_in(dir: Seq<char>, cmd: Seq<char>) -> Seq<char> {
    dir + seq!['/'] + cmd
}

/// The files at which `cmd` is looked for, in order: one in each directory of the
/// search path `path_var`, empty directories included.
pub open spec fn spec_search_paths(path_var: Seq<char>, cmd: Seq<char>) -> Seq<Seq<char>> {
    split_on(path_var, ':').map_values(|d: Seq<char>| path_in(d, cmd))
}

/// The files at which `cmd` is looked for along the search path `path_var`.
pub fn search_paths(path_var: &str, cmd: &str) -> (r: Vec<String>)
    ensures
        texts(r@) == spec_search_paths(path_var@, cmd@),
{
    let dirs = split_char(path_var, ':');
    let ghost ds = texts(dirs@);
    let mut out: Vec<String> = Vec::new();
    let mut i: usize = 0;
    while i < dirs.len()
        invariant
            i <= dirs.len(),
            ds == texts(dirs@),
            ds == split_on(path_var@, ':'),
            texts(out@) == spec_search_paths(path_var@, cmd@).take(i as int),
        decreases dirs.len() - i,
    {
        let ghost prev = texts(out@);
        let mut file = dirs[i].clone();
        file.append("/");
        file.append(cmd);
        assert(ds[i as int] == dirs@[i as int]@);
        proof { reveal_strlit("/"); }
        assert("/"@ =~= seq!['/']);
        assert(file@ == path_in(ds[i as int], cmd@));
        out.push(file);
        assert(texts(out@) =~= prev.push(path_in(ds[i as int], cmd@)));
        assert(texts(out@) =~= spec_search_paths(path_var@, cmd@).take(i + 1));
        i = i + 1;
    }
    assert(spec_search_paths(path_var@, cmd@).take(dirs.len() as int) =~= spec_search_paths(path_var@, cmd@));
    out
}

/// Whether a file mode lets the file's owner execute it (the bit of value `0o100`).
pub open spec fn owner_may_execute(mode: u32) -> bool {
    (mode / 64) % 2 == 1
}

/// Whether the owner-execute bit of a file mode is set.
pub fn is_executable_mode(mode: u32) -> (r: bool)
    ensures
        r == owner_may_execute(mode),
{
    assert((mode & 0o100u32 != 0) == ((mode / 64) % 2 == 1)) by (bit_vector);
    mode & 0o100 != 0
}

/// The owner may execute a file exactly where the owner-execute bit `0o100` of its mode is
/// set, whatever its file-type and special bits.
pub proof fn law_owner_execute_bit(mode: u32)
    ensures
        owner_may_execute(mode) <==> (mode & 0o100u32) != 0,
{
    assert(((mode / 64) % 2 == 1) <==> ((mode & 0o100u32) != 0)) by (bit_vector);
}

/// Whether a file, by its mode where it exists, is one its owner may execute.
pub open spec fn is_exec_mode(m: Option<u32>) -> bool {
    match m {
        Some(mode) => owner_may_execute(mode),
        None => false,
    }
}

/// The position of the first mode that lets its owner execute the file, if any.
pub open spec fn spec_first_executable(modes: Seq<Option<u32>>) -> Option<int>
    decreases modes.len(),
{
    if modes.len() == 0 {
        None
    } else if is_exec_mode(modes[0]) {
        Some(0)
    } else {
        match spec_first_executable(modes.drop_first()) {
            Some(i) => Some(i + 1),
            None => None,
        }
    }
}

/// The first of the candidate files that exists and lets its owner execute it, given the
/// mode of each candidate where its file exists (`None` where it does not), pair by pair;
/// empty where there is none.
pub fn executable_choice(candidates: &[String], modes: &[Option<u32>]) -> (r: String)
    ensures
        ({
            let n = if candidates@.len() <= modes@.len() { candidates@.len() } else { modes@.len() };
            match spec_first_executable(modes@.take(n as int)) {
                Some(i) => r@ == candidates@[i]@,
                None => r@.len() == 0,
            }
        }),
{
    let n = if candidates.len() <= modes.len() { candidates.len() } else { modes.len() };
    let ghost ms = modes@.take(n as int);
    let mut i: usize = 0;
    assert(ms.skip(0) =~= ms);
    while i < n
        invariant
            i <= n,
            n == (if candidates@.len() <= modes@.len() { candidates@.len() } else { modes@.len() }),
            ms == modes@.take(n as int),
            spec_first_executable(ms) == match spec_first_executable(ms.skip(i as int)) {
                Some(j) => Some(j + i),
                None => None::<int>,
            },
        decreases n - i,
    {
        let ghost rest = ms.skip(i as int);
        assert(rest[0] == modes@[i as int]);
        assert(rest.drop_first() =~= ms.skip(i + 1));
        match modes[i] {
            Some(mode) => {
                if is_executable_mode(mode) {
                    assert(is_exec_mode(rest[0]));
                    assert(spec_first_executable(rest) == Some(0int));
                    assert(spec_first_executable(ms) == Some(i as int));
                    return candidates[i].clone();
                }
            },
            None => {},
        }
        i = i + 1;
    }
    assert(ms.skip(i as int) =~= Seq::<Option<u32>>::empty());
    String::new()
}

/// Whether a candidate exists with the owner-execute bit `0o100` set in its mode.
pub open spec fn exec_bit_set(m: Option<u32>) -> bool {
    m matches Some(mode) && (mode & 0o100u32) != 0
}

/// The lookup picks the first candidate that exists with its owner-execute bit set, and
/// none where no candidate has it.
pub proof fn law_first_executable_wins(modes: Seq<Option<u32>>)
    ensures
        spec_first_executable(modes) matches Some(i) ==> 0 <= i < modes.len() && exec_bit_set(modes[i])
            && forall|j: int| 0 <= j < i ==> !exec_bit_set(#[trigger] modes[j]),
        spec_first_executable(modes) is None ==> forall|j: int| 0 <= j < modes.len() ==> !exec_bit_set(#[trigger] modes[j]),
    decreases modes.len(),
{
    if modes.len() > 0 {
        let t = modes.drop_first();
        law_first_executable_wins(t);
        match modes[0] {
            Some(mode) => law_owner_execute_bit(mode),
            None => {},
        }
        assert forall|j: int| 0 < j < modes.len() implies modes[j] == #[trigger] t[j - 1] by {}
        if !is_exec_mode(modes[0]) {
            assert(!exec_bit_set(modes[0]));
            assert forall|j: int| 0 < j < modes.len() && !exec_bit_set(t[j - 1])
                implies !exec_bit_set(#[trigger] modes[j]) by {}
        }
    }
}

/// The status a command ends with, from the exit code of the process that ran it: the
/// code itself, or 2 where the process ended without one (killed by a signal).
pub fn exit_status(code: Option<i32>) -> (r: i32)
    ensures
        r == (match code {
            Some(c) => c,
            None => 2i32,
        }),
{
    match code {
        Some(c) => c,
        None => 2,
    }
}

/// The report for a command that is neither a builtin nor found on the search path: one
/// line on standard output, status 1.
pub fn not_found_report(cmd: &str) -> (r: Report)
    ensures
        texts(r.out@) == seq![cmd@ + ": command not found"@],
        texts(r.err@).len() == 0,
        r.status == 1,
{
    let mut line = String::from_str(cmd);
    line.append(": command not found");
    let mut out: Vec<String> = Vec::new();
    out.push(line);
    let r = Report { out, err: Vec::new(), status: 1 };
    assert(texts(r.out@) =~= seq![line@]);
    assert(texts(r.err@) =~= Seq::<Seq<char>>::empty());
    r
}


/// The pieces `acc` joined by `sep`, followed by `sep` where there is any piece.
pub open spec fn joined_prefix(acc: Seq<Seq<char>>, sep: char) -> Seq<char> {
    if acc.len() == 0 { Seq::empty() } else { join(acc, seq![sep]) + seq![sep] }
}

proof fn lemma_join_push(acc: Seq<Seq<char>>, x: Seq<char>, sep: char)
    ensures
        join(acc.push(x), seq![sep]) == joined_prefix(acc, sep) + x,
{
    if acc.len() == 0 {
        assert(acc.push(x) =~= seq![x]);
        assert(Seq::<char>::empty() + x =~= x);
    } else {
        assert(acc.push(x).drop_last() =~= acc);
    }
}

proof fn lemma_split_from_join(s: Seq<char>, sep: char, cur: Seq<char>, acc: Seq<Seq<char>>)
    ensures
        join(split_from(s, sep, cur, acc), seq![sep]) == joined_prefix(acc, sep) + cur + s,
        split_from(s, sep, cur, acc).len() >= acc.len() + 1,
    decreases s.len(),
{
    if s.len() == 0 {
        lemma_join_push(acc, cur, sep);
        assert(joined_prefix(acc, sep) + cur + s =~= joined_prefix(acc, sep) + cur);
    } else if s[0] == sep {
        lemma_split_from_join(s.drop_first(), sep, Seq::empty(), acc.push(cur));
        lemma_join_push(acc, cur, sep);
        assert(joined_prefix(acc.push(cur), sep) + Seq::<char>::empty() + s.drop_first()
            =~= joined_prefix(acc, sep) + cur + s);
    } else {
        lemma_split_from_join(s.drop_first(), sep, cur.push(s[0]), acc);
        assert(joined_prefix(acc, sep) + cur.push(s[0]) + s.drop_first() =~= joined_prefix(acc, sep) + cur + s);
    }
}

/// Splitting loses nothing: the pieces joined again with the separator give back the
/// text, and there is always at least one piece.
pub proof fn law_split_rejoin(s: Seq<char>, sep: char)
    ensures
        join(split_on(s, sep), seq![sep]) == s,
        split_on(s, sep).len() >= 1,
{
    lemma_split_from_join(s, sep, Seq::empty(), Seq::empty());
    assert(joined_prefix(Seq::<Seq<char>>::empty(), sep) + Seq::<char>::empty() + s =~= s);
}
} // verus!
