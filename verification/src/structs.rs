//! The data the shell passes between parsing and execution.
use vstd::prelude::*;
use crate::parser::{tokenize, parse_simple, spec_tokenize, spec_parse_simple};
use crate::cmd::built_in_cmds::builtin_names;
use crate::text::{chars_of, string_of, starts_with, is_prefix, is_whitespace, is_white_space};
use crate::text::{last_white_space, lemma_last_white_space};
use crate::text::{byte_offset, is_char_offset, char_index, lemma_byte_offset_step, lemma_byte_offset_grows, utf8_len};

verus! {

/// One command line, split into words.
pub struct Config {
    pub cmd: Vec<String>,
}

/// A tree of commands: an operator and, possibly, the rest of the line below it.
pub struct AST {
    pub op: Node,
    pub kids: Option<Box<AST>>,
}

/// The kinds of node of an [`AST`].
pub enum Node {
    Simple(SimpleCmd),
    Pipeline,
    Sequence,
    Group,
}

/// A file that a stream is sent to, and whether it is appended to.
#[derive(Debug, PartialEq, Eq)]
pub struct TargetFile {
    pub path: String,
    pub append: bool,
}

/// Where a stream of a command goes.
#[derive(Debug, PartialEq, Eq)]
pub enum StreamTarget {
    Terminal,
    File(TargetFile),
}

/// A command with its arguments, the targets of its two output streams and the file its
/// input is read from, if any.
#[derive(Debug, PartialEq, Eq)]
pub struct SimpleCmd {
    pub args: Vec<String>,
    pub stdout: StreamTarget,
    pub stderr: StreamTarget,
    pub stdin: Option<String>,
}

/// A lexical unit of a command line.
#[derive(Debug, PartialEq, Eq)]
pub enum Token {
    Word(String),
    Op(OpKind),
}

/// The operators the shell recognises.
#[derive(Debug, Clone, Copy, PartialEq, Eq, Structural)]
pub enum OpKind {
    RedirOutTruncate,
    RedirOutAppend,
    RedirErrTruncate,
    RedirErrAppend,
    Pipeline,
    RedirIn,
}

/// What a [`Token`] stands for: its text, or the operator.
pub enum TokenView {
    Word(Seq<char>),
    Op(OpKind),
}

/// What a [`StreamTarget`] stands for.
pub enum TargetView {
    Terminal,
    File { path: Seq<char>, append: bool },
}

/// What a [`SimpleCmd`] stands for.
pub struct SimpleCmdView {
    pub args: Seq<Seq<char>>,
    pub stdout: TargetView,
    pub stderr: TargetView,
    pub stdin: Option<Seq<char>>,
}

/// The text of an optional string.
pub open spec fn opt_text(o: Option<String>) -> Option<Seq<char>> {
    match o {
        Some(s) => Some(s@),
        None => None,
    }
}

/// The texts of a sequence of strings.
pub open spec fn texts(v: Seq<String>) -> Seq<Seq<char>> {
    v.map_values(|s: String| s@)
}

impl View for Token {
    type V = TokenView;

    open spec fn view(&self) -> TokenView {
        match self {
            Token::Word(s) => TokenView::Word(s@),
            Token::Op(k) => TokenView::Op(*k),
        }
    }
}

impl View for StreamTarget {
    type V = TargetView;

    open spec fn view(&self) -> TargetView {
        match self {
            StreamTarget::Terminal => TargetView::Terminal,
            StreamTarget::File(f) => TargetView::File { path: f.path@, append: f.append },
        }
    }
}

impl View for SimpleCmd {
    type V = SimpleCmdView;

    open spec fn view(&self) -> SimpleCmdView {
        SimpleCmdView {
            args: texts(self.args@),
            stdout: self.stdout@,
            stderr: self.stderr@,
            stdin: opt_text(self.stdin),
        }
    }
}

/// The views of a sequence of tokens.
pub open spec fn token_views(v: Seq<Token>) -> Seq<TokenView> {
    v.map_values(|t: Token| t@)
}

/// The views of a sequence of commands.
pub open spec fn cmd_views(v: Seq<SimpleCmd>) -> Seq<SimpleCmdView> {
    v.map_values(|c: SimpleCmd| c@)
}


impl SimpleCmd {
    /// The command that a line describes, with no variable set.
    pub fn build(input: &str) -> (c: SimpleCmd)
        ensures
            c@ == spec_parse_simple(spec_tokenize(input@)),
    {
        let tokens = tokenize(input);
        parse_simple(tokens.as_slice())
    }
}

/// The words that completion offers: the builtin names, each followed by a space.
pub open spec fn completion_words() -> Seq<Seq<char>> {
    builtin_names().map_values(|w: Seq<char>| w.push(' '))
}

/// The texts of a sequence of string slices.
pub open spec fn str_texts(v: Seq<&str>) -> Seq<Seq<char>> {
    v.map_values(|s: &str| s@)
}

/// The candidates among `cands` that start with `prefix`, in order.
pub open spec fn matching(cands: Seq<Seq<char>>, prefix: Seq<char>) -> Seq<Seq<char>>
    decreases cands.len(),
{
    if cands.len() == 0 {
        Seq::empty()
    } else {
        let m = matching(cands.drop_last(), prefix);
        if is_prefix(prefix, cands.last()) {
            m.push(cands.last())
        } else {
            m
        }
    }
}

/// Where the word under the cursor begins in `before`, the text before the cursor: just
/// after its last white space, or at 0.
pub open spec fn word_start(before: Seq<char>) -> int {
    last_white_space(before) + 1
}

/// Completion of the command names the shell runs itself.
pub struct MyHelper {
    builtin_cmds: Vec<&'static str>,
}

impl MyHelper {
    /// The words this helper completes to, in order.
    pub closed spec fn candidates(&self) -> Seq<Seq<char>> {
        str_texts(self.builtin_cmds@)
    }

    /// A helper that completes the builtin names.
    pub fn new() -> (h: MyHelper)
        ensures
            h.candidates() == completion_words(),
    {
        proof {
            reveal_strlit("cd ");
            reveal_strlit("echo ");
            reveal_strlit("exit ");
            reveal_strlit("type ");
            reveal_strlit("pwd ");
            reveal_strlit("history ");
        }
        let h = MyHelper { builtin_cmds: vec!["cd ", "echo ", "exit ", "type ", "pwd ", "history "] };
        let ghost names = builtin_names();
        assert(h.builtin_cmds@[0]@ =~= names[0].push(' '));
        assert(h.builtin_cmds@[1]@ =~= names[1].push(' '));
        assert(h.builtin_cmds@[2]@ =~= names[2].push(' '));
        assert(h.builtin_cmds@[3]@ =~= names[3].push(' '));
        assert(h.builtin_cmds@[4]@ =~= names[4].push(' '));
        assert(h.builtin_cmds@[5]@ =~= names[5].push(' '));
        assert(h.candidates() =~= completion_words());
        h
    }

    /// Completes the word before the cursor at byte position `pos` of `line`: gives the
    /// byte position where that word begins (just after the last white space before the
    /// cursor) and the candidates that start with it, in order. The cursor stands on a
    /// character boundary, and the last white space before it, if any, is a one-byte
    /// character.
    pub fn complete(&self, line: &str, pos: usize) -> (r: (usize, Vec<&'static str>))
        requires
            is_char_offset(line@, pos as int),
            last_white_space(line@.take(char_index(line@, pos as int))) < 0
                || (line@[last_white_space(line@.take(char_index(line@, pos as int)))] as u32) < 0x80,
        ensures
            r.0 == byte_offset(line@, word_start(line@.take(char_index(line@, pos as int)))),
            str_texts(r.1@) == matching(
                self.candidates(),
                line@.subrange(
                    word_start(line@.take(char_index(line@, pos as int))),
                    char_index(line@, pos as int),
                ),
            ),
    {
        let chars = chars_of(line);
        let ghost k0 = char_index(line@, pos as int);
        assert(line@.take(0) =~= Seq::<char>::empty());
        assert(vstd::utf8::encode_utf8(Seq::<char>::empty()) =~= Seq::<u8>::empty());
        let mut k: usize = 0;
        let mut b: usize = 0;
        while b < pos
            invariant
                chars@ == line@,
                0 <= k0 <= chars.len(),
                byte_offset(line@, k0) == pos,
                k <= k0,
                b == byte_offset(line@, k as int),
            decreases pos - b,
        {
            proof {
                lemma_byte_offset_step(line@, k as int);
                lemma_byte_offset_grows(line@, k + 1, k0);
            }
            let w = utf8_len(chars[k]);
            b = b + w;
            k = k + 1;
        }
        proof { lemma_byte_offset_grows(line@, k as int, k0); }
        assert(k == k0);
        let ghost before = line@.take(k as int);
        proof { lemma_last_white_space(before); }
        let mut start: usize = k;
        let mut sb: usize = b;
        while start > 0 && !is_whitespace(chars[start - 1])
            invariant
                chars@ == line@,
                k <= chars.len(),
                before == line@.take(k as int),
                start <= k,
                sb == byte_offset(line@, start as int),
                forall|i: int| start <= i < k ==> !is_white_space(#[trigger] before[i]),
            decreases start,
        {
            assert(before[start - 1] == chars@[start - 1]);
            proof { lemma_byte_offset_step(line@, start - 1); }
            let w = utf8_len(chars[start - 1]);
            sb = sb - w;
            start = start - 1;
        }
        proof {
            if start > 0 {
                assert(before[start - 1] == chars@[start - 1]);
                assert(start - 1 <= last_white_space(before));
            } else {
                assert(last_white_space(before) < 0);
            }
        }
        let prefix = string_of(vstd::slice::slice_subrange(chars.as_slice(), start, k));
        assert(prefix@ =~= line@.subrange(start as int, k as int));
        let mut matches: Vec<&'static str> = Vec::new();
        let mut i: usize = 0;
        assert(self.candidates().take(0) =~= Seq::<Seq<char>>::empty());
        assert(str_texts(matches@) =~= Seq::<Seq<char>>::empty());
        while i < self.builtin_cmds.len()
            invariant
                i <= self.builtin_cmds.len(),
                str_texts(matches@) == matching(self.candidates().take(i as int), prefix@),
            decreases self.builtin_cmds.len() - i,
        {
            let cmd = self.builtin_cmds[i];
            let ghost prev = str_texts(matches@);
            assert(self.candidates().take(i + 1).drop_last() =~= self.candidates().take(i as int));
            assert(self.candidates().take(i + 1).last() == cmd@);
            if starts_with(cmd, prefix.as_str()) {
                matches.push(cmd);
                assert(str_texts(matches@) =~= prev.push(cmd@));
            }
            i = i + 1;
        }
        assert(self.candidates().take(self.builtin_cmds.len() as int) =~= self.candidates());
        (sb, matches)
    }
}

/// Completion offers exactly the candidates that start with the word before the cursor.
pub proof fn law_completion_offers_matches(cands: Seq<Seq<char>>, prefix: Seq<char>)
    ensures
        forall|x: Seq<char>| matching(cands, prefix).contains(x) <==> (cands.contains(x) && is_prefix(prefix, x)),
    decreases cands.len(),
{
    if cands.len() > 0 {
        let init = cands.drop_last();
        law_completion_offers_matches(init, prefix);
        let m = matching(init, prefix);
        let last = cands.last();
        assert forall|x: Seq<char>| matching(cands, prefix).contains(x) implies (cands.contains(x) && is_prefix(prefix, x)) by {
            let full = matching(cands, prefix);
            let j = choose|j: int| 0 <= j < full.len() && full[j] == x;
            if is_prefix(prefix, last) && j == m.len() {
                assert(cands[cands.len() - 1] == x);
            } else {
                assert(m[j] == x);
                assert(m.contains(x));
                assert(init.contains(x) && is_prefix(prefix, x));
                let k = choose|k: int| 0 <= k < init.len() && init[k] == x;
                assert(cands[k] == x);
            }
        }
        assert forall|x: Seq<char>| cands.contains(x) && is_prefix(prefix, x) implies matching(cands, prefix).contains(x) by {
            let k = choose|k: int| 0 <= k < cands.len() && cands[k] == x;
            if k < cands.len() - 1 {
                assert(init[k] == x);
                assert(init.contains(x));
                assert(m.contains(x));
                let j = choose|j: int| 0 <= j < m.len() && m[j] == x;
                if is_prefix(prefix, last) {
                    assert(m.push(last)[j] == x);
                }
            } else {
                assert(m.push(last)[m.len() as int] == x);
            }
        }
    }
}

/// At the start of a word, completion offers every candidate, in order.
pub proof fn law_empty_word_offers_all(cands: Seq<Seq<char>>)
    ensures
        matching(cands, Seq::empty()) == cands,
    decreases cands.len(),
{
    if cands.len() > 0 {
        law_empty_word_offers_all(cands.drop_last());
        assert(cands.last().take(0) =~= Seq::<char>::empty());
        assert(cands.drop_last().push(cands.last()) =~= cands);
    }
}
} // verus!
