//! Splitting a command line into tokens, and tokens into commands.
use vstd::prelude::*;
use crate::structs::{OpKind, SimpleCmd, StreamTarget, TargetFile, Token};
use crate::structs::{TokenView, TargetView, SimpleCmdView, token_views, cmd_views, texts, opt_text};
use crate::text::{chars_of, string_of, str_equals};
use crate::parser2::spec_words;

verus! {

// ---------------------------------------------------------------------------
// The lexical rules.
// ---------------------------------------------------------------------------

/// The variables a line is expanded with: names and values, the first binding of a name
/// counting.
pub type Vars = Seq<(Seq<char>, Seq<char>)>;

/// The variables a line is expanded with, or `None` where `$` is an ordinary character.
pub type Env = Option<Vars>;

/// The names and values of a list of variables.
pub open spec fn var_views(v: Seq<(String, String)>) -> Vars {
    v.map_values(|p: (String, String)| (p.0@, p.1@))
}

/// The variables of an optional list of variables.
pub open spec fn env_views(env: Option<&[(String, String)]>) -> Env {
    match env {
        Some(v) => Some(var_views(v@)),
        None => None,
    }
}

/// The value of the variable `name`: its first binding, or empty text where it is unset.
pub open spec fn lookup(vars: Vars, name: Seq<char>) -> Seq<char>
    decreases vars.len(),
{
    if vars.len() == 0 {
        Seq::empty()
    } else if vars[0].0 == name {
        vars[0].1
    } else {
        lookup(vars.drop_first(), name)
    }
}

/// Whether a character can begin a variable name: an ASCII letter or `_`.
pub open spec fn is_name_start(c: char) -> bool {
    ('a' <= c && c <= 'z') || ('A' <= c && c <= 'Z') || c == '_'
}

/// Whether a character can continue a variable name: an ASCII letter, digit or `_`.
pub open spec fn is_name_char(c: char) -> bool {
    is_name_start(c) || ('0' <= c && c <= '9')
}

/// The longest variable name at the front of `s`, and what follows it.
pub open spec fn var_name(s: Seq<char>) -> (Seq<char>, Seq<char>)
    decreases s.len(),
{
    if s.len() > 0 && is_name_char(s[0]) {
        let (name, rest) = var_name(s.drop_first());
        (seq![s[0]] + name, rest)
    } else {
        (Seq::empty(), s)
    }
}

/// What follows a variable name is never longer than the text it was cut from.
pub proof fn lemma_var_name_rest_shorter(s: Seq<char>)
    ensures
        var_name(s).1.len() <= s.len(),
        var_name(s).0 + var_name(s).1 == s,
    decreases s.len(),
{
    if s.len() > 0 && is_name_char(s[0]) {
        lemma_var_name_rest_shorter(s.drop_first());
        let n = var_name(s.drop_first()).0;
        let r = var_name(s.drop_first()).1;
        assert(n + r == s.drop_first());
        assert(seq![s[0]] + n + r =~= seq![s[0]] + (n + r));
        assert(seq![s[0]] + s.drop_first() =~= s);
    } else {
        assert(Seq::<char>::empty() + s =~= s);
    }
}

/// The characters that a backslash escapes inside double quotes.
pub open spec fn dq_escapable(c: char) -> bool {
    c == '"' || c == '$' || c == '\\' || c == '`'
}

/// A run of text opened by `quote` and taken literally: the characters up to the closing
/// `quote`, and what follows it. Without a closing quote the run takes the rest.
pub open spec fn quoted_literal(quote: char, s: Seq<char>) -> (Seq<char>, Seq<char>)
    decreases s.len(),
{
    if s.len() == 0 {
        (Seq::empty(), Seq::empty())
    } else if s[0] == quote {
        (Seq::empty(), s.drop_first())
    } else {
        let (body, rest) = quoted_literal(quote, s.drop_first());
        (seq![s[0]] + body, rest)
    }
}

/// A run of text opened by `quote` in which a backslash escapes the characters of
/// [`dq_escapable`] and stays in front of any other character, and, where there are
/// variables, `$` followed by a variable name stands for the variable's value: the text up
/// to the closing `quote`, and what follows it.
pub open spec fn quoted_escaped(quote: char, s: Seq<char>, env: Env) -> (Seq<char>, Seq<char>)
    decreases s.len(),
{
    if s.len() == 0 {
        (Seq::empty(), Seq::empty())
    } else if s[0] == quote {
        (Seq::empty(), s.drop_first())
    } else if s[0] == '\\' {
        if s.len() == 1 {
            (seq!['\\'], Seq::empty())
        } else {
            let c = s[1];
            let (body, rest) = quoted_escaped(quote, s.subrange(2, s.len() as int), env);
            ((if dq_escapable(c) { seq![c] } else { seq!['\\', c] }) + body, rest)
        }
    } else if s[0] == '$' && env is Some && s.len() > 1 && is_name_start(s[1]) {
        proof { lemma_var_name_rest_shorter(s.drop_first()); }
        let (body, rest) = quoted_escaped(quote, var_name(s.drop_first()).1, env);
        (lookup(env->0, var_name(s.drop_first()).0) + body, rest)
    } else {
        let (body, rest) = quoted_escaped(quote, s.drop_first(), env);
        (seq![s[0]] + body, rest)
    }
}

/// What follows a quoted run is never longer than the text it was cut from.
pub proof fn lemma_quoted_rest_shorter(quote: char, s: Seq<char>, env: Env)
    ensures
        quoted_literal(quote, s).1.len() <= s.len(),
        quoted_escaped(quote, s, env).1.len() <= s.len(),
    decreases s.len(),
{
    if s.len() > 0 {
        lemma_quoted_rest_shorter(quote, s.drop_first(), env);
        if s.len() > 1 {
            lemma_quoted_rest_shorter(quote, s.subrange(2, s.len() as int), env);
            lemma_var_name_rest_shorter(s.drop_first());
            lemma_quoted_rest_shorter(quote, var_name(s.drop_first()).1, env);
        }
    }
}

/// The operator a word spells, if it spells one.
pub open spec fn spec_operator_kind(w: Seq<char>) -> Option<OpKind> {
    if w == seq!['1', '>'] || w == seq!['>'] {
        Some(OpKind::RedirOutTruncate)
    } else if w == seq!['2', '>'] {
        Some(OpKind::RedirErrTruncate)
    } else if w == seq!['1', '>', '>'] || w == seq!['>', '>'] {
        Some(OpKind::RedirOutAppend)
    } else if w == seq!['2', '>', '>'] {
        Some(OpKind::RedirErrAppend)
    } else if w == seq!['|'] {
        Some(OpKind::Pipeline)
    } else if w == seq!['<'] {
        Some(OpKind::RedirIn)
    } else {
        None
    }
}

/// The token for a word that a space ended: its operator where `ops` holds, the word
/// holds no quoted, escaped or expanded text (`literal` false) and it spells an
/// operator; else the word itself.
pub open spec fn field_token(w: Seq<char>, literal: bool, ops: bool) -> TokenView {
    if ops && !literal && spec_operator_kind(w) is Some {
        TokenView::Op(spec_operator_kind(w)->0)
    } else {
        TokenView::Word(w)
    }
}

/// The tokens of the rest `s` of a line, after the tokens `toks` and with the word `w`
/// begun (`literal` telling whether it holds quoted, escaped or expanded text). A space
/// ends the word; quotes, backslashes and, where there are variables, `$NAME` add to it;
/// the last word of the line is always a word, never an operator.
pub open spec fn lex(s: Seq<char>, w: Seq<char>, literal: bool, toks: Seq<TokenView>, ops: bool, env: Env) -> Seq<TokenView>
    decreases s.len(),
{
    if s.len() == 0 {
        if w.len() > 0 {
            toks.push(TokenView::Word(w))
        } else {
            toks
        }
    } else {
        let c = s[0];
        let rest = s.drop_first();
        if c == ' ' {
            lex(rest, Seq::empty(), false, if w.len() > 0 { toks.push(field_token(w, literal, ops)) } else { toks }, ops, env)
        } else if c == '\'' {
            proof { lemma_quoted_rest_shorter('\'', rest, env); }
            lex(quoted_literal('\'', rest).1, w + quoted_literal('\'', rest).0, true, toks, ops, env)
        } else if c == '"' {
            proof { lemma_quoted_rest_shorter('"', rest, env); }
            lex(quoted_escaped('"', rest, env).1, w + quoted_escaped('"', rest, env).0, true, toks, ops, env)
        } else if c == '\\' {
            if rest.len() > 0 {
                lex(rest.drop_first(), w.push(rest[0]), true, toks, ops, env)
            } else {
                lex(rest, w.push('\\'), literal, toks, ops, env)
            }
        } else if c == '$' && env is Some && rest.len() > 0 && is_name_start(rest[0]) {
            proof { lemma_var_name_rest_shorter(rest); }
            lex(var_name(rest).1, w + lookup(env->0, var_name(rest).0), true, toks, ops, env)
        } else {
            lex(rest, w.push(c), literal, toks, ops, env)
        }
    }
}

/// The tokens of a line, operators recognised, with the variables `vars`.
pub open spec fn spec_tokenize_with(s: Seq<char>, vars: Vars) -> Seq<TokenView> {
    lex(s, Seq::empty(), false, Seq::empty(), true, Some(vars))
}

/// The tokens of a line, operators recognised, `$` taken as it is.
pub open spec fn spec_tokenize(s: Seq<char>) -> Seq<TokenView> {
    lex(s, Seq::empty(), false, Seq::empty(), true, None)
}

// ---------------------------------------------------------------------------
// Tokenizing.
// ---------------------------------------------------------------------------

/// Splits a command line into words and operators; `$` is an ordinary character.
pub fn tokenize(args: &str) -> (result: Vec<Token>)
    ensures
        token_views(result@) == spec_tokenize(args@),
{
    tokenize_in(args, None)
}

/// Splits a command line into words and operators, expanding `$NAME` outside single
/// quotes with the variables `vars`.
pub fn tokenize_with(args: &str, vars: &[(String, String)]) -> (result: Vec<Token>)
    ensures
        token_views(result@) == spec_tokenize_with(args@, var_views(vars@)),
{
    tokenize_in(args, Some(vars))
}

/// Splits a command line into words and operators, with the variables of `env` where
/// there are any.
fn tokenize_in(args: &str, env: Option<&[(String, String)]>) -> (result: Vec<Token>)
    ensures
        token_views(result@) == lex(args@, Seq::empty(), false, Seq::empty(), true, env_views(env)),
{
    let ghost vs = env_views(env);
    let mut result: Vec<Token> = Vec::new();
    let chars = chars_of(args);
    let mut pos: usize = 0;
    let mut str_to_push = String::new();
    let mut literal = false;
    assert(chars@.skip(0) =~= args@);
    assert(token_views(result@) =~= Seq::<TokenView>::empty());

    while pos < chars.len()
        invariant
            chars@ == args@,
            pos <= chars.len(),
            vs == env_views(env),
            lex(chars@.skip(pos as int), str_to_push@, literal, token_views(result@), true, vs)
                == lex(args@, Seq::empty(), false, Seq::empty(), true, vs),
        decreases chars.len() - pos,
    {
        let ghost rest = chars@.skip(pos as int);
        let ghost toks = token_views(result@);
        let arg = chars[pos];
        pos = pos + 1;
        assert(rest.drop_first() =~= chars@.skip(pos as int));
        if arg == ' ' {
            let ghost w = str_to_push@;
            if !str_to_push.as_str().is_empty() {
                if !literal && is_operator(str_to_push.as_str()) {
                    match operator_kind(str_to_push.as_str()) {
                        Some(kind) => result.push(Token::Op(kind)),
                        None => {},
                    }
                } else {
                    result.push(Token::Word(str_to_push));
                }
                assert(token_views(result@) =~= toks.push(field_token(w, literal, true)));
            }
            str_to_push = String::new();
            literal = false;
        } else if arg == '\'' {
            tokenize_single_quotes('\'', &chars, &mut pos, &mut str_to_push);
            literal = true;
        } else if arg == '"' {
            tokenize_double_quotes('"', &chars, &mut pos, env, &mut str_to_push);
            literal = true;
        } else if arg == '\\' {
            if pos < chars.len() {
                str_to_push.push(chars[pos]);
                pos = pos + 1;
                literal = true;
                assert(rest.drop_first().drop_first() =~= chars@.skip(pos as int));
            } else {
                str_to_push.push('\\');
            }
        } else if arg == '$' && env.is_some() && pos < chars.len() && is_name_start_char(chars[pos]) {
            match env {
                Some(vars) => expand_variable(&chars, &mut pos, vars, &mut str_to_push),
                None => {},
            }
            literal = true;
        } else {
            str_to_push.push(arg);
        }
    }
    assert(chars@.skip(pos as int) =~= Seq::<char>::empty());
    let ghost toks = token_views(result@);
    if !str_to_push.as_str().is_empty() {
        let ghost w = str_to_push@;
        result.push(Token::Word(str_to_push));
        assert(token_views(result@) =~= toks.push(TokenView::Word(w)));
    }
    result
}

/// Whether a word spells one of the shell's operators.
fn is_operator(input: &str) -> (r: bool)
    ensures
        r == spec_operator_kind(input@) is Some,
{
    match operator_kind(input) {
        Some(_) => true,
        None => false,
    }
}

/// The operator a word spells, if any.
fn operator_kind(input: &str) -> (r: Option<OpKind>)
    ensures
        r == spec_operator_kind(input@),
{
    let c = chars_of(input);
    let n = c.len();
    if n == 1 {
        if c[0] == '>' {
            assert(c@ =~= seq!['>']);
            Some(OpKind::RedirOutTruncate)
        } else if c[0] == '|' {
            assert(c@ =~= seq!['|']);
            Some(OpKind::Pipeline)
        } else if c[0] == '<' {
            assert(c@ =~= seq!['<']);
            Some(OpKind::RedirIn)
        } else {
            None
        }
    } else if n == 2 {
        if c[0] == '1' && c[1] == '>' {
            assert(c@ =~= seq!['1', '>']);
            Some(OpKind::RedirOutTruncate)
        } else if c[0] == '2' && c[1] == '>' {
            assert(c@ =~= seq!['2', '>']);
            Some(OpKind::RedirErrTruncate)
        } else if c[0] == '>' && c[1] == '>' {
            assert(c@ =~= seq!['>', '>']);
            Some(OpKind::RedirOutAppend)
        } else {
            None
        }
    } else if n == 3 {
        if c[0] == '1' && c[1] == '>' && c[2] == '>' {
            assert(c@ =~= seq!['1', '>', '>']);
            Some(OpKind::RedirOutAppend)
        } else if c[0] == '2' && c[1] == '>' && c[2] == '>' {
            assert(c@ =~= seq!['2', '>', '>']);
            Some(OpKind::RedirErrAppend)
        } else {
            None
        }
    } else {
        None
    }
}

/// Whether a character can begin a variable name.
pub(crate) fn is_name_start_char(c: char) -> (r: bool)
    ensures
        r == is_name_start(c),
{
    ('a' <= c && c <= 'z') || ('A' <= c && c <= 'Z') || c == '_'
}

/// Whether a character can continue a variable name.
fn is_name_char_char(c: char) -> (r: bool)
    ensures
        r == is_name_char(c),
{
    is_name_start_char(c) || ('0' <= c && c <= '9')
}

/// The value of the variable `name` in `vars`: its first binding, or empty text.
fn lookup_var(vars: &[(String, String)], name: &str) -> (r: String)
    ensures
        r@ == lookup(var_views(vars@), name@),
{
    let ghost vs = var_views(vars@);
    let mut i: usize = 0;
    assert(vs.skip(0) =~= vs);
    while i < vars.len()
        invariant
            i <= vars.len(),
            vs == var_views(vars@),
            lookup(vs, name@) == lookup(vs.skip(i as int), name@),
        decreases vars.len() - i,
    {
        assert(vs.skip(i as int)[0] == (vars@[i as int].0@, vars@[i as int].1@));
        assert(vs.skip(i as int).drop_first() =~= vs.skip(i + 1));
        if str_equals(vars[i].0.as_str(), name) {
            return vars[i].1.clone();
        }
        i = i + 1;
    }
    assert(vs.skip(i as int) =~= Seq::<(Seq<char>, Seq<char>)>::empty());
    String::new()
}

/// Reads the variable name starting at `pos` (just after a `$`): appends the variable's
/// value to `str_to_push` and moves `pos` past the name.
pub(crate) fn expand_variable(args: &Vec<char>, pos: &mut usize, vars: &[(String, String)], str_to_push: &mut String)
    requires
        *old(pos) <= args.len(),
    ensures
        *old(pos) <= *final(pos) <= args.len(),
        final(str_to_push)@ == old(str_to_push)@ + lookup(var_views(vars@), var_name(args@.skip(*old(pos) as int)).0),
        args@.skip(*final(pos) as int) == var_name(args@.skip(*old(pos) as int)).1,
{
    let ghost start = *pos;
    let mut name: Vec<char> = Vec::new();
    assert(name@ + var_name(args@.skip(start as int)).0 =~= var_name(args@.skip(start as int)).0);
    while *pos < args.len() && is_name_char_char(args[*pos])
        invariant
            start <= *pos <= args.len(),
            name@ + var_name(args@.skip(*pos as int)).0 == var_name(args@.skip(start as int)).0,
            var_name(args@.skip(*pos as int)).1 == var_name(args@.skip(start as int)).1,
        decreases args.len() - *pos,
    {
        let ghost rest = args@.skip(*pos as int);
        let ghost before = name@;
        name.push(args[*pos]);
        *pos = *pos + 1;
        assert(rest.drop_first() =~= args@.skip(*pos as int));
        assert(before + var_name(rest).0 =~= name@ + var_name(args@.skip(*pos as int)).0);
    }
    proof {
        let rest = args@.skip(*pos as int);
        if *pos < args.len() {
            assert(rest[0] == args@[*pos as int]);
        }
        assert(name@ + Seq::<char>::empty() =~= name@);
    }
    let name_str = string_of(name.as_slice());
    let value = lookup_var(vars, name_str.as_str());
    str_to_push.append(value.as_str());
}

/// Reads a single-quoted run starting at `pos` (just after the opening quote): appends
/// its text to `str_to_push` and moves `pos` past the closing quote.
pub(crate) fn tokenize_single_quotes(quote: char, args: &Vec<char>, pos: &mut usize, str_to_push: &mut String)
    requires
        *old(pos) <= args.len(),
    ensures
        *old(pos) <= *final(pos) <= args.len(),
        final(str_to_push)@ == old(str_to_push)@ + quoted_literal(quote, args@.skip(*old(pos) as int)).0,
        args@.skip(*final(pos) as int) == quoted_literal(quote, args@.skip(*old(pos) as int)).1,
{
    let ghost start = *pos;
    if *pos == args.len() {
        assert(args@.skip(*pos as int) =~= Seq::<char>::empty());
    }
    while *pos < args.len()
        invariant_except_break
            old(str_to_push)@ + quoted_literal(quote, args@.skip(start as int)).0
                == str_to_push@ + quoted_literal(quote, args@.skip(*pos as int)).0,
            quoted_literal(quote, args@.skip(start as int)).1
                == quoted_literal(quote, args@.skip(*pos as int)).1,
        invariant
            start <= *pos <= args.len(),
        ensures
            str_to_push@ == old(str_to_push)@ + quoted_literal(quote, args@.skip(start as int)).0,
            args@.skip(*pos as int) == quoted_literal(quote, args@.skip(start as int)).1,
        decreases args.len() - *pos,
    {
        let ghost rest = args@.skip(*pos as int);
        let arg = args[*pos];
        *pos = *pos + 1;
        assert(rest.drop_first() =~= args@.skip(*pos as int));
        if arg == quote {
            assert(str_to_push@ + Seq::<char>::empty() =~= str_to_push@);
            break;
        } else {
            let ghost before = str_to_push@;
            str_to_push.push(arg);
            assert(before + quoted_literal(quote, rest).0 =~= str_to_push@
                + quoted_literal(quote, args@.skip(*pos as int)).0);
        }
    }
}

/// Reads a double-quoted run starting at `pos` (just after the opening quote): appends
/// its text, with escapes resolved and variables expanded where there are any, to `str_to_push` and moves
/// `pos` past the closing quote.
pub(crate) fn tokenize_double_quotes(
    quote: char,
    args: &Vec<char>,
    pos: &mut usize,
    env: Option<&[(String, String)]>,
    str_to_push: &mut String,
)
    requires
        *old(pos) <= args.len(),
    ensures
        *old(pos) <= *final(pos) <= args.len(),
        final(str_to_push)@ == old(str_to_push)@
            + quoted_escaped(quote, args@.skip(*old(pos) as int), env_views(env)).0,
        args@.skip(*final(pos) as int) == quoted_escaped(quote, args@.skip(*old(pos) as int), env_views(env)).1,
{
    let ghost start = *pos;
    let ghost vs = env_views(env);
    if *pos == args.len() {
        assert(args@.skip(*pos as int) =~= Seq::<char>::empty());
    }
    while *pos < args.len()
        invariant_except_break
            old(str_to_push)@ + quoted_escaped(quote, args@.skip(start as int), vs).0
                == str_to_push@ + quoted_escaped(quote, args@.skip(*pos as int), vs).0,
            quoted_escaped(quote, args@.skip(start as int), vs).1
                == quoted_escaped(quote, args@.skip(*pos as int), vs).1,
        invariant
            start <= *pos <= args.len(),
            vs == env_views(env),
        ensures
            str_to_push@ == old(str_to_push)@ + quoted_escaped(quote, args@.skip(start as int), vs).0,
            args@.skip(*pos as int) == quoted_escaped(quote, args@.skip(start as int), vs).1,
        decreases args.len() - *pos,
    {
        let ghost rest = args@.skip(*pos as int);
        let ghost before = str_to_push@;
        let arg = args[*pos];
        *pos = *pos + 1;
        assert(rest.drop_first() =~= args@.skip(*pos as int));
        if arg == quote {
            assert(str_to_push@ + Seq::<char>::empty() =~= str_to_push@);
            break;
        } else if arg == '\\' {
            if *pos < args.len() {
                let next = args[*pos];
                *pos = *pos + 1;
                assert(rest.subrange(2, rest.len() as int) =~= args@.skip(*pos as int));
                if next == '"' || next == '$' || next == '\\' || next == '`' {
                    str_to_push.push(next);
                } else {
                    str_to_push.push('\\');
                    str_to_push.push(next);
                }
                assert(before + quoted_escaped(quote, rest, vs).0 =~= str_to_push@
                    + quoted_escaped(quote, args@.skip(*pos as int), vs).0);
            } else {
                str_to_push.push('\\');
                assert(before + quoted_escaped(quote, rest, vs).0 =~= str_to_push@
                    + quoted_escaped(quote, args@.skip(*pos as int), vs).0);
            }
        } else if arg == '$' && env.is_some() && *pos < args.len() && is_name_start_char(args[*pos]) {
            match env {
                Some(vars) => expand_variable(args, pos, vars, str_to_push),
                None => {},
            }
            assert(before + quoted_escaped(quote, rest, vs).0 =~= str_to_push@
                + quoted_escaped(quote, args@.skip(*pos as int), vs).0);
        } else {
            str_to_push.push(arg);
            assert(before + quoted_escaped(quote, rest, vs).0 =~= str_to_push@
                + quoted_escaped(quote, args@.skip(*pos as int), vs).0);
        }
    }
}

// ---------------------------------------------------------------------------
// From tokens to commands.
// ---------------------------------------------------------------------------

/// Where a stream goes after a redirection operator followed by `tok`: to the file
/// that a word names, or, after an operator, where it went before.
pub open spec fn redirect_target(tok: TokenView, cur: TargetView, append: bool) -> TargetView {
    match tok {
        TokenView::Word(p) => TargetView::File { path: p, append: append },
        TokenView::Op(_) => cur,
    }
}

/// The input file after an input redirection followed by `tok`: the file that a word
/// names, or, after an operator, the file before.
pub open spec fn input_target(tok: TokenView, cur: Option<Seq<char>>) -> Option<Seq<char>> {
    match tok {
        TokenView::Word(p) => Some(p),
        TokenView::Op(_) => cur,
    }
}

/// A command after the redirection operator `k` and the token `tok` that follows it.
pub open spec fn apply_redirect(k: OpKind, tok: TokenView, c: SimpleCmdView) -> SimpleCmdView {
    match k {
        OpKind::RedirOutTruncate => SimpleCmdView {
            args: c.args,
            stdout: redirect_target(tok, c.stdout, false),
            stderr: c.stderr,
            stdin: c.stdin,
        },
        OpKind::RedirOutAppend => SimpleCmdView {
            args: c.args,
            stdout: redirect_target(tok, c.stdout, true),
            stderr: c.stderr,
            stdin: c.stdin,
        },
        OpKind::RedirErrTruncate => SimpleCmdView {
            args: c.args,
            stdout: c.stdout,
            stderr: redirect_target(tok, c.stderr, false),
            stdin: c.stdin,
        },
        OpKind::RedirErrAppend => SimpleCmdView {
            args: c.args,
            stdout: c.stdout,
            stderr: redirect_target(tok, c.stderr, true),
            stdin: c.stdin,
        },
        OpKind::RedirIn => SimpleCmdView {
            args: c.args,
            stdout: c.stdout,
            stderr: c.stderr,
            stdin: input_target(tok, c.stdin),
        },
        OpKind::Pipeline => c,
    }
}

/// The command `c` extended by the tokens `toks`: a word is an argument, a redirection
/// operator takes the token after it as its target, a pipe is passed over, and a
/// redirection operator at the very end is dropped.
pub open spec fn parse_from(toks: Seq<TokenView>, c: SimpleCmdView) -> SimpleCmdView
    decreases toks.len(),
{
    if toks.len() == 0 {
        c
    } else {
        match toks[0] {
            TokenView::Word(w) => parse_from(
                toks.drop_first(),
                SimpleCmdView { args: c.args.push(w), stdout: c.stdout, stderr: c.stderr, stdin: c.stdin },
            ),
            TokenView::Op(OpKind::Pipeline) => parse_from(toks.drop_first(), c),
            TokenView::Op(k) => if toks.len() >= 2 {
                parse_from(toks.subrange(2, toks.len() as int), apply_redirect(k, toks[1], c))
            } else {
                c
            },
        }
    }
}

/// The command without arguments whose streams are all the terminal's.
pub open spec fn empty_cmd() -> SimpleCmdView {
    SimpleCmdView { args: Seq::empty(), stdout: TargetView::Terminal, stderr: TargetView::Terminal, stdin: None }
}

/// The command that a sequence of tokens describes.
pub open spec fn spec_parse_simple(toks: Seq<TokenView>) -> SimpleCmdView {
    parse_from(toks, empty_cmd())
}

/// The token sequences between the pipe operators, in order: one more than there are pipes.
pub open spec fn pipe_segments(toks: Seq<TokenView>) -> Seq<Seq<TokenView>>
    decreases toks.len(),
{
    if toks.len() == 0 {
        seq![Seq::empty()]
    } else if toks[0] == TokenView::Op(OpKind::Pipeline) {
        seq![Seq::<TokenView>::empty()] + pipe_segments(toks.drop_first())
    } else {
        let rest = pipe_segments(toks.drop_first());
        rest.update(0, seq![toks[0]] + rest[0])
    }
}

/// The commands of a pipeline: one per segment between pipe operators.
pub open spec fn spec_parse_pipeline(toks: Seq<TokenView>) -> Seq<SimpleCmdView> {
    pipe_segments(toks).map_values(|seg: Seq<TokenView>| spec_parse_simple(seg))
}

/// A sequence cut into segments has at least one segment.
pub proof fn lemma_segments_nonempty(toks: Seq<TokenView>)
    ensures
        pipe_segments(toks).len() >= 1,
    decreases toks.len(),
{
    if toks.len() > 0 {
        lemma_segments_nonempty(toks.drop_first());
    }
}

/// Where the first pipe stands at `i`, the first segment is what comes before it and
/// the others are the segments of what comes after it.
proof fn lemma_segments_split(toks: Seq<TokenView>, i: int)
    requires
        0 <= i < toks.len(),
        toks[i] == TokenView::Op(OpKind::Pipeline),
        forall|j: int| 0 <= j < i ==> toks[j] != TokenView::Op(OpKind::Pipeline),
    ensures
        pipe_segments(toks) == seq![toks.take(i)] + pipe_segments(toks.skip(i + 1)),
    decreases i,
{
    if i == 0 {
        assert(toks.skip(1) =~= toks.drop_first());
        assert(toks.take(0) =~= Seq::<TokenView>::empty());
    } else {
        let t = toks.drop_first();
        lemma_segments_split(t, i - 1);
        lemma_segments_nonempty(t);
        assert(t.skip(i) =~= toks.skip(i + 1));
        assert(seq![toks[0]] + t.take(i - 1) =~= toks.take(i));
        assert(pipe_segments(toks) =~= seq![toks.take(i)] + pipe_segments(toks.skip(i + 1)));
    }
}

/// Without a pipe the whole sequence is the one segment.
proof fn lemma_segments_none(toks: Seq<TokenView>)
    requires
        forall|j: int| 0 <= j < toks.len() ==> toks[j] != TokenView::Op(OpKind::Pipeline),
    ensures
        pipe_segments(toks) == seq![toks],
    decreases toks.len(),
{
    if toks.len() > 0 {
        let t = toks.drop_first();
        lemma_segments_none(t);
        assert(seq![toks[0]] + t =~= toks);
        assert(pipe_segments(toks) =~= seq![toks]);
    } else {
        assert(toks =~= Seq::<TokenView>::empty());
    }
}

/// Splits a token sequence at its pipe operators into commands.
pub fn parse_pipeline(cmd: &[Token]) -> (result: Vec<SimpleCmd>)
    ensures
        cmd_views(result@) == spec_parse_pipeline(token_views(cmd@)),
    decreases cmd.len(),
{
    let ghost toks = token_views(cmd@);
    let mut result: Vec<SimpleCmd> = Vec::new();
    let mut i: usize = 0;
    while i < cmd.len()
        invariant_except_break
            result@.len() == 0,
        invariant
            i <= cmd.len(),
            toks == token_views(cmd@),
            forall|j: int| 0 <= j < i ==> toks[j] != TokenView::Op(OpKind::Pipeline),
        ensures
            result@.len() == 0 ==> forall|j: int| 0 <= j < cmd.len() ==> toks[j] != TokenView::Op(OpKind::Pipeline),
            result@.len() > 0 ==> cmd_views(result@) == spec_parse_pipeline(toks),
        decreases cmd.len() - i,
    {
        match &cmd[i] {
            Token::Op(OpKind::Pipeline) => {
                let head = vstd::slice::slice_subrange(cmd, 0, i);
                let tail = vstd::slice::slice_subrange(cmd, i + 1, cmd.len());
                assert(token_views(head@) =~= toks.take(i as int));
                assert(token_views(tail@) =~= toks.skip(i + 1));
                result.push(parse_simple(head));
                let mut rest = parse_pipeline(tail);
                let ghost first = cmd_views(result@);
                let ghost later = cmd_views(rest@);
                result.append(&mut rest);
                proof {
                    lemma_segments_split(toks, i as int);
                    assert(spec_parse_pipeline(toks) =~= seq![spec_parse_simple(toks.take(i as int))]
                        + spec_parse_pipeline(toks.skip(i + 1)));
                    assert(cmd_views(result@) =~= first + later);
                }
                break;
            },
            _ => {},
        }
        i = i + 1;
    }
    if result.len() == 0 {
        result.push(parse_simple(cmd));
        proof {
            lemma_segments_none(toks);
            assert(cmd_views(result@) =~= spec_parse_pipeline(toks));
        }
    }
    result
}

/// Builds one command from a token sequence.
pub fn parse_simple(cmd: &[Token]) -> (result: SimpleCmd)
    ensures
        result@ == spec_parse_simple(token_views(cmd@)),
{
    let ghost toks = token_views(cmd@);
    let mut args: Vec<String> = Vec::new();
    let mut stdout = StreamTarget::Terminal;
    let mut stderr = StreamTarget::Terminal;
    let mut stdin: Option<String> = None;
    let mut i: usize = 0;
    assert(toks.skip(0) =~= toks);
    assert(texts(args@) =~= Seq::<Seq<char>>::empty());

    while i < cmd.len()
        invariant
            i <= cmd.len(),
            toks == token_views(cmd@),
            parse_from(toks.skip(i as int), SimpleCmdView { args: texts(args@), stdout: stdout@, stderr: stderr@, stdin: opt_text(stdin) })
                == spec_parse_simple(toks),
        decreases cmd.len() - i,
    {
        let ghost rest = toks.skip(i as int);
        let ghost c = SimpleCmdView { args: texts(args@), stdout: stdout@, stderr: stderr@, stdin: opt_text(stdin) };
        assert(rest[0] == cmd@[i as int]@);
        assert(rest.drop_first() =~= toks.skip(i + 1));
        match &cmd[i] {
            Token::Word(s) => {
                args.push(s.clone());
                assert(texts(args@) =~= c.args.push(s@));
                i = i + 1;
            },
            Token::Op(OpKind::Pipeline) => {
                i = i + 1;
            },
            Token::Op(kind) => {
                if i + 1 < cmd.len() {
                    assert(rest[1] == cmd@[i + 1]@);
                    assert(rest.subrange(2, rest.len() as int) =~= toks.skip(i + 2));
                    match kind {
                        OpKind::RedirOutTruncate => redirect(&cmd[i + 1], &mut stdout, false),
                        OpKind::RedirErrTruncate => redirect(&cmd[i + 1], &mut stderr, false),
                        OpKind::RedirErrAppend => redirect(&cmd[i + 1], &mut stderr, true),
                        OpKind::RedirOutAppend => redirect(&cmd[i + 1], &mut stdout, true),
                        OpKind::RedirIn => redirect_input(&cmd[i + 1], &mut stdin),
                        OpKind::Pipeline => {},
                    }
                    i = i + 2;
                } else {
                    i = i + 1;
                    assert(toks.skip(i as int) =~= Seq::<TokenView>::empty());
                }
            },
        }
    }
    assert(toks.skip(i as int) =~= Seq::<TokenView>::empty());
    SimpleCmd { args, stdout, stderr, stdin }
}

/// Sends the stream `std` to the file that the word `token` names; an operator leaves it.
fn redirect(token: &Token, std: &mut StreamTarget, append: bool)
    ensures
        final(std)@ == redirect_target(token@, old(std)@, append),
{
    match token {
        Token::Word(target) => {
            let target = TargetFile { path: target.clone(), append };
            *std = StreamTarget::File(target);
        },
        Token::Op(_) => {},
    }
}


/// Reads the input from the file that the word `token` names; an operator leaves it.
fn redirect_input(token: &Token, stdin: &mut Option<String>)
    ensures
        opt_text(*final(stdin)) == input_target(token@, opt_text(*old(stdin))),
{
    match token {
        Token::Word(target) => {
            *stdin = Some(target.clone());
        },
        Token::Op(_) => {},
    }
}

// ---------------------------------------------------------------------------
// Laws of the parser.
// ---------------------------------------------------------------------------

/// How many pipe operators a token sequence holds.
pub open spec fn count_pipes(toks: Seq<TokenView>) -> nat
    decreases toks.len(),
{
    if toks.len() == 0 {
        0
    } else {
        count_pipes(toks.drop_first()) + if toks[0] == TokenView::Op(OpKind::Pipeline) { 1nat } else { 0nat }
    }
}

/// A pipeline has one command more than it has pipe operators, so never none.
pub proof fn law_pipeline_length(toks: Seq<TokenView>)
    ensures
        spec_parse_pipeline(toks).len() == count_pipes(toks) + 1,
        spec_parse_pipeline(toks).len() >= 1,
    decreases toks.len(),
{
    if toks.len() > 0 {
        law_pipeline_length(toks.drop_first());
        lemma_segments_nonempty(toks.drop_first());
    }
}

/// No segment of a pipeline holds a pipe operator.
pub proof fn law_segments_free_of_pipes(toks: Seq<TokenView>)
    ensures
        forall|k: int, j: int| 0 <= k < pipe_segments(toks).len() && 0 <= j < pipe_segments(toks)[k].len()
            ==> #[trigger] pipe_segments(toks)[k][j] != TokenView::Op(OpKind::Pipeline),
    decreases toks.len(),
{
    if toks.len() > 0 {
        law_segments_free_of_pipes(toks.drop_first());
        lemma_segments_nonempty(toks.drop_first());
        let rest = pipe_segments(toks.drop_first());
        if toks[0] != TokenView::Op(OpKind::Pipeline) {
            assert forall|k: int, j: int| 0 <= k < pipe_segments(toks).len() && 0 <= j < pipe_segments(toks)[k].len()
                implies #[trigger] pipe_segments(toks)[k][j] != TokenView::Op(OpKind::Pipeline) by {
                if k == 0 && j > 0 {
                    assert(pipe_segments(toks)[0][j] == rest[0][j - 1]);
                }
            }
        } else {
            assert forall|k: int, j: int| 0 <= k < pipe_segments(toks).len() && 0 <= j < pipe_segments(toks)[k].len()
                implies #[trigger] pipe_segments(toks)[k][j] != TokenView::Op(OpKind::Pipeline) by {
                if k > 0 {
                    assert(pipe_segments(toks)[k] == rest[k - 1]);
                }
            }
        }
    }
}

/// The segments joined again with a pipe operator between each two give back the tokens.
pub open spec fn join_segments(segs: Seq<Seq<TokenView>>) -> Seq<TokenView>
    decreases segs.len(),
{
    if segs.len() == 0 {
        Seq::empty()
    } else if segs.len() == 1 {
        segs[0]
    } else {
        segs[0] + seq![TokenView::Op(OpKind::Pipeline)] + join_segments(segs.drop_first())
    }
}

/// Cutting a token sequence at its pipes loses nothing: joining the segments with pipes
/// gives the sequence back.
pub proof fn law_segments_rejoin(toks: Seq<TokenView>)
    ensures
        join_segments(pipe_segments(toks)) == toks,
    decreases toks.len(),
{
    if toks.len() == 0 {
        assert(join_segments(pipe_segments(toks)) =~= toks);
    } else {
        let t = toks.drop_first();
        law_segments_rejoin(t);
        lemma_segments_nonempty(t);
        let rest = pipe_segments(t);
        if toks[0] == TokenView::Op(OpKind::Pipeline) {
            let segs = seq![Seq::<TokenView>::empty()] + rest;
            assert(segs.drop_first() =~= rest);
            assert(join_segments(segs) =~= toks);
        } else {
            let segs = rest.update(0, seq![toks[0]] + rest[0]);
            if rest.len() == 1 {
                assert(join_segments(segs) =~= toks);
            } else {
                assert(segs.drop_first() =~= rest.drop_first());
                assert(join_segments(rest) == rest[0] + seq![TokenView::Op(OpKind::Pipeline)]
                    + join_segments(rest.drop_first()));
                assert(join_segments(segs) == segs[0] + seq![TokenView::Op(OpKind::Pipeline)]
                    + join_segments(rest.drop_first()));
                assert(seq![toks[0]] + t =~= toks);
                assert(join_segments(segs) =~= seq![toks[0]] + join_segments(rest));
            }
        }
    }
}

/// A token sequence without pipe operators is one command.
pub proof fn law_no_pipe_one_command(toks: Seq<TokenView>)
    requires
        forall|j: int| 0 <= j < toks.len() ==> toks[j] != TokenView::Op(OpKind::Pipeline),
    ensures
        spec_parse_pipeline(toks) == seq![spec_parse_simple(toks)],
{
    lemma_segments_none(toks);
    assert(spec_parse_pipeline(toks) =~= seq![spec_parse_simple(toks)]);
}

proof fn lemma_words_become_args(ws: Seq<Seq<char>>, c: SimpleCmdView)
    ensures
        parse_from(ws.map_values(|w: Seq<char>| TokenView::Word(w)), c)
            == (SimpleCmdView { args: c.args + ws, stdout: c.stdout, stderr: c.stderr, stdin: c.stdin }),
    decreases ws.len(),
{
    let toks = ws.map_values(|w: Seq<char>| TokenView::Word(w));
    if ws.len() == 0 {
        assert(c.args + ws =~= c.args);
    } else {
        let c2 = SimpleCmdView { args: c.args.push(ws[0]), stdout: c.stdout, stderr: c.stderr, stdin: c.stdin };
        lemma_words_become_args(ws.drop_first(), c2);
        assert(toks.drop_first() =~= ws.drop_first().map_values(|w: Seq<char>| TokenView::Word(w)));
        assert(c.args.push(ws[0]) + ws.drop_first() =~= c.args + ws);
    }
}

/// A command of words alone takes every word as an argument, in order, and leaves all
/// its streams on the terminal.
pub proof fn law_words_are_arguments(ws: Seq<Seq<char>>)
    ensures
        spec_parse_simple(ws.map_values(|w: Seq<char>| TokenView::Word(w)))
            == (SimpleCmdView { args: ws, stdout: TargetView::Terminal, stderr: TargetView::Terminal, stdin: None }),
{
    lemma_words_become_args(ws, empty_cmd());
    assert(Seq::<Seq<char>>::empty() + ws =~= ws);
}
proof fn lemma_segments_concat(a: Seq<TokenView>, b: Seq<TokenView>)
    ensures
        pipe_segments(a + seq![TokenView::Op(OpKind::Pipeline)] + b) == pipe_segments(a) + pipe_segments(b),
    decreases a.len(),
{
    let p = seq![TokenView::Op(OpKind::Pipeline)];
    let s = a + p + b;
    if a.len() == 0 {
        assert(s =~= p + b);
        assert(s[0] == TokenView::Op(OpKind::Pipeline));
        assert(s.drop_first() =~= b);
    } else {
        let a2 = a.drop_first();
        lemma_segments_concat(a2, b);
        lemma_segments_nonempty(a2);
        assert(s[0] == a[0]);
        assert(s.drop_first() =~= a2 + p + b);
        if a[0] == TokenView::Op(OpKind::Pipeline) {
            assert(pipe_segments(s) =~= pipe_segments(a) + pipe_segments(b));
        } else {
            let r = pipe_segments(a2);
            assert((r + pipe_segments(b)).update(0, seq![a[0]] + (r + pipe_segments(b))[0])
                =~= r.update(0, seq![a[0]] + r[0]) + pipe_segments(b));
        }
    }
}

/// Joining two token sequences with a pipe joins their pipelines: each command of a
/// pipeline is the command its own segment describes, whatever stands before or after
/// the pipe; a sequence without a pipe is one command.
pub proof fn law_pipe_joins_pipelines(a: Seq<TokenView>, b: Seq<TokenView>)
    ensures
        spec_parse_pipeline(a + seq![TokenView::Op(OpKind::Pipeline)] + b)
            == spec_parse_pipeline(a) + spec_parse_pipeline(b),
        (forall|j: int| 0 <= j < a.len() ==> a[j] != TokenView::Op(OpKind::Pipeline))
            ==> spec_parse_pipeline(a + seq![TokenView::Op(OpKind::Pipeline)] + b)
                == seq![spec_parse_simple(a)] + spec_parse_pipeline(b),
{
    lemma_segments_concat(a, b);
    let f = |seg: Seq<TokenView>| spec_parse_simple(seg);
    assert((pipe_segments(a) + pipe_segments(b)).map_values(f)
        =~= pipe_segments(a).map_values(f) + pipe_segments(b).map_values(f));
    if forall|j: int| 0 <= j < a.len() ==> a[j] != TokenView::Op(OpKind::Pipeline) {
        law_no_pipe_one_command(a);
    }
}

proof fn lemma_words_then(ws: Seq<Seq<char>>, rest: Seq<TokenView>, c: SimpleCmdView)
    ensures
        parse_from(ws.map_values(|w: Seq<char>| TokenView::Word(w)) + rest, c)
            == parse_from(rest, SimpleCmdView { args: c.args + ws, stdout: c.stdout, stderr: c.stderr, stdin: c.stdin }),
    decreases ws.len(),
{
    let toks = ws.map_values(|w: Seq<char>| TokenView::Word(w));
    if ws.len() == 0 {
        assert(toks + rest =~= rest);
        assert(c.args + ws =~= c.args);
    } else {
        let c2 = SimpleCmdView { args: c.args.push(ws[0]), stdout: c.stdout, stderr: c.stderr, stdin: c.stdin };
        lemma_words_then(ws.drop_first(), rest, c2);
        assert((toks + rest)[0] == TokenView::Word(ws[0]));
        assert((toks + rest).drop_first()
            =~= ws.drop_first().map_values(|w: Seq<char>| TokenView::Word(w)) + rest);
        assert(c.args.push(ws[0]) + ws.drop_first() =~= c.args + ws);
    }
}

/// A redirection after the words of a command sends the stream it names to the file
/// after it and leaves the rest alone: `>` output to the file, `>>` output appended to it,
/// `2>` errors to the file, `2>>` errors appended to it, `<` input read from it; the words
/// are the arguments.
pub proof fn law_redirections(ws: Seq<Seq<char>>, p: Seq<char>)
    ensures
        spec_parse_simple(ws.map_values(|w: Seq<char>| TokenView::Word(w))
            + seq![TokenView::Op(OpKind::RedirOutTruncate), TokenView::Word(p)])
            == (SimpleCmdView { args: ws, stdout: TargetView::File { path: p, append: false },
                stderr: TargetView::Terminal, stdin: None }),
        spec_parse_simple(ws.map_values(|w: Seq<char>| TokenView::Word(w))
            + seq![TokenView::Op(OpKind::RedirOutAppend), TokenView::Word(p)])
            == (SimpleCmdView { args: ws, stdout: TargetView::File { path: p, append: true },
                stderr: TargetView::Terminal, stdin: None }),
        spec_parse_simple(ws.map_values(|w: Seq<char>| TokenView::Word(w))
            + seq![TokenView::Op(OpKind::RedirErrTruncate), TokenView::Word(p)])
            == (SimpleCmdView { args: ws, stdout: TargetView::Terminal,
                stderr: TargetView::File { path: p, append: false }, stdin: None }),
        spec_parse_simple(ws.map_values(|w: Seq<char>| TokenView::Word(w))
            + seq![TokenView::Op(OpKind::RedirErrAppend), TokenView::Word(p)])
            == (SimpleCmdView { args: ws, stdout: TargetView::Terminal,
                stderr: TargetView::File { path: p, append: true }, stdin: None }),
        spec_parse_simple(ws.map_values(|w: Seq<char>| TokenView::Word(w))
            + seq![TokenView::Op(OpKind::RedirIn), TokenView::Word(p)])
            == (SimpleCmdView { args: ws, stdout: TargetView::Terminal, stderr: TargetView::Terminal,
                stdin: Some(p) }),
{
    lemma_redirect_after_words(ws, OpKind::RedirOutTruncate, p);
    lemma_redirect_after_words(ws, OpKind::RedirOutAppend, p);
    lemma_redirect_after_words(ws, OpKind::RedirErrTruncate, p);
    lemma_redirect_after_words(ws, OpKind::RedirErrAppend, p);
    lemma_redirect_after_words(ws, OpKind::RedirIn, p);
}

proof fn lemma_redirect_after_words(ws: Seq<Seq<char>>, k: OpKind, p: Seq<char>)
    requires
        k != OpKind::Pipeline,
    ensures
        spec_parse_simple(ws.map_values(|w: Seq<char>| TokenView::Word(w)) + seq![TokenView::Op(k), TokenView::Word(p)])
            == apply_redirect(k, TokenView::Word(p),
                SimpleCmdView { args: ws, stdout: TargetView::Terminal, stderr: TargetView::Terminal, stdin: None }),
{
    let r = seq![TokenView::Op(k), TokenView::Word(p)];
    lemma_words_then(ws, r, empty_cmd());
    assert(Seq::<Seq<char>>::empty() + ws =~= ws);
    let c = SimpleCmdView { args: Seq::empty() + ws, stdout: TargetView::Terminal, stderr: TargetView::Terminal, stdin: None };
    assert(r.subrange(2, r.len() as int) =~= Seq::<TokenView>::empty());
    assert(r[0] == TokenView::Op(k));
    assert(r[1] == TokenView::Word(p));
    assert(parse_from(r, c) == parse_from(r.subrange(2, r.len() as int), apply_redirect(k, r[1], c)));
    assert(parse_from(Seq::<TokenView>::empty(), apply_redirect(k, r[1], c)) == apply_redirect(k, r[1], c));
}
} // verus!
