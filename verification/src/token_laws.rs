//! Laws of the tokenizers: what the lexical rules of `parser` and `parser2` give on whole
//! classes of lines.
use vstd::prelude::*;
use crate::structs::{TokenView, OpKind};
use crate::parser::{
    lex, field_token, spec_operator_kind, spec_tokenize, spec_tokenize_with, quoted_literal, quoted_escaped,
    var_name, lookup, is_name_start, is_name_char, lemma_quoted_rest_shorter, lemma_var_name_rest_shorter,
    Vars, Env,
};
use crate::parser2::spec_words;
use crate::cmd::utils::{split_from, split_on};

verus! {

/// Every word token has at least one character.
pub open spec fn words_nonempty(toks: Seq<TokenView>) -> bool {
    forall|i: int| 0 <= i < toks.len() ==> (#[trigger] toks[i] matches TokenView::Word(w) ==> w.len() > 0)
}

proof fn lemma_lex_words_nonempty(s: Seq<char>, w: Seq<char>, lit: bool, toks: Seq<TokenView>, ops: bool, env: Env)
    requires
        words_nonempty(toks),
    ensures
        words_nonempty(lex(s, w, lit, toks, ops, env)),
    decreases s.len(),
{
    if s.len() == 0 {
        if w.len() > 0 {
            assert(words_nonempty(toks.push(TokenView::Word(w))));
        }
    } else {
        let c = s[0];
        let rest = s.drop_first();
        if c == ' ' {
            if w.len() > 0 {
                assert(words_nonempty(toks.push(field_token(w, lit, ops))));
            }
            lemma_lex_words_nonempty(rest, Seq::empty(), false,
                if w.len() > 0 { toks.push(field_token(w, lit, ops)) } else { toks }, ops, env);
        } else if c == '\'' {
            lemma_quoted_rest_shorter('\'', rest, env);
            lemma_lex_words_nonempty(quoted_literal('\'', rest).1, w + quoted_literal('\'', rest).0, true, toks, ops, env);
        } else if c == '"' {
            lemma_quoted_rest_shorter('"', rest, env);
            lemma_lex_words_nonempty(quoted_escaped('"', rest, env).1, w + quoted_escaped('"', rest, env).0, true, toks, ops, env);
        } else if c == '\\' {
            if rest.len() > 0 {
                lemma_lex_words_nonempty(rest.drop_first(), w.push(rest[0]), true, toks, ops, env);
            } else {
                lemma_lex_words_nonempty(rest, w.push('\\'), lit, toks, ops, env);
            }
        } else if c == '$' && env is Some && rest.len() > 0 && is_name_start(rest[0]) {
            lemma_var_name_rest_shorter(rest);
            lemma_lex_words_nonempty(var_name(rest).1, w + lookup(env->0, var_name(rest).0), true, toks, ops, env);
        } else {
            lemma_lex_words_nonempty(rest, w.push(c), lit, toks, ops, env);
        }
    }
}

/// The tokenizers never give an empty word, with or without operators recognised, with or
/// without variables: empty quotes, unset variables and runs of spaces give no token.
pub proof fn law_no_empty_words(s: Seq<char>, ops: bool, env: Env)
    ensures
        words_nonempty(lex(s, Seq::empty(), false, Seq::empty(), ops, env)),
{
    lemma_lex_words_nonempty(s, Seq::empty(), false, Seq::empty(), ops, env);
}

/// Two token sequences of the same length where each token of `b` is a word and the token
/// of `a` at the same place is that word, or the operator that word spells.
pub open spec fn reinterprets(a: Seq<TokenView>, b: Seq<TokenView>) -> bool {
    &&& a.len() == b.len()
    &&& forall|i: int| 0 <= i < b.len() ==> (#[trigger] b[i] matches TokenView::Word(w)
            && (a[i] == TokenView::Word(w)
                || (spec_operator_kind(w) is Some && a[i] == TokenView::Op(spec_operator_kind(w)->0))))
}

proof fn lemma_lex_reinterprets(s: Seq<char>, w: Seq<char>, lit: bool, a: Seq<TokenView>, b: Seq<TokenView>, env: Env)
    requires
        reinterprets(a, b),
    ensures
        reinterprets(lex(s, w, lit, a, true, env), lex(s, w, lit, b, false, env)),
    decreases s.len(),
{
    if s.len() == 0 {
        if w.len() > 0 {
            assert(reinterprets(a.push(TokenView::Word(w)), b.push(TokenView::Word(w))));
        }
    } else {
        let c = s[0];
        let rest = s.drop_first();
        if c == ' ' {
            if w.len() > 0 {
                let a2 = a.push(field_token(w, lit, true));
                let b2 = b.push(field_token(w, lit, false));
                assert(reinterprets(a2, b2));
                lemma_lex_reinterprets(rest, Seq::empty(), false, a2, b2, env);
            } else {
                lemma_lex_reinterprets(rest, Seq::empty(), false, a, b, env);
            }
        } else if c == '\'' {
            lemma_quoted_rest_shorter('\'', rest, env);
            lemma_lex_reinterprets(quoted_literal('\'', rest).1, w + quoted_literal('\'', rest).0, true, a, b, env);
        } else if c == '"' {
            lemma_quoted_rest_shorter('"', rest, env);
            lemma_lex_reinterprets(quoted_escaped('"', rest, env).1, w + quoted_escaped('"', rest, env).0, true, a, b, env);
        } else if c == '\\' {
            if rest.len() > 0 {
                lemma_lex_reinterprets(rest.drop_first(), w.push(rest[0]), true, a, b, env);
            } else {
                lemma_lex_reinterprets(rest, w.push('\\'), lit, a, b, env);
            }
        } else if c == '$' && env is Some && rest.len() > 0 && is_name_start(rest[0]) {
            lemma_var_name_rest_shorter(rest);
            lemma_lex_reinterprets(var_name(rest).1, w + lookup(env->0, var_name(rest).0), true, a, b, env);
        } else {
            lemma_lex_reinterprets(rest, w.push(c), lit, a, b, env);
        }
    }
}

/// Recognising operators only reinterprets whole words: the tokens of a line are, place by
/// place, the words that the operator-free rules give, or the operators those words spell;
/// with the same variables, and with `$` taken as it is, which compares
/// `parser::tokenize` with `parser2::tokenize`.
pub proof fn law_operators_reinterpret_words(s: Seq<char>, vars: Vars)
    ensures
        reinterprets(spec_tokenize_with(s, vars), lex(s, Seq::empty(), false, Seq::empty(), false, Some(vars))),
        reinterprets(spec_tokenize(s), spec_words(s)),
{
    lemma_lex_reinterprets(s, Seq::empty(), false, Seq::empty(), Seq::empty(), Some(vars));
    lemma_lex_reinterprets(s, Seq::empty(), false, Seq::empty(), Seq::empty(), None);
}

/// Whether a character is no space, quote or backslash: outside quotes the tokenizer takes
/// it as it is, but for a `$` that begins a variable name where there are variables.
pub open spec fn is_plain(c: char) -> bool {
    c != ' ' && c != '\'' && c != '"' && c != '\\'
}

/// Whether a `$` stands at `i` with a character that can begin a variable name after it:
/// where there are variables, an expansion begins there.
pub open spec fn expands_at(s: Seq<char>, i: int) -> bool {
    0 <= i && i + 1 < s.len() && s[i] == '$' && is_name_start(s[i + 1])
}

/// Whether no `$` in `s` is followed by a character that can begin a variable name.
pub open spec fn no_expansion(s: Seq<char>) -> bool {
    forall|i: int| !#[trigger] expands_at(s, i)
}

proof fn lemma_no_expansion_rest(s: Seq<char>)
    requires
        s.len() > 0,
        no_expansion(s),
    ensures
        no_expansion(s.drop_first()),
        !(s[0] == '$' && s.len() > 1 && is_name_start(s[1])),
{
    assert(!expands_at(s, 0));
    let r = s.drop_first();
    assert forall|i: int| !#[trigger] expands_at(r, i) by {
        assert(!expands_at(s, i + 1));
        if 0 <= i && i + 1 < r.len() {
            assert(r[i] == s[i + 1] && r[i + 1] == s[i + 2]);
        }
    }
}

proof fn lemma_no_expansion_push(s: Seq<char>, c: char)
    requires
        no_expansion(s),
        !is_name_start(c),
    ensures
        no_expansion(s.push(c)),
{
    let t = s.push(c);
    assert forall|i: int| !#[trigger] expands_at(t, i) by {
        assert(!expands_at(s, i));
        if 0 <= i && i + 1 < s.len() {
            assert(t[i] == s[i] && t[i + 1] == s[i + 1]);
        } else if i + 1 == s.len() {
            assert(t[i + 1] == c);
        }
    }
}

/// The tokens of space-separated pieces: empty pieces give nothing, every piece but the
/// last is read as the operator it spells where `ops` holds, the last is always a word.
pub open spec fn space_fields(ps: Seq<Seq<char>>, ops: bool) -> Seq<TokenView>
    decreases ps.len(),
{
    if ps.len() == 0 {
        Seq::empty()
    } else if ps.len() == 1 {
        if ps[0].len() > 0 { seq![TokenView::Word(ps[0])] } else { Seq::empty() }
    } else {
        (if ps[0].len() > 0 { seq![field_token(ps[0], false, ops)] } else { Seq::<TokenView>::empty() })
            + space_fields(ps.drop_first(), ops)
    }
}

proof fn lemma_split_from_acc(s: Seq<char>, sep: char, cur: Seq<char>, acc: Seq<Seq<char>>)
    ensures
        split_from(s, sep, cur, acc) == acc + split_from(s, sep, cur, Seq::empty()),
        split_from(s, sep, cur, Seq::empty()).len() >= 1,
    decreases s.len(),
{
    if s.len() == 0 {
        assert(Seq::<Seq<char>>::empty().push(cur) =~= seq![cur]);
        assert(acc.push(cur) =~= acc + seq![cur]);
    } else if s[0] == sep {
        lemma_split_from_acc(s.drop_first(), sep, Seq::empty(), acc.push(cur));
        lemma_split_from_acc(s.drop_first(), sep, Seq::empty(), Seq::<Seq<char>>::empty().push(cur));
        let p = split_from(s.drop_first(), sep, Seq::empty(), Seq::empty());
        assert(acc.push(cur) + p =~= acc + (Seq::<Seq<char>>::empty().push(cur) + p));
    } else {
        lemma_split_from_acc(s.drop_first(), sep, cur.push(s[0]), acc);
    }
}

/// Whether every character of `s` is plain or a space.
pub open spec fn plain_or_spaces(s: Seq<char>) -> bool {
    forall|i: int| 0 <= i < s.len() ==> (is_plain(#[trigger] s[i]) || s[i] == ' ')
}

proof fn lemma_lex_spaces(s: Seq<char>, w: Seq<char>, toks: Seq<TokenView>, ops: bool, env: Env)
    requires
        plain_or_spaces(s),
        env is None || no_expansion(s),
    ensures
        lex(s, w, false, toks, ops, env) == toks + space_fields(split_from(s, ' ', w, Seq::empty()), ops),
    decreases s.len(),
{
    if s.len() == 0 {
        assert(split_from(s, ' ', w, Seq::empty()) =~= seq![w]);
        if w.len() > 0 {
            assert(toks.push(TokenView::Word(w)) =~= toks + seq![TokenView::Word(w)]);
        } else {
            assert(toks + Seq::<TokenView>::empty() =~= toks);
        }
    } else {
        let rest = s.drop_first();
        assert(plain_or_spaces(rest)) by {
            assert forall|i: int| 0 <= i < rest.len() implies (is_plain(#[trigger] rest[i]) || rest[i] == ' ') by {
                assert(rest[i] == s[i + 1]);
            }
        }
        if env is Some {
            lemma_no_expansion_rest(s);
        }
        assert(is_plain(s[0]) || s[0] == ' ');
        if s[0] == ' ' {
            let toks2 = if w.len() > 0 { toks.push(field_token(w, false, ops)) } else { toks };
            lemma_lex_spaces(rest, Seq::empty(), toks2, ops, env);
            lemma_split_from_acc(rest, ' ', Seq::empty(), Seq::<Seq<char>>::empty().push(w));
            let p = split_from(rest, ' ', Seq::empty(), Seq::empty());
            let ps = split_from(s, ' ', w, Seq::empty());
            assert(ps == Seq::<Seq<char>>::empty().push(w) + p);
            assert(ps.drop_first() =~= p);
            assert(ps[0] == w);
            if w.len() > 0 {
                assert(toks2 + space_fields(p, ops) =~= toks + (seq![field_token(w, false, ops)] + space_fields(p, ops)));
            } else {
                assert(toks2 + space_fields(p, ops) =~= toks + (Seq::<TokenView>::empty() + space_fields(p, ops)));
            }
        } else {
            lemma_lex_spaces(rest, w.push(s[0]), toks, ops, env);
        }
    }
}

proof fn lemma_space_fields_no_ops(ps: Seq<Seq<char>>)
    requires
        forall|i: int| 0 <= i < ps.len() ==> spec_operator_kind(#[trigger] ps[i]) is None,
    ensures
        space_fields(ps, true) == space_fields(ps, false),
    decreases ps.len(),
{
    if ps.len() > 1 {
        let t = ps.drop_first();
        assert forall|i: int| 0 <= i < t.len() implies spec_operator_kind(#[trigger] t[i]) is None by {
            assert(t[i] == ps[i + 1]);
        }
        assert(spec_operator_kind(ps[0]) is None);
        lemma_space_fields_no_ops(t);
    }
}

/// Whether no piece between the spaces of `s` spells an operator.
pub open spec fn no_operator_pieces(s: Seq<char>) -> bool {
    forall|i: int| 0 <= i < split_on(s, ' ').len() ==> spec_operator_kind(#[trigger] split_on(s, ' ')[i]) is None
}

/// A line with no quotes or backslashes splits at its spaces: its tokens are the non-empty
/// pieces between spaces, each a word. The operator-free rules give that split for any such
/// line; `tokenize` gives it where no piece spells an operator, `$` included; with variables
/// it is given where, besides, no `$` begins a variable name.
pub proof fn law_plain_line_splits_at_spaces(s: Seq<char>, vars: Vars)
    requires
        plain_or_spaces(s),
    ensures
        spec_words(s) == space_fields(split_on(s, ' '), false),
        no_operator_pieces(s) ==> spec_tokenize(s) == space_fields(split_on(s, ' '), false),
        no_operator_pieces(s) && no_expansion(s)
            ==> spec_tokenize_with(s, vars) == space_fields(split_on(s, ' '), false),
{
    let f = space_fields(split_on(s, ' '), false);
    let g = space_fields(split_on(s, ' '), true);
    lemma_lex_spaces(s, Seq::empty(), Seq::empty(), false, None);
    lemma_lex_spaces(s, Seq::empty(), Seq::empty(), true, None);
    assert(Seq::<TokenView>::empty() + f =~= f);
    assert(Seq::<TokenView>::empty() + g =~= g);
    if no_operator_pieces(s) {
        lemma_space_fields_no_ops(split_on(s, ' '));
        if no_expansion(s) {
            lemma_lex_spaces(s, Seq::empty(), Seq::empty(), true, Some(vars));
        }
    }
}

proof fn lemma_lex_plain(s: Seq<char>, w: Seq<char>, lit: bool, toks: Seq<TokenView>, ops: bool, env: Env)
    requires
        forall|i: int| 0 <= i < s.len() ==> is_plain(#[trigger] s[i]),
        env is None || no_expansion(s),
    ensures
        lex(s, w, lit, toks, ops, env) == lex(Seq::empty(), w + s, lit, toks, ops, env),
    decreases s.len(),
{
    if s.len() > 0 {
        let rest = s.drop_first();
        assert(is_plain(s[0]));
        assert forall|i: int| 0 <= i < rest.len() implies is_plain(#[trigger] rest[i]) by {
            assert(rest[i] == s[i + 1]);
        }
        if env is Some {
            lemma_no_expansion_rest(s);
        }
        lemma_lex_plain(rest, w.push(s[0]), lit, toks, ops, env);
        assert(w.push(s[0]) + rest =~= w + s);
    } else {
        assert(w + s =~= w);
    }
}

/// A run of plain characters is one word, even where it spells an operator: only a space
/// after a word makes it an operator. `tokenize` keeps a `$` in it as it is; with variables
/// this holds where no `$` begins a variable name.
pub proof fn law_plain_text_is_one_word(s: Seq<char>, vars: Vars)
    requires
        s.len() > 0,
        forall|i: int| 0 <= i < s.len() ==> is_plain(#[trigger] s[i]),
    ensures
        spec_tokenize(s) == seq![TokenView::Word(s)],
        no_expansion(s) ==> spec_tokenize_with(s, vars) == seq![TokenView::Word(s)],
{
    lemma_lex_plain(s, Seq::empty(), false, Seq::empty(), true, None);
    if no_expansion(s) {
        lemma_lex_plain(s, Seq::empty(), false, Seq::empty(), true, Some(vars));
    }
    assert(Seq::<char>::empty() + s =~= s);
    assert(Seq::<TokenView>::empty().push(TokenView::Word(s)) =~= seq![TokenView::Word(s)]);
}

proof fn lemma_operator_line(t: Seq<char>, env: Env)
    requires
        spec_operator_kind(t) is Some,
    ensures
        lex(t + seq![' '], Seq::empty(), false, Seq::empty(), true, env) == seq![TokenView::Op(spec_operator_kind(t)->0)],
        lex(seq!['\''] + t + seq!['\'', ' '], Seq::empty(), false, Seq::empty(), true, env) == seq![TokenView::Word(t)],
{
    assert(t.len() > 0);
    assert(forall|i: int| 0 <= i < t.len() ==> is_plain(#[trigger] t[i]) && t[i] != '$') by {
        assert forall|i: int| 0 <= i < t.len() implies is_plain(#[trigger] t[i]) && t[i] != '$' by {
            if t == seq!['1', '>'] || t == seq!['>'] || t == seq!['2', '>'] || t == seq!['1', '>', '>']
                || t == seq!['>', '>'] || t == seq!['2', '>', '>'] || t == seq!['|'] || t == seq!['<'] {
            }
        }
    }
    let line = t + seq![' '];
    assert forall|i: int| !#[trigger] expands_at(t, i) by {
        if 0 <= i && i < t.len() {
            assert(t[i] != '$');
        }
    }
    let e = Seq::<TokenView>::empty();
    lemma_lex_plain_prefix_from(t, seq![' '], Seq::empty(), false, e, true, env);
    assert(Seq::<char>::empty() + t =~= t);
    assert(seq![' '].drop_first() =~= Seq::<char>::empty());
    assert(lex(line, Seq::empty(), false, e, true, env) == lex(seq![' '], t, false, e, true, env));
    assert(lex(seq![' '], t, false, e, true, env) == lex(seq![' '].drop_first(), Seq::empty(), false,
        e.push(field_token(t, false, true)), true, env));
    assert(field_token(t, false, true) == TokenView::Op(spec_operator_kind(t)->0));
    assert(e.push(TokenView::Op(spec_operator_kind(t)->0)) =~= seq![TokenView::Op(spec_operator_kind(t)->0)]);

    let s = seq!['\''] + t + seq!['\'', ' '];
    lemma_quoted_literal_plain('\'', t, seq![' ']);
    assert(s.drop_first() =~= t + seq!['\''] + seq![' ']);
    assert(s[0] == '\'');
    assert(lex(s, Seq::empty(), false, e, true, env) == lex(seq![' '], t, true, e, true, env));
    assert(lex(seq![' '], t, true, e, true, env) == lex(seq![' '].drop_first(), Seq::empty(), false,
        e.push(TokenView::Word(t)), true, env));
    assert(e.push(TokenView::Word(t)) =~= seq![TokenView::Word(t)]);
}

/// A word spelling an operator, followed by a space, is that operator; the same word in
/// single quotes is an ordinary word; with variables or without.
pub proof fn law_quoting_makes_operators_words(t: Seq<char>, vars: Vars)
    requires
        spec_operator_kind(t) is Some,
    ensures
        spec_tokenize(t + seq![' ']) == seq![TokenView::Op(spec_operator_kind(t)->0)],
        spec_tokenize(seq!['\''] + t + seq!['\'', ' ']) == seq![TokenView::Word(t)],
        spec_tokenize_with(t + seq![' '], vars) == seq![TokenView::Op(spec_operator_kind(t)->0)],
        spec_tokenize_with(seq!['\''] + t + seq!['\'', ' '], vars) == seq![TokenView::Word(t)],
{
    lemma_operator_line(t, None);
    lemma_operator_line(t, Some(vars));
}

proof fn lemma_lex_plain_prefix_from(
    a: Seq<char>,
    rest: Seq<char>,
    w: Seq<char>,
    lit: bool,
    toks: Seq<TokenView>,
    ops: bool,
    env: Env,
)
    requires
        forall|i: int| 0 <= i < a.len() ==> is_plain(#[trigger] a[i]),
        env is None || (no_expansion(a) && (rest.len() > 0 ==> !is_name_start(rest[0]))),
    ensures
        lex(a + rest, w, lit, toks, ops, env) == lex(rest, w + a, lit, toks, ops, env),
    decreases a.len(),
{
    if a.len() > 0 {
        let a2 = a.drop_first();
        assert(is_plain(a[0]));
        assert forall|i: int| 0 <= i < a2.len() implies is_plain(#[trigger] a2[i]) by {
            assert(a2[i] == a[i + 1]);
        }
        assert((a + rest)[0] == a[0]);
        assert((a + rest).drop_first() =~= a2 + rest);
        if env is Some {
            lemma_no_expansion_rest(a);
            if a.len() > 1 {
                assert((a + rest)[1] == a[1]);
            } else if rest.len() > 0 {
                assert((a + rest)[1] == rest[0]);
            }
        }
        lemma_lex_plain_prefix_from(a2, rest, w.push(a[0]), lit, toks, ops, env);
        assert(w.push(a[0]) + a2 =~= w + a);
    } else {
        assert(a + rest =~= rest);
        assert(w + a =~= w);
    }
}

proof fn lemma_quoted_literal_plain(quote: char, t: Seq<char>, after: Seq<char>)
    requires
        forall|i: int| 0 <= i < t.len() ==> #[trigger] t[i] != quote,
    ensures
        quoted_literal(quote, t + seq![quote] + after) == (t, after),
    decreases t.len(),
{
    let s = t + seq![quote] + after;
    if t.len() == 0 {
        assert(s =~= seq![quote] + after);
        assert(s.drop_first() =~= after);
        assert(t =~= Seq::<char>::empty());
    } else {
        let t2 = t.drop_first();
        assert forall|i: int| 0 <= i < t2.len() implies #[trigger] t2[i] != quote by {
            assert(t2[i] == t[i + 1]);
        }
        lemma_quoted_literal_plain(quote, t2, after);
        assert(s[0] == t[0]);
        assert(s.drop_first() =~= t2 + seq![quote] + after);
        assert(seq![t[0]] + t2 =~= t);
    }
}

proof fn lemma_single_quoted_line(t: Seq<char>, env: Env)
    requires
        forall|i: int| 0 <= i < t.len() ==> #[trigger] t[i] != '\'',
    ensures
        lex(seq!['\''] + t + seq!['\''], Seq::empty(), false, Seq::empty(), true, env) == (if t.len() > 0 {
            seq![TokenView::Word(t)]
        } else {
            Seq::<TokenView>::empty()
        }),
{
    let s = seq!['\''] + t + seq!['\''];
    lemma_quoted_literal_plain('\'', t, Seq::empty());
    assert(s.drop_first() =~= t + seq!['\''] + Seq::<char>::empty());
    assert(s[0] == '\'');
    assert(Seq::<char>::empty() + t =~= t);
    assert(lex(s, Seq::empty(), false, Seq::empty(), true, env)
        == lex(Seq::<char>::empty(), t, true, Seq::<TokenView>::empty(), true, env));
    if t.len() > 0 {
        assert(Seq::<TokenView>::empty().push(TokenView::Word(t)) =~= seq![TokenView::Word(t)]);
    }
}

/// Single quotes keep their text as it is, `$` included: a single-quoted text with no
/// single quote in it, alone on a line, is one word holding that text (no token if it is
/// empty), with variables or without.
pub proof fn law_single_quotes_keep_text(t: Seq<char>, vars: Vars)
    requires
        forall|i: int| 0 <= i < t.len() ==> #[trigger] t[i] != '\'',
    ensures
        spec_tokenize(seq!['\''] + t + seq!['\'']) == (if t.len() > 0 {
            seq![TokenView::Word(t)]
        } else {
            Seq::<TokenView>::empty()
        }),
        spec_tokenize_with(seq!['\''] + t + seq!['\''], vars) == (if t.len() > 0 {
            seq![TokenView::Word(t)]
        } else {
            Seq::<TokenView>::empty()
        }),
{
    lemma_single_quoted_line(t, None);
    lemma_single_quoted_line(t, Some(vars));
}

proof fn lemma_quoted_escaped_plain(quote: char, t: Seq<char>, after: Seq<char>, env: Env)
    requires
        forall|i: int| 0 <= i < t.len() ==> #[trigger] t[i] != quote && t[i] != '\\',
        env is None || no_expansion(t.push(quote)),
    ensures
        quoted_escaped(quote, t + seq![quote] + after, env) == (t, after),
    decreases t.len(),
{
    let s = t + seq![quote] + after;
    if t.len() == 0 {
        assert(s =~= seq![quote] + after);
        assert(s.drop_first() =~= after);
        assert(t =~= Seq::<char>::empty());
    } else {
        let t2 = t.drop_first();
        assert forall|i: int| 0 <= i < t2.len() implies #[trigger] t2[i] != quote && t2[i] != '\\' by {
            assert(t2[i] == t[i + 1]);
        }
        assert(t2.push(quote) =~= t.push(quote).drop_first());
        if env is Some {
            lemma_no_expansion_rest(t.push(quote));
            assert(s[1] == t.push(quote)[1]);
        }
        lemma_quoted_escaped_plain(quote, t2, after, env);
        assert(s[0] == t[0]);
        assert(t[0] != '\\');
        assert(s.drop_first() =~= t2 + seq![quote] + after);
        assert(seq![t[0]] + t2 =~= t);
    }
}

proof fn lemma_double_quoted_line(t: Seq<char>, env: Env)
    requires
        forall|i: int| 0 <= i < t.len() ==> #[trigger] t[i] != '"' && t[i] != '\\',
        env is None || no_expansion(t.push('"')),
    ensures
        lex(seq!['"'] + t + seq!['"'], Seq::empty(), false, Seq::empty(), true, env) == (if t.len() > 0 {
            seq![TokenView::Word(t)]
        } else {
            Seq::<TokenView>::empty()
        }),
{
    let s = seq!['"'] + t + seq!['"'];
    lemma_quoted_escaped_plain('"', t, Seq::empty(), env);
    assert(s.drop_first() =~= t + seq!['"'] + Seq::<char>::empty());
    assert(s[0] == '"');
    assert(Seq::<char>::empty() + t =~= t);
    assert(lex(s, Seq::empty(), false, Seq::empty(), true, env)
        == lex(Seq::<char>::empty(), t, true, Seq::<TokenView>::empty(), true, env));
    if t.len() > 0 {
        assert(Seq::<TokenView>::empty().push(TokenView::Word(t)) =~= seq![TokenView::Word(t)]);
    }
}

/// Double quotes keep a text without double quotes or backslashes as it is: alone on a
/// line it is one word holding that text, spaces, single quotes and `$` included (no token
/// if it is empty); with variables this holds where no `$` in it begins a variable name.
pub proof fn law_double_quotes_keep_text(t: Seq<char>, vars: Vars)
    requires
        forall|i: int| 0 <= i < t.len() ==> #[trigger] t[i] != '"' && t[i] != '\\',
    ensures
        spec_tokenize(seq!['"'] + t + seq!['"']) == (if t.len() > 0 {
            seq![TokenView::Word(t)]
        } else {
            Seq::<TokenView>::empty()
        }),
        no_expansion(t) ==> spec_tokenize_with(seq!['"'] + t + seq!['"'], vars) == (if t.len() > 0 {
            seq![TokenView::Word(t)]
        } else {
            Seq::<TokenView>::empty()
        }),
{
    lemma_double_quoted_line(t, None);
    if no_expansion(t) {
        lemma_no_expansion_push(t, '"');
        lemma_double_quoted_line(t, Some(vars));
    }
}

proof fn lemma_backslash_line(c: char, env: Env)
    ensures
        lex(seq!['\\', c], Seq::empty(), false, Seq::empty(), true, env) == seq![TokenView::Word(seq![c])],
{
    let s = seq!['\\', c];
    assert(s[0] == '\\');
    assert(s.drop_first() =~= seq![c]);
    assert(s.drop_first().drop_first() =~= Seq::<char>::empty());
    assert(Seq::<char>::empty().push(c) =~= seq![c]);
    assert(lex(s, Seq::empty(), false, Seq::empty(), true, env) == lex(s.drop_first().drop_first(),
        Seq::<char>::empty().push(s.drop_first()[0]), true, Seq::<TokenView>::empty(), true, env));
    assert(Seq::<TokenView>::empty().push(TokenView::Word(seq![c])) =~= seq![TokenView::Word(seq![c])]);
}

/// A backslash outside quotes takes the next character as it is: a backslash and one
/// character make a word of that character, even a space, a quote or `$`; with variables
/// or without.
pub proof fn law_backslash_escapes(c: char, vars: Vars)
    ensures
        spec_tokenize(seq!['\\', c]) == seq![TokenView::Word(seq![c])],
        spec_tokenize_with(seq!['\\', c], vars) == seq![TokenView::Word(seq![c])],
{
    lemma_backslash_line(c, None);
    lemma_backslash_line(c, Some(vars));
}

proof fn lemma_var_name_whole(name: Seq<char>)
    requires
        forall|i: int| 0 <= i < name.len() ==> is_name_char(#[trigger] name[i]),
    ensures
        var_name(name) == (name, Seq::<char>::empty()),
    decreases name.len(),
{
    if name.len() > 0 {
        let n2 = name.drop_first();
        assert forall|i: int| 0 <= i < n2.len() implies is_name_char(#[trigger] n2[i]) by {
            assert(n2[i] == name[i + 1]);
        }
        assert(is_name_char(name[0]));
        lemma_var_name_whole(n2);
        assert(seq![name[0]] + n2 =~= name);
    } else {
        assert(name =~= Seq::<char>::empty());
    }
}

/// `$NAME` outside quotes stands for the variable's value, its first binding: alone on a
/// line it is one word holding the value, or no token where the value is empty or the
/// variable unset. Without variables `tokenize` keeps `$NAME` as it is, one word.
pub proof fn law_variable_expands(name: Seq<char>, vars: Vars)
    requires
        name.len() > 0,
        is_ascii_letter(name[0]) || name[0] == '_',
        forall|i: int| 0 <= i < name.len() ==> is_var_char(#[trigger] name[i]),
    ensures
        spec_tokenize_with(seq!['$'] + name, vars) == (if lookup(vars, name).len() > 0 {
            seq![TokenView::Word(lookup(vars, name))]
        } else {
            Seq::<TokenView>::empty()
        }),
        spec_tokenize(seq!['$'] + name) == seq![TokenView::Word(seq!['$'] + name)],
{
    let s = seq!['$'] + name;
    lemma_var_chars(name);
    lemma_var_name_whole(name);
    assert(s.drop_first() =~= name);
    assert(s[0] == '$');
    let v = lookup(vars, name);
    assert(Seq::<char>::empty() + v =~= v);
    assert(spec_tokenize_with(s, vars) == lex(Seq::<char>::empty(), v, true, Seq::<TokenView>::empty(), true, Some(vars)));
    if v.len() > 0 {
        assert(Seq::<TokenView>::empty().push(TokenView::Word(v)) =~= seq![TokenView::Word(v)]);
    }
    assert forall|i: int| 0 <= i < s.len() implies is_plain(#[trigger] s[i]) by {
        if i > 0 {
            assert(s[i] == name[i - 1]);
            assert(is_name_char(name[i - 1]));
        }
    }
    law_plain_text_is_one_word(s, vars);
}

/// The tokens of a text that stands alone as one word: that word, or none where it is empty.
pub open spec fn one_word(w: Seq<char>) -> Seq<TokenView> {
    if w.len() > 0 {
        seq![TokenView::Word(w)]
    } else {
        Seq::empty()
    }
}

/// Whether every character of `s` is plain.
pub open spec fn all_plain(s: Seq<char>) -> bool {
    forall|i: int| 0 <= i < s.len() ==> is_plain(#[trigger] s[i])
}

proof fn lemma_end_word(w: Seq<char>, lit: bool, ops: bool, env: Env)
    ensures
        lex(Seq::empty(), w, lit, Seq::empty(), ops, env) == one_word(w),
{
    if w.len() > 0 {
        assert(Seq::<TokenView>::empty().push(TokenView::Word(w)) =~= seq![TokenView::Word(w)]);
    }
}

proof fn lemma_double_quotes_join(a: Seq<char>, t: Seq<char>, b: Seq<char>, ops: bool, env: Env)
    requires
        all_plain(a),
        all_plain(b),
        forall|i: int| 0 <= i < t.len() ==> #[trigger] t[i] != '"' && t[i] != '\\',
        env is None || (no_expansion(a) && no_expansion(t.push('"')) && no_expansion(b)),
    ensures
        lex(a + seq!['"'] + t + seq!['"'] + b, Seq::empty(), false, Seq::empty(), ops, env) == one_word(a + t + b),
{
    let e = Seq::<TokenView>::empty();
    let q = seq!['"'] + t + seq!['"'] + b;
    assert(a + seq!['"'] + t + seq!['"'] + b =~= a + q);
    lemma_lex_plain_prefix_from(a, q, Seq::empty(), false, e, ops, env);
    assert(Seq::<char>::empty() + a =~= a);
    lemma_quoted_escaped_plain('"', t, b, env);
    assert(q[0] == '"');
    assert(q.drop_first() =~= t + seq!['"'] + b);
    assert(lex(q, a, false, e, ops, env) == lex(b, a + t, true, e, ops, env));
    lemma_lex_plain(b, a + t, true, e, ops, env);
    lemma_end_word(a + t + b, true, ops, env);
}

/// Double-quoted text joins the text next to it: plain text, a double-quoted run without
/// double quotes or backslashes, and plain text again make one word of the three texts
/// (none where all are empty), under every tokenizer; with variables where no `$` in them
/// begins a variable name.
pub proof fn law_double_quotes_join_text(a: Seq<char>, t: Seq<char>, b: Seq<char>, vars: Vars)
    requires
        all_plain(a),
        all_plain(b),
        forall|i: int| 0 <= i < t.len() ==> #[trigger] t[i] != '"' && t[i] != '\\',
    ensures
        spec_tokenize(a + seq!['"'] + t + seq!['"'] + b) == one_word(a + t + b),
        spec_words(a + seq!['"'] + t + seq!['"'] + b) == one_word(a + t + b),
        no_expansion(a) && no_expansion(t) && no_expansion(b)
            ==> spec_tokenize_with(a + seq!['"'] + t + seq!['"'] + b, vars) == one_word(a + t + b),
{
    lemma_double_quotes_join(a, t, b, true, None);
    lemma_double_quotes_join(a, t, b, false, None);
    if no_expansion(a) && no_expansion(t) && no_expansion(b) {
        lemma_no_expansion_push(t, '"');
        lemma_double_quotes_join(a, t, b, true, Some(vars));
    }
}

proof fn lemma_single_quotes_join(a: Seq<char>, t: Seq<char>, b: Seq<char>, ops: bool, env: Env)
    requires
        all_plain(a),
        all_plain(b),
        forall|i: int| 0 <= i < t.len() ==> #[trigger] t[i] != '\'',
        env is None || (no_expansion(a) && no_expansion(b)),
    ensures
        lex(a + seq!['\''] + t + seq!['\''] + b, Seq::empty(), false, Seq::empty(), ops, env) == one_word(a + t + b),
{
    let e = Seq::<TokenView>::empty();
    let q = seq!['\''] + t + seq!['\''] + b;
    assert(a + seq!['\''] + t + seq!['\''] + b =~= a + q);
    lemma_lex_plain_prefix_from(a, q, Seq::empty(), false, e, ops, env);
    assert(Seq::<char>::empty() + a =~= a);
    lemma_quoted_literal_plain('\'', t, b);
    assert(q[0] == '\'');
    assert(q.drop_first() =~= t + seq!['\''] + b);
    assert(lex(q, a, false, e, ops, env) == lex(b, a + t, true, e, ops, env));
    lemma_lex_plain(b, a + t, true, e, ops, env);
    lemma_end_word(a + t + b, true, ops, env);
}

/// Single-quoted text joins the text next to it: plain text, a single-quoted run without
/// single quotes and plain text again make one word of the three texts (none where all
/// are empty), under every tokenizer; with variables where no `$` outside the quotes
/// begins a variable name.
pub proof fn law_single_quotes_join_text(a: Seq<char>, t: Seq<char>, b: Seq<char>, vars: Vars)
    requires
        all_plain(a),
        all_plain(b),
        forall|i: int| 0 <= i < t.len() ==> #[trigger] t[i] != '\'',
    ensures
        spec_tokenize(a + seq!['\''] + t + seq!['\''] + b) == one_word(a + t + b),
        spec_words(a + seq!['\''] + t + seq!['\''] + b) == one_word(a + t + b),
        no_expansion(a) && no_expansion(b)
            ==> spec_tokenize_with(a + seq!['\''] + t + seq!['\''] + b, vars) == one_word(a + t + b),
{
    lemma_single_quotes_join(a, t, b, true, None);
    lemma_single_quotes_join(a, t, b, false, None);
    if no_expansion(a) && no_expansion(b) {
        lemma_single_quotes_join(a, t, b, true, Some(vars));
    }
}

proof fn lemma_backslash_join(a: Seq<char>, c: char, b: Seq<char>, ops: bool, env: Env)
    requires
        all_plain(a),
        all_plain(b),
        env is None || (no_expansion(a) && no_expansion(b)),
    ensures
        lex(a + seq!['\\', c] + b, Seq::empty(), false, Seq::empty(), ops, env) == seq![TokenView::Word(a + seq![c] + b)],
{
    let e = Seq::<TokenView>::empty();
    let q = seq!['\\', c] + b;
    assert(a + seq!['\\', c] + b =~= a + q);
    lemma_lex_plain_prefix_from(a, q, Seq::empty(), false, e, ops, env);
    assert(Seq::<char>::empty() + a =~= a);
    assert(q[0] == '\\');
    assert(q.drop_first()[0] == c);
    assert(q.drop_first().drop_first() =~= b);
    assert(lex(q, a, false, e, ops, env) == lex(b, a.push(c), true, e, ops, env));
    lemma_lex_plain(b, a.push(c), true, e, ops, env);
    assert(a.push(c) + b =~= a + seq![c] + b);
    lemma_end_word(a + seq![c] + b, true, ops, env);
    assert((a + seq![c] + b).len() > 0);
}

/// An escaped character joins the text next to it: plain text, a backslash with any
/// character, and plain text again make one word, the backslash dropped, under every
/// tokenizer; with variables where no `$` outside the escape begins a variable name.
pub proof fn law_backslash_joins_text(a: Seq<char>, c: char, b: Seq<char>, vars: Vars)
    requires
        all_plain(a),
        all_plain(b),
    ensures
        spec_tokenize(a + seq!['\\', c] + b) == seq![TokenView::Word(a + seq![c] + b)],
        spec_words(a + seq!['\\', c] + b) == seq![TokenView::Word(a + seq![c] + b)],
        no_expansion(a) && no_expansion(b)
            ==> spec_tokenize_with(a + seq!['\\', c] + b, vars) == seq![TokenView::Word(a + seq![c] + b)],
{
    lemma_backslash_join(a, c, b, true, None);
    lemma_backslash_join(a, c, b, false, None);
    if no_expansion(a) && no_expansion(b) {
        lemma_backslash_join(a, c, b, true, Some(vars));
    }
}

/// A line of a word, an operator text and another word, separated by single spaces.
pub open spec fn op_line(a: Seq<char>, op: Seq<char>, f: Seq<char>) -> Seq<char> {
    a + seq![' '] + op + seq![' '] + f
}

/// Whether a character is an ASCII letter.
pub open spec fn is_ascii_letter(c: char) -> bool {
    ('a' <= c && c <= 'z') || ('A' <= c && c <= 'Z')
}

proof fn lemma_op_between_words(a: Seq<char>, op: Seq<char>, f: Seq<char>, ops: bool, env: Env)
    requires
        a.len() > 0,
        is_ascii_letter(a[0]),
        all_plain(a),
        f.len() > 0,
        all_plain(f),
        spec_operator_kind(op) is Some,
        env is None || (no_expansion(a) && no_expansion(f)),
    ensures
        lex(op_line(a, op, f), Seq::empty(), false, Seq::empty(), ops, env)
            == seq![TokenView::Word(a), field_token(op, false, ops), TokenView::Word(f)],
{
    assert(forall|i: int| 0 <= i < op.len() ==> is_plain(#[trigger] op[i]) && op[i] != '$') by {
        assert forall|i: int| 0 <= i < op.len() implies is_plain(#[trigger] op[i]) && op[i] != '$' by {
            if op == seq!['1', '>'] || op == seq!['>'] || op == seq!['2', '>'] || op == seq!['1', '>', '>']
                || op == seq!['>', '>'] || op == seq!['2', '>', '>'] || op == seq!['|'] || op == seq!['<'] {
            }
        }
    }
    assert(op.len() > 0);
    assert forall|i: int| !#[trigger] expands_at(op, i) by {
        if 0 <= i && i < op.len() {
            assert(op[i] != '$');
        }
    }
    assert(spec_operator_kind(a) is None) by {
        if a == seq!['1', '>'] || a == seq!['1', '>', '>'] { assert(a[0] == '1'); }
        if a == seq!['2', '>'] || a == seq!['2', '>', '>'] { assert(a[0] == '2'); }
        if a == seq!['>'] || a == seq!['>', '>'] { assert(a[0] == '>'); }
        if a == seq!['|'] { assert(a[0] == '|'); }
        if a == seq!['<'] { assert(a[0] == '<'); }
    }
    let e = Seq::<TokenView>::empty();
    let r1 = seq![' '] + op + seq![' '] + f;
    assert(op_line(a, op, f) =~= a + r1);
    lemma_lex_plain_prefix_from(a, r1, Seq::empty(), false, e, ops, env);
    assert(Seq::<char>::empty() + a =~= a);
    let t1 = e.push(field_token(a, false, ops));
    let r3 = seq![' '] + f;
    let r2 = op + r3;
    assert(r1[0] == ' ');
    assert(r1.drop_first() =~= r2);
    assert(lex(r1, a, false, e, ops, env) == lex(r2, Seq::empty(), false, t1, ops, env));
    lemma_lex_plain_prefix_from(op, r3, Seq::empty(), false, t1, ops, env);
    assert(Seq::<char>::empty() + op =~= op);
    let t2 = t1.push(field_token(op, false, ops));
    assert(r3[0] == ' ');
    assert(r3.drop_first() =~= f);
    assert(lex(r3, op, false, t1, ops, env) == lex(f, Seq::empty(), false, t2, ops, env));
    lemma_lex_plain(f, Seq::empty(), false, t2, ops, env);
    assert(Seq::<char>::empty() + f =~= f);
    assert(t2.push(TokenView::Word(f))
        =~= seq![TokenView::Word(a), field_token(op, false, ops), TokenView::Word(f)]);
}

proof fn lemma_op_text(a: Seq<char>, op: Seq<char>, f: Seq<char>, vars: Vars)
    requires
        a.len() > 0,
        is_ascii_letter(a[0]),
        all_plain(a),
        f.len() > 0,
        all_plain(f),
        spec_operator_kind(op) is Some,
    ensures
        spec_tokenize(op_line(a, op, f))
            == seq![TokenView::Word(a), TokenView::Op(spec_operator_kind(op)->0), TokenView::Word(f)],
        spec_words(op_line(a, op, f)) == seq![TokenView::Word(a), TokenView::Word(op), TokenView::Word(f)],
        no_expansion(a) && no_expansion(f) ==> spec_tokenize_with(op_line(a, op, f), vars)
            == seq![TokenView::Word(a), TokenView::Op(spec_operator_kind(op)->0), TokenView::Word(f)],
{
    lemma_op_between_words(a, op, f, true, None);
    lemma_op_between_words(a, op, f, false, None);
    if no_expansion(a) && no_expansion(f) {
        lemma_op_between_words(a, op, f, true, Some(vars));
    }
}

/// Each operator text between two words is its operator: `1>` and `>` send standard
/// output to a file, `1>>` and `>>` append to it, `2>` sends standard error to a file,
/// `2>>` appends to it, `|` pipes and `<` reads standard input from a file. The
/// operator-free rules keep each of these texts as a word.
pub proof fn law_operator_texts(a: Seq<char>, f: Seq<char>, vars: Vars)
    requires
        a.len() > 0,
        is_ascii_letter(a[0]),
        all_plain(a),
        f.len() > 0,
        all_plain(f),
    ensures
        spec_tokenize(op_line(a, seq!['1', '>'], f))
            == seq![TokenView::Word(a), TokenView::Op(OpKind::RedirOutTruncate), TokenView::Word(f)],
        spec_tokenize(op_line(a, seq!['>'], f))
            == seq![TokenView::Word(a), TokenView::Op(OpKind::RedirOutTruncate), TokenView::Word(f)],
        spec_tokenize(op_line(a, seq!['1', '>', '>'], f))
            == seq![TokenView::Word(a), TokenView::Op(OpKind::RedirOutAppend), TokenView::Word(f)],
        spec_tokenize(op_line(a, seq!['>', '>'], f))
            == seq![TokenView::Word(a), TokenView::Op(OpKind::RedirOutAppend), TokenView::Word(f)],
        spec_tokenize(op_line(a, seq!['2', '>'], f))
            == seq![TokenView::Word(a), TokenView::Op(OpKind::RedirErrTruncate), TokenView::Word(f)],
        spec_tokenize(op_line(a, seq!['2', '>', '>'], f))
            == seq![TokenView::Word(a), TokenView::Op(OpKind::RedirErrAppend), TokenView::Word(f)],
        spec_tokenize(op_line(a, seq!['|'], f))
            == seq![TokenView::Word(a), TokenView::Op(OpKind::Pipeline), TokenView::Word(f)],
        spec_tokenize(op_line(a, seq!['<'], f))
            == seq![TokenView::Word(a), TokenView::Op(OpKind::RedirIn), TokenView::Word(f)],
        no_expansion(a) && no_expansion(f) ==> {
            &&& spec_tokenize_with(op_line(a, seq!['1', '>'], f), vars)
                == seq![TokenView::Word(a), TokenView::Op(OpKind::RedirOutTruncate), TokenView::Word(f)]
            &&& spec_tokenize_with(op_line(a, seq!['>'], f), vars)
                == seq![TokenView::Word(a), TokenView::Op(OpKind::RedirOutTruncate), TokenView::Word(f)]
            &&& spec_tokenize_with(op_line(a, seq!['1', '>', '>'], f), vars)
                == seq![TokenView::Word(a), TokenView::Op(OpKind::RedirOutAppend), TokenView::Word(f)]
            &&& spec_tokenize_with(op_line(a, seq!['>', '>'], f), vars)
                == seq![TokenView::Word(a), TokenView::Op(OpKind::RedirOutAppend), TokenView::Word(f)]
            &&& spec_tokenize_with(op_line(a, seq!['2', '>'], f), vars)
                == seq![TokenView::Word(a), TokenView::Op(OpKind::RedirErrTruncate), TokenView::Word(f)]
            &&& spec_tokenize_with(op_line(a, seq!['2', '>', '>'], f), vars)
                == seq![TokenView::Word(a), TokenView::Op(OpKind::RedirErrAppend), TokenView::Word(f)]
            &&& spec_tokenize_with(op_line(a, seq!['|'], f), vars)
                == seq![TokenView::Word(a), TokenView::Op(OpKind::Pipeline), TokenView::Word(f)]
            &&& spec_tokenize_with(op_line(a, seq!['<'], f), vars)
                == seq![TokenView::Word(a), TokenView::Op(OpKind::RedirIn), TokenView::Word(f)]
        },
        forall|op: Seq<char>| spec_operator_kind(op) is Some ==> #[trigger] spec_words(op_line(a, op, f))
            == seq![TokenView::Word(a), TokenView::Word(op), TokenView::Word(f)],
{
    lemma_op_text(a, seq!['1', '>'], f, vars);
    lemma_op_text(a, seq!['>'], f, vars);
    lemma_op_text(a, seq!['1', '>', '>'], f, vars);
    lemma_op_text(a, seq!['>', '>'], f, vars);
    lemma_op_text(a, seq!['2', '>'], f, vars);
    lemma_op_text(a, seq!['2', '>', '>'], f, vars);
    assert(seq!['|'][0] != seq!['>'][0]);
    assert(seq!['<'][0] != seq!['>'][0]);
    assert(seq!['<'][0] != seq!['|'][0]);
    lemma_op_text(a, seq!['|'], f, vars);
    lemma_op_text(a, seq!['<'], f, vars);
    assert forall|op: Seq<char>| spec_operator_kind(op) is Some implies #[trigger] spec_words(op_line(a, op, f))
        == seq![TokenView::Word(a), TokenView::Word(op), TokenView::Word(f)] by {
        lemma_op_text(a, op, f, vars);
    }
}

/// Whether a character is an ASCII letter, an ASCII digit or `_`.
pub open spec fn is_var_char(c: char) -> bool {
    is_ascii_letter(c) || ('0' <= c && c <= '9') || c == '_'
}

/// A variable name begins with an ASCII letter or `_` and goes on with ASCII letters,
/// digits and `_`.
pub proof fn law_name_chars(c: char)
    ensures
        is_name_start(c) <==> (is_ascii_letter(c) || c == '_'),
        is_name_char(c) <==> is_var_char(c),
{
}

proof fn lemma_var_chars(name: Seq<char>)
    requires
        forall|i: int| 0 <= i < name.len() ==> is_var_char(#[trigger] name[i]),
    ensures
        forall|i: int| 0 <= i < name.len() ==> is_name_char(#[trigger] name[i]),
{
    assert forall|i: int| 0 <= i < name.len() implies is_name_char(#[trigger] name[i]) by {
        law_name_chars(name[i]);
    }
}

proof fn lemma_var_name_stops(name: Seq<char>, t: Seq<char>)
    requires
        forall|i: int| 0 <= i < name.len() ==> is_var_char(#[trigger] name[i]),
        t.len() > 0 ==> !is_var_char(t[0]),
    ensures
        var_name(name + t) == (name, t),
    decreases name.len(),
{
    if name.len() > 0 {
        let n2 = name.drop_first();
        assert forall|i: int| 0 <= i < n2.len() implies is_var_char(#[trigger] n2[i]) by {
            assert(n2[i] == name[i + 1]);
        }
        law_name_chars(name[0]);
        assert((name + t)[0] == name[0]);
        assert((name + t).drop_first() =~= n2 + t);
        lemma_var_name_stops(n2, t);
        assert(seq![name[0]] + n2 =~= name);
    } else {
        assert(name + t =~= t);
        if t.len() > 0 {
            law_name_chars(t[0]);
        }
    }
}

/// A variable name is the longest run of ASCII letters, digits and `_` after `$`: `$NAME`
/// followed by plain text that does not go on with such a character is the variable's
/// value joined to that text, one word (none where both are empty).
pub proof fn law_variable_name_ends(name: Seq<char>, t: Seq<char>, vars: Vars)
    requires
        name.len() > 0,
        is_ascii_letter(name[0]) || name[0] == '_',
        forall|i: int| 0 <= i < name.len() ==> is_var_char(#[trigger] name[i]),
        all_plain(t),
        no_expansion(t),
        t.len() > 0 ==> !is_var_char(t[0]),
    ensures
        spec_tokenize_with(seq!['$'] + name + t, vars) == one_word(lookup(vars, name) + t),
{
    let s = seq!['$'] + name + t;
    law_name_chars(name[0]);
    lemma_var_name_stops(name, t);
    assert(s[0] == '$');
    assert(s.drop_first() =~= name + t);
    assert(s.drop_first()[0] == name[0]);
    let v = lookup(vars, name);
    assert(Seq::<char>::empty() + v =~= v);
    let e = Seq::<TokenView>::empty();
    assert(spec_tokenize_with(s, vars) == lex(t, v, true, e, true, Some(vars)));
    lemma_lex_plain(t, v, true, e, true, Some(vars));
    lemma_end_word(v + t, true, true, Some(vars));
}

proof fn lemma_escape_in_double_quotes(c: char, ops: bool, env: Env)
    ensures
        lex(seq!['"', '\\', c, '"'], Seq::empty(), false, Seq::empty(), ops, env) == seq![TokenView::Word(
            if c == '"' || c == '$' || c == '\\' || c == '`' { seq![c] } else { seq!['\\', c] },
        )],
{
    let s = seq!['"', '\\', c, '"'];
    let inner = s.drop_first();
    assert(inner =~= seq!['\\', c, '"']);
    assert(inner.subrange(2, inner.len() as int) =~= seq!['"']);
    assert(seq!['"'].drop_first() =~= Seq::<char>::empty());
    assert(quoted_escaped('"', seq!['"'], env) == (Seq::<char>::empty(), Seq::<char>::empty()));
    let body = if c == '"' || c == '$' || c == '\\' || c == '`' { seq![c] } else { seq!['\\', c] };
    assert(body + Seq::<char>::empty() =~= body);
    assert(quoted_escaped('"', inner, env) == (body, Seq::<char>::empty()));
    assert(Seq::<char>::empty() + body =~= body);
    lemma_end_word(body, true, ops, env);
}

/// Inside double quotes a backslash escapes `"`, `$`, `\` and `` ` ``, which stand for
/// themselves, and stays in front of any other character; with variables or without.
pub proof fn law_double_quote_escapes(c: char, vars: Vars)
    ensures
        (c == '"' || c == '$' || c == '\\' || c == '`')
            ==> spec_tokenize(seq!['"', '\\', c, '"']) == seq![TokenView::Word(seq![c])]
                && spec_tokenize_with(seq!['"', '\\', c, '"'], vars) == seq![TokenView::Word(seq![c])],
        !(c == '"' || c == '$' || c == '\\' || c == '`')
            ==> spec_tokenize(seq!['"', '\\', c, '"']) == seq![TokenView::Word(seq!['\\', c])]
                && spec_tokenize_with(seq!['"', '\\', c, '"'], vars) == seq![TokenView::Word(seq!['\\', c])],
{
    lemma_escape_in_double_quotes(c, true, None);
    lemma_escape_in_double_quotes(c, true, Some(vars));
}

/// A variable's value is its first binding: a binding of the name in front decides it,
/// a binding of another name in front changes nothing, and without bindings it is empty.
pub proof fn law_first_binding_counts(name: Seq<char>, other: Seq<char>, value: Seq<char>, vars: Vars)
    ensures
        lookup(seq![(name, value)] + vars, name) == value,
        other != name ==> lookup(seq![(other, value)] + vars, name) == lookup(vars, name),
        lookup(Seq::empty(), name) == Seq::<char>::empty(),
{
    assert((seq![(name, value)] + vars)[0] == (name, value));
    assert((seq![(other, value)] + vars)[0] == (other, value));
    assert((seq![(other, value)] + vars).drop_first() =~= vars);
}

} // verus!
