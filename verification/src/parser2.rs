//! Splitting a command line into words, with no operators recognised.
use vstd::prelude::*;
use crate::structs::TokenView;
use crate::parser::{lex, tokenize_single_quotes, tokenize_double_quotes};
use crate::text::chars_of;

verus! {

/// The words of a line, each seen as a word token.
pub open spec fn word_tokens(v: Seq<String>) -> Seq<TokenView> {
    v.map_values(|s: String| TokenView::Word(s@))
}

/// The words of a line under the lexical rules of the tokenizer, with no operators and
/// `$` taken as it is.
pub open spec fn spec_words(s: Seq<char>) -> Seq<TokenView> {
    lex(s, Seq::empty(), false, Seq::empty(), false, None)
}

/// Splits a command line into words: spaces separate them, quotes and backslashes
/// keep characters together, and `$` is an ordinary character.
pub fn tokenize(args: &str) -> (result: Vec<String>)
    ensures
        word_tokens(result@) == spec_words(args@),
{
    let mut result: Vec<String> = Vec::new();
    let chars = chars_of(args);
    let mut pos: usize = 0;
    let mut str_to_push = String::new();
    let ghost mut literal = false;
    assert(chars@.skip(0) =~= args@);
    assert(word_tokens(result@) =~= Seq::<TokenView>::empty());

    while pos < chars.len()
        invariant
            chars@ == args@,
            pos <= chars.len(),
            lex(chars@.skip(pos as int), str_to_push@, literal, word_tokens(result@), false, None)
                == spec_words(args@),
        decreases chars.len() - pos,
    {
        let ghost rest = chars@.skip(pos as int);
        let ghost toks = word_tokens(result@);
        let arg = chars[pos];
        pos = pos + 1;
        assert(rest.drop_first() =~= chars@.skip(pos as int));
        if arg == ' ' {
            if !str_to_push.as_str().is_empty() {
                let ghost w = str_to_push@;
                result.push(str_to_push);
                str_to_push = String::new();
                assert(word_tokens(result@) =~= toks.push(TokenView::Word(w)));
            } else {
                assert(str_to_push@ =~= Seq::<char>::empty());
            }
            proof { literal = false; }
            continue;
        }
        if arg == '\'' {
            tokenize_single_quotes('\'', &chars, &mut pos, &mut str_to_push);
            proof { literal = true; }
            continue;
        } else if arg == '"' {
            tokenize_double_quotes('"', &chars, &mut pos, None, &mut str_to_push);
            proof { literal = true; }
            continue;
        } else if arg == '\\' {
            if pos < chars.len() {
                str_to_push.push(chars[pos]);
                pos = pos + 1;
                proof { literal = true; }
                assert(rest.drop_first().drop_first() =~= chars@.skip(pos as int));
            } else {
                str_to_push.push('\\');
            }
            continue;
        }
        str_to_push.push(arg);
    }
    assert(chars@.skip(pos as int) =~= Seq::<char>::empty());
    let ghost toks = word_tokens(result@);
    if !str_to_push.as_str().is_empty() {
        let ghost w = str_to_push@;
        result.push(str_to_push);
        assert(word_tokens(result@) =~= toks.push(TokenView::Word(w)));
    }
    result
}

} // verus!
