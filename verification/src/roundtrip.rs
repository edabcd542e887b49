//! Writing tokens out and lexing the text again gives the same tokens.
//!
//! This holds of a sequence of tokens where each token reads back when it
//! stands alone, and where no token runs into the one after it:
//! an identifier is followed by a special character, a space is not
//! followed by `#`, `$` is not followed by `(`, and a comment comes last.

use vstd::prelude::*;
use crate::error::LexError;
use crate::lexer::{
    ends_run, ident_len, is_special, lemma_ident_len, lemma_lex_token_rest, lemma_nested_rest,
    lemma_raw_until_rest, lemma_run_len, lex_nested, lex_stream, lex_token, punctuation, quoted,
    raw_until, run_len, Escape, Lexed, Quoted, RawSpan,
};
use crate::source::all_ok;
use crate::token::{render, render_all, TokenModel};

verus! {

/// Whether the text of `token` lexes to `token` and nothing else.
pub open spec fn reads_back(token: TokenModel) -> bool {
    &&& render(token).len() > 0
    &&& lex_token(render(token)) == Lexed { token: Ok(token), rest: Seq::empty() }
}

/// Whether `token` keeps apart from a text that starts with `c`.
pub open spec fn keeps_apart(token: TokenModel, c: char) -> bool {
    &&& token is Ident ==> is_special(c)
    &&& token == TokenModel::Space ==> c != '#'
    &&& token == TokenModel::Doller ==> c != '('
    &&& !(token is Comment)
}

/// Whether each token of `tokens` reads back alone and keeps apart from
/// the one after it.
pub open spec fn canonical(tokens: Seq<TokenModel>) -> bool {
    &&& forall|i: int| 0 <= i < tokens.len() ==> reads_back(#[trigger] tokens[i])
    &&& forall|i: int|
        0 <= i < tokens.len() - 1 ==> keeps_apart(#[trigger] tokens[i], render(tokens[i + 1])[0])
}

/// A run that stops inside `s` stops at the same place when more text
/// follows; one that takes all of `s` stops there when a character that
/// ends a run follows.
pub proof fn lemma_run_len_append(s: Seq<char>, more: Seq<char>, quoted: bool)
    requires
        run_len(s, quoted) < s.len() || more.len() == 0 || ends_run(more[0], quoted),
    ensures
        run_len(s + more, quoted) == run_len(s, quoted),
    decreases s.len(),
{
    if s.len() == 0 {
        assert(s + more =~= more);
    } else if ends_run(s[0], quoted) {
    } else {
        lemma_run_len_append(s.skip(1), more, quoted);
        assert((s + more).skip(1) =~= s.skip(1) + more);
    }
}

/// A raw span that is closed is read the same when more text follows it.
pub proof fn lemma_raw_until_append(s: Seq<char>, more: Seq<char>, delim: char, escape: Escape)
    requires
        raw_until(s, delim, escape).closed,
    ensures
        raw_until(s + more, delim, escape) == (RawSpan {
            rest: raw_until(s, delim, escape).rest + more,
            ..raw_until(s, delim, escape)
        }),
    decreases s.len(),
{
    let longer = s + more;
    if s.len() == 0 {
    } else if s[0] == '\\' {
        if s.len() == 1 {
        } else {
            lemma_raw_until_append(s.skip(2), more, delim, escape);
            assert(longer.skip(2) =~= s.skip(2) + more);
        }
    } else if s[0] == delim {
        assert(longer.skip(1) =~= s.skip(1) + more);
    } else {
        lemma_raw_until_append(s.skip(1), more, delim, escape);
        assert(longer.skip(1) =~= s.skip(1) + more);
    }
}

/// A nested token that leaves something is read the same when more text
/// follows.
pub proof fn lemma_nested_append(s: Seq<char>, more: Seq<char>)
    requires
        s.len() > 0,
        lex_nested(s).token is Ok,
        lex_nested(s).rest.len() > 0,
    ensures
        lex_nested(s + more) == (Lexed { rest: lex_nested(s).rest + more, ..lex_nested(s) }),
{
    let longer = s + more;
    let t = s.skip(1);
    assert(longer.skip(1) =~= t + more);
    if s[0] == '\\' {
        assert((t + more).skip(1) =~= t.skip(1) + more);
    } else if s[0] == '$' {
        if t.len() > 0 && t[0] == '(' {
            lemma_raw_until_append(t.skip(1), more, ')', Escape::Delimiter);
            assert((t + more).skip(1) =~= t.skip(1) + more);
        }
    } else {
        lemma_run_len(t, true);
        lemma_run_len_append(t, more, true);
        let n = run_len(t, true) as int;
        assert((t + more).take(n) =~= t.take(n));
        assert((t + more).skip(n) =~= t.skip(n) + more);
    }
}

/// A double-quoted span that is closed is read the same when more text
/// follows it.
pub proof fn lemma_quoted_append(s: Seq<char>, more: Seq<char>)
    requires
        quoted(s).inner is Ok,
    ensures
        quoted(s + more) == (Quoted { rest: quoted(s).rest + more, ..quoted(s) }),
    decreases s.len(),
{
    let longer = s + more;
    if s.len() == 0 {
    } else if s[0] == '"' {
        assert(longer.skip(1) =~= s.skip(1) + more);
    } else {
        let first = lex_nested(s);
        lemma_nested_rest(s);
        assert(first.token is Ok);
        assert(quoted(first.rest).inner is Ok);
        assert(first.rest.len() > 0);
        lemma_nested_append(s, more);
        lemma_quoted_append(first.rest, more);
    }
}

/// A token is read the same when more text follows it, if it leaves
/// something, if nothing follows, or if it keeps apart from what follows.
pub proof fn lemma_lex_token_append(s: Seq<char>, more: Seq<char>)
    requires
        s.len() > 0,
        lex_token(s).token is Ok,
        lex_token(s).rest.len() > 0 || more.len() == 0 || keeps_apart(
            lex_token(s).token->Ok_0,
            more[0],
        ),
    ensures
        lex_token(s + more) == (Lexed { rest: lex_token(s).rest + more, ..lex_token(s) }),
{
    let longer = s + more;
    let c = s[0];
    let t = s.skip(1);
    assert(longer.skip(1) =~= t + more);
    if more.len() == 0 {
        assert(longer =~= s);
        assert(lex_token(s).rest + more =~= lex_token(s).rest);
    } else if c == '"' {
        lemma_quoted_append(t, more);
    } else if c == '\'' {
        lemma_raw_until_append(t, more, '\'', Escape::Keep);
    } else if c == '$' {
        if t.len() > 0 && t[0] == '(' {
            lemma_raw_until_append(t.skip(1), more, ')', Escape::Delimiter);
            assert((t + more).skip(1) =~= t.skip(1) + more);
        }
    } else if c == '`' {
        lemma_raw_until_append(t, more, '`', Escape::Delimiter);
    } else if c == ' ' {
        if t.len() > 0 && t[0] == '#' {
            lemma_raw_until_rest(t, '\n', Escape::Skip);
            lemma_raw_until_append(t, more, '\n', Escape::Skip);
        }
    } else if punctuation(c) is Some {
    } else {
        lemma_ident_len(t);
        lemma_run_len_append(t, more, false);
        let n = ident_len(t) as int;
        assert((t + more).take(n) =~= t.take(n));
        assert((t + more).skip(n) =~= t.skip(n) + more);
    }
}

/// Writing a canonical sequence of tokens out and lexing the text gives
/// the tokens back, each as it was, and no error.
pub proof fn lemma_round_trip(tokens: Seq<TokenModel>)
    requires
        canonical(tokens),
    ensures
        lex_stream(render_all(tokens)) == all_ok(tokens),
    decreases tokens.len(),
{
    if tokens.len() == 0 {
        assert(all_ok(tokens) =~= Seq::<Result<TokenModel, LexError>>::empty());
    } else {
        let first = tokens[0];
        let others = tokens.skip(1);
        let text = render_all(tokens);
        let more = render_all(others);
        assert(reads_back(first));
        assert forall|i: int| 0 <= i < others.len() implies reads_back(#[trigger] others[i]) by {
            assert(others[i] == tokens[i + 1]);
        }
        assert forall|i: int| 0 <= i < others.len() - 1 implies keeps_apart(
            #[trigger] others[i],
            render(others[i + 1])[0],
        ) by {
            assert(others[i] == tokens[i + 1]);
            assert(others[i + 1] == tokens[i + 2]);
        }
        lemma_round_trip(others);
        if others.len() > 0 {
            assert(reads_back(others[0]));
            assert(keeps_apart(tokens[0], render(tokens[1])[0]));
            assert(more[0] == render(others[0])[0]);
        } else {
            assert(more.len() == 0);
        }
        lemma_lex_token_append(render(first), more);
        assert(Seq::<char>::empty() + more =~= more);
        assert(all_ok(tokens) =~= seq![Ok::<TokenModel, LexError>(first)] + all_ok(others));
    }
}

/// What starts an identifier: a character that is no punctuation, no
/// quote, no space, no dollar sign and no backtick.
pub open spec fn starts_ident(c: char) -> bool {
    c != '"' && c != '\'' && c != '$' && c != '`' && c != ' ' && punctuation(c) is None
}

/// Whether `text` is an identifier as the lexer reads one: it starts with
/// a character that starts an identifier, and holds no special character
/// after it.
pub open spec fn well_formed_ident(text: Seq<char>) -> bool {
    &&& text.len() > 0
    &&& starts_ident(text[0])
    &&& forall|i: int| 1 <= i < text.len() ==> !is_special(#[trigger] text[i])
}

/// An identifier reads back exactly where it is well formed.
pub proof fn lemma_ident_reads_back(text: Seq<char>)
    ensures
        reads_back(TokenModel::Ident(text)) <==> well_formed_ident(text),
{
    if text.len() > 0 {
        let t = text.skip(1);
        lemma_ident_len(t);
        lemma_lex_token_rest(text);
        let n = ident_len(t) as int;
        if well_formed_ident(text) {
            assert(n == t.len()) by {
                if n < t.len() {
                    assert(t[n] == text[n + 1]);
                }
            }
            assert(seq![text[0]] + t.take(n) =~= text);
            assert(t.skip(n) =~= Seq::<char>::empty());
        }
        if reads_back(TokenModel::Ident(text)) {
            assert(starts_ident(text[0]));
            assert(t.skip(n).len() == 0);
            assert forall|i: int| 1 <= i < text.len() implies !is_special(#[trigger] text[i]) by {
                assert(text[i] == t[i - 1]);
            }
        }
    }
}

/// Whether `token` is a punctuation token.
pub open spec fn is_punctuation(token: TokenModel) -> bool {
    token == TokenModel::Space || token == TokenModel::Doller || exists|c: char|
        punctuation(c) == Some(token)
}

/// Every punctuation token reads back.
pub proof fn lemma_punctuation_reads_back(token: TokenModel)
    requires
        is_punctuation(token),
    ensures
        reads_back(token),
        render(token).len() == 1,
{
    let text = render(token);
    assert(text.skip(1) =~= Seq::<char>::empty());
}

/// Whether each token of `tokens` is punctuation or a well-formed
/// identifier, and keeps apart from the one after it.
pub open spec fn plain(tokens: Seq<TokenModel>) -> bool {
    &&& forall|i: int|
        0 <= i < tokens.len() ==> is_punctuation(#[trigger] tokens[i]) || (tokens[i] matches TokenModel::Ident(text)
            && well_formed_ident(text))
    &&& forall|i: int|
        0 <= i < tokens.len() - 1 ==> keeps_apart(#[trigger] tokens[i], render(tokens[i + 1])[0])
}

/// Writing punctuation and well-formed identifiers out and lexing the
/// text gives the tokens back.
pub proof fn lemma_plain_round_trip(tokens: Seq<TokenModel>)
    requires
        plain(tokens),
    ensures
        lex_stream(render_all(tokens)) == all_ok(tokens),
{
    assert forall|i: int| 0 <= i < tokens.len() implies reads_back(#[trigger] tokens[i]) by {
        if is_punctuation(tokens[i]) {
            lemma_punctuation_reads_back(tokens[i]);
        } else {
            lemma_ident_reads_back(tokens[i]->Ident_0);
        }
    }
    lemma_round_trip(tokens);
}

} // verus!
