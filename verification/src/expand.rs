//! Evaluation of the fragments of a word.

use vstd::prelude::*;
use vstd::string::StringExecFns;
use crate::error::{CmdError, CmdErrorModel};
use crate::state::ShellState;
use crate::error::LexError;
use crate::lexer::{lemma_raw_until_plain, lex_token, Escape, Lexed};
use crate::token::TokenModel;
use crate::walker::{fragment_models, word_part, Expand, ExpandModel};

verus! {

/// The text of one fragment: literal text is itself, a variable is its
/// value, or nothing where it is not set, and `~` is the home directory.
/// A command substitution has no text before its command has run: `None`.
pub open spec fn expansion(fragment: ExpandModel, state: &ShellState) -> Option<Seq<char>> {
    match fragment {
        ExpandModel::Literal(text) => Some(text),
        ExpandModel::Var(name) => Some(
            match state.variable(name) {
                Some(value) => value,
                None => Seq::empty(),
            },
        ),
        ExpandModel::Home => Some(state.home_dir()),
        ExpandModel::Sub(_) => None,
    }
}

/// The text of a word: the texts of its fragments, one after the other;
/// `None` where one of them is a command substitution.
pub open spec fn word_text(word: Seq<ExpandModel>, state: &ShellState) -> Option<Seq<char>>
    decreases word.len(),
{
    if word.len() == 0 {
        Some(Seq::empty())
    } else {
        match (word_text(word.drop_last(), state), expansion(word.last(), state)) {
            (Some(before), Some(last)) => Some(before + last),
            _ => None,
        }
    }
}

/// Whether `word` holds no command substitution.
pub open spec fn sub_free(word: Seq<ExpandModel>) -> bool {
    forall|i: int| 0 <= i < word.len() ==> !((#[trigger] word[i]) is Sub)
}

/// The position of the first command substitution in `word`; the number
/// of its fragments where it holds none.
pub open spec fn sub_at(word: Seq<ExpandModel>) -> int
    decreases word.len(),
{
    if word.len() == 0 || word[0] is Sub {
        0
    } else {
        1 + sub_at(word.skip(1))
    }
}

/// The source of the first command substitution in `word`.
pub open spec fn first_sub(word: Seq<ExpandModel>) -> Option<Seq<char>> {
    if sub_at(word) < word.len() {
        Some(word[sub_at(word)]->Sub_0)
    } else {
        None
    }
}

/// `word` with its first command substitution replaced by the literal
/// text `output`.
pub open spec fn resolved(word: Seq<ExpandModel>, output: Seq<char>) -> Seq<ExpandModel>
    recommends
        first_sub(word) is Some,
{
    word.update(sub_at(word), ExpandModel::Literal(output))
}

/// `sub_at` is the first place where a command substitution stands.
pub proof fn lemma_sub_at(word: Seq<ExpandModel>)
    ensures
        0 <= sub_at(word) <= word.len(),
        forall|i: int| 0 <= i < sub_at(word) ==> !((#[trigger] word[i]) is Sub),
        sub_at(word) < word.len() ==> word[sub_at(word)] is Sub,
        sub_at(word) == word.len() <==> sub_free(word),
    decreases word.len(),
{
    if word.len() == 0 || word[0] is Sub {
    } else {
        let rest = word.skip(1);
        lemma_sub_at(rest);
        assert forall|i: int| 0 <= i < sub_at(word) implies !((#[trigger] word[i]) is Sub) by {
            if i > 0 {
                assert(word[i] == rest[i - 1]);
            }
        }
        if sub_at(word) < word.len() {
            assert(word[sub_at(word)] == rest[sub_at(rest)]);
        }
    }
}

/// A word has a text exactly where it holds no command substitution.
pub proof fn lemma_word_text_total(word: Seq<ExpandModel>, state: &ShellState)
    ensures
        word_text(word, state) is Some <==> sub_free(word),
    decreases word.len(),
{
    if word.len() > 0 {
        let before = word.drop_last();
        lemma_word_text_total(before, state);
        if sub_free(word) {
            assert forall|i: int| 0 <= i < before.len() implies !((#[trigger] before[i]) is Sub) by {
                assert(before[i] == word[i]);
            }
            assert(!(word[word.len() - 1] is Sub));
        }
        if sub_free(before) && !(word.last() is Sub) {
            assert forall|i: int| 0 <= i < word.len() implies !((#[trigger] word[i]) is Sub) by {
                if i < before.len() {
                    assert(before[i] == word[i]);
                }
            }
        }
    }
}

/// Where the first command substitution of `word` stands; the number of
/// its fragments where it holds none.
pub fn find_sub(word: &Vec<Expand>) -> (at: usize)
    ensures
        at == sub_at(fragment_models(word@)),
        at <= word.len(),
{
    let mut i: usize = 0;
    let ghost all = fragment_models(word@);
    assert(all.skip(0) =~= all);
    while i < word.len()
        invariant
            i <= word.len(),
            all == fragment_models(word@),
            sub_at(all) == i + sub_at(all.skip(i as int)),
        decreases word.len() - i,
    {
        assert(all.skip(i as int)[0] == word@[i as int]@);
        match &word[i] {
            Expand::Sub(_) => {
                return i;
            },
            _ => {},
        }
        assert(all.skip(i as int).skip(1) =~= all.skip(i + 1));
        i += 1;
    }
    i
}

/// A word that is one variable is the variable's value where it is set,
/// and empty where it is not.
pub proof fn lemma_variable_word(name: Seq<char>, state: &ShellState)
    ensures
        word_text(seq![ExpandModel::Var(name)], state) == Some(
            match state.variable(name) {
                Some(value) => value,
                None => Seq::empty(),
            },
        ),
{
    let word = seq![ExpandModel::Var(name)];
    assert(word.drop_last() =~= Seq::<ExpandModel>::empty());
    assert(word_text(word.drop_last(), state) == Some(Seq::<char>::empty()));
    let value = expansion(word.last(), state).unwrap();
    assert(Seq::<char>::empty() + value =~= value);
}

/// Text between single quotes that holds neither a quote nor a backslash
/// is taken as it stands: it is one token, that token is one literal
/// fragment, and the fragment's text is the text between the quotes,
/// whatever the session's variables are and whatever the text looks like.
pub proof fn lemma_single_quotes_are_literal(
    text: Seq<char>,
    after: Seq<char>,
    tokens: Seq<Result<TokenModel, LexError>>,
    state: &ShellState,
)
    requires
        forall|i: int| 0 <= i < text.len() ==> text[i] != '\'' && text[i] != '\\',
    ensures
        lex_token(seq!['\''] + text + seq!['\''] + after) == (Lexed {
            token: Ok(TokenModel::SingleQuote(text)),
            rest: after,
        }),
        word_part(seq![Ok(TokenModel::SingleQuote(text))] + tokens) == Some(
            (ExpandModel::Literal(text), tokens),
        ),
        expansion(ExpandModel::Literal(text), state) == Some(text),
{
    let s = seq!['\''] + text + seq!['\''] + after;
    assert(s.skip(1) =~= text + seq!['\''] + after);
    lemma_raw_until_plain(text, after, '\'', Escape::Keep);
    let stream = seq![Ok::<TokenModel, LexError>(TokenModel::SingleQuote(text))] + tokens;
    assert(stream.skip(1) =~= tokens);
}

/// Evaluates a fragment that is borrowed.
pub fn expand_ref(thing: &Expand, state: &ShellState) -> (text: Result<String, CmdError>)
    ensures
        match text {
            Ok(t) => expansion(thing@, state) == Some(t@),
            Err(e) => expansion(thing@, state) is None && e@ == CmdErrorModel::SubShell,
        },
{
    match thing {
        Expand::Literal(s) => Ok(s.clone()),
        Expand::Var(k) => match state.get_env_exact(k.as_str()) {
            Some(value) => Ok(value),
            None => Ok(String::new()),
        },
        Expand::Home => Ok(String::from_str(state.home())),
        Expand::Sub(_) => Err(CmdError::SubShell),
    }
}

/// Evaluates a fragment: an unset variable is the empty text, not an
/// error. A command substitution cannot be evaluated here and is the error
/// `SubShell`.
pub fn expand(thing: Expand, state: &ShellState) -> (text: Result<String, CmdError>)
    ensures
        match text {
            Ok(t) => expansion(thing@, state) == Some(t@),
            Err(e) => expansion(thing@, state) is None && e@ == CmdErrorModel::SubShell,
        },
{
    match thing {
        Expand::Literal(s) => Ok(s),
        other => expand_ref(&other, state),
    }
}

impl Expand {
    /// Evaluates this fragment, as [`expand`] does.
    pub fn expand(self, state: &ShellState) -> (text: Result<String, CmdError>)
        ensures
            match text {
                Ok(t) => expansion(self@, state) == Some(t@),
                Err(e) => expansion(self@, state) is None && e@ == CmdErrorModel::SubShell,
            },
    {
        expand(self, state)
    }
}

/// Evaluates a word: the texts of its fragments, one after the other.
pub fn expand_word(word: &Vec<Expand>, state: &ShellState) -> (text: Result<String, CmdError>)
    ensures
        match text {
            Ok(t) => word_text(fragment_models(word@), state) == Some(t@),
            Err(e) => word_text(fragment_models(word@), state) is None && e@
                == CmdErrorModel::SubShell,
        },
{
    let mut text = String::new();
    let mut i: usize = 0;
    let ghost all = fragment_models(word@);
    assert(all.take(0) =~= Seq::<ExpandModel>::empty());
    while i < word.len()
        invariant
            i <= word.len(),
            all == fragment_models(word@),
            word_text(all.take(i as int), state) == Some(text@),
        decreases word.len() - i,
    {
        proof {
            assert(all.take(i + 1).drop_last() =~= all.take(i as int));
            assert(all.take(i + 1).last() == word@[i as int]@);
        }
        match expand_ref(&word[i], state) {
            Ok(part) => {
                text.append(part.as_str());
            },
            Err(e) => {
                proof {
                    assert(all[i as int] is Sub);
                    lemma_word_text_total(all, state);
                }
                return Err(e);
            },
        }
        i += 1;
    }
    assert(all.take(word.len() as int) =~= all);
    Ok(text)
}

} // verus!
