//! The walker: from tokens to tree items. It assembles the fragments of a
//! word, tells `|` from `||`, `&` from `&&` and `>` from `>>`, and turns a
//! newline or a comment into the end of a statement.
//!
//! A word that is being assembled is never dropped: it is handed out before
//! any token that does not belong to it is taken.

use vstd::prelude::*;
use crate::error::{CmdError, CmdErrorModel, LexError};
use crate::source::{outcome, TokenSource};
use crate::token::{models, Token, TokenModel};

verus! {

/// What a `${..}` expansion does with its word.
#[derive(Debug, Clone, Copy, PartialEq, Eq, Structural)]
pub enum ExpandAction {
    /// Use the word where the variable is unset; with `true`, also where it
    /// is empty.
    UseDefault(bool),
    /// `${var}`: no action.
    Plain,
}

/// A fragment of a word that is still to be evaluated.
#[derive(Debug, PartialEq, Eq)]
pub enum Expand {
    /// Text that stands for itself.
    Literal(String),
    /// The value of a variable.
    Var(String),
    /// `~`: the home directory.
    Home,
    /// The output of a command, given as its source.
    Sub(String),
}

/// What an [`Expand`] is, over mathematical sequences.
pub enum ExpandModel {
    Literal(Seq<char>),
    Var(Seq<char>),
    Home,
    Sub(Seq<char>),
}

impl View for Expand {
    type V = ExpandModel;

    open spec fn view(&self) -> ExpandModel {
        match self {
            Expand::Literal(text) => ExpandModel::Literal(text@),
            Expand::Var(name) => ExpandModel::Var(name@),
            Expand::Home => ExpandModel::Home,
            Expand::Sub(source) => ExpandModel::Sub(source@),
        }
    }
}

/// The models of a sequence of fragments, item by item.
pub open spec fn fragment_models(fragments: Seq<Expand>) -> Seq<ExpandModel> {
    Seq::new(fragments.len(), |i: int| fragments[i]@)
}

/// What the walker hands to the parser.
#[derive(Debug, PartialEq, Eq)]
pub enum TreeItem {
    /// One word: its fragments in order, at least one.
    Word(Vec<Expand>),
    /// `>>`
    Append,
    /// `>`
    Redirect,
    /// `&`
    Background,
    /// `||`
    Or,
    /// `&&`
    And,
    /// `|`
    Pipe,
    /// A comment.
    Comment,
    /// The end of a statement.
    StatementEnd,
}

/// What a [`TreeItem`] is, over mathematical sequences.
pub enum TreeItemModel {
    Word(Seq<ExpandModel>),
    Append,
    Redirect,
    Background,
    Or,
    And,
    Pipe,
    Comment,
    StatementEnd,
}

impl View for TreeItem {
    type V = TreeItemModel;

    open spec fn view(&self) -> TreeItemModel {
        match self {
            TreeItem::Word(fragments) => TreeItemModel::Word(fragment_models(fragments@)),
            TreeItem::Append => TreeItemModel::Append,
            TreeItem::Redirect => TreeItemModel::Redirect,
            TreeItem::Background => TreeItemModel::Background,
            TreeItem::Or => TreeItemModel::Or,
            TreeItem::And => TreeItemModel::And,
            TreeItem::Pipe => TreeItemModel::Pipe,
            TreeItem::Comment => TreeItemModel::Comment,
            TreeItem::StatementEnd => TreeItemModel::StatementEnd,
        }
    }
}

impl TreeItem {
    /// The word made of `value`, which must hold a fragment: a word is
    /// never empty.
    pub fn try_from(value: Vec<Expand>) -> (item: Result<TreeItem, ()>)
        ensures
            match item {
                Ok(word) => value@.len() > 0 && word == TreeItem::Word(value),
                Err(_) => value@.len() == 0,
            },
    {
        if value.len() == 0 {
            Err(())
        } else {
            Ok(TreeItem::Word(value))
        }
    }
}

/// The model of what one call of the walker returned.
pub open spec fn item_outcome(r: Result<TreeItem, CmdError>) -> Result<
    TreeItemModel,
    CmdErrorModel,
> {
    match r {
        Ok(item) => Ok(item@),
        Err(e) => Err(e@),
    }
}

/// The model of what the walker returned, the end of the input included.
pub open spec fn walked(item: Option<Result<TreeItem, CmdError>>) -> Option<
    Result<TreeItemModel, CmdErrorModel>,
> {
    match item {
        Some(r) => Some(item_outcome(r)),
        None => None,
    }
}

/// One step of the walker: the item it hands out, `None` where it has
/// none, and the tokens it leaves.
pub struct Walked {
    pub item: Option<Result<TreeItemModel, CmdErrorModel>>,
    pub rest: Seq<Result<TokenModel, LexError>>,
}

/// The fragments of the nested tokens of a double-quoted span: `$` and the
/// identifier after it are a variable, any other identifier is literal
/// text. A `$` that no identifier follows and a nested token of any other
/// kind have no place there, and the first of them is the error.
pub open spec fn fragments(inner: Seq<TokenModel>) -> Result<Seq<ExpandModel>, TokenModel>
    decreases inner.len(),
{
    if inner.len() == 0 {
        Ok(Seq::empty())
    } else {
        match inner[0] {
            TokenModel::Ident(text) => match fragments(inner.skip(1)) {
                Ok(after) => Ok(seq![ExpandModel::Literal(text)] + after),
                Err(bad) => Err(bad),
            },
            TokenModel::Doller => if inner.len() > 1 && inner[1] is Ident {
                match fragments(inner.skip(2)) {
                    Ok(after) => Ok(seq![ExpandModel::Var(inner[1]->Ident_0)] + after),
                    Err(bad) => Err(bad),
                }
            } else {
                Err(TokenModel::Doller)
            },
            bad => Err(bad),
        }
    }
}

/// The fragment that the tokens at the front of `s` add to a word, and the
/// tokens after it; `None` where they add none. `$` and an identifier are a
/// variable; `$` before a space is a dollar sign, and the space stays.
pub open spec fn word_part(s: Seq<Result<TokenModel, LexError>>) -> Option<
    (ExpandModel, Seq<Result<TokenModel, LexError>>),
>
    recommends
        s.len() > 0,
{
    match s[0] {
        Ok(TokenModel::Ident(text)) => Some((ExpandModel::Literal(text), s.skip(1))),
        Ok(TokenModel::SingleQuote(text)) => Some((ExpandModel::Literal(text), s.skip(1))),
        Ok(TokenModel::Sub(source)) => Some((ExpandModel::Sub(source), s.skip(1))),
        Ok(TokenModel::Tilde) => Some((ExpandModel::Home, s.skip(1))),
        Ok(TokenModel::Doller) => if s.len() > 1 {
            match s[1] {
                Ok(TokenModel::Ident(name)) => Some((ExpandModel::Var(name), s.skip(2))),
                Ok(TokenModel::Space) => Some((ExpandModel::Literal(seq!['$']), s.skip(1))),
                _ => None,
            }
        } else {
            None
        },
        _ => None,
    }
}

/// What follows a `&`: a second one makes `&&`, the end of the input makes
/// a background mark, and anything else is an error.
pub open spec fn after_amp(rest: Seq<Result<TokenModel, LexError>>) -> Walked {
    if rest.len() == 0 {
        Walked { item: Some(Ok(TreeItemModel::Background)), rest }
    } else {
        Walked {
            item: Some(
                match rest[0] {
                    Ok(TokenModel::Amp) => Ok(TreeItemModel::And),
                    Ok(bad) => Err(CmdErrorModel::BadToken(bad)),
                    Err(e) => Err(CmdErrorModel::Lex(e)),
                },
            ),
            rest: rest.skip(1),
        }
    }
}

/// What follows a `>`: a second one makes `>>`; before a space or an
/// identifier, which stay, it is a redirection; anything else is an error.
pub open spec fn after_arrow(rest: Seq<Result<TokenModel, LexError>>) -> Walked {
    if rest.len() == 0 {
        Walked { item: Some(Err(CmdErrorModel::UnexpectedEnd)), rest }
    } else {
        match rest[0] {
            Ok(TokenModel::RightArrow) => Walked {
                item: Some(Ok(TreeItemModel::Append)),
                rest: rest.skip(1),
            },
            Ok(TokenModel::Space) | Ok(TokenModel::Ident(_)) => Walked {
                item: Some(Ok(TreeItemModel::Redirect)),
                rest,
            },
            Ok(bad) => Walked { item: Some(Err(CmdErrorModel::BadToken(bad))), rest: rest.skip(1) },
            Err(e) => Walked { item: Some(Err(CmdErrorModel::Lex(e))), rest: rest.skip(1) },
        }
    }
}

/// What follows a `$` that starts no fragment: an error.
pub open spec fn after_doller(rest: Seq<Result<TokenModel, LexError>>) -> Walked {
    if rest.len() == 0 {
        Walked { item: Some(Err(CmdErrorModel::UnexpectedEnd)), rest }
    } else {
        Walked {
            item: Some(
                match rest[0] {
                    Ok(bad) => Err(CmdErrorModel::BadToken(bad)),
                    Err(e) => Err(CmdErrorModel::Lex(e)),
                },
            ),
            rest: rest.skip(1),
        }
    }
}

/// What the walker makes of the token at the front of `s` while no word is
/// being assembled, where that token is no space and starts no fragment.
/// An empty double-quoted span makes no item.
pub open spec fn boundary(s: Seq<Result<TokenModel, LexError>>) -> Walked
    recommends
        s.len() > 0,
{
    let rest = s.skip(1);
    match s[0] {
        Err(e) => Walked { item: Some(Err(CmdErrorModel::Lex(e))), rest },
        Ok(TokenModel::Newline) | Ok(TokenModel::Comment) => Walked {
            item: Some(Ok(TreeItemModel::StatementEnd)),
            rest,
        },
        Ok(TokenModel::Pipe) => if rest.len() > 0 && rest[0] == Ok::<TokenModel, LexError>(
            TokenModel::Pipe,
        ) {
            Walked { item: Some(Ok(TreeItemModel::Or)), rest: rest.skip(1) }
        } else {
            Walked { item: Some(Ok(TreeItemModel::Pipe)), rest }
        },
        Ok(TokenModel::Amp) => after_amp(rest),
        Ok(TokenModel::RightArrow) => after_arrow(rest),
        Ok(TokenModel::Doller) => after_doller(rest),
        Ok(TokenModel::DoubleQuote(inner)) => match fragments(inner) {
            Ok(word) => Walked {
                item: if word.len() > 0 {
                    Some(Ok(TreeItemModel::Word(word)))
                } else {
                    None
                },
                rest,
            },
            Err(bad) => Walked { item: Some(Err(CmdErrorModel::BadToken(bad))), rest },
        },
        Ok(bad) => Walked { item: Some(Err(CmdErrorModel::BadToken(bad))), rest },
    }
}

/// The tokens after the line that `s` starts in: those after its first
/// newline, none where it has none.
pub open spec fn after_line(s: Seq<Result<TokenModel, LexError>>) -> Seq<
    Result<TokenModel, LexError>,
>
    decreases s.len(),
{
    if s.len() == 0 {
        s
    } else if s[0] == Ok::<TokenModel, LexError>(TokenModel::Newline) {
        s.skip(1)
    } else {
        after_line(s.skip(1))
    }
}

/// What ends the word `expr`: the word itself, unless it is empty.
pub open spec fn flush(expr: Seq<ExpandModel>) -> Option<Result<TreeItemModel, CmdErrorModel>> {
    if expr.len() > 0 {
        Some(Ok(TreeItemModel::Word(expr)))
    } else {
        None
    }
}

/// One call of the walker on the tokens `s`, with the fragments `expr`
/// assembled so far.
///
/// Fragments are added to the word as long as the tokens give some. A
/// space ends the word; spaces before a word are skipped. Before any other
/// token the word is handed out first and the token stays. Only a `$`
/// that starts no fragment is an error at once. At the end of the input
/// the word is handed out, and `None` where there is none.
pub open spec fn walk(expr: Seq<ExpandModel>, s: Seq<Result<TokenModel, LexError>>) -> Walked
    decreases s.len(),
{
    if s.len() == 0 {
        Walked { item: flush(expr), rest: s }
    } else if s[0] == Ok::<TokenModel, LexError>(TokenModel::Space) {
        if expr.len() > 0 {
            Walked { item: flush(expr), rest: s.skip(1) }
        } else {
            walk(expr, s.skip(1))
        }
    } else {
        match word_part(s) {
            Some((fragment, rest)) => walk(expr.push(fragment), rest),
            None => if expr.len() > 0 && s[0] != Ok::<TokenModel, LexError>(TokenModel::Doller) {
                Walked { item: flush(expr), rest: s }
            } else {
                let at = boundary(s);
                if at.item is Some {
                    at
                } else {
                    walk(Seq::empty(), at.rest)
                }
            },
        }
    }
}

/// The walker never gives tokens back, and a call that starts without a
/// word and hands out an item has taken a token.
pub proof fn lemma_walk_rest(expr: Seq<ExpandModel>, s: Seq<Result<TokenModel, LexError>>)
    ensures
        walk(expr, s).rest.len() <= s.len(),
        expr.len() == 0 && walk(expr, s).item is Some ==> walk(expr, s).rest.len() < s.len(),
        walk(expr, s).item is None ==> walk(expr, s).rest.len() == 0,
    decreases s.len(),
{
    if s.len() == 0 {
    } else if s[0] == Ok::<TokenModel, LexError>(TokenModel::Space) {
        if expr.len() == 0 {
            lemma_walk_rest(expr, s.skip(1));
        }
    } else {
        match word_part(s) {
            Some((fragment, rest)) => {
                lemma_walk_rest(expr.push(fragment), rest);
            },
            None => {
                if expr.len() > 0 && s[0] != Ok::<TokenModel, LexError>(TokenModel::Doller) {
                } else {
                    let at = boundary(s);
                    if at.item is None {
                        lemma_walk_rest(Seq::empty(), at.rest);
                    }
                }
            },
        }
    }
}

/// A word that the walker hands out holds a fragment.
pub proof fn lemma_word_never_empty(expr: Seq<ExpandModel>, s: Seq<Result<TokenModel, LexError>>)
    ensures
        walk(expr, s).item matches Some(Ok(TreeItemModel::Word(word))) ==> word.len() > 0,
    decreases s.len(),
{
    if s.len() == 0 {
    } else if s[0] == Ok::<TokenModel, LexError>(TokenModel::Space) {
        if expr.len() == 0 {
            lemma_word_never_empty(expr, s.skip(1));
        }
    } else {
        match word_part(s) {
            Some((fragment, rest)) => {
                lemma_word_never_empty(expr.push(fragment), rest);
            },
            None => {
                if expr.len() > 0 && s[0] != Ok::<TokenModel, LexError>(TokenModel::Doller) {
                } else {
                    let at = boundary(s);
                    if at.item is None {
                        lemma_word_never_empty(Seq::empty(), at.rest);
                    }
                }
            },
        }
    }
}

/// Two `|` in a row are one `||`, and both are taken. One `|` before
/// anything else, or before the end of the input, is a pipe, and what
/// follows it stays.
pub proof fn lemma_pipe_or(s: Seq<Result<TokenModel, LexError>>)
    ensures
        walk(
            Seq::empty(),
            seq![Ok(TokenModel::Pipe), Ok(TokenModel::Pipe)] + s,
        ) == (Walked { item: Some(Ok(TreeItemModel::Or)), rest: s }),
        s.len() == 0 || s[0] != Ok::<TokenModel, LexError>(TokenModel::Pipe) ==> walk(
            Seq::empty(),
            seq![Ok(TokenModel::Pipe)] + s,
        ) == (Walked { item: Some(Ok(TreeItemModel::Pipe)), rest: s }),
{
    let twice = seq![Ok::<TokenModel, LexError>(TokenModel::Pipe), Ok(TokenModel::Pipe)] + s;
    assert(twice.skip(1).skip(1) =~= s);
    let once = seq![Ok::<TokenModel, LexError>(TokenModel::Pipe)] + s;
    assert(once.skip(1) =~= s);
}

/// What the walker yields on the tokens `s`, call by call, up to the end
/// of the input.
pub open spec fn walk_stream(s: Seq<Result<TokenModel, LexError>>) -> Seq<
    Result<TreeItemModel, CmdErrorModel>,
>
    decreases s.len(),
{
    let step = walk(Seq::empty(), s);
    match step.item {
        None => Seq::empty(),
        Some(item) => {
            proof {
                lemma_walk_rest(Seq::empty(), s);
            }
            seq![item] + walk_stream(step.rest)
        },
    }
}

/// The first call of the walker on `s` yields the first item of
/// `walk_stream(s)` and leaves the tokens that yield the others.
pub proof fn lemma_walk_stream_step(s: Seq<Result<TokenModel, LexError>>)
    ensures
        match walk(Seq::empty(), s).item {
            None => walk_stream(s).len() == 0 && walk_stream(walk(Seq::empty(), s).rest).len()
                == 0,
            Some(item) => walk_stream(s).len() > 0 && walk_stream(s)[0] == item && walk_stream(
                s,
            ).skip(1) == walk_stream(walk(Seq::empty(), s).rest),
        },
{
    let step = walk(Seq::empty(), s);
    lemma_walk_rest(Seq::empty(), s);
    match step.item {
        None => {
            assert(step.rest.len() == 0);
        },
        Some(item) => {
            assert((seq![item] + walk_stream(step.rest)).skip(1) =~= walk_stream(step.rest));
        },
    }
}

/// The fragments `first` put before those of `after`, where there are any.
pub open spec fn fragments_after(
    first: Seq<ExpandModel>,
    after: Result<Seq<ExpandModel>, TokenModel>,
) -> Result<Seq<ExpandModel>, TokenModel> {
    match after {
        Ok(rest) => Ok(first + rest),
        Err(bad) => Err(bad),
    }
}

/// The fragments of the nested tokens of a double-quoted span, or the
/// first token that has no place there.
pub fn decompose(inner: &Vec<Token>) -> (word: Result<Vec<Expand>, Token>)
    ensures
        match word {
            Ok(w) => fragments(models(inner@)) == Ok::<Seq<ExpandModel>, TokenModel>(
                fragment_models(w@),
            ),
            Err(bad) => fragments(models(inner@)) == Err::<Seq<ExpandModel>, TokenModel>(bad@),
        },
{
    let mut word: Vec<Expand> = Vec::new();
    let mut i: usize = 0;
    let ghost all = models(inner@);
    assert(all.skip(0) =~= all);
    assert(fragments_after(fragment_models(word@), fragments(all)) == fragments(all)) by {
        if let Ok(rest) = fragments(all) {
            assert(fragment_models(word@) + rest =~= rest);
        }
    }
    while i < inner.len()
        invariant
            i <= inner.len(),
            all == models(inner@),
            fragments(all) == fragments_after(fragment_models(word@), fragments(all.skip(i as int))),
        decreases inner.len() - i,
    {
        let ghost before = fragment_models(word@);
        let ghost here = all.skip(i as int);
        assert(here[0] == inner@[i as int]@);
        match &inner[i] {
            Token::Ident(text) => {
                word.push(Expand::Literal(text.clone()));
                i += 1;
                proof {
                    assert(here.skip(1) =~= all.skip(i as int));
                    assert(fragment_models(word@) =~= before.push(ExpandModel::Literal(text@)));
                    if let Ok(rest) = fragments(all.skip(i as int)) {
                        assert(before + (seq![ExpandModel::Literal(text@)] + rest)
                            =~= fragment_models(word@) + rest);
                    }
                }
            },
            Token::Doller => {
                if i + 1 < inner.len() {
                    assert(here[1] == inner@[i + 1]@);
                    match &inner[i + 1] {
                        Token::Ident(name) => {
                            word.push(Expand::Var(name.clone()));
                            i += 2;
                            proof {
                                assert(here.skip(2) =~= all.skip(i as int));
                                assert(fragment_models(word@) =~= before.push(
                                    ExpandModel::Var(name@),
                                ));
                                if let Ok(rest) = fragments(all.skip(i as int)) {
                                    assert(before + (seq![ExpandModel::Var(name@)] + rest)
                                        =~= fragment_models(word@) + rest);
                                }
                            }
                        },
                        _ => {
                            return Err(Token::Doller);
                        },
                    }
                } else {
                    return Err(Token::Doller);
                }
            },
            bad => {
                return Err(bad.clone());
            },
        }
    }
    proof {
        assert(fragment_models(word@) + Seq::<ExpandModel>::empty() =~= fragment_models(word@));
    }
    Ok(word)
}

/// The walker over a token source: each call of `next` hands out one tree
/// item.
pub struct Walker<S: TokenSource> {
    tokens: S,
    /// A token that was taken from the source and not used yet.
    ahead: Option<Result<Token, LexError>>,
}

impl<S: TokenSource> Walker<S> {
    /// The tokens not yet walked.
    pub closed spec fn stream(&self) -> Seq<Result<TokenModel, LexError>> {
        match self.ahead {
            Some(r) => seq![outcome(r)] + self.tokens.pending(),
            None => self.tokens.pending(),
        }
    }

    /// What the calls of `next` to come will return, in order.
    pub open spec fn pending(&self) -> Seq<Result<TreeItemModel, CmdErrorModel>> {
        walk_stream(self.stream())
    }

    /// A walker over `tokens`.
    pub fn new(tokens: S) -> (walker: Self)
        ensures
            walker.stream() == tokens.pending(),
    {
        Walker { tokens, ahead: None }
    }

    /// Looks at the next token without using it.
    fn fill(&mut self)
        ensures
            final(self).stream() == old(self).stream(),
            match final(self).ahead {
                Some(r) => final(self).stream().len() > 0 && outcome(r) == final(self).stream()[0],
                None => final(self).stream().len() == 0,
            },
    {
        if self.ahead.is_none() {
            self.ahead = self.tokens.next();
            proof {
                let s = old(self).tokens.pending();
                if s.len() > 0 {
                    assert(seq![s[0]] + s.skip(1) =~= s);
                }
            }
        }
    }

    /// Takes the next token.
    fn take(&mut self) -> (token: Option<Result<Token, LexError>>)
        ensures
            final(self).ahead is None,
            match token {
                None => old(self).stream().len() == 0 && final(self).stream() == old(self).stream(),
                Some(r) => old(self).stream().len() > 0 && outcome(r) == old(self).stream()[0]
                    && final(self).stream() == old(self).stream().skip(1),
            },
    {
        match self.ahead.take() {
            Some(r) => {
                assert((seq![outcome(r)] + self.tokens.pending()).skip(1)
                    =~= self.tokens.pending());
                Some(r)
            },
            None => self.tokens.next(),
        }
    }

    /// Gives back a token that was taken last.
    fn untake(&mut self, r: Result<Token, LexError>, Ghost(before): Ghost<
        Seq<Result<TokenModel, LexError>>,
    >)
        requires
            old(self).ahead is None,
            before.len() > 0,
            before[0] == outcome(r),
            old(self).stream() == before.skip(1),
        ensures
            final(self).stream() == before,
    {
        self.ahead = Some(r);
        assert(seq![before[0]] + before.skip(1) =~= before);
    }

    /// Passes over the rest of the line: the tokens up to the next
    /// newline, and the newline. A comment has no text of its own.
    pub fn read_comment(&mut self) -> (text: String)
        ensures
            text@ == Seq::<char>::empty(),
            final(self).stream() == after_line(old(self).stream()),
    {
        loop
            invariant_except_break
                after_line(self.stream()) == after_line(old(self).stream()),
            ensures
                self.stream() == after_line(old(self).stream()),
            decreases self.stream().len(),
        {
            match self.take() {
                None => {
                    break ;
                },
                Some(Ok(Token::Newline)) => {
                    break ;
                },
                Some(_) => {},
            }
        }
        String::new()
    }

    /// Hands out the next tree item: `None` where the tokens are used up
    /// and no word is left to hand out.
    pub fn next(&mut self) -> (item: Option<Result<TreeItem, CmdError>>)
        ensures
            walked(item) == walk(Seq::empty(), old(self).stream()).item,
            final(self).stream() == walk(Seq::empty(), old(self).stream()).rest,
            match item {
                None => old(self).pending().len() == 0 && final(self).pending() == old(self).pending(),
                Some(r) => old(self).pending().len() > 0 && item_outcome(r) == old(self).pending()[0] && final(self).pending() == old(self).pending().skip(1),
            },
    {
        let item = self.step();
        proof {
            lemma_walk_stream_step(old(self).stream());
        }
        item
    }

    /// One call of the walker.
    #[verifier::rlimit(60)]
    fn step(&mut self) -> (item: Option<Result<TreeItem, CmdError>>)
        ensures
            walked(item) == walk(Seq::empty(), old(self).stream()).item,
            final(self).stream() == walk(Seq::empty(), old(self).stream()).rest,
    {
        let mut expr: Vec<Expand> = Vec::new();
        let ghost goal = walk(Seq::empty(), self.stream());
        assert(fragment_models(expr@) =~= Seq::<ExpandModel>::empty());
        loop
            invariant
                goal == walk(Seq::empty(), old(self).stream()),
                goal == walk(fragment_models(expr@), self.stream()),
            decreases self.stream().len(),
        {
            let ghost s = self.stream();
            let ghost e = fragment_models(expr@);
            let token = match self.take() {
                None => {
                    return if expr.len() > 0 {
                        Some(Ok(TreeItem::Word(expr)))
                    } else {
                        None
                    };
                },
                Some(Err(err)) => {
                    return if expr.len() > 0 {
                        self.untake(Err(err), Ghost(s));
                        Some(Ok(TreeItem::Word(expr)))
                    } else {
                        Some(Err(CmdError::Lex(err)))
                    };
                },
                Some(Ok(token)) => token,
            };
            match token {
                Token::Space => {
                    if expr.len() > 0 {
                        return Some(Ok(TreeItem::Word(expr)));
                    }
                },
                Token::Ident(text) => {
                    expr.push(Expand::Literal(text));
                    assert(fragment_models(expr@) =~= e.push(ExpandModel::Literal(text@)));
                },
                Token::SingleQuote(text) => {
                    expr.push(Expand::Literal(text));
                    assert(fragment_models(expr@) =~= e.push(ExpandModel::Literal(text@)));
                },
                Token::Sub(source) => {
                    expr.push(Expand::Sub(source));
                    assert(fragment_models(expr@) =~= e.push(ExpandModel::Sub(source@)));
                },
                Token::Tilde => {
                    expr.push(Expand::Home);
                    assert(fragment_models(expr@) =~= e.push(ExpandModel::Home));
                },
                Token::Doller => {
                    let ghost rest = self.stream();
                    match self.take() {
                        None => {
                            return Some(Err(CmdError::UnexpectedEnd));
                        },
                        Some(Err(err)) => {
                            return Some(Err(CmdError::Lex(err)));
                        },
                        Some(Ok(Token::Ident(name))) => {
                            assert(s.skip(1).skip(1) =~= s.skip(2));
                            expr.push(Expand::Var(name));
                            assert(fragment_models(expr@) =~= e.push(ExpandModel::Var(name@)));
                        },
                        Some(Ok(Token::Space)) => {
                            self.untake(Ok(Token::Space), Ghost(rest));
                            let mut text = String::new();
                            text.push('$');
                            assert(text@ =~= seq!['$']);
                            expr.push(Expand::Literal(text));
                            assert(fragment_models(expr@) =~= e.push(
                                ExpandModel::Literal(seq!['$']),
                            ));
                        },
                        Some(Ok(bad)) => {
                            return Some(Err(CmdError::BadToken(bad)));
                        },
                    }
                },
                other => {
                    assert(word_part(s) is None);
                    if expr.len() > 0 {
                        self.untake(Ok(other), Ghost(s));
                        return Some(Ok(TreeItem::Word(expr)));
                    }
                    assert(e =~= Seq::<ExpandModel>::empty());
                    let ghost rest = self.stream();
                    match other {
                        Token::Newline | Token::Comment => {
                            return Some(Ok(TreeItem::StatementEnd));
                        },
                        Token::Pipe => {
                            self.fill();
                            let second = match &self.ahead {
                                Some(Ok(Token::Pipe)) => true,
                                _ => false,
                            };
                            if second {
                                let _ = self.take();
                                return Some(Ok(TreeItem::Or));
                            }
                            return Some(Ok(TreeItem::Pipe));
                        },
                        Token::Amp => {
                            return match self.take() {
                                None => Some(Ok(TreeItem::Background)),
                                Some(Ok(Token::Amp)) => Some(Ok(TreeItem::And)),
                                Some(Ok(bad)) => Some(Err(CmdError::BadToken(bad))),
                                Some(Err(err)) => Some(Err(CmdError::Lex(err))),
                            };
                        },
                        Token::RightArrow => {
                            self.fill();
                            let stays = match &self.ahead {
                                Some(Ok(Token::Space)) => true,
                                Some(Ok(Token::Ident(_))) => true,
                                _ => false,
                            };
                            if stays {
                                return Some(Ok(TreeItem::Redirect));
                            }
                            return match self.take() {
                                None => Some(Err(CmdError::UnexpectedEnd)),
                                Some(Ok(Token::RightArrow)) => Some(Ok(TreeItem::Append)),
                                Some(Ok(bad)) => Some(Err(CmdError::BadToken(bad))),
                                Some(Err(err)) => Some(Err(CmdError::Lex(err))),
                            };
                        },
                        Token::DoubleQuote(inner) => {
                            match decompose(&inner) {
                                Ok(word) => {
                                    if word.len() > 0 {
                                        return Some(Ok(TreeItem::Word(word)));
                                    }
                                    assert(fragment_models(word@) =~= Seq::<ExpandModel>::empty());
                                },
                                Err(bad) => {
                                    return Some(Err(CmdError::BadToken(bad)));
                                },
                            }
                        },
                        bad => {
                            return Some(Err(CmdError::BadToken(bad)));
                        },
                    }
                },
            }
        }
    }
}

} // verus!
