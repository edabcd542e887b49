//! The parser: from tree items to commands, one statement per call.
//!
//! A statement is a run of simple commands joined by `|`, `&&` and `||`.
//! Each operator takes the one simple command on its left and everything
//! after it as its right side, so `a | b | c` is `a | (b | c)`.
//!
//! A word that holds a command substitution cannot be evaluated by the
//! parser alone. It stops before such a word and asks for the output of the
//! command; [`Parser::substitute`] takes the answer, and the next call goes
//! on where the parser stopped.

use vstd::prelude::*;
use crate::cmd::{blank, built, with_word, Cmd, CmdModel, SimpleCmd, SimpleModel};
use crate::error::{CmdError, CmdErrorModel};
use crate::expand::{
    expand_word, find_sub, first_sub, lemma_sub_at, lemma_word_text_total, resolved, word_text,
};
use crate::source::TokenSource;
use crate::state::ShellState;
use crate::token::{Token, TokenModel};
use crate::walker::{fragment_models, item_outcome, Expand, TreeItem, TreeItemModel, Walker};

verus! {

/// An operator that joins two commands.
#[derive(Debug, Clone, Copy, PartialEq, Eq, Structural)]
pub enum Joint {
    /// `|`
    Pipe,
    /// `&&`
    And,
    /// `||`
    Or,
}

/// `left` and `right` joined by `joint`.
pub open spec fn join(joint: Joint, left: CmdModel, right: CmdModel) -> CmdModel {
    match joint {
        Joint::Pipe => CmdModel::Pipeline(Box::new(left), Box::new(right)),
        Joint::And => CmdModel::And(Box::new(left), Box::new(right)),
        Joint::Or => CmdModel::Or(Box::new(left), Box::new(right)),
    }
}

/// The command made of `right` and the commands that wait for their right
/// side, the outermost first: each takes all that follows it.
pub open spec fn close(lefts: Seq<(Joint, CmdModel)>, right: CmdModel) -> CmdModel
    decreases lefts.len(),
{
    if lefts.len() == 0 {
        right
    } else {
        join(lefts[0].0, lefts[0].1, close(lefts.skip(1), right))
    }
}

/// What one call of the parser hands out.
#[derive(Debug, PartialEq)]
pub enum Parsed {
    /// A finished statement.
    Command(Cmd),
    /// The source of a command whose output the parser needs to go on.
    Substitution(String),
}

/// What a [`Parsed`] is, over mathematical sequences.
pub enum ParsedModel {
    Command(CmdModel),
    Substitution(Seq<char>),
}

impl View for Parsed {
    type V = ParsedModel;

    open spec fn view(&self) -> ParsedModel {
        match self {
            Parsed::Command(cmd) => ParsedModel::Command(cmd@),
            Parsed::Substitution(source) => ParsedModel::Substitution(source@),
        }
    }
}

/// The model of what one call of the parser returned.
pub open spec fn parsed_outcome(r: Result<Parsed, CmdError>) -> Result<ParsedModel, CmdErrorModel> {
    match r {
        Ok(parsed) => Ok(parsed@),
        Err(e) => Err(e@),
    }
}

/// How far the parser is into a statement.
pub struct Progress {
    /// The commands that wait for their right side, the outermost first.
    pub lefts: Seq<(Joint, CmdModel)>,
    /// The simple command that is being assembled.
    pub cmd: SimpleModel,
}

/// The parser at the start of a statement.
pub open spec fn fresh() -> Progress {
    Progress { lefts: Seq::empty(), cmd: blank() }
}

/// One call of the parser: what it hands out, how far it is into a
/// statement afterwards, and the tree items it leaves.
pub struct Parse {
    pub outcome: Result<ParsedModel, CmdErrorModel>,
    pub progress: Progress,
    pub rest: Seq<Result<TreeItemModel, CmdErrorModel>>,
}

/// The tree items after the statement that `items` starts in: those after
/// its first `StatementEnd`, none where it has none.
pub open spec fn discard(items: Seq<Result<TreeItemModel, CmdErrorModel>>) -> Seq<
    Result<TreeItemModel, CmdErrorModel>,
>
    decreases items.len(),
{
    if items.len() == 0 {
        items
    } else if items[0] == Ok::<TreeItemModel, CmdErrorModel>(TreeItemModel::StatementEnd) {
        items.skip(1)
    } else {
        discard(items.skip(1))
    }
}

/// The statement is given up: the error is handed out, the rest of the
/// statement is left out, and the parser starts afresh.
pub open spec fn failed(e: CmdErrorModel, after: Seq<Result<TreeItemModel, CmdErrorModel>>) -> Parse {
    Parse { outcome: Err(e), progress: fresh(), rest: discard(after) }
}

/// The statement is finished.
pub open spec fn finished(progress: Progress, after: Seq<Result<TreeItemModel, CmdErrorModel>>) -> Parse {
    Parse {
        outcome: Ok(ParsedModel::Command(close(progress.lefts, built(progress.cmd)))),
        progress: fresh(),
        rest: after,
    }
}

/// `progress` after the operator `joint`: the simple command assembled so
/// far waits for its right side, and a new one begins.
pub open spec fn shifted(progress: Progress, joint: Joint) -> Progress {
    Progress { lefts: progress.lefts.push((joint, built(progress.cmd))), cmd: blank() }
}

/// One call of the parser on the tree items `items`, from `progress`.
///
/// A word without command substitution is evaluated and added to the
/// simple command. Before a word with one the parser stops and asks for
/// the command's output; that word stays. An operator makes the simple
/// command wait and starts the next. The end of the statement or of the
/// input finishes the command. A comment is passed over. An error of the
/// walker, a redirection and a background mark give the statement up.
pub open spec fn parse(
    progress: Progress,
    items: Seq<Result<TreeItemModel, CmdErrorModel>>,
    state: &ShellState,
) -> Parse
    decreases items.len(),
{
    if items.len() == 0 {
        finished(progress, items)
    } else {
        let after = items.skip(1);
        match items[0] {
            Err(e) => failed(e, after),
            Ok(TreeItemModel::Word(word)) => match first_sub(word) {
                Some(source) => Parse {
                    outcome: Ok(ParsedModel::Substitution(source)),
                    progress,
                    rest: items,
                },
                None => parse(
                    Progress {
                        cmd: with_word(progress.cmd, word_text(word, state).unwrap()),
                        ..progress
                    },
                    after,
                    state,
                ),
            },
            Ok(TreeItemModel::Pipe) => parse(shifted(progress, Joint::Pipe), after, state),
            Ok(TreeItemModel::And) => parse(shifted(progress, Joint::And), after, state),
            Ok(TreeItemModel::Or) => parse(shifted(progress, Joint::Or), after, state),
            Ok(TreeItemModel::StatementEnd) => finished(progress, after),
            Ok(TreeItemModel::Comment) => parse(progress, after, state),
            Ok(TreeItemModel::Append) | Ok(TreeItemModel::Redirect) => failed(
                CmdErrorModel::BadToken(TokenModel::RightArrow),
                after,
            ),
            Ok(TreeItemModel::Background) => failed(
                CmdErrorModel::BadToken(TokenModel::Amp),
                after,
            ),
        }
    }
}

/// The answer to a request for a command's output, where the word at the
/// front of `items` holds a command substitution. The output takes the
/// place of the word's first substitution, as literal text; without an
/// output the statement is given up. Where no such word is at the front,
/// nothing changes.
pub open spec fn substituted(
    progress: Progress,
    items: Seq<Result<TreeItemModel, CmdErrorModel>>,
    output: Option<Seq<char>>,
) -> (Progress, Seq<Result<TreeItemModel, CmdErrorModel>>) {
    if awaits(items) {
        match output {
            Some(text) => (
                progress,
                items.update(0, Ok(TreeItemModel::Word(resolved(items[0]->Ok_0->Word_0, text)))),
            ),
            None => (fresh(), discard(items.skip(1))),
        }
    } else {
        (progress, items)
    }
}

/// Whether the word at the front of `items` holds a command substitution.
pub open spec fn awaits(items: Seq<Result<TreeItemModel, CmdErrorModel>>) -> bool {
    &&& items.len() > 0
    &&& items[0] matches Ok(TreeItemModel::Word(word))
    &&& first_sub(word) is Some
}

/// The models of the commands that wait for their right side.
pub open spec fn waiting(lefts: Seq<(Joint, Cmd)>) -> Seq<(Joint, CmdModel)> {
    Seq::new(lefts.len(), |i: int| (lefts[i].0, lefts[i].1@))
}

/// The commands that wait for their right side only surround what the
/// parser makes of the items: a statement parsed with `outer` waiting
/// before `inner` is the statement parsed with `inner` alone, closed by
/// `outer`.
pub proof fn lemma_parse_in_context(
    outer: Seq<(Joint, CmdModel)>,
    inner: Seq<(Joint, CmdModel)>,
    cmd: SimpleModel,
    items: Seq<Result<TreeItemModel, CmdErrorModel>>,
    state: &ShellState,
)
    ensures
        ({
            let alone = parse(Progress { lefts: inner, cmd }, items, state);
            let inside = parse(Progress { lefts: outer + inner, cmd }, items, state);
            match alone.outcome {
                Ok(ParsedModel::Command(right)) => inside == (Parse {
                    outcome: Ok(ParsedModel::Command(close(outer, right))),
                    ..alone
                }),
                Ok(ParsedModel::Substitution(source)) => inside == (Parse {
                    progress: Progress { lefts: outer + alone.progress.lefts, ..alone.progress },
                    ..alone
                }),
                Err(_) => inside == alone,
            }
        }),
    decreases items.len(),
{
    if items.len() == 0 {
        lemma_close_concat(outer, inner, built(cmd));
    } else {
        let after = items.skip(1);
        match items[0] {
            Err(e) => {},
            Ok(TreeItemModel::Word(word)) => {
                if first_sub(word) is None {
                    lemma_parse_in_context(
                        outer,
                        inner,
                        with_word(cmd, word_text(word, state).unwrap()),
                        after,
                        state,
                    );
                }
            },
            Ok(TreeItemModel::Pipe) => {
                let left = (Joint::Pipe, built(cmd));
                assert((outer + inner).push(left) =~= outer + inner.push(left));
                lemma_parse_in_context(outer, inner.push(left), blank(), after, state);
            },
            Ok(TreeItemModel::And) => {
                let left = (Joint::And, built(cmd));
                assert((outer + inner).push(left) =~= outer + inner.push(left));
                lemma_parse_in_context(outer, inner.push(left), blank(), after, state);
            },
            Ok(TreeItemModel::Or) => {
                let left = (Joint::Or, built(cmd));
                assert((outer + inner).push(left) =~= outer + inner.push(left));
                lemma_parse_in_context(outer, inner.push(left), blank(), after, state);
            },
            Ok(TreeItemModel::StatementEnd) => {
                lemma_close_concat(outer, inner, built(cmd));
            },
            Ok(TreeItemModel::Comment) => {
                lemma_parse_in_context(outer, inner, cmd, after, state);
            },
            Ok(_) => {},
        }
    }
}

/// Closing by two runs of waiting commands, one after the other, is
/// closing by the second and then by the first.
pub proof fn lemma_close_concat(
    outer: Seq<(Joint, CmdModel)>,
    inner: Seq<(Joint, CmdModel)>,
    right: CmdModel,
)
    ensures
        close(outer + inner, right) == close(outer, close(inner, right)),
    decreases outer.len(),
{
    if outer.len() == 0 {
        assert(outer + inner =~= inner);
    } else {
        lemma_close_concat(outer.skip(1), inner, right);
        assert((outer + inner).skip(1) =~= outer.skip(1) + inner);
    }
}

/// An operator takes the simple command on its left and all of the
/// statement after it: where the items after `|`, `&&` or `||` make the
/// command `right`, the statement is the simple command joined with
/// `right`.
pub proof fn lemma_operator_nests_right(
    cmd: SimpleModel,
    joint: Joint,
    after: Seq<Result<TreeItemModel, CmdErrorModel>>,
    state: &ShellState,
)
    requires
        parse(fresh(), after, state).outcome is Ok,
        parse(fresh(), after, state).outcome->Ok_0 is Command,
    ensures
        ({
            let item = match joint {
                Joint::Pipe => TreeItemModel::Pipe,
                Joint::And => TreeItemModel::And,
                Joint::Or => TreeItemModel::Or,
            };
            let right = parse(fresh(), after, state);
            parse(Progress { lefts: Seq::empty(), cmd }, seq![Ok(item)] + after, state) == (Parse {
                outcome: Ok(
                    ParsedModel::Command(join(joint, built(cmd), right.outcome->Ok_0->Command_0)),
                ),
                ..right
            })
        }),
{
    let item = match joint {
        Joint::Pipe => TreeItemModel::Pipe,
        Joint::And => TreeItemModel::And,
        Joint::Or => TreeItemModel::Or,
    };
    let none = Seq::<(Joint, CmdModel)>::empty();
    let items = seq![Ok::<TreeItemModel, CmdErrorModel>(item)] + after;
    assert(items.skip(1) =~= after);
    let one = seq![(joint, built(cmd))];
    assert(none.push((joint, built(cmd))) =~= one);
    assert(one + none =~= one);
    lemma_parse_in_context(one, none, blank(), after, state);
    let right = parse(fresh(), after, state).outcome->Ok_0->Command_0;
    assert(one.skip(1) =~= none);
    assert(close(one, right) == join(joint, built(cmd), close(none, right)));
}

/// The innermost waiting command takes `right`, and the commands before
/// it take the two together.
pub proof fn lemma_close_last(lefts: Seq<(Joint, CmdModel)>, right: CmdModel)
    requires
        lefts.len() > 0,
    ensures
        close(lefts, right) == close(
            lefts.drop_last(),
            join(lefts.last().0, lefts.last().1, right),
        ),
    decreases lefts.len(),
{
    if lefts.len() == 1 {
        assert(lefts.skip(1) =~= Seq::<(Joint, CmdModel)>::empty());
        assert(lefts.drop_last() =~= Seq::<(Joint, CmdModel)>::empty());
    } else {
        lemma_close_last(lefts.skip(1), right);
        assert(lefts.skip(1).drop_last() =~= lefts.drop_last().skip(1));
    }
}

/// The parser over a token source: each call of `next` hands out one
/// statement as a command.
pub struct Parser<S: TokenSource> {
    tokens: Walker<S>,
    /// A tree item that was taken from the walker and not used yet.
    ahead: Option<Result<TreeItem, CmdError>>,
    /// The commands that wait for their right side, the outermost first.
    lefts: Vec<(Joint, Cmd)>,
    /// The simple command that is being assembled.
    cmd: SimpleCmd,
}

impl<S: TokenSource> Parser<S> {
    /// The tree items not yet parsed.
    pub closed spec fn items(&self) -> Seq<Result<TreeItemModel, CmdErrorModel>> {
        match self.ahead {
            Some(r) => seq![item_outcome(r)] + self.tokens.pending(),
            None => self.tokens.pending(),
        }
    }

    /// How far the parser is into a statement.
    pub closed spec fn progress(&self) -> Progress {
        Progress { lefts: waiting(self.lefts@), cmd: self.cmd@ }
    }

    /// A parser over `tokens`, at the start of a statement.
    pub fn new(tokens: S) -> (parser: Parser<S>)
        ensures
            parser.items() == crate::walker::walk_stream(tokens.pending()),
            parser.progress() == fresh(),
    {
        let parser = Parser {
            tokens: Walker::new(tokens),
            ahead: None,
            lefts: Vec::new(),
            cmd: SimpleCmd::default(),
        };
        assert(waiting(parser.lefts@) =~= Seq::<(Joint, CmdModel)>::empty());
        parser
    }

    /// Looks at the next tree item without using it.
    fn fill(&mut self)
        ensures
            final(self).items() == old(self).items(),
            final(self).progress() == old(self).progress(),
            match final(self).ahead {
                Some(r) => {
                    &&& final(self).items().len() > 0
                    &&& item_outcome(r) == final(self).items()[0]
                },
                None => final(self).items().len() == 0,
            },
    {
        if self.ahead.is_none() {
            self.ahead = self.tokens.next();
            proof {
                let s = old(self).tokens.pending();
                if s.len() > 0 {
                    assert(seq![s[0]] + s.skip(1) =~= s);
                }
            }
        }
    }

    /// Takes the next tree item.
    fn take(&mut self) -> (item: Option<Result<TreeItem, CmdError>>)
        ensures
            final(self).ahead is None,
            final(self).progress() == old(self).progress(),
            match item {
                None => old(self).items().len() == 0 && final(self).items() == old(self).items(),
                Some(r) => old(self).items().len() > 0 && item_outcome(r) == old(self).items()[0]
                    && final(self).items() == old(self).items().skip(1),
            },
    {
        match self.ahead.take() {
            Some(r) => {
                assert((seq![item_outcome(r)] + self.tokens.pending()).skip(1)
                    =~= self.tokens.pending());
                Some(r)
            },
            None => self.tokens.next(),
        }
    }

    /// Leaves out the rest of the statement and starts afresh.
    fn give_up(&mut self)
        requires
            old(self).ahead is None,
        ensures
            final(self).items() == discard(old(self).items()),
            final(self).progress() == fresh(),
    {
        self.lefts = Vec::new();
        self.cmd = SimpleCmd::default();
        assert(waiting(self.lefts@) =~= Seq::<(Joint, CmdModel)>::empty());
        loop
            invariant_except_break
                discard(self.items()) == discard(old(self).items()),
            invariant
                self.progress() == fresh(),
            ensures
                self.progress() == fresh(),
                self.items() == discard(old(self).items()),
            decreases self.items().len(),
        {
            match self.take() {
                None => {
                    break ;
                },
                Some(Ok(TreeItem::StatementEnd)) => {
                    break ;
                },
                Some(_) => {},
            }
        }
    }

    /// Makes the simple command wait for its right side and starts the
    /// next.
    fn shift(&mut self, joint: Joint)
        ensures
            final(self).items() == old(self).items(),
            final(self).progress() == shifted(old(self).progress(), joint),
            final(self).ahead == old(self).ahead,
    {
        let mut simple = SimpleCmd::default();
        core::mem::swap(&mut self.cmd, &mut simple);
        let left = simple.build();
        self.lefts.push((joint, left));
        assert(waiting(self.lefts@) =~= waiting(old(self).lefts@).push((joint, left@)));
    }

    /// Finishes the statement.
    fn finish(&mut self) -> (cmd: Cmd)
        ensures
            final(self).items() == old(self).items(),
            final(self).progress() == fresh(),
            final(self).ahead == old(self).ahead,
            cmd@ == close(old(self).progress().lefts, built(old(self).progress().cmd)),
    {
        let mut simple = SimpleCmd::default();
        core::mem::swap(&mut self.cmd, &mut simple);
        let mut cmd = simple.build();
        let ghost goal = close(waiting(self.lefts@), cmd@);
        while self.lefts.len() > 0
            invariant
                self.items() == old(self).items(),
                self.ahead == old(self).ahead,
                self.cmd@ == blank(),
                goal == close(waiting(self.lefts@), cmd@),
            decreases self.lefts.len(),
        {
            let ghost before = waiting(self.lefts@);
            let (joint, left) = self.lefts.pop().unwrap();
            proof {
                lemma_close_last(before, cmd@);
                assert(before.drop_last() =~= waiting(self.lefts@));
            }
            cmd = match joint {
                Joint::Pipe => Cmd::Pipeline(Box::new(left), Box::new(cmd)),
                Joint::And => Cmd::And(Box::new(left), Box::new(cmd)),
                Joint::Or => Cmd::Or(Box::new(left), Box::new(cmd)),
            };
        }
        assert(waiting(self.lefts@) =~= Seq::<(Joint, CmdModel)>::empty());
        cmd
    }

    /// Parses the next statement, or stops before a word whose command
    /// substitution needs its output; `None` where no tree item is left.
    pub fn next(&mut self, state: &ShellState) -> (parsed: Option<Result<Parsed, CmdError>>)
        ensures
            match parsed {
                None => old(self).items().len() == 0 && final(self).items() == old(self).items()
                    && final(self).progress() == old(self).progress(),
                Some(r) => {
                    let step = parse(old(self).progress(), old(self).items(), state);
                    &&& old(self).items().len() > 0
                    &&& parsed_outcome(r) == step.outcome
                    &&& final(self).progress() == step.progress
                    &&& final(self).items() == step.rest
                },
            },
    {
        self.fill();
        if self.ahead.is_none() {
            return None;
        }
        Some(self.get_next(state))
    }

    /// Parses the next statement, or stops before a word whose command
    /// substitution needs its output. At the end of the input the
    /// statement is whatever was assembled.
    pub fn get_next(&mut self, state: &ShellState) -> (parsed: Result<Parsed, CmdError>)
        ensures
            parsed_outcome(parsed) == parse(old(self).progress(), old(self).items(), state).outcome,
            final(self).progress() == parse(
                old(self).progress(),
                old(self).items(),
                state,
            ).progress,
            final(self).items() == parse(old(self).progress(), old(self).items(), state).rest,
    {
        let ghost goal = parse(self.progress(), self.items(), state);
        loop
            invariant
                goal == parse(old(self).progress(), old(self).items(), state),
                goal == parse(self.progress(), self.items(), state),
            decreases self.items().len(),
        {
            let ghost items = self.items();
            let item = match self.take() {
                None => {
                    return Ok(Parsed::Command(self.finish()));
                },
                Some(Err(e)) => {
                    self.give_up();
                    return Err(e);
                },
                Some(Ok(item)) => item,
            };
            match item {
                TreeItem::Word(word) => {
                    let at = find_sub(&word);
                    proof {
                        lemma_sub_at(fragment_models(word@));
                        lemma_word_text_total(fragment_models(word@), state);
                    }
                    if at < word.len() {
                        let source = match &word[at] {
                            Expand::Sub(source) => source.clone(),
                            _ => String::new(),
                        };
                        self.ahead = Some(Ok(TreeItem::Word(word)));
                        assert(self.items() =~= items) by {
                            assert(seq![items[0]] + items.skip(1) =~= items);
                        }
                        return Ok(Parsed::Substitution(source));
                    }
                    match expand_word(&word, state) {
                        Ok(text) => {
                            self.cmd.push_ident(text);
                        },
                        Err(e) => {
                            self.give_up();
                            return Err(e);
                        },
                    }
                },
                TreeItem::Pipe => {
                    self.shift(Joint::Pipe);
                },
                TreeItem::And => {
                    self.shift(Joint::And);
                },
                TreeItem::Or => {
                    self.shift(Joint::Or);
                },
                TreeItem::StatementEnd => {
                    return Ok(Parsed::Command(self.finish()));
                },
                TreeItem::Comment => {},
                TreeItem::Append => {
                    self.give_up();
                    return Err(CmdError::BadToken(Token::RightArrow));
                },
                TreeItem::Redirect => {
                    self.give_up();
                    return Err(CmdError::BadToken(Token::RightArrow));
                },
                TreeItem::Background => {
                    self.give_up();
                    return Err(CmdError::BadToken(Token::Amp));
                },
            }
        }
    }

    /// Answers a request for a command's output. `Some` output takes the
    /// place of the first command substitution of the word that the parser
    /// stopped before, as literal text. `None` says that the command
    /// failed: the statement is given up, and the error is `SubShell`.
    /// Where the parser did not stop before such a word, nothing changes.
    pub fn substitute(&mut self, output: Option<String>) -> (done: Result<(), CmdError>)
        ensures
            final(self).progress() == substituted(
                old(self).progress(),
                old(self).items(),
                match output {
                    Some(text) => Some(text@),
                    None => None,
                },
            ).0,
            final(self).items() == substituted(
                old(self).progress(),
                old(self).items(),
                match output {
                    Some(text) => Some(text@),
                    None => None,
                },
            ).1,
            match done {
                Ok(_) => output is Some || !awaits(old(self).items()),
                Err(e) => output is None && awaits(old(self).items()) && e@
                    == CmdErrorModel::SubShell,
            },
    {
        self.fill();
        let ghost items = self.items();
        match self.ahead.take() {
            Some(Ok(TreeItem::Word(word))) => {
                let mut word = word;
                let at = find_sub(&word);
                proof {
                    lemma_sub_at(fragment_models(word@));
                    assert((seq![items[0]] + self.tokens.pending()).skip(1)
                        =~= self.tokens.pending());
                }
                if at < word.len() {
                    match output {
                        Some(text) => {
                            word.set(at, Expand::Literal(text));
                            assert(fragment_models(word@) =~= resolved(
                                items[0]->Ok_0->Word_0,
                                text@,
                            ));
                            self.ahead = Some(Ok(TreeItem::Word(word)));
                            assert(self.items() =~= items.update(0, item_outcome(self.ahead->0)));
                            Ok(())
                        },
                        None => {
                            self.give_up();
                            Err(CmdError::SubShell)
                        },
                    }
                } else {
                    self.ahead = Some(Ok(TreeItem::Word(word)));
                    assert(self.items() =~= items);
                    Ok(())
                }
            },
            other => {
                self.ahead = other;
                Ok(())
            },
        }
    }
}

} // verus!
