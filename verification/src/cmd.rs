//! The command tree that the parser builds and a driver runs.

use vstd::prelude::*;
use crate::smap::StaticMap;

verus! {

/// One program with its arguments and the variables set for it alone.
#[derive(Debug, PartialEq)]
pub struct SimpleCmd {
    /// The program's name; empty as long as no word was given.
    pub cmd: String,
    /// The arguments, in order.
    pub args: Vec<String>,
    /// Variables laid over the inherited environment.
    pub env: StaticMap<String, String>,
}

/// A command.
#[derive(Debug, PartialEq)]
pub enum Cmd {
    /// One program.
    Simple(SimpleCmd),
    /// `left | right`
    Pipeline(Box<Cmd>, Box<Cmd>),
    /// `left && right`
    And(Box<Cmd>, Box<Cmd>),
    /// `left || right`
    Or(Box<Cmd>, Box<Cmd>),
    /// `! inner`
    Not(Box<Cmd>),
    /// Nothing to run.
    Empty,
}

/// What a [`SimpleCmd`] is, over mathematical sequences.
pub struct SimpleModel {
    pub cmd: Seq<char>,
    pub args: Seq<Seq<char>>,
    pub env: Seq<(Seq<char>, Seq<char>)>,
}

/// What a [`Cmd`] is, over mathematical sequences.
pub enum CmdModel {
    Simple(SimpleModel),
    Pipeline(Box<CmdModel>, Box<CmdModel>),
    And(Box<CmdModel>, Box<CmdModel>),
    Or(Box<CmdModel>, Box<CmdModel>),
    Not(Box<CmdModel>),
    Empty,
}

/// The views of a sequence of texts, item by item.
pub open spec fn texts(strings: Seq<String>) -> Seq<Seq<char>> {
    Seq::new(strings.len(), |i: int| strings[i]@)
}

/// The views of the entries of an environment, item by item.
pub open spec fn pairs(entries: Seq<(String, String)>) -> Seq<(Seq<char>, Seq<char>)> {
    Seq::new(entries.len(), |i: int| (entries[i].0@, entries[i].1@))
}

impl View for SimpleCmd {
    type V = SimpleModel;

    open spec fn view(&self) -> SimpleModel {
        SimpleModel { cmd: self.cmd@, args: texts(self.args@), env: pairs(self.env.entries()) }
    }
}

impl View for Cmd {
    type V = CmdModel;

    open spec fn view(&self) -> CmdModel
        decreases self,
    {
        match self {
            Cmd::Simple(simple) => CmdModel::Simple(simple@),
            Cmd::Pipeline(left, right) => CmdModel::Pipeline(
                Box::new((**left).view()),
                Box::new((**right).view()),
            ),
            Cmd::And(left, right) => CmdModel::And(
                Box::new((**left).view()),
                Box::new((**right).view()),
            ),
            Cmd::Or(left, right) => CmdModel::Or(
                Box::new((**left).view()),
                Box::new((**right).view()),
            ),
            Cmd::Not(inner) => CmdModel::Not(Box::new((**inner).view())),
            Cmd::Empty => CmdModel::Empty,
        }
    }
}

/// A simple command with no name, no arguments and no variables.
pub open spec fn blank() -> SimpleModel {
    SimpleModel { cmd: Seq::empty(), args: Seq::empty(), env: Seq::empty() }
}

/// `simple` after one more word: the first word that is not empty is the
/// program's name, and every word after it is an argument.
pub open spec fn with_word(simple: SimpleModel, word: Seq<char>) -> SimpleModel {
    if simple.cmd.len() == 0 {
        SimpleModel { cmd: word, ..simple }
    } else {
        SimpleModel { args: simple.args.push(word), ..simple }
    }
}

/// The command that `simple` is: nothing to run where it has no name.
pub open spec fn built(simple: SimpleModel) -> CmdModel {
    if simple.cmd.len() == 0 {
        CmdModel::Empty
    } else {
        CmdModel::Simple(simple)
    }
}

impl SimpleCmd {
    /// Adds a word: the program's name where there is none yet, else one
    /// more argument.
    pub fn push_ident(&mut self, ident: String)
        ensures
            final(self)@ == with_word(old(self)@, ident@),
    {
        if self.cmd.as_str().is_empty() {
            self.cmd = ident;
        } else {
            self.args.push(ident);
            assert(texts(self.args@) =~= texts(old(self).args@).push(ident@));
        }
    }

    /// The finished command: `Cmd::Empty` where no name was given.
    pub fn build(self) -> (cmd: Cmd)
        ensures
            cmd@ == built(self@),
    {
        if self.cmd.as_str().is_empty() {
            Cmd::Empty
        } else {
            Cmd::Simple(self)
        }
    }
}

impl Default for SimpleCmd {
    fn default() -> (simple: Self)
        ensures
            simple@ == blank(),
    {
        let simple = SimpleCmd { cmd: String::new(), args: Vec::new(), env: StaticMap::new() };
        assert(simple@.args =~= Seq::<Seq<char>>::empty());
        assert(simple@.env =~= Seq::<(Seq<char>, Seq<char>)>::empty());
        simple
    }
}

} // verus!
