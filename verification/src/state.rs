//! What a shell session knows while it runs: the home directory, the
//! environment, the history of its lines and the exit flag.

use vstd::prelude::*;
use vstd::string::{StrSliceExecFns, StringExecFns};
use crate::cmd::texts;
use crate::smap::StaticMap;

verus! {

/// The state of one shell session.
#[derive(Debug)]
pub struct ShellState {
    /// Set by the `exit` builtin; the run loop stops after the command
    /// that set it.
    pub exit: bool,
    home: String,
    /// The exit status of the last command.
    prev: i32,
    hist: Vec<String>,
    envs: StaticMap<String, String>,
}

impl ShellState {
    /// The home directory.
    pub closed spec fn home_dir(&self) -> Seq<char> {
        self.home@
    }

    /// The value of the variable `name`; `None` where it is not set.
    pub closed spec fn variable(&self, name: Seq<char>) -> Option<Seq<char>> {
        if self.envs.has(name) {
            Some(self.envs.value(name)@)
        } else {
            None
        }
    }

    /// The lines of the session, oldest first.
    pub closed spec fn history(&self) -> Seq<Seq<char>> {
        texts(self.hist@)
    }

    /// Whether the session is to end after the current command.
    pub closed spec fn exiting(&self) -> bool {
        self.exit
    }

    /// The exit status of the last command.
    pub closed spec fn status(&self) -> i32 {
        self.prev
    }

    /// Whether `self` and `other` have the same home directory,
    /// environment and last exit status.
    pub open spec fn same_surroundings(&self, other: &ShellState) -> bool {
        &&& self.home_dir() == other.home_dir()
        &&& self.status() == other.status()
        &&& forall|name: Seq<char>| self.variable(name) == other.variable(name)
    }

    /// The history can be counted.
    pub proof fn lemma_history_fits(&self)
        ensures
            self.history().len() <= usize::MAX,
    {
        assert(self.hist.len() == self.hist@.len());
    }

    /// A session with the home directory `home` and the environment
    /// `envs`, no history, and the exit status 0.
    pub fn new(home: String, envs: StaticMap<String, String>) -> (state: ShellState)
        ensures
            !state.exiting(),
            state.home_dir() == home@,
            state.status() == 0,
            state.history() == Seq::<Seq<char>>::empty(),
            forall|name: Seq<char>|
                state.variable(name) == if envs.has(name) {
                    Some(envs.value(name)@)
                } else {
                    None
                },
    {
        let state = ShellState { exit: false, home, prev: 0, hist: Vec::new(), envs };
        assert(state.history() =~= Seq::<Seq<char>>::empty());
        state
    }

    /// The home directory.
    pub fn home(&self) -> (home: &str)
        ensures
            home@ == self.home_dir(),
    {
        self.home.as_str()
    }

    /// The value of the variable named exactly `key`.
    pub fn get_env_exact(&self, key: &str) -> (value: Option<String>)
        ensures
            match value {
                Some(v) => self.variable(key@) == Some(v@),
                None => self.variable(key@) is None,
            },
    {
        let name = String::from_str(key);
        match self.envs.get(&name) {
            Some(v) => Some(v.clone()),
            None => None,
        }
    }

    /// Splits `key` after its shortest prefix that names a set variable,
    /// and gives that variable's value and what is left of `key`. Where no
    /// prefix names one, the value is empty and all of `key` is left.
    pub fn get_env<'a>(&'a self, key: &'a str) -> (found: (String, &'a str))
        ensures
            ({
                let (value, rest) = found;
                ||| exists|n: int|
                    {
                        &&& 1 <= n <= key@.len()
                        &&& #[trigger] self.variable(key@.take(n)) == Some(value@)
                        &&& rest@ == key@.skip(n)
                        &&& forall|m: int|
                            1 <= m < n ==> (#[trigger] self.variable(key@.take(m))) is None
                    }
                ||| {
                    &&& value@ == Seq::<char>::empty()
                    &&& rest@ == key@
                    &&& forall|m: int|
                        1 <= m <= key@.len() ==> (#[trigger] self.variable(key@.take(m))) is None
                }
            }),
    {
        let len = key.unicode_len();
        let mut i: usize = 0;
        while i < len
            invariant
                i <= len,
                len == key@.len(),
                forall|m: int| 1 <= m <= i ==> (#[trigger] self.variable(key@.take(m))) is None,
            decreases len - i,
        {
            let prefix = key.substring_char(0, i + 1);
            assert(prefix@ =~= key@.take(i + 1));
            if let Some(v) = self.get_env_exact(prefix) {
                let rest = key.substring_char(i + 1, len);
                assert(rest@ =~= key@.skip(i + 1));
                return (v, rest);
            }
            i += 1;
        }
        (String::new(), key)
    }

    /// The line entered `index` lines ago: 1 is the last one. `None` for
    /// 0 and for an index beyond the first line.
    pub fn get_history(&self, index: usize) -> (line: Option<&str>)
        ensures
            match line {
                Some(text) => 1 <= index <= self.history().len() && text@ == self.history()[
                    self.history().len() - index
                ],
                None => index == 0 || index > self.history().len(),
            },
    {
        let leng = self.hist.len();
        if index > leng || index == 0 {
            None
        } else {
            Some(self.hist[leng - index].as_str())
        }
    }

    /// Adds a line to the history.
    pub fn add_history(&mut self, item: &str)
        ensures
            final(self).history() == old(self).history().push(item@),
            final(self).exiting() == old(self).exiting(),
            final(self).same_surroundings(old(self)),
    {
        self.hist.push(String::from_str(item));
        assert(texts(self.hist@) =~= texts(old(self).hist@).push(item@));
    }

    /// Records the exit status of the last command.
    pub fn set_status(&mut self, code: i32)
        ensures
            final(self).status() == code,
            final(self).exiting() == old(self).exiting(),
            final(self).home_dir() == old(self).home_dir(),
            final(self).history() == old(self).history(),
            forall|name: Seq<char>| final(self).variable(name) == old(self).variable(name),
    {
        self.prev = code;
    }

    /// Asks the session to end after the current command.
    pub fn request_exit(&mut self)
        ensures
            final(self).exiting(),
            final(self).history() == old(self).history(),
            final(self).same_surroundings(old(self)),
    {
        self.exit = true;
    }

    /// Whether the session is to end after the current command.
    pub fn exit_requested(&self) -> (b: bool)
        ensures
            b == self.exiting(),
    {
        self.exit
    }

    /// The exit status of the last command.
    pub fn last_status(&self) -> (code: i32)
        ensures
            code == self.status(),
    {
        self.prev
    }
}

} // verus!
