//! An owned run of characters that is read from the front, one character at a
//! time, with one character of lookahead.

use vstd::prelude::*;
use vstd::std_specs::iter::IteratorSpec;

verus! {

/// `String::push` appends the given character to the end of the string:
/// afterwards the string holds its old characters followed by that one.
pub assume_specification[ String::push ](text: &mut String, c: char)
    ensures
        final(text)@ == old(text)@.push(c),
;

/// The characters of a text, in order.
pub fn chars_of(text: &str) -> (chars: Vec<char>)
    ensures
        chars@ == text@,
{
    let mut chars: Vec<char> = Vec::new();
    let mut it = text.chars();
    loop
        invariant
            chars@ + it.remaining() == text@,
            it.obeys_prophetic_iter_laws(),
            it.decrease() is Some,
        ensures
            chars@ == text@,
        decreases it.decrease()->0,
    {
        match it.next() {
            Some(c) => {
                chars.push(c);
            },
            None => {
                assert(chars@ + it.remaining() =~= chars@);
                break ;
            },
        }
    }
    chars
}

/// The text made of the characters `chars[from..to]`.
pub fn text_of(chars: &Vec<char>, from: usize, to: usize) -> (text: String)
    requires
        from <= to <= chars.len(),
    ensures
        text@ == chars@.subrange(from as int, to as int),
{
    let mut text = String::new();
    let mut i: usize = from;
    while i < to
        invariant
            from <= i <= to <= chars.len(),
            text@ == chars@.subrange(from as int, i as int),
        decreases to - i,
    {
        text.push(chars[i]);
        i += 1;
    }
    text
}

/// A text owned by its reader. `next` hands out its characters from the
/// front; `peek` shows the next one without taking it.
pub struct OwnedCharBuffer {
    chars: Vec<char>,
    index: usize,
}

impl OwnedCharBuffer {
    /// The characters not yet handed out.
    pub closed spec fn pending(&self) -> Seq<char> {
        if self.index <= self.chars.len() {
            self.chars@.skip(self.index as int)
        } else {
            Seq::empty()
        }
    }

    /// All the characters the reader was made with.
    pub closed spec fn whole(&self) -> Seq<char> {
        self.chars@
    }

    /// How many characters have been handed out.
    pub closed spec fn consumed(&self) -> nat {
        self.index as nat
    }

    /// A reader at the front of `value`.
    pub fn new(value: String) -> (buffer: OwnedCharBuffer)
        ensures
            buffer.pending() == value@,
            buffer.whole() == value@,
            buffer.consumed() == 0,
    {
        let chars = chars_of(value.as_str());
        OwnedCharBuffer { chars, index: 0 }
    }

    /// How many characters have been handed out.
    pub fn index(&self) -> (index: usize)
        ensures
            index == self.consumed(),
    {
        self.index
    }

    /// The characters from position `str` up to, not including, position
    /// `end` of the whole text, whether handed out yet or not; `None` where
    /// the text is shorter than `end` or the two are out of order.
    pub fn get_slice(&self, str: usize, end: usize) -> (slice: Option<String>)
        ensures
            match slice {
                Some(text) => str <= end <= self.whole().len() && text@ == self.whole().subrange(
                    str as int,
                    end as int,
                ),
                None => str > end || end > self.whole().len(),
            },
    {
        if str > end || end > self.chars.len() {
            None
        } else {
            Some(text_of(&self.chars, str, end))
        }
    }

    /// The next character, which stays in the reader.
    pub fn peek(&self) -> (c: Option<char>)
        ensures
            c == if self.pending().len() > 0 {
                Some(self.pending()[0])
            } else {
                None
            },
    {
        if self.index < self.chars.len() {
            Some(self.chars[self.index])
        } else {
            None
        }
    }

    /// Hands out the next character; `None` at the end of the text, and
    /// then nothing changes.
    pub fn next(&mut self) -> (c: Option<char>)
        ensures
            c == if old(self).pending().len() > 0 {
                Some(old(self).pending()[0])
            } else {
                None
            },
            final(self).pending() == if old(self).pending().len() > 0 {
                old(self).pending().skip(1)
            } else {
                old(self).pending()
            },
            final(self).whole() == old(self).whole(),
            final(self).consumed() == if old(self).pending().len() > 0 {
                old(self).consumed() + 1
            } else {
                old(self).consumed()
            },
    {
        if self.index < self.chars.len() {
            let c = self.chars[self.index];
            self.index += 1;
            assert(self.pending() =~= old(self).pending().skip(1));
            Some(c)
        } else {
            None
        }
    }
}

} // verus!
