//! The lexer: from characters to tokens, one token per call.
//!
//! What the lexer does is stated by spec functions on sequences of
//! characters ([`lex_token`] and the functions it is made of); the readers
//! below are proved to compute them on an [`OwnedCharBuffer`].

use vstd::prelude::*;
use crate::chars::OwnedCharBuffer;
use crate::error::LexError;
use crate::source::{outcome, TokenSource};
use crate::token::{models, Token, TokenModel};

verus! {

/// The characters that end an unquoted run of ordinary characters.
pub open spec fn is_special(c: char) -> bool {
    c == '<' || c == '>' || c == '(' || c == ')' || c == '$' || c == '`' || c == '"' || c == '\''
        || c == '*' || c == '\n' || c == ' ' || c == '&' || c == '|' || c == ';'
}

/// Whether `c` ends an unquoted run of ordinary characters.
pub fn special(c: char) -> (b: bool)
    ensures
        b == is_special(c),
{
    c == '<' || c == '>' || c == '(' || c == ')' || c == '$' || c == '`' || c == '"' || c == '\''
        || c == '*' || c == '\n' || c == ' ' || c == '&' || c == '|' || c == ';'
}

/// Whether `c` ends a run of ordinary characters: a special character
/// does, and inside double quotes a backslash does too.
pub open spec fn ends_run(c: char, quoted: bool) -> bool {
    is_special(c) || (quoted && c == '\\')
}

/// How many characters at the front of `s` come before the first one that
/// ends a run: all of them where none does.
pub open spec fn run_len(s: Seq<char>, quoted: bool) -> nat
    decreases s.len(),
{
    if s.len() == 0 || ends_run(s[0], quoted) {
        0
    } else {
        1 + run_len(s.skip(1), quoted)
    }
}

/// How many characters at the front of `s` come before its first special
/// character: all of them where it has none.
pub open spec fn ident_len(s: Seq<char>) -> nat {
    run_len(s, false)
}

/// `run_len(s, quoted)` is the one position up to which no character of
/// `s` ends a run and at which `s` ends or has a character that does.
pub proof fn lemma_run_len(s: Seq<char>, quoted: bool)
    ensures
        run_len(s, quoted) <= s.len(),
        forall|i: int| 0 <= i < run_len(s, quoted) ==> !ends_run(#[trigger] s[i], quoted),
        run_len(s, quoted) < s.len() ==> ends_run(s[run_len(s, quoted) as int], quoted),
    decreases s.len(),
{
    if s.len() == 0 || ends_run(s[0], quoted) {
    } else {
        let t = s.skip(1);
        lemma_run_len(t, quoted);
        assert forall|i: int| 0 <= i < run_len(s, quoted) implies !ends_run(
            #[trigger] s[i],
            quoted,
        ) by {
            if i > 0 {
                assert(s[i] == t[i - 1]);
            }
        }
        if run_len(s, quoted) < s.len() {
            assert(s[run_len(s, quoted) as int] == t[run_len(t, quoted) as int]);
        }
    }
}

/// `ident_len(s)` is the one position up to which no character of `s` is
/// special and at which `s` ends or has a special character.
pub proof fn lemma_ident_len(s: Seq<char>)
    ensures
        ident_len(s) <= s.len(),
        forall|i: int| 0 <= i < ident_len(s) ==> !is_special(#[trigger] s[i]),
        ident_len(s) < s.len() ==> is_special(s[ident_len(s) as int]),
{
    lemma_run_len(s, false);
    assert forall|i: int| 0 <= i < ident_len(s) implies !is_special(#[trigger] s[i]) by {
        assert(!ends_run(s[i], false));
    }
}

/// What a backslash and the character after it stand for inside a raw span.
#[derive(Debug, Clone, Copy, PartialEq, Eq, Structural)]
pub enum Escape {
    /// Nothing: the pair is skipped.
    Skip,
    /// Before the delimiter, the delimiter alone; before any other
    /// character, a backslash and the delimiter.
    Delimiter,
    /// Before the delimiter, the delimiter alone; before any other
    /// character, the pair as it stands.
    Keep,
}

/// The characters that the pair of a backslash and `c` adds to a raw span
/// that `delim` closes.
pub open spec fn escaped(escape: Escape, delim: char, c: char) -> Seq<char> {
    match escape {
        Escape::Skip => Seq::empty(),
        Escape::Delimiter => if c == delim {
            seq![delim]
        } else {
            seq!['\\', delim]
        },
        Escape::Keep => if c == delim {
            seq![delim]
        } else {
            seq!['\\', c]
        },
    }
}

/// A raw span read from the front of some characters.
pub struct RawSpan {
    /// The text of the span, escapes resolved.
    pub text: Seq<char>,
    /// Whether the delimiter was found. Where it was not, the span took all
    /// the characters.
    pub closed: bool,
    /// The characters after the span and its delimiter.
    pub rest: Seq<char>,
}

/// Reads `s` up to its first delimiter that no backslash precedes. A
/// backslash takes the character after it with it, and the pair adds
/// `escaped(..)` to the text; a backslash that ends the input adds itself.
pub open spec fn raw_until(s: Seq<char>, delim: char, escape: Escape) -> RawSpan
    decreases s.len(),
{
    if s.len() == 0 {
        RawSpan { text: Seq::empty(), closed: false, rest: s }
    } else if s[0] == '\\' {
        if s.len() == 1 {
            RawSpan { text: seq!['\\'], closed: false, rest: s.skip(1) }
        } else {
            let after = raw_until(s.skip(2), delim, escape);
            RawSpan { text: escaped(escape, delim, s[1]) + after.text, ..after }
        }
    } else if s[0] == delim {
        RawSpan { text: Seq::empty(), closed: true, rest: s.skip(1) }
    } else {
        let after = raw_until(s.skip(1), delim, escape);
        RawSpan { text: seq![s[0]] + after.text, ..after }
    }
}

/// A raw span leaves a suffix of what it was read from, and all of it is
/// taken where the delimiter is missing.
pub proof fn lemma_raw_until_rest(s: Seq<char>, delim: char, escape: Escape)
    ensures
        raw_until(s, delim, escape).rest.len() <= s.len(),
        raw_until(s, delim, escape).closed ==> raw_until(s, delim, escape).rest.len() < s.len(),
        !raw_until(s, delim, escape).closed ==> raw_until(s, delim, escape).rest.len() == 0,
    decreases s.len(),
{
    if s.len() == 0 {
    } else if s[0] == '\\' {
        if s.len() > 1 {
            lemma_raw_until_rest(s.skip(2), delim, escape);
        }
    } else if s[0] == delim {
    } else {
        lemma_raw_until_rest(s.skip(1), delim, escape);
    }
}

/// One step of the lexer: the token at the front of some characters, or
/// why there is none, and the characters after it.
pub struct Lexed {
    pub token: Result<TokenModel, LexError>,
    pub rest: Seq<char>,
}

/// After a space: a comment where `#` follows, which runs to the end of
/// the line and takes the newline with it; else the space alone.
pub open spec fn lex_space(s: Seq<char>) -> Lexed {
    if s.len() > 0 && s[0] == '#' {
        Lexed { token: Ok(TokenModel::Comment), rest: raw_until(s, '\n', Escape::Skip).rest }
    } else {
        Lexed { token: Ok(TokenModel::Space), rest: s }
    }
}

/// A span that `delim` must close, as a command substitution.
pub open spec fn lex_sub(s: Seq<char>, delim: char) -> Lexed {
    let span = raw_until(s, delim, Escape::Delimiter);
    Lexed {
        token: if span.closed {
            Ok(TokenModel::Sub(span.text))
        } else {
            Err(LexError::UnclosedSub)
        },
        rest: span.rest,
    }
}

/// After a backtick: the raw source up to the closing backtick.
pub open spec fn lex_backtick(s: Seq<char>) -> Lexed {
    lex_sub(s, '`')
}

/// After `$`: where `(` follows, the raw source up to the first `)` that
/// no backslash precedes; else the dollar sign alone.
pub open spec fn lex_doller(s: Seq<char>) -> Lexed {
    if s.len() > 0 && s[0] == '(' {
        lex_sub(s.skip(1), ')')
    } else {
        Lexed { token: Ok(TokenModel::Doller), rest: s }
    }
}

/// A run of ordinary characters that starts with `c`: `c` and the
/// characters of `s` before the first one that ends a run.
pub open spec fn lex_run(c: char, s: Seq<char>, quoted: bool) -> Lexed {
    Lexed {
        token: Ok(TokenModel::Ident(seq![c] + s.take(run_len(s, quoted) as int))),
        rest: s.skip(run_len(s, quoted) as int),
    }
}

/// An identifier that starts with `c`: `c` and the characters of `s` before
/// its first special one. A backslash is a character like any other.
pub open spec fn lex_ident(c: char, s: Seq<char>) -> Lexed {
    lex_run(c, s, false)
}

/// After a backslash inside double quotes: `n` is a newline, a backslash
/// is itself, any other character keeps the backslash before it, and a
/// backslash that ends the input is itself.
pub open spec fn lex_escape(s: Seq<char>) -> Lexed {
    if s.len() == 0 {
        Lexed { token: Ok(TokenModel::Ident(seq!['\\'])), rest: s }
    } else if s[0] == 'n' {
        Lexed { token: Ok(TokenModel::Ident(seq!['\n'])), rest: s.skip(1) }
    } else if s[0] == '\\' {
        Lexed { token: Ok(TokenModel::Ident(seq!['\\'])), rest: s.skip(1) }
    } else {
        Lexed { token: Ok(TokenModel::Ident(seq!['\\', s[0]])), rest: s.skip(1) }
    }
}

/// After `'`: the literal text up to the closing quote.
pub open spec fn lex_single_quotes(s: Seq<char>) -> Lexed {
    let span = raw_until(s, '\'', Escape::Keep);
    Lexed {
        token: if span.closed {
            Ok(TokenModel::SingleQuote(span.text))
        } else {
            Err(LexError::UnclosedSingleQuote)
        },
        rest: span.rest,
    }
}

/// The nested token at the front of the inside of a double-quoted span,
/// which `s` starts with and which is not the closing quote: an escape
/// after a backslash, `$` or a command substitution after `$`, and else
/// the text up to the next special character or backslash.
pub open spec fn lex_nested(s: Seq<char>) -> Lexed
    recommends
        s.len() > 0,
{
    if s[0] == '\\' {
        lex_escape(s.skip(1))
    } else if s[0] == '$' {
        lex_doller(s.skip(1))
    } else {
        lex_run(s[0], s.skip(1), true)
    }
}

/// The inside of a double-quoted span, read from the front of some
/// characters.
pub struct Quoted {
    /// The nested tokens, or why the span could not be read.
    pub inner: Result<Seq<TokenModel>, LexError>,
    /// The characters after the closing quote.
    pub rest: Seq<char>,
}

/// Reads nested tokens up to the closing `"`.
pub open spec fn quoted(s: Seq<char>) -> Quoted
    decreases s.len(),
{
    if s.len() == 0 {
        Quoted { inner: Err(LexError::UnclosedDoubleQuote), rest: s }
    } else if s[0] == '"' {
        Quoted { inner: Ok(Seq::empty()), rest: s.skip(1) }
    } else {
        let first = lex_nested(s);
        match first.token {
            Err(e) => Quoted { inner: Err(e), rest: first.rest },
            Ok(token) => {
                proof {
                    lemma_nested_rest(s);
                }
                let after = quoted(first.rest);
                Quoted {
                    inner: match after.inner {
                        Ok(tokens) => Ok(seq![token] + tokens),
                        Err(e) => Err(e),
                    },
                    rest: after.rest,
                }
            },
        }
    }
}

/// After `"`: the nested tokens up to the closing quote.
pub open spec fn lex_double_quotes(s: Seq<char>) -> Lexed {
    let q = quoted(s);
    Lexed {
        token: match q.inner {
            Ok(tokens) => Ok(TokenModel::DoubleQuote(tokens)),
            Err(e) => Err(e),
        },
        rest: q.rest,
    }
}

/// The token at the front of `s`, which is not empty.
pub open spec fn lex_token(s: Seq<char>) -> Lexed
    recommends
        s.len() > 0,
{
    let c = s[0];
    let t = s.skip(1);
    if c == '"' {
        lex_double_quotes(t)
    } else if c == '\'' {
        lex_single_quotes(t)
    } else if c == '$' {
        lex_doller(t)
    } else if c == '`' {
        lex_backtick(t)
    } else if c == ' ' {
        lex_space(t)
    } else {
        match punctuation(c) {
            Some(token) => Lexed { token: Ok(token), rest: t },
            None => lex_ident(c, t),
        }
    }
}

/// The token that a punctuation character is by itself.
pub open spec fn punctuation(c: char) -> Option<TokenModel> {
    if c == '#' {
        Some(TokenModel::Pound)
    } else if c == '|' {
        Some(TokenModel::Pipe)
    } else if c == '>' {
        Some(TokenModel::RightArrow)
    } else if c == '<' {
        Some(TokenModel::LeftArrow)
    } else if c == '!' {
        Some(TokenModel::Bang)
    } else if c == '(' {
        Some(TokenModel::OpenParen)
    } else if c == ')' {
        Some(TokenModel::CloseParen)
    } else if c == '*' {
        Some(TokenModel::Glob)
    } else if c == '{' {
        Some(TokenModel::OpenBracket)
    } else if c == '}' {
        Some(TokenModel::CloseBracket)
    } else if c == '~' {
        Some(TokenModel::Tilde)
    } else if c == '=' {
        Some(TokenModel::Equal)
    } else if c == '%' {
        Some(TokenModel::Percent)
    } else if c == '&' {
        Some(TokenModel::Amp)
    } else if c == '?' {
        Some(TokenModel::Huh)
    } else if c == ';' {
        Some(TokenModel::SemiColon)
    } else if c == '\t' {
        Some(TokenModel::Tab)
    } else if c == '\n' {
        Some(TokenModel::Newline)
    } else {
        None
    }
}

/// A nested token takes at least its first character.
pub proof fn lemma_nested_rest(s: Seq<char>)
    requires
        s.len() > 0,
    ensures
        lex_nested(s).rest.len() < s.len(),
        lex_nested(s).token is Err ==> lex_nested(s).rest.len() == 0,
{
    let t = s.skip(1);
    lemma_run_len(t, true);
    if t.len() > 0 {
        lemma_raw_until_rest(t.skip(1), ')', Escape::Delimiter);
    }
}

/// A double-quoted span leaves less than it was read from, unless that was
/// nothing; an error leaves nothing.
pub proof fn lemma_quoted_rest(s: Seq<char>)
    ensures
        quoted(s).rest.len() <= s.len(),
        s.len() > 0 ==> quoted(s).rest.len() < s.len(),
        quoted(s).inner is Err ==> quoted(s).rest.len() == 0,
    decreases s.len(),
{
    if s.len() == 0 {
    } else if s[0] == '"' {
    } else {
        lemma_nested_rest(s);
        if lex_nested(s).token is Ok {
            lemma_quoted_rest(lex_nested(s).rest);
        }
    }
}

/// A token takes at least one character, and an error takes them all.
pub proof fn lemma_lex_token_rest(s: Seq<char>)
    requires
        s.len() > 0,
    ensures
        lex_token(s).rest.len() < s.len(),
        lex_token(s).token is Err ==> lex_token(s).rest.len() == 0,
{
    let t = s.skip(1);
    lemma_quoted_rest(t);
    lemma_raw_until_rest(t, '\'', Escape::Keep);
    lemma_raw_until_rest(t, '`', Escape::Delimiter);
    lemma_raw_until_rest(t, '\n', Escape::Skip);
    if t.len() > 0 {
        lemma_raw_until_rest(t.skip(1), ')', Escape::Delimiter);
    }
    lemma_ident_len(t);
}

/// A raw span over text that holds neither the delimiter nor a backslash
/// is that text, and the span ends with the delimiter after it.
pub proof fn lemma_raw_until_plain(text: Seq<char>, after: Seq<char>, delim: char, escape: Escape)
    requires
        delim != '\\',
        forall|i: int| 0 <= i < text.len() ==> text[i] != delim && text[i] != '\\',
    ensures
        raw_until(text + seq![delim] + after, delim, escape) == (RawSpan {
            text,
            closed: true,
            rest: after,
        }),
    decreases text.len(),
{
    let s = text + seq![delim] + after;
    if text.len() == 0 {
        assert(s.skip(1) =~= after);
        assert(text =~= Seq::<char>::empty());
    } else {
        let shorter = text.skip(1);
        lemma_raw_until_plain(shorter, after, delim, escape);
        assert(s.skip(1) =~= shorter + seq![delim] + after);
        assert(s[0] == text[0]);
        assert(seq![text[0]] + shorter =~= text);
    }
}

/// A space, `#`, and a line that holds no backslash are one comment, and
/// the lexer goes on after the newline that ends the line.
pub proof fn lemma_comment_takes_line(line: Seq<char>, after: Seq<char>)
    requires
        forall|i: int| 0 <= i < line.len() ==> line[i] != '\n' && line[i] != '\\',
    ensures
        lex_token(seq![' ', '#'] + line + seq!['\n'] + after) == (Lexed {
            token: Ok(TokenModel::Comment),
            rest: after,
        }),
{
    let s = seq![' ', '#'] + line + seq!['\n'] + after;
    let body = seq!['#'] + line;
    assert(s.skip(1) =~= body + seq!['\n'] + after);
    assert forall|i: int| 0 <= i < body.len() implies body[i] != '\n' && body[i] != '\\' by {
        if i > 0 {
            assert(body[i] == line[i - 1]);
        }
    }
    lemma_raw_until_plain(body, after, '\n', Escape::Skip);
}

/// What the lexer yields on `s`, call by call, up to the end of the input.
/// An error can only come last: it takes the rest of the input.
pub open spec fn lex_stream(s: Seq<char>) -> Seq<Result<TokenModel, LexError>>
    decreases s.len(),
{
    if s.len() == 0 {
        Seq::empty()
    } else {
        proof {
            lemma_lex_token_rest(s);
        }
        seq![lex_token(s).token] + lex_stream(lex_token(s).rest)
    }
}

/// Whether `r` is the token of `step`, and `after` holds what `step` left.
pub open spec fn stepped(after: &OwnedCharBuffer, step: Lexed, r: Result<Token, LexError>) -> bool {
    &&& outcome(r) == step.token
    &&& after.pending() == step.rest
}

/// Adds to `word` what a backslash and `c` stand for.
fn push_escaped(word: &mut String, escape: Escape, delim: char, c: char)
    ensures
        final(word)@ == old(word)@ + escaped(escape, delim, c),
{
    match escape {
        Escape::Skip => {
            assert(word@ + Seq::<char>::empty() =~= word@);
        },
        Escape::Delimiter => {
            if c != delim {
                word.push('\\');
            }
            word.push(delim);
            assert(word@ =~= old(word)@ + escaped(escape, delim, c));
        },
        Escape::Keep => {
            if c != delim {
                word.push('\\');
            }
            word.push(c);
            assert(word@ =~= old(word)@ + escaped(escape, delim, c));
        },
    }
}

/// Reads characters up to the first `delim` that no backslash precedes,
/// and takes that delimiter too. With `must`, a span that the input ends
/// before closing is `None`; without, it is the text read so far.
pub fn read_raw_until(chars: &mut OwnedCharBuffer, delim: char, escape: Escape, must: bool) -> (text:
    Option<String>)
    ensures
        final(chars).pending() == raw_until(old(chars).pending(), delim, escape).rest,
        match text {
            Some(t) => t@ == raw_until(old(chars).pending(), delim, escape).text && (raw_until(
                old(chars).pending(),
                delim,
                escape,
            ).closed || !must),
            None => must && !raw_until(old(chars).pending(), delim, escape).closed,
        },
{
    let mut word = String::new();
    let ghost whole = raw_until(chars.pending(), delim, escape);
    assert(word@ + whole.text =~= whole.text);
    loop
        invariant
            whole == raw_until(old(chars).pending(), delim, escape),
            whole.text == word@ + raw_until(chars.pending(), delim, escape).text,
            whole.closed == raw_until(chars.pending(), delim, escape).closed,
            whole.rest == raw_until(chars.pending(), delim, escape).rest,
        decreases chars.pending().len(),
    {
        let ghost here = chars.pending();
        match chars.next() {
            None => {
                assert(word@ + Seq::<char>::empty() =~= word@);
                return if must {
                    None
                } else {
                    Some(word)
                };
            },
            Some(c) => {
                if c == '\\' {
                    match chars.next() {
                        Some(e) => {
                            let ghost after = raw_until(here.skip(2), delim, escape);
                            assert(here.skip(1).skip(1) =~= here.skip(2));
                            assert(word@ + (escaped(escape, delim, e) + after.text) =~= (word@
                                + escaped(escape, delim, e)) + after.text);
                            push_escaped(&mut word, escape, delim, e);
                        },
                        None => {
                            assert(word@ + seq!['\\'] =~= word@.push('\\'));
                            word.push('\\');
                            assert(word@ + Seq::<char>::empty() =~= word@);
                        },
                    }
                } else if c == delim {
                    assert(word@ + Seq::<char>::empty() =~= word@);
                    return Some(word);
                } else {
                    let ghost after = raw_until(here.skip(1), delim, escape);
                    assert(word@ + (seq![c] + after.text) =~= word@.push(c) + after.text);
                    word.push(c);
                }
            },
        }
    }
}

/// After a space was taken: reads a comment where `#` follows.
pub fn read_space(chars: &mut OwnedCharBuffer) -> (token: Token)
    ensures
        token@ == lex_space(old(chars).pending()).token->Ok_0,
        final(chars).pending() == lex_space(old(chars).pending()).rest,
{
    match chars.peek() {
        Some('#') => {
            let _ = read_raw_until(chars, '\n', Escape::Skip, false);
            Token::Comment
        },
        _ => Token::Space,
    }
}

/// Reads a command substitution that `delim` must close.
fn read_sub(chars: &mut OwnedCharBuffer, delim: char) -> (token: Result<Token, LexError>)
    ensures
        stepped(final(chars), lex_sub(old(chars).pending(), delim), token),
{
    match read_raw_until(chars, delim, Escape::Delimiter, true) {
        Some(text) => Ok(Token::Sub(text)),
        None => Err(LexError::UnclosedSub),
    }
}

/// After a backtick was taken: reads the raw source up to the closing one.
pub fn read_backtick(chars: &mut OwnedCharBuffer) -> (token: Result<Token, LexError>)
    ensures
        stepped(final(chars), lex_backtick(old(chars).pending()), token),
{
    read_sub(chars, '`')
}

/// After `$` was taken: reads a `$(...)` span where `(` follows.
pub fn read_doller(chars: &mut OwnedCharBuffer) -> (token: Result<Token, LexError>)
    ensures
        stepped(final(chars), lex_doller(old(chars).pending()), token),
{
    match chars.peek() {
        Some('(') => {
            let _ = chars.next();
            read_sub(chars, ')')
        },
        _ => Ok(Token::Doller),
    }
}

/// After `c` was taken: reads the run of ordinary characters that it
/// starts.
fn read_run(chars: &mut OwnedCharBuffer, c: char, quoted: bool) -> (token: Token)
    ensures
        token@ == lex_run(c, old(chars).pending(), quoted).token->Ok_0,
        final(chars).pending() == lex_run(c, old(chars).pending(), quoted).rest,
{
    let mut s = String::new();
    s.push(c);
    let ghost start = chars.pending();
    let ghost mut k: int = 0;
    assert(s@ =~= seq![c] + start.take(0));
    assert(start.skip(0) =~= start);
    loop
        invariant
            0 <= k <= start.len(),
            s@ == seq![c] + start.take(k),
            chars.pending() == start.skip(k),
            run_len(start, quoted) == k + run_len(start.skip(k), quoted),
        ensures
            k == run_len(start, quoted),
            s@ == seq![c] + start.take(k),
            chars.pending() == start.skip(k),
        decreases start.len() - k,
    {
        match chars.peek() {
            None => {
                break ;
            },
            Some(n) => {
                if special(n) || (quoted && n == '\\') {
                    break ;
                }
                let _ = chars.next();
                s.push(n);
                proof {
                    assert(start.skip(k).skip(1) =~= start.skip(k + 1));
                    assert(start.take(k).push(n) =~= start.take(k + 1));
                    assert((seq![c] + start.take(k)).push(n) =~= seq![c] + start.take(k + 1));
                    k = k + 1;
                }
            },
        }
    }
    Token::Ident(s)
}

/// After `c` was taken: reads the identifier that it starts, up to the
/// next special character.
pub fn read_ident(chars: &mut OwnedCharBuffer, c: char) -> (token: Token)
    ensures
        token@ == lex_ident(c, old(chars).pending()).token->Ok_0,
        final(chars).pending() == lex_ident(c, old(chars).pending()).rest,
{
    read_run(chars, c, false)
}

/// After a backslash was taken inside double quotes: reads what it
/// escapes.
pub fn read_escape(chars: &mut OwnedCharBuffer) -> (token: Token)
    ensures
        token@ == lex_escape(old(chars).pending()).token->Ok_0,
        final(chars).pending() == lex_escape(old(chars).pending()).rest,
{
    let mut s = String::new();
    match chars.next() {
        Some('n') => {
            s.push('\n');
        },
        Some('\\') => {
            s.push('\\');
        },
        Some(c) => {
            s.push('\\');
            s.push(c);
        },
        None => {
            s.push('\\');
        },
    }
    assert(s@ =~= lex_escape(old(chars).pending()).token->Ok_0->Ident_0);
    Token::Ident(s)
}

/// After `'` was taken: reads the literal text up to the closing quote.
pub fn read_single_quotes(chars: &mut OwnedCharBuffer) -> (token: Result<Token, LexError>)
    ensures
        stepped(final(chars), lex_single_quotes(old(chars).pending()), token),
{
    match read_raw_until(chars, '\'', Escape::Keep, true) {
        Some(text) => Ok(Token::SingleQuote(text)),
        None => Err(LexError::UnclosedSingleQuote),
    }
}

/// `first` put before the tokens of `after`, where there are any.
pub open spec fn prepend(first: Seq<TokenModel>, after: Result<Seq<TokenModel>, LexError>) -> Result<
    Seq<TokenModel>,
    LexError,
> {
    match after {
        Ok(tokens) => Ok(first + tokens),
        Err(e) => Err(e),
    }
}

/// After `"` was taken: reads the nested tokens up to the closing quote.
pub fn read_double_quotes(chars: &mut OwnedCharBuffer) -> (token: Result<Token, LexError>)
    ensures
        stepped(final(chars), lex_double_quotes(old(chars).pending()), token),
{
    let mut v: Vec<Token> = Vec::new();
    let ghost whole = quoted(chars.pending());
    assert(models(v@) =~= Seq::<TokenModel>::empty());
    assert(prepend(models(v@), whole.inner) == whole.inner) by {
        if let Ok(tokens) = whole.inner {
            assert(models(v@) + tokens =~= tokens);
        }
    }
    loop
        invariant
            whole == quoted(old(chars).pending()),
            whole.inner == prepend(models(v@), quoted(chars.pending()).inner),
            whole.rest == quoted(chars.pending()).rest,
        decreases chars.pending().len(),
    {
        let ghost here = chars.pending();
        let ghost before = models(v@);
        let nested = match chars.next() {
            None => {
                return Err(LexError::UnclosedDoubleQuote);
            },
            Some('"') => {
                assert(before + Seq::<TokenModel>::empty() =~= before);
                return Ok(Token::DoubleQuote(v));
            },
            Some('\\') => Ok(read_escape(chars)),
            Some('$') => read_doller(chars),
            Some(c) => Ok(read_run(chars, c, true)),
        };
        proof {
            lemma_nested_rest(here);
        }
        match nested {
            Err(e) => {
                return Err(e);
            },
            Ok(token) => {
                let ghost after = quoted(chars.pending()).inner;
                v.push(token);
                assert(models(v@) =~= before.push(token@));
                assert(prepend(before, prepend(seq![token@], after)) == prepend(
                    models(v@),
                    after,
                )) by {
                    if let Ok(tokens) = after {
                        assert(before + (seq![token@] + tokens) =~= before.push(token@) + tokens);
                    }
                }
            },
        }
    }
}

/// The token that `c` is by itself, where it is punctuation.
pub fn punctuation_token(c: char) -> (token: Option<Token>)
    ensures
        match token {
            Some(t) => punctuation(c) == Some(t@),
            None => punctuation(c) is None,
        },
{
    match c {
        '#' => Some(Token::Pound),
        '|' => Some(Token::Pipe),
        '>' => Some(Token::RightArrow),
        '<' => Some(Token::LeftArrow),
        '!' => Some(Token::Bang),
        '(' => Some(Token::OpenParen),
        ')' => Some(Token::CloseParen),
        '*' => Some(Token::Glob),
        '{' => Some(Token::OpenBracket),
        '}' => Some(Token::CloseBracket),
        '~' => Some(Token::Tilde),
        '=' => Some(Token::Equal),
        '%' => Some(Token::Percent),
        '&' => Some(Token::Amp),
        '?' => Some(Token::Huh),
        ';' => Some(Token::SemiColon),
        '\t' => Some(Token::Tab),
        '\n' => Some(Token::Newline),
        _ => None,
    }
}

/// Reads one token from the front of `chars`: `None` at the end of the
/// input, and only there; an error where a quoted span or a command
/// substitution is not closed, which takes the rest of the input.
pub fn next_token(chars: &mut OwnedCharBuffer) -> (token: Option<Result<Token, LexError>>)
    ensures
        match token {
            None => old(chars).pending().len() == 0 && final(chars).pending()
                == old(chars).pending(),
            Some(r) => old(chars).pending().len() > 0 && stepped(
                final(chars),
                lex_token(old(chars).pending()),
                r,
            ),
        },
{
    match chars.next() {
        None => None,
        Some('"') => Some(read_double_quotes(chars)),
        Some('\'') => Some(read_single_quotes(chars)),
        Some('$') => Some(read_doller(chars)),
        Some('`') => Some(read_backtick(chars)),
        Some(' ') => Some(Ok(read_space(chars))),
        Some(c) => match punctuation_token(c) {
            Some(token) => Some(Ok(token)),
            None => Some(Ok(read_ident(chars, c))),
        },
    }
}

/// The lexer over an owned text: each call of `next` reads one token.
pub struct Lexer {
    chars: OwnedCharBuffer,
}

impl Lexer {
    /// The characters not yet read.
    pub closed spec fn source(&self) -> Seq<char> {
        self.chars.pending()
    }

    /// A lexer at the front of `input`.
    pub fn new(input: OwnedCharBuffer) -> (lexer: Lexer)
        ensures
            lexer.source() == input.pending(),
    {
        Lexer { chars: input }
    }

    /// Reads the next token: `None` at the end of the input, and only
    /// there; an error where a quoted span or a command substitution is not
    /// closed, which takes the rest of the input.
    pub fn next(&mut self) -> (token: Option<Result<Token, LexError>>)
        ensures
            match token {
                None => old(self).source().len() == 0 && final(self).source() == old(self).source(),
                Some(r) => old(self).source().len() > 0 && outcome(r) == lex_token(
                    old(self).source(),
                ).token && final(self).source() == lex_token(old(self).source()).rest,
            },
    {
        next_token(&mut self.chars)
    }
}

impl TokenSource for Lexer {
    open spec fn pending(&self) -> Seq<Result<TokenModel, LexError>> {
        lex_stream(self.source())
    }

    fn next(&mut self) -> (token: Option<Result<Token, LexError>>) {
        let token = Lexer::next(self);
        proof {
            let s = old(self).source();
            if s.len() > 0 {
                assert((seq![lex_token(s).token] + lex_stream(lex_token(s).rest)).skip(1)
                    =~= lex_stream(lex_token(s).rest));
            }
        }
        token
    }
}

} // verus!
