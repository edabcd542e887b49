//! Tokens: the lexical units of a command line, their mathematical model,
//! and the text each one is written as.

use vstd::prelude::*;
use vstd::string::StringExecFns;
use crate::error::TokenError;

verus! {

/// One lexical unit of the input.
#[derive(Debug, PartialEq, Eq, Hash)]
pub enum Token {
    /// `|`
    Pipe,
    /// A space directly followed by `#`, and the rest of that line.
    Comment,
    /// `&`
    Amp,
    /// `;`
    SemiColon,
    /// `<`
    LeftArrow,
    /// `>`
    RightArrow,
    /// `(`
    OpenParen,
    /// `)`
    CloseParen,
    /// `$`
    Doller,
    /// `"..."`: the nested tokens of a double-quoted span.
    DoubleQuote(Vec<Token>),
    /// `'...'`: literal text.
    SingleQuote(String),
    /// ` `
    Space,
    /// `\t`
    Tab,
    /// `\n`
    Newline,
    /// `*`
    Glob,
    /// `?`
    Huh,
    /// `{`
    OpenBracket,
    /// `}`
    CloseBracket,
    /// `#`
    Pound,
    /// `!`
    Bang,
    /// `~`
    Tilde,
    /// `=`
    Equal,
    /// `%`
    Percent,
    /// An unquoted run of ordinary characters.
    Ident(String),
    /// The raw source of a `$(...)` or backtick span, not lexed further.
    Sub(String),
}

/// What a [`Token`] is, over mathematical sequences.
pub enum TokenModel {
    Pipe,
    Comment,
    Amp,
    SemiColon,
    LeftArrow,
    RightArrow,
    OpenParen,
    CloseParen,
    Doller,
    DoubleQuote(Seq<TokenModel>),
    SingleQuote(Seq<char>),
    Space,
    Tab,
    Newline,
    Glob,
    Huh,
    OpenBracket,
    CloseBracket,
    Pound,
    Bang,
    Tilde,
    Equal,
    Percent,
    Ident(Seq<char>),
    Sub(Seq<char>),
}

impl View for Token {
    type V = TokenModel;

    open spec fn view(&self) -> TokenModel
        decreases self,
    {
        match self {
            Token::Pipe => TokenModel::Pipe,
            Token::Comment => TokenModel::Comment,
            Token::Amp => TokenModel::Amp,
            Token::SemiColon => TokenModel::SemiColon,
            Token::LeftArrow => TokenModel::LeftArrow,
            Token::RightArrow => TokenModel::RightArrow,
            Token::OpenParen => TokenModel::OpenParen,
            Token::CloseParen => TokenModel::CloseParen,
            Token::Doller => TokenModel::Doller,
            Token::DoubleQuote(v) => TokenModel::DoubleQuote(models(v@)),
            Token::SingleQuote(s) => TokenModel::SingleQuote(s@),
            Token::Space => TokenModel::Space,
            Token::Tab => TokenModel::Tab,
            Token::Newline => TokenModel::Newline,
            Token::Glob => TokenModel::Glob,
            Token::Huh => TokenModel::Huh,
            Token::OpenBracket => TokenModel::OpenBracket,
            Token::CloseBracket => TokenModel::CloseBracket,
            Token::Pound => TokenModel::Pound,
            Token::Bang => TokenModel::Bang,
            Token::Tilde => TokenModel::Tilde,
            Token::Equal => TokenModel::Equal,
            Token::Percent => TokenModel::Percent,
            Token::Ident(s) => TokenModel::Ident(s@),
            Token::Sub(s) => TokenModel::Sub(s@),
        }
    }
}

/// The models of a sequence of tokens, item by item.
pub open spec fn models(tokens: Seq<Token>) -> Seq<TokenModel>
    decreases tokens,
{
    Seq::new(
        tokens.len(),
        |i: int|
            if 0 <= i < tokens.len() {
                tokens[i].view()
            } else {
                TokenModel::Space
            },
    )
}

/// The text a token is written as.
pub open spec fn render(token: TokenModel) -> Seq<char>
    decreases token,
{
    match token {
        TokenModel::Pipe => seq!['|'],
        TokenModel::Comment => seq![' ', '#', ' ', '<', 'c', 'o', 'm', 'm', 'e', 'n', 't', '>'],
        TokenModel::Amp => seq!['&'],
        TokenModel::SemiColon => seq![';'],
        TokenModel::LeftArrow => seq!['<'],
        TokenModel::RightArrow => seq!['>'],
        TokenModel::OpenParen => seq!['('],
        TokenModel::CloseParen => seq![')'],
        TokenModel::Doller => seq!['$'],
        TokenModel::DoubleQuote(inner) => seq!['"'] + render_all(inner) + seq!['"'],
        TokenModel::SingleQuote(text) => seq!['\''] + text + seq!['\''],
        TokenModel::Space => seq![' '],
        TokenModel::Tab => seq!['\t'],
        TokenModel::Newline => seq!['\n'],
        TokenModel::Glob => seq!['*'],
        TokenModel::Huh => seq!['?'],
        TokenModel::OpenBracket => seq!['{'],
        TokenModel::CloseBracket => seq!['}'],
        TokenModel::Pound => seq!['#'],
        TokenModel::Bang => seq!['!'],
        TokenModel::Tilde => seq!['~'],
        TokenModel::Equal => seq!['='],
        TokenModel::Percent => seq!['%'],
        TokenModel::Ident(text) => text,
        TokenModel::Sub(text) => seq!['$', '('] + text + seq![')'],
    }
}

/// The text of a sequence of tokens: the text of each, in order.
pub open spec fn render_all(tokens: Seq<TokenModel>) -> Seq<char>
    decreases tokens,
{
    if tokens.len() == 0 {
        Seq::empty()
    } else {
        render(tokens[0]) + render_all(tokens.skip(1))
    }
}

/// The text of a sequence with one more token is the text of the sequence
/// and then that of the token.
pub proof fn lemma_render_all_push(tokens: Seq<TokenModel>, token: TokenModel)
    ensures
        render_all(tokens.push(token)) == render_all(tokens) + render(token),
    decreases tokens.len(),
{
    let longer = tokens.push(token);
    if tokens.len() == 0 {
        assert(longer.skip(1) =~= Seq::<TokenModel>::empty());
        assert(render_all(longer.skip(1)) =~= Seq::<char>::empty());
        assert(longer[0] == token);
        assert(render_all(longer) =~= render(token));
        assert(render_all(tokens) + render(token) =~= render(token));
    } else {
        lemma_render_all_push(tokens.skip(1), token);
        assert(longer.skip(1) =~= tokens.skip(1).push(token));
        assert(render(tokens[0]) + (render_all(tokens.skip(1)) + render(token)) =~= (render(
            tokens[0],
        ) + render_all(tokens.skip(1))) + render(token));
    }
}

impl Token {
    /// The text this token is written as.
    #[verifier::loop_isolation(false)]
    pub fn to_string(&self) -> (text: String)
        ensures
            text@ == render(self@),
        decreases self,
    {
        let mut text = String::new();
        match self {
            Token::Pipe => text.push('|'),
            Token::Comment => {
                text.append(" # <comment>");
                proof {
                    reveal_strlit(" # <comment>");
                }
            },
            Token::Amp => text.push('&'),
            Token::SemiColon => text.push(';'),
            Token::LeftArrow => text.push('<'),
            Token::RightArrow => text.push('>'),
            Token::OpenParen => text.push('('),
            Token::CloseParen => text.push(')'),
            Token::Doller => text.push('$'),
            Token::DoubleQuote(v) => {
                text.push('"');
                let mut i: usize = 0;
                while i < v.len()
                    invariant
                        i <= v.len(),
                        text@ == seq!['"'] + render_all(models(v@).take(i as int)),
                    decreases v.len() - i,
                {
                    assert(0 <= i < v.len());
                    let part = v[i].to_string();
                    text.append(part.as_str());
                    proof {
                        let all = models(v@);
                        lemma_render_all_push(all.take(i as int), v@[i as int]@);
                        assert(all.take(i + 1) =~= all.take(i as int).push(v@[i as int]@));
                        assert(seq!['"'] + (render_all(all.take(i as int)) + part@) =~= (seq!['"']
                            + render_all(all.take(i as int))) + part@);
                    }
                    i += 1;
                }
                assert(models(v@).take(v.len() as int) =~= models(v@));
                text.push('"');
            },
            Token::SingleQuote(s) => {
                text.push('\'');
                text.append(s.as_str());
                text.push('\'');
            },
            Token::Space => text.push(' '),
            Token::Tab => text.push('\t'),
            Token::Newline => text.push('\n'),
            Token::Glob => text.push('*'),
            Token::Huh => text.push('?'),
            Token::OpenBracket => text.push('{'),
            Token::CloseBracket => text.push('}'),
            Token::Pound => text.push('#'),
            Token::Bang => text.push('!'),
            Token::Tilde => text.push('~'),
            Token::Equal => text.push('='),
            Token::Percent => text.push('%'),
            Token::Ident(s) => text.append(s.as_str()),
            Token::Sub(s) => {
                text.push('$');
                text.push('(');
                text.append(s.as_str());
                text.push(')');
            },
        }
        assert(text@ =~= render(self@));
        text
    }

    /// The text of an identifier; any other token is handed back as the
    /// error.
    pub fn as_ident(self) -> (text: Result<String, TokenError>)
        ensures
            match self {
                Token::Ident(s) => text == Ok::<String, TokenError>(s),
                _ => text == Err::<String, TokenError>(TokenError::CoerceError(self)),
            },
    {
        match self {
            Token::Ident(s) => Ok(s),
            t => Err(TokenError::CoerceError(t)),
        }
    }
}

impl Clone for Token {
    /// A copy with the same model.
    #[verifier::loop_isolation(false)]
    fn clone(&self) -> (copy: Token)
        ensures
            copy@ == self@,
        decreases self,
    {
        match self {
            Token::Pipe => Token::Pipe,
            Token::Comment => Token::Comment,
            Token::Amp => Token::Amp,
            Token::SemiColon => Token::SemiColon,
            Token::LeftArrow => Token::LeftArrow,
            Token::RightArrow => Token::RightArrow,
            Token::OpenParen => Token::OpenParen,
            Token::CloseParen => Token::CloseParen,
            Token::Doller => Token::Doller,
            Token::DoubleQuote(v) => {
                let mut inner: Vec<Token> = Vec::new();
                let mut i: usize = 0;
                while i < v.len()
                    invariant
                        i <= v.len(),
                        inner@.len() == i,
                        forall|j: int| 0 <= j < i ==> inner@[j]@ == v@[j]@,
                    decreases v.len() - i,
                {
                    assert(0 <= i < v.len());
                    let t = v[i].clone();
                    inner.push(t);
                    i += 1;
                }
                assert(models(inner@) =~= models(v@));
                Token::DoubleQuote(inner)
            },
            Token::SingleQuote(s) => Token::SingleQuote(s.clone()),
            Token::Space => Token::Space,
            Token::Tab => Token::Tab,
            Token::Newline => Token::Newline,
            Token::Glob => Token::Glob,
            Token::Huh => Token::Huh,
            Token::OpenBracket => Token::OpenBracket,
            Token::CloseBracket => Token::CloseBracket,
            Token::Pound => Token::Pound,
            Token::Bang => Token::Bang,
            Token::Tilde => Token::Tilde,
            Token::Equal => Token::Equal,
            Token::Percent => Token::Percent,
            Token::Ident(s) => Token::Ident(s.clone()),
            Token::Sub(s) => Token::Sub(s.clone()),
        }
    }
}

} // verus!
