//! Tokens of the configuration language, their spec-level shadow, and the
//! reconstruction of a token's source literal.

use vstd::prelude::*;

use crate::transition_table::Input;
use crate::transition_table::spec_char_to_input;

verus! {

/// One token of the configuration language. Tokens are plain values, owned by
/// whoever consumes the sequence.
#[derive(Debug, Clone, PartialEq)]
pub enum Token {
    /// An unquoted word in block-header position: one of the recognized
    /// block-type keywords.
    BlockType(String),
    /// A dot-prefixed qualifier after a block type; the leading dot is
    /// trimmed.
    SubBlockType(String),
    /// A double-quoted, whitespace-tolerant block name; the quotes are
    /// trimmed.
    BlockIdentifier(String),
    /// An unquoted word that is not a block-type keyword: a field name or a
    /// bare value.
    Identifier(String),
    /// A single-digit marker; `1` means enabled, any other digit disabled.
    Flag(bool),
    /// A backtick-delimited, multi-line, backslash-escapable literal; the
    /// backticks and the escape backslashes are trimmed.
    StringValue(String),
    LeftBrace,
    RightBrace,
    EndOfInput,
    /// An input sequence that matches no transition from its current state;
    /// carries the offending literal.
    Illegal(String),
}

/// Spec-level shadow of a token, over character sequences.
pub enum TokenView {
    BlockType(Seq<char>),
    SubBlockType(Seq<char>),
    BlockIdentifier(Seq<char>),
    Identifier(Seq<char>),
    Flag(bool),
    StringValue(Seq<char>),
    LeftBrace,
    RightBrace,
    EndOfInput,
    Illegal(Seq<char>),
}

impl View for Token {
    type V = TokenView;

    open spec fn view(&self) -> TokenView {
        match self {
            Token::BlockType(s) => TokenView::BlockType(s@),
            Token::SubBlockType(s) => TokenView::SubBlockType(s@),
            Token::BlockIdentifier(s) => TokenView::BlockIdentifier(s@),
            Token::Identifier(s) => TokenView::Identifier(s@),
            Token::Flag(b) => TokenView::Flag(*b),
            Token::StringValue(s) => TokenView::StringValue(s@),
            Token::LeftBrace => TokenView::LeftBrace,
            Token::RightBrace => TokenView::RightBrace,
            Token::EndOfInput => TokenView::EndOfInput,
            Token::Illegal(s) => TokenView::Illegal(s@),
        }
    }
}

/// The recognized block-type keywords.
pub open spec fn is_block_keyword(s: Seq<char>) -> bool {
    ||| s == "collection"@
    ||| s == "environment"@
    ||| s == "request"@
    ||| s == "folder"@
    ||| s == "headers"@
    ||| s == "queries"@
    ||| s == "body"@
    ||| s == "variables"@
}

/// The token an unquoted word maps to: a block type if it is one of the
/// recognized keywords, a plain identifier otherwise.
pub open spec fn spec_keyword_token(s: Seq<char>) -> TokenView {
    if is_block_keyword(s) {
        TokenView::BlockType(s)
    } else {
        TokenView::Identifier(s)
    }
}

/// A character that may continue an unquoted identifier: a letter, hyphen,
/// underscore or digit.
pub open spec fn is_id_char(c: char) -> bool {
    ||| spec_char_to_input(c) == Input::Character
    ||| spec_char_to_input(c) == Input::Phiten
    ||| spec_char_to_input(c) == Input::Underscore
    ||| spec_char_to_input(c) == Input::Digit
}

/// The shape of an unquoted identifier: nonempty, starting with a letter or
/// an underscore, continuing with identifier characters.
pub open spec fn id_shape(s: Seq<char>) -> bool {
    &&& s.len() > 0
    &&& (spec_char_to_input(s[0]) == Input::Character || spec_char_to_input(s[0])
        == Input::Underscore)
    &&& forall|k: int| 0 <= k < s.len() ==> is_id_char(#[trigger] s[k])
}

/// The tokens the tokenizer itself can produce, by kind: exactly those for
/// which reconstructing the source literal and re-lexing gives the token back.
pub open spec fn wf_lexable(t: TokenView) -> bool {
    match t {
        TokenView::BlockType(s) => id_shape(s) && is_block_keyword(s),
        TokenView::Identifier(s) => id_shape(s) && !is_block_keyword(s),
        TokenView::SubBlockType(s) => forall|k: int| 0 <= k < s.len() ==> is_id_char(#[trigger] s[k]),
        TokenView::BlockIdentifier(s) => forall|k: int|
            0 <= k < s.len() ==> spec_char_to_input(#[trigger] s[k]) != Input::DoubleQuote
                && spec_char_to_input(s[k]) != Input::EOF,
        TokenView::StringValue(s) => forall|k: int|
            0 <= k < s.len() ==> spec_char_to_input(#[trigger] s[k]) != Input::EOF,
        TokenView::Flag(_) => true,
        TokenView::LeftBrace => true,
        TokenView::RightBrace => true,
        TokenView::EndOfInput => false,
        TokenView::Illegal(_) => false,
    }
}

/// Reinserts the escape backslashes of a string value: each backtick or
/// backslash in the text is preceded by a backslash in the literal.
pub open spec fn escape_string(s: Seq<char>) -> Seq<char>
    decreases s.len(),
{
    if s.len() == 0 {
        Seq::empty()
    } else if s[0] == '`' || s[0] == '\\' {
        seq!['\\', s[0]] + escape_string(s.skip(1))
    } else {
        seq![s[0]] + escape_string(s.skip(1))
    }
}

/// Removes the escape backslashes of a string literal: a backslash
/// unconditionally escapes the following character, whatever it is; a lone
/// trailing backslash escapes nothing and is dropped.
pub open spec fn unescape_string(s: Seq<char>) -> Seq<char>
    decreases s.len(),
{
    if s.len() == 0 {
        Seq::empty()
    } else if s[0] == '\\' {
        if s.len() == 1 {
            Seq::empty()
        } else {
            seq![s[1]] + unescape_string(s.skip(2))
        }
    } else {
        seq![s[0]] + unescape_string(s.skip(1))
    }
}

/// The source literal of a token, with its structural delimiters restored:
/// the leading dot of a sub-block type, the quotes of a block identifier, the
/// backticks and escape backslashes of a string value.
pub open spec fn spec_restore(t: TokenView) -> Seq<char> {
    match t {
        TokenView::BlockType(s) => s,
        TokenView::Identifier(s) => s,
        TokenView::SubBlockType(s) => seq!['.'] + s,
        TokenView::BlockIdentifier(s) => seq!['"'] + s + seq!['"'],
        TokenView::StringValue(s) => seq!['`'] + escape_string(s) + seq!['`'],
        TokenView::Flag(b) => seq![if b { '1' } else { '0' }],
        TokenView::LeftBrace => seq!['{'],
        TokenView::RightBrace => seq!['}'],
        TokenView::EndOfInput => Seq::empty(),
        TokenView::Illegal(s) => s,
    }
}

impl Token {
    /// An owned copy of the token.
    pub fn duplicate(&self) -> (r: Token)
        ensures
            r@ == self@,
    {
        match self {
            Token::BlockType(s) => Token::BlockType(s.clone()),
            Token::SubBlockType(s) => Token::SubBlockType(s.clone()),
            Token::BlockIdentifier(s) => Token::BlockIdentifier(s.clone()),
            Token::Identifier(s) => Token::Identifier(s.clone()),
            Token::Flag(b) => Token::Flag(*b),
            Token::StringValue(s) => Token::StringValue(s.clone()),
            Token::LeftBrace => Token::LeftBrace,
            Token::RightBrace => Token::RightBrace,
            Token::EndOfInput => Token::EndOfInput,
            Token::Illegal(s) => Token::Illegal(s.clone()),
        }
    }
}

/// Compares a string with a literal.
pub(crate) fn str_eq(a: &String, b: &str) -> (r: bool)
    ensures
        r == (a@ == b@),
{
    let bs: String = b.to_owned();
    *a == bs
}

/// Maps an unquoted word to a block-type token if it is one of the recognized
/// keywords, and to a plain identifier token otherwise.
pub fn match_ident_to_keyword(ident: String) -> (t: Token)
    ensures
        t@ == spec_keyword_token(ident@),
{
    if str_eq(&ident, "collection") || str_eq(&ident, "environment") || str_eq(&ident, "request")
        || str_eq(&ident, "folder") || str_eq(&ident, "headers") || str_eq(&ident, "queries")
        || str_eq(&ident, "body") || str_eq(&ident, "variables") {
        Token::BlockType(ident)
    } else {
        Token::Identifier(ident)
    }
}

} // verus!
