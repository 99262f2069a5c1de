//! The block parser and environment resolver: consumes the token sequence,
//! recognizes the flat block syntax, builds the document, and resolves
//! forward references from a collection's environment-activation field to a
//! possibly-later-declared environment block.
//!
//! The grammar's mathematical model is the `sp_` family of spec functions
//! over token views; the executable parser is proved against it, block by
//! block.

use vstd::prelude::*;

use rand::Rng;

use crate::api::Collection;
use crate::api::CollectionView;
use crate::lexer::Lexer;
use crate::lexer::spec_tokens_from;
use crate::parser::collect_tokens;
use crate::parser::views_of;
use crate::token::Token;
use crate::token::TokenView;
use crate::token::is_block_keyword;
use crate::token::str_eq;

verus! {

/// Why a parse failed; the first error anywhere aborts the whole parse.
#[derive(Debug, Clone, PartialEq)]
pub enum ParseError {
    /// A token invalid for the current grammar position; carries the
    /// offending token.
    UnexpectedToken(Token),
    /// The sequence ended while a block or field was still open.
    UnexpectedEndOfTokens,
    /// An unquoted word where a block type was expected.
    UnexpectedBlockKeyword,
    /// A field name outside the recognized set for its block.
    UnexpectedFieldKeyword,
}

/// Spec-level shadow of a parse error.
pub enum ParseErrorView {
    UnexpectedToken(TokenView),
    UnexpectedEndOfTokens,
    UnexpectedBlockKeyword,
    UnexpectedFieldKeyword,
}

impl View for ParseError {
    type V = ParseErrorView;

    open spec fn view(&self) -> ParseErrorView {
        match self {
            ParseError::UnexpectedToken(t) => ParseErrorView::UnexpectedToken(t@),
            ParseError::UnexpectedEndOfTokens => ParseErrorView::UnexpectedEndOfTokens,
            ParseError::UnexpectedBlockKeyword => ParseErrorView::UnexpectedBlockKeyword,
            ParseError::UnexpectedFieldKeyword => ParseErrorView::UnexpectedFieldKeyword,
        }
    }
}

/// The parser's spec-level state between tokens: the document built so far,
/// the single pending forward reference, and the names of the environments
/// declared so far.
#[verifier::ext_equal]
pub struct PSt {
    pub doc: CollectionView,
    pub pending_name: Seq<char>,
    pub pending_flag: bool,
    pub has_pending: bool,
    pub resolved: Set<Seq<char>>,
}

/// The state a parse starts from: an empty default document, nothing pending,
/// nothing resolved.
pub open spec fn initial_state() -> PSt {
    PSt {
        doc: CollectionView {
            identifier: Seq::empty(),
            name: "Untitled Collection"@,
            requests: Seq::empty(),
            enable_environment: false,
            active_environment: Seq::empty(),
            environments: Map::empty(),
        },
        pending_name: Seq::empty(),
        pending_flag: false,
        has_pending: false,
        resolved: Set::empty(),
    }
}

/// A value token: a bare identifier, a double-quoted special identifier, or a
/// backtick-delimited string.
pub open spec fn sp_value(ts: Seq<TokenView>, i: int) -> Result<Seq<char>, ParseErrorView> {
    if !(0 <= i < ts.len()) {
        Err(ParseErrorView::UnexpectedEndOfTokens)
    } else {
        match ts[i] {
            TokenView::Identifier(s) => Ok(s),
            TokenView::BlockIdentifier(s) => Ok(s),
            TokenView::StringValue(s) => Ok(s),
            TokenView::EndOfInput => Err(ParseErrorView::UnexpectedEndOfTokens),
            t => Err(ParseErrorView::UnexpectedToken(t)),
        }
    }
}

/// A flag token: the enabled state of a field or of an activation.
pub open spec fn sp_flag(ts: Seq<TokenView>, i: int) -> Result<bool, ParseErrorView> {
    if !(0 <= i < ts.len()) {
        Err(ParseErrorView::UnexpectedEndOfTokens)
    } else {
        match ts[i] {
            TokenView::Flag(b) => Ok(b),
            TokenView::EndOfInput => Err(ParseErrorView::UnexpectedEndOfTokens),
            t => Err(ParseErrorView::UnexpectedToken(t)),
        }
    }
}

/// A bare identifier token.
pub open spec fn sp_ident(ts: Seq<TokenView>, i: int) -> Result<Seq<char>, ParseErrorView> {
    if !(0 <= i < ts.len()) {
        Err(ParseErrorView::UnexpectedEndOfTokens)
    } else {
        match ts[i] {
            TokenView::Identifier(s) => Ok(s),
            TokenView::EndOfInput => Err(ParseErrorView::UnexpectedEndOfTokens),
            t => Err(ParseErrorView::UnexpectedToken(t)),
        }
    }
}

/// Applies a collection's environment-activation field: a reference to an
/// already-declared name selects it at once; any other reference replaces the
/// pending slot and disables activation until the name is declared.
pub open spec fn apply_activation(st: PSt, name: Seq<char>, flag: bool) -> PSt {
    if st.resolved.contains(name) {
        PSt {
            doc: CollectionView {
                active_environment: name,
                enable_environment: if flag {
                    true
                } else {
                    st.doc.enable_environment
                },
                ..st.doc
            },
            ..st
        }
    } else {
        PSt {
            doc: CollectionView { enable_environment: false, ..st.doc },
            pending_name: name,
            pending_flag: flag,
            has_pending: true,
            ..st
        }
    }
}

/// Declares an environment under a name: it appears in the mapping with no
/// entries yet and counts as resolved; if it matches the pending reference,
/// the cached flag is applied and the slot cleared.
pub open spec fn enter_env(st: PSt, name: Seq<char>) -> PSt {
    let doc1 = CollectionView {
        environments: st.doc.environments.insert(name, Map::empty()),
        ..st.doc
    };
    if st.has_pending && st.pending_name == name {
        PSt {
            doc: CollectionView {
                active_environment: name,
                enable_environment: if st.pending_flag {
                    true
                } else {
                    doc1.enable_environment
                },
                ..doc1
            },
            has_pending: false,
            resolved: st.resolved.insert(name),
            ..st
        }
    } else {
        PSt { doc: doc1, resolved: st.resolved.insert(name), ..st }
    }
}

/// Adds a key/value pair to a named environment of the document; a name the
/// mapping does not hold leaves it unchanged.
pub open spec fn env_insert(st: PSt, env: Seq<char>, key: Seq<char>, value: Seq<char>) -> PSt {
    if st.doc.environments.contains_key(env) {
        PSt {
            doc: CollectionView {
                environments: st.doc.environments.insert(
                    env,
                    st.doc.environments[env].insert(key, value),
                ),
                ..st.doc
            },
            ..st
        }
    } else {
        st
    }
}

/// One field of a collection block, its name already read: "name" sets the
/// document's name, "include" is recognized and discarded, anything else is
/// an error.
pub open spec fn sp_collection_field(ts: Seq<TokenView>, i: int, id: Seq<char>, st: PSt) -> Result<
    PSt,
    ParseErrorView,
> {
    if id == "name"@ {
        match sp_value(ts, i) {
            Ok(v) => Ok(PSt { doc: CollectionView { name: v, ..st.doc }, ..st }),
            Err(e) => Err(e),
        }
    } else if id == "include"@ {
        match sp_value(ts, i) {
            Ok(_) => Ok(st),
            Err(e) => Err(e),
        }
    } else {
        Err(ParseErrorView::UnexpectedFieldKeyword)
    }
}

/// The body of a collection block, up to and including its closing brace:
/// fields, and the environment-activation statement.
pub open spec fn sp_collection_body(ts: Seq<TokenView>, i: int, st: PSt) -> Result<
    (int, PSt),
    ParseErrorView,
>
    decreases ts.len() - i,
{
    if !(0 <= i < ts.len()) {
        Err(ParseErrorView::UnexpectedEndOfTokens)
    } else {
        match ts[i] {
            TokenView::RightBrace => Ok((i + 1, st)),
            TokenView::EndOfInput => Err(ParseErrorView::UnexpectedEndOfTokens),
            TokenView::Identifier(id) => match sp_collection_field(ts, i + 1, id, st) {
                Ok(st2) => sp_collection_body(ts, i + 2, st2),
                Err(e) => Err(e),
            },
            TokenView::BlockType(b) => if b == "environment"@ {
                match sp_flag(ts, i + 1) {
                    Ok(flag) => match sp_ident(ts, i + 2) {
                        Ok(name) => sp_collection_body(ts, i + 3, apply_activation(st, name, flag)),
                        Err(e) => Err(e),
                    },
                    Err(e) => Err(e),
                }
            } else {
                Err(ParseErrorView::UnexpectedToken(ts[i]))
            },
            t => Err(ParseErrorView::UnexpectedToken(t)),
        }
    }
}

/// A collection block after its keyword: an optional quoted identifier, then
/// a braced body. A second block-opening brace before the first is closed is
/// a structural error.
pub open spec fn sp_collection(ts: Seq<TokenView>, i: int, st: PSt) -> Result<
    (int, PSt),
    ParseErrorView,
> {
    if 0 <= i < ts.len() && (ts[i] is BlockIdentifier) {
        let st2 = PSt {
            doc: CollectionView { identifier: ts[i]->BlockIdentifier_0, ..st.doc },
            ..st
        };
        sp_collection_open(ts, i + 1, st2)
    } else {
        sp_collection_open(ts, i, st)
    }
}

/// The opening brace of a collection block.
pub open spec fn sp_collection_open(ts: Seq<TokenView>, i: int, st: PSt) -> Result<
    (int, PSt),
    ParseErrorView,
> {
    if !(0 <= i < ts.len()) {
        Err(ParseErrorView::UnexpectedEndOfTokens)
    } else {
        match ts[i] {
            TokenView::LeftBrace => sp_collection_body(ts, i + 1, st),
            TokenView::EndOfInput => Err(ParseErrorView::UnexpectedEndOfTokens),
            t => Err(ParseErrorView::UnexpectedToken(t)),
        }
    }
}

/// The body of an environment block: key/value entries, each with an optional
/// flag between key and value, up to and including the closing brace.
pub open spec fn sp_environment_body(ts: Seq<TokenView>, i: int, env: Seq<char>, st: PSt) -> Result<
    (int, PSt),
    ParseErrorView,
>
    decreases ts.len() - i,
{
    if !(0 <= i < ts.len()) {
        Err(ParseErrorView::UnexpectedEndOfTokens)
    } else {
        match ts[i] {
            TokenView::RightBrace => Ok((i + 1, st)),
            TokenView::EndOfInput => Err(ParseErrorView::UnexpectedEndOfTokens),
            TokenView::Identifier(key) => if i + 1 < ts.len() && (ts[i + 1] is Flag) {
                match sp_value(ts, i + 2) {
                    Ok(v) => sp_environment_body(ts, i + 3, env, env_insert(st, env, key, v)),
                    Err(e) => Err(e),
                }
            } else {
                match sp_value(ts, i + 1) {
                    Ok(v) => sp_environment_body(ts, i + 2, env, env_insert(st, env, key, v)),
                    Err(e) => Err(e),
                }
            },
            t => Err(ParseErrorView::UnexpectedToken(t)),
        }
    }
}

/// An environment block after its keyword: a quoted identifier names it; with
/// none it is anonymous and receives the next generated name. Either way it
/// is declared before its braced body is read.
pub open spec fn sp_environment(
    ts: Seq<TokenView>,
    i: int,
    st: PSt,
    names: Seq<Seq<char>>,
    used: int,
) -> Result<(int, PSt, int), ParseErrorView> {
    if 0 <= i < ts.len() && (ts[i] is BlockIdentifier) {
        let name = ts[i]->BlockIdentifier_0;
        let st2 = enter_env(st, name);
        match sp_environment_open(ts, i + 1, name, st2) {
            Ok((j, st3)) => Ok((j, st3, used)),
            Err(e) => Err(e),
        }
    } else {
        let name = names[used];
        let st2 = enter_env(st, name);
        match sp_environment_open(ts, i, name, st2) {
            Ok((j, st3)) => Ok((j, st3, used + 1)),
            Err(e) => Err(e),
        }
    }
}

/// The opening brace of an environment block.
pub open spec fn sp_environment_open(ts: Seq<TokenView>, i: int, env: Seq<char>, st: PSt) -> Result<
    (int, PSt),
    ParseErrorView,
> {
    if !(0 <= i < ts.len()) {
        Err(ParseErrorView::UnexpectedEndOfTokens)
    } else {
        match ts[i] {
            TokenView::LeftBrace => sp_environment_body(ts, i + 1, env, st),
            TokenView::EndOfInput => Err(ParseErrorView::UnexpectedEndOfTokens),
            t => Err(ParseErrorView::UnexpectedToken(t)),
        }
    }
}

/// The body of a recognized block the document does not represent: its
/// fields are read for well-formedness and discarded.
pub open spec fn sp_generic_body(ts: Seq<TokenView>, i: int, st: PSt) -> Result<
    (int, PSt),
    ParseErrorView,
>
    decreases ts.len() - i,
{
    if !(0 <= i < ts.len()) {
        Err(ParseErrorView::UnexpectedEndOfTokens)
    } else {
        match ts[i] {
            TokenView::RightBrace => Ok((i + 1, st)),
            TokenView::EndOfInput => Err(ParseErrorView::UnexpectedEndOfTokens),
            TokenView::Identifier(_) => if i + 1 < ts.len() && (ts[i + 1] is Flag) {
                match sp_value(ts, i + 2) {
                    Ok(_) => sp_generic_body(ts, i + 3, st),
                    Err(e) => Err(e),
                }
            } else {
                match sp_value(ts, i + 1) {
                    Ok(_) => sp_generic_body(ts, i + 2, st),
                    Err(e) => Err(e),
                }
            },
            t => Err(ParseErrorView::UnexpectedToken(t)),
        }
    }
}

/// A recognized block the document does not represent, after its keyword: an
/// optional sub-block-type qualifier, an optional quoted identifier, then a
/// braced body of discarded fields.
pub open spec fn sp_generic(ts: Seq<TokenView>, i: int, st: PSt) -> Result<
    (int, PSt),
    ParseErrorView,
> {
    if 0 <= i < ts.len() && (ts[i] is SubBlockType) {
        sp_generic_named(ts, i + 1, st)
    } else {
        sp_generic_named(ts, i, st)
    }
}

/// The optional quoted identifier of a generic block.
pub open spec fn sp_generic_named(ts: Seq<TokenView>, i: int, st: PSt) -> Result<
    (int, PSt),
    ParseErrorView,
> {
    if 0 <= i < ts.len() && (ts[i] is BlockIdentifier) {
        sp_generic_open(ts, i + 1, st)
    } else {
        sp_generic_open(ts, i, st)
    }
}

/// The opening brace of a generic block.
pub open spec fn sp_generic_open(ts: Seq<TokenView>, i: int, st: PSt) -> Result<
    (int, PSt),
    ParseErrorView,
> {
    if !(0 <= i < ts.len()) {
        Err(ParseErrorView::UnexpectedEndOfTokens)
    } else {
        match ts[i] {
            TokenView::LeftBrace => sp_generic_body(ts, i + 1, st),
            TokenView::EndOfInput => Err(ParseErrorView::UnexpectedEndOfTokens),
            t => Err(ParseErrorView::UnexpectedToken(t)),
        }
    }
}

/// The whole document: a sequence of blocks dispatched by their block-type
/// keyword, ending at the end-of-input token. The document built so far is
/// the result; the first error anywhere aborts the parse. The bound guards
/// keep the recursion well-founded; every block in fact advances.
pub open spec fn sp_top(
    ts: Seq<TokenView>,
    i: int,
    st: PSt,
    names: Seq<Seq<char>>,
    used: int,
) -> Result<CollectionView, ParseErrorView>
    decreases ts.len() - i,
{
    if !(0 <= i < ts.len()) {
        Ok(st.doc)
    } else {
        match ts[i] {
            TokenView::EndOfInput => Ok(st.doc),
            TokenView::BlockType(b) => if b == "collection"@ {
                match sp_collection(ts, i + 1, st) {
                    Ok((j, st2)) => if i < j <= ts.len() {
                        sp_top(ts, j, st2, names, used)
                    } else {
                        Ok(st2.doc)
                    },
                    Err(e) => Err(e),
                }
            } else if b == "environment"@ {
                match sp_environment(ts, i + 1, st, names, used) {
                    Ok((j, st2, used2)) => if i < j <= ts.len() {
                        sp_top(ts, j, st2, names, used2)
                    } else {
                        Ok(st2.doc)
                    },
                    Err(e) => Err(e),
                }
            } else if is_block_keyword(b) {
                match sp_generic(ts, i + 1, st) {
                    Ok((j, st2)) => if i < j <= ts.len() {
                        sp_top(ts, j, st2, names, used)
                    } else {
                        Ok(st2.doc)
                    },
                    Err(e) => Err(e),
                }
            } else {
                Err(ParseErrorView::UnexpectedBlockKeyword)
            },
            TokenView::Identifier(_) => Err(ParseErrorView::UnexpectedBlockKeyword),
            t => Err(ParseErrorView::UnexpectedToken(t)),
        }
    }
}

/// How many environment-block keywords a token sequence holds: an upper bound
/// on the generated names a parse of it can consume.
pub open spec fn spec_env_count(ts: Seq<TokenView>) -> int
    decreases ts.len(),
{
    if ts.len() == 0 {
        0int
    } else {
        spec_env_count(ts.drop_last()) + if ts.last() == TokenView::BlockType("environment"@) {
            1int
        } else {
            0int
        }
    }
}

/// The count over a prefix grows by the token added.
pub proof fn lemma_env_count_step(ts: Seq<TokenView>, i: int)
    requires
        0 <= i < ts.len(),
    ensures
        spec_env_count(ts.take(i + 1)) == spec_env_count(ts.take(i)) + if ts[i]
            == TokenView::BlockType("environment"@) {
            1int
        } else {
            0int
        },
{
    assert(ts.take(i + 1).drop_last() =~= ts.take(i));
    assert(ts.take(i + 1).last() == ts[i]);
}

/// The count never shrinks as the prefix grows.
pub proof fn lemma_env_count_mono(ts: Seq<TokenView>, a: int, b: int)
    requires
        0 <= a <= b <= ts.len(),
    ensures
        spec_env_count(ts.take(a)) <= spec_env_count(ts.take(b)),
    decreases b - a,
{
    if a < b {
        lemma_env_count_step(ts, b - 1);
        lemma_env_count_mono(ts, a, b - 1);
    }
}

/// Structural error: a closing brace with no matching open brace aborts the
/// parse at once, with the offending token and no document.
pub proof fn lemma_unmatched_right_brace(ts: Seq<TokenView>, names: Seq<Seq<char>>, used: int)
    requires
        ts.len() > 0,
        ts[0] == TokenView::RightBrace,
    ensures
        sp_top(ts, 0, initial_state(), names, used) == Err::<CollectionView, ParseErrorView>(
            ParseErrorView::UnexpectedToken(TokenView::RightBrace),
        ),
{
}

/// The document invariant the parser maintains: if activation is on, the
/// active-environment name keys an entry in the environment mapping, and
/// every name counted as resolved does too.
pub open spec fn st_inv(st: PSt) -> bool {
    &&& st.doc.enable_environment ==> st.doc.environments.contains_key(st.doc.active_environment)
    &&& forall|n: Seq<char>|
        #[trigger] st.resolved.contains(n) ==> st.doc.environments.contains_key(n)
}

/// The activation field preserves the document invariant.
proof fn lemma_inv_activation(st: PSt, name: Seq<char>, flag: bool)
    requires
        st_inv(st),
    ensures
        st_inv(apply_activation(st, name, flag)),
{
}

/// Declaring an environment preserves the document invariant.
proof fn lemma_inv_enter(st: PSt, name: Seq<char>)
    requires
        st_inv(st),
    ensures
        st_inv(enter_env(st, name)),
{
}

/// Adding an environment entry preserves the document invariant.
proof fn lemma_inv_env_insert(st: PSt, env: Seq<char>, key: Seq<char>, value: Seq<char>)
    requires
        st_inv(st),
    ensures
        st_inv(env_insert(st, env, key, value)),
{
}

/// A collection body preserves the document invariant.
proof fn lemma_inv_collection_body(ts: Seq<TokenView>, i: int, st: PSt)
    requires
        st_inv(st),
    ensures
        (sp_collection_body(ts, i, st) matches Ok((j, st2)) ==> st_inv(st2)),
    decreases ts.len() - i,
{
    if 0 <= i < ts.len() {
        match ts[i] {
            TokenView::Identifier(id) => match sp_collection_field(ts, i + 1, id, st) {
                Ok(st2) => {
                    assert(st_inv(st2));
                    lemma_inv_collection_body(ts, i + 2, st2);
                },
                Err(_) => {},
            },
            TokenView::BlockType(b) => if b == "environment"@ {
                match sp_flag(ts, i + 1) {
                    Ok(flag) => match sp_ident(ts, i + 2) {
                        Ok(name) => {
                            lemma_inv_activation(st, name, flag);
                            lemma_inv_collection_body(ts, i + 3, apply_activation(st, name, flag));
                        },
                        Err(_) => {},
                    },
                    Err(_) => {},
                }
            },
            _ => {},
        }
    }
}

/// An environment body preserves the document invariant.
proof fn lemma_inv_environment_body(ts: Seq<TokenView>, i: int, env: Seq<char>, st: PSt)
    requires
        st_inv(st),
    ensures
        (sp_environment_body(ts, i, env, st) matches Ok((j, st2)) ==> st_inv(st2)),
    decreases ts.len() - i,
{
    if 0 <= i < ts.len() {
        match ts[i] {
            TokenView::Identifier(key) => if i + 1 < ts.len() && (ts[i + 1] is Flag) {
                match sp_value(ts, i + 2) {
                    Ok(v) => {
                        lemma_inv_env_insert(st, env, key, v);
                        lemma_inv_environment_body(ts, i + 3, env, env_insert(st, env, key, v));
                    },
                    Err(_) => {},
                }
            } else {
                match sp_value(ts, i + 1) {
                    Ok(v) => {
                        lemma_inv_env_insert(st, env, key, v);
                        lemma_inv_environment_body(ts, i + 2, env, env_insert(st, env, key, v));
                    },
                    Err(_) => {},
                }
            },
            _ => {},
        }
    }
}

/// A generic body preserves the document invariant.
proof fn lemma_inv_generic_body(ts: Seq<TokenView>, i: int, st: PSt)
    requires
        st_inv(st),
    ensures
        (sp_generic_body(ts, i, st) matches Ok((j, st2)) ==> st_inv(st2)),
    decreases ts.len() - i,
{
    if 0 <= i < ts.len() {
        match ts[i] {
            TokenView::Identifier(_) => if i + 1 < ts.len() && (ts[i + 1] is Flag) {
                match sp_value(ts, i + 2) {
                    Ok(_) => {
                        lemma_inv_generic_body(ts, i + 3, st);
                    },
                    Err(_) => {},
                }
            } else {
                match sp_value(ts, i + 1) {
                    Ok(_) => {
                        lemma_inv_generic_body(ts, i + 2, st);
                    },
                    Err(_) => {},
                }
            },
            _ => {},
        }
    }
}

/// A whole collection block preserves the document invariant.
proof fn lemma_inv_collection(ts: Seq<TokenView>, i: int, st: PSt)
    requires
        st_inv(st),
    ensures
        (sp_collection(ts, i, st) matches Ok((j, st2)) ==> st_inv(st2)),
{
    if 0 <= i < ts.len() && (ts[i] is BlockIdentifier) {
        let st2 = PSt {
            doc: CollectionView { identifier: ts[i]->BlockIdentifier_0, ..st.doc },
            ..st
        };
        assert(st_inv(st2));
        if 0 <= i + 1 < ts.len() && ts[i + 1] == TokenView::LeftBrace {
            lemma_inv_collection_body(ts, i + 2, st2);
        }
    } else {
        if 0 <= i < ts.len() && ts[i] == TokenView::LeftBrace {
            lemma_inv_collection_body(ts, i + 1, st);
        }
    }
}

/// A whole environment block preserves the document invariant.
proof fn lemma_inv_environment(
    ts: Seq<TokenView>,
    i: int,
    st: PSt,
    names: Seq<Seq<char>>,
    used: int,
)
    requires
        st_inv(st),
    ensures
        (sp_environment(ts, i, st, names, used) matches Ok((j, st2, u2)) ==> st_inv(st2)),
{
    if 0 <= i < ts.len() && (ts[i] is BlockIdentifier) {
        let name = ts[i]->BlockIdentifier_0;
        lemma_inv_enter(st, name);
        if 0 <= i + 1 < ts.len() && ts[i + 1] == TokenView::LeftBrace {
            lemma_inv_environment_body(ts, i + 2, name, enter_env(st, name));
        }
    } else {
        let name = names[used];
        lemma_inv_enter(st, name);
        if 0 <= i < ts.len() && ts[i] == TokenView::LeftBrace {
            lemma_inv_environment_body(ts, i + 1, name, enter_env(st, name));
        }
    }
}

/// A whole generic block preserves the document invariant.
proof fn lemma_inv_generic(ts: Seq<TokenView>, i: int, st: PSt)
    requires
        st_inv(st),
    ensures
        (sp_generic(ts, i, st) matches Ok((j, st2)) ==> st_inv(st2)),
{
    let i1 = if 0 <= i < ts.len() && (ts[i] is SubBlockType) {
        i + 1
    } else {
        i
    };
    let i2 = if 0 <= i1 < ts.len() && (ts[i1] is BlockIdentifier) {
        i1 + 1
    } else {
        i1
    };
    if 0 <= i2 < ts.len() && ts[i2] == TokenView::LeftBrace {
        lemma_inv_generic_body(ts, i2 + 1, st);
    }
}

/// A document the parser hands out satisfies the invariant: once parsing
/// succeeds, if activation is on, the active-environment name keys an entry
/// in the environment mapping.
pub proof fn lemma_parse_invariant(
    ts: Seq<TokenView>,
    i: int,
    st: PSt,
    names: Seq<Seq<char>>,
    used: int,
)
    requires
        st_inv(st),
    ensures
        (sp_top(ts, i, st, names, used) matches Ok(doc) ==> (doc.enable_environment
            ==> doc.environments.contains_key(doc.active_environment))),
    decreases ts.len() - i,
{
    if 0 <= i < ts.len() {
        match ts[i] {
            TokenView::BlockType(b) => if b == "collection"@ {
                lemma_inv_collection(ts, i + 1, st);
                match sp_collection(ts, i + 1, st) {
                    Ok((j, st2)) => {
                        if i < j <= ts.len() {
                            lemma_parse_invariant(ts, j, st2, names, used);
                        }
                    },
                    Err(_) => {},
                }
            } else if b == "environment"@ {
                lemma_inv_environment(ts, i + 1, st, names, used);
                match sp_environment(ts, i + 1, st, names, used) {
                    Ok((j, st2, u2)) => {
                        if i < j <= ts.len() {
                            lemma_parse_invariant(ts, j, st2, names, u2);
                        }
                    },
                    Err(_) => {},
                }
            } else if is_block_keyword(b) {
                lemma_inv_generic(ts, i + 1, st);
                match sp_generic(ts, i + 1, st) {
                    Ok((j, st2)) => {
                        if i < j <= ts.len() {
                            lemma_parse_invariant(ts, j, st2, names, used);
                        }
                    },
                    Err(_) => {},
                }
            },
            _ => {},
        }
    }
}

/// A character a generated environment name may hold: an ASCII letter or
/// digit.
pub open spec fn is_generated_char(c: char) -> bool {
    ||| ('a' as u32) <= (c as u32) && (c as u32) <= ('z' as u32)
    ||| ('A' as u32) <= (c as u32) && (c as u32) <= ('Z' as u32)
    ||| ('0' as u32) <= (c as u32) && (c as u32) <= ('9' as u32)
}

/// The shape of a generated environment name: twelve alphanumeric characters.
pub open spec fn is_generated_name(s: Seq<char>) -> bool {
    s.len() == 12 && forall|k: int| 0 <= k < s.len() ==> is_generated_char(#[trigger] s[k])
}

/// Every name in a sequence has the generated shape.
pub open spec fn all_generated(names: Seq<Seq<char>>) -> bool {
    forall|k: int| 0 <= k < names.len() ==> is_generated_name(#[trigger] names[k])
}

/// The spec-level shadow of a vector of names.
pub open spec fn name_views(ns: Seq<String>) -> Seq<Seq<char>> {
    ns.map_values(|s: String| s@)
}

/// The set of names a vector of strings holds.
pub open spec fn names_set(ss: Seq<String>) -> Set<Seq<char>>
    decreases ss.len(),
{
    if ss.len() == 0 {
        Set::empty()
    } else {
        names_set(ss.drop_last()).insert(ss.last()@)
    }
}

/// A name is in the set exactly when some element holds it.
proof fn lemma_names_set_contains(ss: Seq<String>, x: Seq<char>)
    ensures
        names_set(ss).contains(x) <==> exists|i: int| 0 <= i < ss.len() && (#[trigger] ss[i])@ == x,
    decreases ss.len(),
{
    if ss.len() > 0 {
        lemma_names_set_contains(ss.drop_last(), x);
        if ss.last()@ == x {
            assert(ss[ss.len() - 1]@ == x);
        } else if names_set(ss).contains(x) {
            let i = choose|i: int| 0 <= i < ss.drop_last().len() && (#[trigger] ss.drop_last()[i])@
                == x;
            assert(ss[i]@ == x);
        } else {
            if exists|i: int| 0 <= i < ss.len() && (#[trigger] ss[i])@ == x {
                let i = choose|i: int| 0 <= i < ss.len() && (#[trigger] ss[i])@ == x;
                assert(i < ss.len() - 1);
                assert(ss.drop_last()[i]@ == x);
            }
        }
    }
}

/// The parser's working state: the single pending forward reference — its
/// environment name and cached flag — and the names of the environments
/// declared so far.
#[derive(Debug)]
pub struct CollectionParser {
    pending_resolutions: u32,
    pending_environment: String,
    resolved_environments: Vec<String>,
    env_status_cache: bool,
}

impl CollectionParser {
    /// The names of the environments declared so far in the running parse.
    pub closed spec fn resolved_set(&self) -> Set<Seq<char>> {
        names_set(self.resolved_environments@)
    }

    /// The parser's spec-level state around a document.
    pub closed spec fn st(&self, doc: CollectionView) -> PSt {
        PSt {
            doc,
            pending_name: self.pending_environment@,
            pending_flag: self.env_status_cache,
            has_pending: self.pending_resolutions > 0,
            resolved: self.resolved_set(),
        }
    }

    /// Whether an environment of the given name has been declared in the
    /// running parse.
    pub fn is_environment_resolved(&self, name: &String) -> (r: bool)
        ensures
            r == self.resolved_set().contains(name@),
    {
        proof {
            lemma_names_set_contains(self.resolved_environments@, name@);
        }
        let mut i: usize = 0;
        while i < self.resolved_environments.len()
            invariant
                i <= self.resolved_environments@.len(),
                forall|j: int|
                    0 <= j < i ==> (#[trigger] self.resolved_environments@[j])@ != name@,
            decreases self.resolved_environments@.len() - i,
        {
            if self.resolved_environments[i].eq(name) {
                proof {
                    lemma_names_set_contains(self.resolved_environments@, name@);
                }
                return true;
            }
            i += 1;
        }
        false
    }
}

impl CollectionParser {
    /// A value token at a position: a bare identifier, a quoted identifier or
    /// a string.
    fn get_raw_value(&self, tokens: &Vec<Token>, i: usize) -> (r: Result<String, ParseError>)
        ensures
            match r {
                Ok(v) => sp_value(views_of(tokens@), i as int) == Ok::<Seq<char>, ParseErrorView>(
                    v@,
                ),
                Err(e) => sp_value(views_of(tokens@), i as int) == Err::<
                    Seq<char>,
                    ParseErrorView,
                >(e@),
            },
    {
        if i >= tokens.len() {
            return Err(ParseError::UnexpectedEndOfTokens);
        }
        proof {
            assert(views_of(tokens@)[i as int] == tokens@[i as int]@);
        }
        match &tokens[i] {
            Token::Identifier(s) => Ok(s.clone()),
            Token::BlockIdentifier(s) => Ok(s.clone()),
            Token::StringValue(s) => Ok(s.clone()),
            Token::EndOfInput => Err(ParseError::UnexpectedEndOfTokens),
            t => Err(ParseError::UnexpectedToken(t.duplicate())),
        }
    }

    /// A flag token at a position: the enabled state of an activation.
    fn get_environment_status(&self, tokens: &Vec<Token>, i: usize) -> (r: Result<
        bool,
        ParseError,
    >)
        ensures
            match r {
                Ok(b) => sp_flag(views_of(tokens@), i as int) == Ok::<bool, ParseErrorView>(b),
                Err(e) => sp_flag(views_of(tokens@), i as int) == Err::<bool, ParseErrorView>(e@),
            },
    {
        if i >= tokens.len() {
            return Err(ParseError::UnexpectedEndOfTokens);
        }
        proof {
            assert(views_of(tokens@)[i as int] == tokens@[i as int]@);
        }
        match &tokens[i] {
            Token::Flag(b) => Ok(*b),
            Token::EndOfInput => Err(ParseError::UnexpectedEndOfTokens),
            t => Err(ParseError::UnexpectedToken(t.duplicate())),
        }
    }

    /// A bare identifier token at a position.
    fn get_identifier(&self, tokens: &Vec<Token>, i: usize) -> (r: Result<String, ParseError>)
        ensures
            match r {
                Ok(v) => sp_ident(views_of(tokens@), i as int) == Ok::<Seq<char>, ParseErrorView>(
                    v@,
                ),
                Err(e) => sp_ident(views_of(tokens@), i as int) == Err::<
                    Seq<char>,
                    ParseErrorView,
                >(e@),
            },
    {
        if i >= tokens.len() {
            return Err(ParseError::UnexpectedEndOfTokens);
        }
        proof {
            assert(views_of(tokens@)[i as int] == tokens@[i as int]@);
        }
        match &tokens[i] {
            Token::Identifier(s) => Ok(s.clone()),
            Token::EndOfInput => Err(ParseError::UnexpectedEndOfTokens),
            t => Err(ParseError::UnexpectedToken(t.duplicate())),
        }
    }

    /// One field of a collection block, its name already read.
    fn parse_collection_identifier(
        &self,
        doc: &mut Collection,
        tokens: &Vec<Token>,
        i: usize,
        ident: &String,
    ) -> (r: Result<(), ParseError>)
        requires
            old(doc).wf(),
        ensures
            final(doc).wf(),
            match r {
                Ok(_) => sp_collection_field(views_of(tokens@), i as int, ident@, self.st(old(doc)@))
                    == Ok::<PSt, ParseErrorView>(self.st(final(doc)@)) && (i as int)
                    < tokens@.len(),
                Err(e) => sp_collection_field(views_of(tokens@), i as int, ident@, self.st(old(doc)@))
                    == Err::<PSt, ParseErrorView>(e@) && final(doc)@ == old(doc)@,
            },
    {
        if str_eq(ident, "name") {
            let v = match self.get_raw_value(tokens, i) {
                Ok(v) => v,
                Err(e) => return Err(e),
            };
            doc.set_name(v);
            proof {
                assert(sp_collection_field(views_of(tokens@), i as int, ident@, self.st(old(doc)@))
                    =~~= Ok::<PSt, ParseErrorView>(self.st(doc@)));
            }
            Ok(())
        } else if str_eq(ident, "include") {
            match self.get_raw_value(tokens, i) {
                Ok(_) => Ok(()),
                Err(e) => Err(e),
            }
        } else {
            Err(ParseError::UnexpectedFieldKeyword)
        }
    }
}

impl CollectionParser {
    /// The body of a collection block, up to and including its closing brace:
    /// fields, and the environment-activation statement that selects the
    /// active environment or records the pending forward reference.
    fn parse_collection_body(&mut self, doc: &mut Collection, tokens: &Vec<Token>, i: usize) -> (r:
        Result<usize, ParseError>)
        requires
            old(doc).wf(),
            i <= tokens@.len(),
        ensures
            final(doc).wf(),
            match r {
                Ok(j) => (i as int) < (j as int) <= tokens@.len() && sp_collection_body(
                    views_of(tokens@),
                    i as int,
                    old(self).st(old(doc)@),
                ) == Ok::<(int, PSt), ParseErrorView>((j as int, final(self).st(final(doc)@))),
                Err(e) => sp_collection_body(views_of(tokens@), i as int, old(self).st(old(doc)@))
                    == Err::<(int, PSt), ParseErrorView>(e@),
            },
        decreases tokens@.len() - i,
    {
        let ghost vs = views_of(tokens@);
        let ghost st0 = self.st(doc@);
        if i >= tokens.len() {
            return Err(ParseError::UnexpectedEndOfTokens);
        }
        proof {
            assert(vs[i as int] == tokens@[i as int]@);
        }
        match &tokens[i] {
            Token::RightBrace => Ok(i + 1),
            Token::EndOfInput => Err(ParseError::UnexpectedEndOfTokens),
            Token::Identifier(id) => {
                match self.parse_collection_identifier(doc, tokens, i + 1, id) {
                    Ok(_) => {
                        proof {
                            assert(i + 1 < tokens@.len());
                        }
                        self.parse_collection_body(doc, tokens, i + 2)
                    },
                    Err(e) => Err(e),
                }
            },
            Token::BlockType(b) => {
                if str_eq(b, "environment") {
                    let flag = match self.get_environment_status(tokens, i + 1) {
                        Ok(f) => f,
                        Err(e) => return Err(e),
                    };
                    let block_ident = match self.get_identifier(tokens, i + 2) {
                        Ok(v) => v,
                        Err(e) => return Err(e),
                    };
                    proof {
                        assert(i + 2 < tokens@.len());
                    }
                    let ghost name_v = block_ident@;
                    if self.is_environment_resolved(&block_ident) {
                        doc.set_active_environment(block_ident);
                        if flag {
                            doc.enable_active_environment();
                        }
                    } else {
                        if self.pending_resolutions < u32::MAX {
                            self.pending_resolutions = self.pending_resolutions + 1;
                        }
                        self.env_status_cache = flag;
                        self.pending_environment = block_ident;
                        doc.disable_active_environment();
                    }
                    proof {
                        assert(self.st(doc@) =~~= apply_activation(st0, name_v, flag));
                    }
                    self.parse_collection_body(doc, tokens, i + 3)
                } else {
                    Err(ParseError::UnexpectedToken(Token::BlockType(b.clone())))
                }
            },
            t => Err(ParseError::UnexpectedToken(t.duplicate())),
        }
    }

    /// The opening brace of a collection block.
    fn parse_collection_open(&mut self, doc: &mut Collection, tokens: &Vec<Token>, i: usize) -> (r:
        Result<usize, ParseError>)
        requires
            old(doc).wf(),
            i <= tokens@.len(),
        ensures
            final(doc).wf(),
            match r {
                Ok(j) => (i as int) < (j as int) <= tokens@.len() && sp_collection_open(
                    views_of(tokens@),
                    i as int,
                    old(self).st(old(doc)@),
                ) == Ok::<(int, PSt), ParseErrorView>((j as int, final(self).st(final(doc)@))),
                Err(e) => sp_collection_open(views_of(tokens@), i as int, old(self).st(old(doc)@))
                    == Err::<(int, PSt), ParseErrorView>(e@),
            },
    {
        let ghost vs = views_of(tokens@);
        if i >= tokens.len() {
            return Err(ParseError::UnexpectedEndOfTokens);
        }
        proof {
            assert(vs[i as int] == tokens@[i as int]@);
        }
        match &tokens[i] {
            Token::LeftBrace => self.parse_collection_body(doc, tokens, i + 1),
            Token::EndOfInput => Err(ParseError::UnexpectedEndOfTokens),
            t => Err(ParseError::UnexpectedToken(t.duplicate())),
        }
    }

    /// A collection block after its keyword: an optional quoted identifier,
    /// then the braced body.
    fn parse_collection(&mut self, doc: &mut Collection, tokens: &Vec<Token>, i: usize) -> (r:
        Result<usize, ParseError>)
        requires
            old(doc).wf(),
            i <= tokens@.len(),
        ensures
            final(doc).wf(),
            match r {
                Ok(j) => (i as int) < (j as int) <= tokens@.len() && sp_collection(
                    views_of(tokens@),
                    i as int,
                    old(self).st(old(doc)@),
                ) == Ok::<(int, PSt), ParseErrorView>((j as int, final(self).st(final(doc)@))),
                Err(e) => sp_collection(views_of(tokens@), i as int, old(self).st(old(doc)@))
                    == Err::<(int, PSt), ParseErrorView>(e@),
            },
    {
        let ghost vs = views_of(tokens@);
        if i < tokens.len() {
            proof {
                assert(vs[i as int] == tokens@[i as int]@);
            }
            match &tokens[i] {
                Token::BlockIdentifier(s) => {
                    doc.set_identifier(s.clone());
                    return self.parse_collection_open(doc, tokens, i + 1);
                },
                _ => {},
            }
        }
        self.parse_collection_open(doc, tokens, i)
    }

    /// Declares an environment under a name: it enters the document's mapping
    /// with no entries, counts as resolved, and resolves the pending forward
    /// reference if the name matches it.
    fn enter_environment(&mut self, doc: &mut Collection, name: String)
        requires
            old(doc).wf(),
        ensures
            final(doc).wf(),
            final(self).st(final(doc)@) == enter_env(old(self).st(old(doc)@), name@),
    {
        let ghost st0 = self.st(doc@);
        let ghost name_v = name@;
        doc.new_environment(name.clone());
        let ghost rs = self.resolved_environments@;
        self.resolved_environments.push(name.clone());
        proof {
            assert(self.resolved_environments@.drop_last() =~= rs);
        }
        let is_pending = self.pending_resolutions > 0 && self.pending_environment.eq(&name);
        if is_pending {
            if self.env_status_cache {
                doc.enable_active_environment();
            }
            doc.set_active_environment(name);
            self.pending_resolutions = 0;
        }
        proof {
            assert(self.st(doc@) =~~= enter_env(st0, name_v));
        }
    }

    /// The body of an environment block: key/value entries, each with an
    /// optional flag between key and value, up to and including the closing
    /// brace.
    fn parse_environment_body(
        &self,
        doc: &mut Collection,
        tokens: &Vec<Token>,
        i: usize,
        env: &String,
    ) -> (r: Result<usize, ParseError>)
        requires
            old(doc).wf(),
            i <= tokens@.len(),
        ensures
            final(doc).wf(),
            match r {
                Ok(j) => (i as int) < (j as int) <= tokens@.len() && sp_environment_body(
                    views_of(tokens@),
                    i as int,
                    env@,
                    self.st(old(doc)@),
                ) == Ok::<(int, PSt), ParseErrorView>((j as int, self.st(final(doc)@))),
                Err(e) => sp_environment_body(views_of(tokens@), i as int, env@, self.st(old(doc)@))
                    == Err::<(int, PSt), ParseErrorView>(e@),
            },
        decreases tokens@.len() - i,
    {
        let ghost vs = views_of(tokens@);
        let ghost st0 = self.st(doc@);
        if i >= tokens.len() {
            return Err(ParseError::UnexpectedEndOfTokens);
        }
        proof {
            assert(vs[i as int] == tokens@[i as int]@);
        }
        match &tokens[i] {
            Token::RightBrace => Ok(i + 1),
            Token::EndOfInput => Err(ParseError::UnexpectedEndOfTokens),
            Token::Identifier(key) => {
                let has_flag = i + 1 < tokens.len() && (match &tokens[i + 1] {
                    Token::Flag(_) => true,
                    _ => false,
                });
                proof {
                    if i + 1 < tokens@.len() {
                        assert(vs[i as int + 1] == tokens@[i as int + 1]@);
                    }
                }
                if has_flag {
                    let v = match self.get_raw_value(tokens, i + 2) {
                        Ok(v) => v,
                        Err(e) => return Err(e),
                    };
                    proof {
                        assert(i + 2 < tokens@.len());
                    }
                    let ghost key_v = key@;
                    let ghost v_v = v@;
                    doc.insert_environment_entry(env, key.clone(), v);
                    proof {
                        assert(self.st(doc@) =~~= env_insert(st0, env@, key_v, v_v));
                    }
                    self.parse_environment_body(doc, tokens, i + 3, env)
                } else {
                    let v = match self.get_raw_value(tokens, i + 1) {
                        Ok(v) => v,
                        Err(e) => return Err(e),
                    };
                    proof {
                        assert(i + 1 < tokens@.len());
                    }
                    let ghost key_v = key@;
                    let ghost v_v = v@;
                    doc.insert_environment_entry(env, key.clone(), v);
                    proof {
                        assert(self.st(doc@) =~~= env_insert(st0, env@, key_v, v_v));
                    }
                    self.parse_environment_body(doc, tokens, i + 2, env)
                }
            },
            t => Err(ParseError::UnexpectedToken(t.duplicate())),
        }
    }

    /// The opening brace of an environment block.
    fn parse_environment_open(
        &self,
        doc: &mut Collection,
        tokens: &Vec<Token>,
        i: usize,
        env: &String,
    ) -> (r: Result<usize, ParseError>)
        requires
            old(doc).wf(),
            i <= tokens@.len(),
        ensures
            final(doc).wf(),
            match r {
                Ok(j) => (i as int) < (j as int) <= tokens@.len() && sp_environment_open(
                    views_of(tokens@),
                    i as int,
                    env@,
                    self.st(old(doc)@),
                ) == Ok::<(int, PSt), ParseErrorView>((j as int, self.st(final(doc)@))),
                Err(e) => sp_environment_open(
                    views_of(tokens@),
                    i as int,
                    env@,
                    self.st(old(doc)@),
                ) == Err::<(int, PSt), ParseErrorView>(e@),
            },
    {
        let ghost vs = views_of(tokens@);
        if i >= tokens.len() {
            return Err(ParseError::UnexpectedEndOfTokens);
        }
        proof {
            assert(vs[i as int] == tokens@[i as int]@);
        }
        match &tokens[i] {
            Token::LeftBrace => self.parse_environment_body(doc, tokens, i + 1, env),
            Token::EndOfInput => Err(ParseError::UnexpectedEndOfTokens),
            t => Err(ParseError::UnexpectedToken(t.duplicate())),
        }
    }

    /// An environment block after its keyword: named by its quoted
    /// identifier, or anonymous and named by the next generated name.
    fn parse_environment(
        &mut self,
        doc: &mut Collection,
        tokens: &Vec<Token>,
        names: &Vec<String>,
        i: usize,
        used: usize,
    ) -> (r: Result<(usize, usize), ParseError>)
        requires
            old(doc).wf(),
            i <= tokens@.len(),
            (used as int) < spec_env_count(views_of(tokens@).take(i as int)),
            names@.len() >= spec_env_count(views_of(tokens@)),
        ensures
            final(doc).wf(),
            match r {
                Ok(ju) => (i as int) < (ju.0 as int) <= tokens@.len() && (ju.1 as int)
                    <= spec_env_count(views_of(tokens@).take(ju.0 as int)) && sp_environment(
                    views_of(tokens@),
                    i as int,
                    old(self).st(old(doc)@),
                    name_views(names@),
                    used as int,
                ) == Ok::<(int, PSt, int), ParseErrorView>(
                    (ju.0 as int, final(self).st(final(doc)@), ju.1 as int),
                ),
                Err(e) => sp_environment(
                    views_of(tokens@),
                    i as int,
                    old(self).st(old(doc)@),
                    name_views(names@),
                    used as int,
                ) == Err::<(int, PSt, int), ParseErrorView>(e@),
            },
    {
        let ghost vs = views_of(tokens@);
        if i < tokens.len() {
            proof {
                assert(vs[i as int] == tokens@[i as int]@);
            }
            let named = match &tokens[i] {
                Token::BlockIdentifier(_) => true,
                _ => false,
            };
            if named {
                let name = match &tokens[i] {
                    Token::BlockIdentifier(s) => s.clone(),
                    _ => String::new(),
                };
                self.enter_environment(doc, name.clone());
                return match self.parse_environment_open(doc, tokens, i + 1, &name) {
                    Ok(j) => {
                        proof {
                            lemma_env_count_mono(vs, i as int, j as int);
                        }
                        Ok((j, used))
                    },
                    Err(e) => Err(e),
                };
            }
        }
        // anonymous: the next generated name stands in for the missing
        // identifier
        let nn = names.len();
        proof {
            lemma_env_count_mono(vs, i as int, vs.len() as int);
            assert(vs.take(vs.len() as int) =~= vs);
            assert((used as int) < names@.len());
            assert(used < nn);
            assert(name_views(names@)[used as int] == names@[used as int]@);
        }
        let name = names[used].clone();
        self.enter_environment(doc, name.clone());
        match self.parse_environment_open(doc, tokens, i, &name) {
            Ok(j) => {
                proof {
                    lemma_env_count_mono(vs, i as int, j as int);
                }
                Ok((j, used + 1))
            },
            Err(e) => Err(e),
        }
    }

    /// The body of a recognized block the document does not represent: fields
    /// read and discarded.
    fn parse_generic_body(&self, tokens: &Vec<Token>, i: usize) -> (r: Result<usize, ParseError>)
        requires
            i <= tokens@.len(),
        ensures
            match r {
                Ok(j) => (i as int) < (j as int) <= tokens@.len() && forall|st: PSt|
                    #[trigger] sp_generic_body(views_of(tokens@), i as int, st) == Ok::<
                        (int, PSt),
                        ParseErrorView,
                    >((j as int, st)),
                Err(e) => forall|st: PSt|
                    #[trigger] sp_generic_body(views_of(tokens@), i as int, st) == Err::<
                        (int, PSt),
                        ParseErrorView,
                    >(e@),
            },
        decreases tokens@.len() - i,
    {
        let ghost vs = views_of(tokens@);
        if i >= tokens.len() {
            return Err(ParseError::UnexpectedEndOfTokens);
        }
        proof {
            assert(vs[i as int] == tokens@[i as int]@);
        }
        match &tokens[i] {
            Token::RightBrace => Ok(i + 1),
            Token::EndOfInput => Err(ParseError::UnexpectedEndOfTokens),
            Token::Identifier(_) => {
                let has_flag = i + 1 < tokens.len() && (match &tokens[i + 1] {
                    Token::Flag(_) => true,
                    _ => false,
                });
                proof {
                    if i + 1 < tokens@.len() {
                        assert(vs[i as int + 1] == tokens@[i as int + 1]@);
                    }
                }
                if has_flag {
                    match self.get_raw_value(tokens, i + 2) {
                        Ok(_) => {
                            proof {
                                assert(i + 2 < tokens@.len());
                            }
                            let rr = self.parse_generic_body(tokens, i + 3);
                            proof {
                                match &rr {
                                    Ok(j) => {
                                        assert forall|st: PSt|
                                            #[trigger] sp_generic_body(vs, i as int, st) == Ok::<
                                                (int, PSt),
                                                ParseErrorView,
                                            >((j as int, st)) by {
                                            assert(sp_generic_body(vs, i as int + 3, st) == Ok::<
                                                (int, PSt),
                                                ParseErrorView,
                                            >((j as int, st)));
                                        }
                                    },
                                    Err(e) => {
                                        assert forall|st: PSt|
                                            #[trigger] sp_generic_body(vs, i as int, st) == Err::<
                                                (int, PSt),
                                                ParseErrorView,
                                            >(e@) by {
                                            assert(sp_generic_body(vs, i as int + 3, st) == Err::<
                                                (int, PSt),
                                                ParseErrorView,
                                            >(e@));
                                        }
                                    },
                                }
                            }
                            rr
                        },
                        Err(e) => Err(e),
                    }
                } else {
                    match self.get_raw_value(tokens, i + 1) {
                        Ok(_) => {
                            proof {
                                assert(i + 1 < tokens@.len());
                            }
                            let rr = self.parse_generic_body(tokens, i + 2);
                            proof {
                                match &rr {
                                    Ok(j) => {
                                        assert forall|st: PSt|
                                            #[trigger] sp_generic_body(vs, i as int, st) == Ok::<
                                                (int, PSt),
                                                ParseErrorView,
                                            >((j as int, st)) by {
                                            assert(sp_generic_body(vs, i as int + 2, st) == Ok::<
                                                (int, PSt),
                                                ParseErrorView,
                                            >((j as int, st)));
                                        }
                                    },
                                    Err(e) => {
                                        assert forall|st: PSt|
                                            #[trigger] sp_generic_body(vs, i as int, st) == Err::<
                                                (int, PSt),
                                                ParseErrorView,
                                            >(e@) by {
                                            assert(sp_generic_body(vs, i as int + 2, st) == Err::<
                                                (int, PSt),
                                                ParseErrorView,
                                            >(e@));
                                        }
                                    },
                                }
                            }
                            rr
                        },
                        Err(e) => Err(e),
                    }
                }
            },
            t => Err(ParseError::UnexpectedToken(t.duplicate())),
        }
    }

    /// The opening brace of a generic block.
    fn parse_generic_open(&self, tokens: &Vec<Token>, i: usize) -> (r: Result<usize, ParseError>)
        requires
            i <= tokens@.len(),
        ensures
            match r {
                Ok(j) => (i as int) < (j as int) <= tokens@.len() && forall|st: PSt|
                    #[trigger] sp_generic_open(views_of(tokens@), i as int, st) == Ok::<
                        (int, PSt),
                        ParseErrorView,
                    >((j as int, st)),
                Err(e) => forall|st: PSt|
                    #[trigger] sp_generic_open(views_of(tokens@), i as int, st) == Err::<
                        (int, PSt),
                        ParseErrorView,
                    >(e@),
            },
    {
        let ghost vs = views_of(tokens@);
        if i >= tokens.len() {
            return Err(ParseError::UnexpectedEndOfTokens);
        }
        proof {
            assert(vs[i as int] == tokens@[i as int]@);
        }
        match &tokens[i] {
            Token::LeftBrace => self.parse_generic_body(tokens, i + 1),
            Token::EndOfInput => Err(ParseError::UnexpectedEndOfTokens),
            t => Err(ParseError::UnexpectedToken(t.duplicate())),
        }
    }

    /// The optional quoted identifier of a generic block.
    fn parse_generic_named(&self, tokens: &Vec<Token>, i: usize) -> (r: Result<usize, ParseError>)
        requires
            i <= tokens@.len(),
        ensures
            match r {
                Ok(j) => (i as int) < (j as int) <= tokens@.len() && forall|st: PSt|
                    #[trigger] sp_generic_named(views_of(tokens@), i as int, st) == Ok::<
                        (int, PSt),
                        ParseErrorView,
                    >((j as int, st)),
                Err(e) => forall|st: PSt|
                    #[trigger] sp_generic_named(views_of(tokens@), i as int, st) == Err::<
                        (int, PSt),
                        ParseErrorView,
                    >(e@),
            },
    {
        let ghost vs = views_of(tokens@);
        if i < tokens.len() {
            proof {
                assert(vs[i as int] == tokens@[i as int]@);
            }
            let named = match &tokens[i] {
                Token::BlockIdentifier(_) => true,
                _ => false,
            };
            if named {
                return self.parse_generic_open(tokens, i + 1);
            }
        }
        self.parse_generic_open(tokens, i)
    }

    /// A recognized block the document does not represent, after its keyword.
    fn parse_generic(&self, tokens: &Vec<Token>, i: usize) -> (r: Result<usize, ParseError>)
        requires
            i <= tokens@.len(),
        ensures
            match r {
                Ok(j) => (i as int) < (j as int) <= tokens@.len() && forall|st: PSt|
                    #[trigger] sp_generic(views_of(tokens@), i as int, st) == Ok::<
                        (int, PSt),
                        ParseErrorView,
                    >((j as int, st)),
                Err(e) => forall|st: PSt|
                    #[trigger] sp_generic(views_of(tokens@), i as int, st) == Err::<
                        (int, PSt),
                        ParseErrorView,
                    >(e@),
            },
    {
        let ghost vs = views_of(tokens@);
        if i < tokens.len() {
            proof {
                assert(vs[i as int] == tokens@[i as int]@);
            }
            let sub = match &tokens[i] {
                Token::SubBlockType(_) => true,
                _ => false,
            };
            if sub {
                return self.parse_generic_named(tokens, i + 1);
            }
        }
        self.parse_generic_named(tokens, i)
    }
}

/// How many environment-block keywords a token vector holds.
fn count_environment_blocks(tokens: &Vec<Token>) -> (n: usize)
    ensures
        n as int == spec_env_count(views_of(tokens@)),
{
    let ghost vs = views_of(tokens@);
    let mut n: usize = 0;
    let mut i: usize = 0;
    while i < tokens.len()
        invariant
            i <= tokens@.len(),
            n <= i,
            vs == views_of(tokens@),
            n as int == spec_env_count(vs.take(i as int)),
        decreases tokens@.len() - i,
    {
        proof {
            lemma_env_count_step(vs, i as int);
            assert(vs[i as int] == tokens@[i as int]@);
        }
        let is_env = match &tokens[i] {
            Token::BlockType(b) => str_eq(b, "environment"),
            _ => false,
        };
        if is_env {
            n += 1;
        }
        i += 1;
    }
    proof {
        assert(vs.take(tokens@.len() as int) =~= vs);
    }
    n
}

/// Relies on rand's `thread_rng` and `Alphanumeric` distribution: twelve
/// characters drawn uniformly from the ASCII letters and digits.
#[verifier::external_body]
fn random_env_identifier() -> (r: String)
    ensures
        is_generated_name(r@),
{
    rand::thread_rng().sample_iter(&rand::distributions::Alphanumeric).take(12).map(
        char::from,
    ).collect()
}

impl CollectionParser {
    /// Parses a token sequence into a document, drawing the names of
    /// anonymous environment blocks from the given vector in order: the
    /// deterministic core of `parse`, also usable directly where generated
    /// names are unwanted.
    pub fn parse_with_names(&mut self, tokens: &Vec<Token>, names: &Vec<String>) -> (r: Result<
        Collection,
        ParseError,
    >)
        requires
            names@.len() >= spec_env_count(views_of(tokens@)),
        ensures
            match r {
                Ok(c) => c.wf() && sp_top(
                    views_of(tokens@),
                    0,
                    initial_state(),
                    name_views(names@),
                    0,
                ) == Ok::<CollectionView, ParseErrorView>(c@) && (c@.enable_environment
                    ==> c@.environments.contains_key(c@.active_environment)),
                Err(e) => sp_top(views_of(tokens@), 0, initial_state(), name_views(names@), 0)
                    == Err::<CollectionView, ParseErrorView>(e@),
            },
    {
        let ghost vs = views_of(tokens@);
        let ghost nsv = name_views(names@);
        proof {
            lemma_parse_invariant(vs, 0, initial_state(), nsv, 0);
        }
        // a parse starts from a clean slate: an empty default document,
        // nothing pending, nothing resolved
        self.pending_resolutions = 0;
        self.pending_environment = String::new();
        self.env_status_cache = false;
        self.resolved_environments.clear();
        let mut doc = Collection::default();
        proof {
            assert(self.resolved_set() =~= Set::<Seq<char>>::empty());
            assert(self.st(doc@) =~~= initial_state());
            assert(vs.take(0) =~= Seq::<TokenView>::empty());
        }
        let mut i: usize = 0;
        let mut used: usize = 0;
        loop
            invariant
                doc.wf(),
                i <= tokens@.len(),
                (used as int) <= spec_env_count(vs.take(i as int)),
                vs == views_of(tokens@),
                nsv == name_views(names@),
                names@.len() >= spec_env_count(vs),
                sp_top(vs, 0, initial_state(), nsv, 0) == sp_top(
                    vs,
                    i as int,
                    self.st(doc@),
                    nsv,
                    used as int,
                ),
            decreases tokens@.len() - i,
        {
            proof {
                lemma_parse_invariant(vs, 0, initial_state(), nsv, 0);
            }
            if i >= tokens.len() {
                return Ok(doc);
            }
            proof {
                assert(vs[i as int] == tokens@[i as int]@);
            }
            match &tokens[i] {
                Token::EndOfInput => {
                    return Ok(doc);
                },
                Token::BlockType(b) => {
                    if str_eq(b, "collection") {
                        match self.parse_collection(&mut doc, tokens, i + 1) {
                            Ok(j) => {
                                proof {
                                    lemma_env_count_mono(vs, i as int, j as int);
                                }
                                i = j;
                            },
                            Err(e) => return Err(e),
                        }
                    } else if str_eq(b, "environment") {
                        proof {
                            lemma_env_count_step(vs, i as int);
                        }
                        match self.parse_environment(&mut doc, tokens, names, i + 1, used) {
                            Ok(ju) => {
                                i = ju.0;
                                used = ju.1;
                            },
                            Err(e) => return Err(e),
                        }
                    } else if str_eq(b, "request") || str_eq(b, "folder") || str_eq(b, "headers")
                        || str_eq(b, "queries") || str_eq(b, "body") || str_eq(b, "variables") {
                        match self.parse_generic(tokens, i + 1) {
                            Ok(j) => {
                                proof {
                                    lemma_env_count_mono(vs, i as int, j as int);
                                }
                                i = j;
                            },
                            Err(e) => return Err(e),
                        }
                    } else {
                        return Err(ParseError::UnexpectedBlockKeyword);
                    }
                },
                Token::Identifier(_) => {
                    return Err(ParseError::UnexpectedBlockKeyword);
                },
                t => {
                    return Err(ParseError::UnexpectedToken(t.duplicate()));
                },
            }
        }
    }

    /// Parses the tokenizer's whole token sequence into a document, naming
    /// anonymous environment blocks with freshly generated alphanumeric
    /// names. The first error anywhere aborts the parse; the caller discards
    /// any partial document.
    pub fn parse(&mut self, lexer: &mut Lexer) -> (r: Result<Collection, ParseError>)
        requires
            old(lexer).wf(),
        ensures
            final(lexer).wf(),
            match r {
                Ok(c) => c.wf() && (c@.enable_environment ==> c@.environments.contains_key(
                    c@.active_environment,
                )) && exists|names: Seq<Seq<char>>|
                    all_generated(names) && #[trigger] sp_top(
                        spec_tokens_from(old(lexer).src(), old(lexer).position()),
                        0,
                        initial_state(),
                        names,
                        0,
                    ) == Ok::<CollectionView, ParseErrorView>(c@),
                Err(e) => exists|names: Seq<Seq<char>>|
                    all_generated(names) && #[trigger] sp_top(
                        spec_tokens_from(old(lexer).src(), old(lexer).position()),
                        0,
                        initial_state(),
                        names,
                        0,
                    ) == Err::<CollectionView, ParseErrorView>(e@),
            },
    {
        let tokens = collect_tokens(lexer);
        let n = count_environment_blocks(&tokens);
        let mut names: Vec<String> = Vec::new();
        while names.len() < n
            invariant
                names@.len() <= n,
                forall|k: int| 0 <= k < names@.len() ==> is_generated_name((#[trigger] names@[k])@),
            decreases n - names@.len(),
        {
            names.push(random_env_identifier());
        }
        let r = self.parse_with_names(&tokens, &names);
        proof {
            assert(all_generated(name_views(names@)));
        }
        r
    }
}

impl Default for CollectionParser {
    /// A parser with nothing pending and nothing resolved.
    fn default() -> (p: Self)
        ensures
            p.resolved_set() == Set::<Seq<char>>::empty(),
            forall|doc: CollectionView| (#[trigger] p.st(doc)) == (PSt {
                doc,
                pending_name: Seq::empty(),
                pending_flag: false,
                has_pending: false,
                resolved: Set::empty(),
            }),
    {
        let p = CollectionParser {
            pending_resolutions: 0,
            pending_environment: String::new(),
            resolved_environments: Vec::new(),
            env_status_cache: false,
        };
        proof {
            assert(p.resolved_set() =~= Set::<Seq<char>>::empty());
        }
        p
    }
}

} // verus!
