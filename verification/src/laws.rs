//! Laws of the tokenizer, proved once and for all: reconstructing a token's
//! literal and re-lexing it gives the token back; whitespace between tokens
//! never changes the token sequence; and an unterminated string still lexes
//! as a string value, not as an error.

use vstd::prelude::*;

use crate::lexer::class_at;
use crate::lexer::is_insignificant;
use crate::lexer::spec_run;
use crate::lexer::spec_scan;
use crate::lexer::spec_skip;
use crate::lexer::spec_tokens;
use crate::lexer::spec_tokens_from;
use crate::token::TokenView;
use crate::token::escape_string;
use crate::token::id_shape;
use crate::token::is_id_char;
use crate::token::spec_keyword_token;
use crate::token::spec_restore;
use crate::token::unescape_string;
use crate::token::wf_lexable;
use crate::transition_table::Input;
use crate::transition_table::State;
use crate::transition_table::spec_char_to_input;

verus! {

/// Skipping stops exactly at the first significant character.
proof fn lemma_skip_to(s: Seq<char>, p: int, q: int)
    requires
        0 <= p <= q <= s.len(),
        forall|k: int| p <= k < q ==> is_insignificant(spec_char_to_input(#[trigger] s[k])),
        q < s.len() ==> !is_insignificant(spec_char_to_input(s[q])),
    ensures
        spec_skip(s, p) == q,
    decreases q - p,
{
    if p < q {
        assert(is_insignificant(spec_char_to_input(s[p])));
        lemma_skip_to(s, p + 1, q);
    }
}

/// A run over identifier characters stays in the identifier-reading state and
/// ends at the first character of another class.
proof fn lemma_run_ident(s: Seq<char>, st: State, i: int, e: int)
    requires
        st == State::ReadIdentifier || st == State::ReadSubBlockType,
        0 <= i <= e <= s.len(),
        forall|k: int| i <= k < e ==> is_id_char(#[trigger] s[k]),
        !(class_at(s, e) == Input::Character || class_at(s, e) == Input::Phiten || class_at(s, e)
            == Input::Underscore || class_at(s, e) == Input::Digit),
    ensures
        spec_run(s, st, i) == (if st == State::ReadIdentifier {
            State::EndIdentifier
        } else {
            State::EndSubBlockType
        }, e),
    decreases e - i,
{
    if i < e {
        assert(is_id_char(s[i]));
        lemma_run_ident(s, st, i + 1, e);
    }
}

/// A run inside a quoted special identifier stays there until a quote or the
/// end of the input.
proof fn lemma_run_special(s: Seq<char>, i: int, e: int)
    requires
        0 <= i <= e <= s.len(),
        forall|k: int|
            i <= k < e ==> spec_char_to_input(#[trigger] s[k]) != Input::DoubleQuote
                && spec_char_to_input(s[k]) != Input::EOF,
        class_at(s, e) == Input::DoubleQuote || class_at(s, e) == Input::EOF,
    ensures
        spec_run(s, State::ReadSpecialIdentifier, i) == (State::EndSpecialIdentifier, e),
    decreases e - i,
{
    if i < e {
        assert(spec_char_to_input(s[i]) != Input::DoubleQuote);
        lemma_run_special(s, i + 1, e);
    }
}

/// A run over a raw string literal holding no backtick and no NUL ends at
/// the end of the source, in the string boundary: the end of the input is a
/// valid terminator for a string value.
proof fn lemma_run_raw_string(s: Seq<char>, i: int)
    requires
        0 <= i <= s.len(),
        forall|k: int| i <= k < s.len() ==> s[k] != '`' && #[trigger] s[k] != '\0',
    ensures
        spec_run(s, State::ReadString, i) == (State::EndString, s.len() as int),
    decreases s.len() - i,
{
    if i == s.len() {
        assert(class_at(s, i) == Input::EOF);
    } else if s[i] == '\\' {
        assert(spec_char_to_input(s[i]) == Input::Backslash);
        if i + 1 == s.len() {
            assert(class_at(s, i + 1) == Input::EOF);
            assert(spec_run(s, State::ReadEscapedCharacter, i + 1) == (
                State::EndString,
                i + 1,
            ));
            assert(spec_run(s, State::ReadString, i) == spec_run(
                s,
                State::ReadEscapedCharacter,
                i + 1,
            ));
        } else {
            assert(s[i + 1] != '\0');
            assert(class_at(s, i + 1) != Input::EOF);
            lemma_run_raw_string(s, i + 2);
            assert(spec_run(s, State::ReadString, i) == spec_run(s, State::ReadEscapedCharacter, i + 1));
            assert(spec_run(s, State::ReadEscapedCharacter, i + 1) == spec_run(s, State::ReadString, i + 2));
        }
    } else {
        assert(spec_char_to_input(s[i]) != Input::Tilt);
        assert(spec_char_to_input(s[i]) != Input::Backslash);
        assert(class_at(s, i) != Input::EOF);
        lemma_run_raw_string(s, i + 1);
    }
}

/// A run over an escaped string literal, followed by a closing backtick or
/// the end of the input, ends exactly at that closing position.
proof fn lemma_run_string(s: Seq<char>, i: int, x: Seq<char>)
    requires
        0 <= i,
        i + escape_string(x).len() <= s.len(),
        s.subrange(i, i + escape_string(x).len()) == escape_string(x),
        forall|k: int| 0 <= k < x.len() ==> #[trigger] x[k] != '\0',
        class_at(s, i + escape_string(x).len()) == Input::Tilt || class_at(
            s,
            i + escape_string(x).len(),
        ) == Input::EOF,
    ensures
        spec_run(s, State::ReadString, i) == (State::EndString, i + escape_string(x).len()),
    decreases x.len(),
{
    let esc = escape_string(x);
    let sub = s.subrange(i, i + esc.len() as int);
    if x.len() == 0 {
        assert(esc.len() == 0);
    } else if x[0] == '`' || x[0] == '\\' {
        assert(esc == seq!['\\', x[0]] + escape_string(x.skip(1)));
        assert(s[i] == sub[0]);
        assert(s[i + 1] == sub[1]);
        assert(spec_char_to_input(s[i]) == Input::Backslash);
        assert(s[i + 1] == x[0]);
        assert(s[i + 1] != '\0');
        assert(class_at(s, i + 1) != Input::EOF);
        assert(esc.skip(2) =~= escape_string(x.skip(1)));
        assert(s.subrange(i + 2, i + esc.len() as int) =~= sub.skip(2));
        assert(s.subrange(i + 2, i + esc.len() as int) == escape_string(x.skip(1)));
        assert(forall|k: int| 0 <= k < x.skip(1).len() ==> #[trigger] x.skip(1)[k] != '\0');
        lemma_run_string(s, i + 2, x.skip(1));
        assert(spec_run(s, State::ReadEscapedCharacter, i + 1) == spec_run(
            s,
            State::ReadString,
            i + 2,
        ));
        assert(spec_run(s, State::ReadString, i) == spec_run(
            s,
            State::ReadEscapedCharacter,
            i + 1,
        ));
    } else {
        assert(esc == seq![x[0]] + escape_string(x.skip(1)));
        assert(s[i] == sub[0]);
        assert(s[i] == x[0]);
        assert(spec_char_to_input(s[i]) != Input::Tilt);
        assert(spec_char_to_input(s[i]) != Input::Backslash);
        assert(class_at(s, i) != Input::EOF);
        assert(esc.skip(1) =~= escape_string(x.skip(1)));
        assert(s.subrange(i + 1, i + esc.len() as int) =~= sub.skip(1));
        assert(s.subrange(i + 1, i + esc.len() as int) == escape_string(x.skip(1)));
        assert(forall|k: int| 0 <= k < x.skip(1).len() ==> #[trigger] x.skip(1)[k] != '\0');
        lemma_run_string(s, i + 1, x.skip(1));
        assert(spec_run(s, State::ReadString, i) == spec_run(s, State::ReadString, i + 1));
    }
}

/// Removing the escape backslashes undoes inserting them.
proof fn lemma_unescape_escape(x: Seq<char>)
    ensures
        unescape_string(escape_string(x)) == x,
    decreases x.len(),
{
    let esc = escape_string(x);
    if x.len() == 0 {
    } else if x[0] == '`' || x[0] == '\\' {
        assert(esc == seq!['\\', x[0]] + escape_string(x.skip(1)));
        lemma_unescape_escape(x.skip(1));
        assert(esc.skip(2) =~= escape_string(x.skip(1)));
        assert(unescape_string(esc) == seq![esc[1]] + unescape_string(esc.skip(2)));
        assert(seq![x[0]] + x.skip(1) =~= x);
    } else {
        assert(esc == seq![x[0]] + escape_string(x.skip(1)));
        lemma_unescape_escape(x.skip(1));
        assert(esc[0] == x[0]);
        assert(esc[0] != '\\');
        assert(esc.skip(1) =~= escape_string(x.skip(1)));
        assert(unescape_string(esc) == seq![esc[0]] + unescape_string(esc.skip(1)));
        assert(seq![x[0]] + x.skip(1) =~= x);
    }
}

/// Which input classes may follow a token's literal without extending it: an
/// unquoted word is extended by identifier characters; every other kind ends
/// at its own delimiter, whatever follows.
pub open spec fn term_ok(t: TokenView, c: Input) -> bool {
    match t {
        TokenView::BlockType(_) | TokenView::Identifier(_) | TokenView::SubBlockType(_) => !(c
            == Input::Character || c == Input::Phiten || c == Input::Underscore || c
            == Input::Digit),
        _ => true,
    }
}

/// A reconstructed literal is nonempty and starts with a significant
/// character.
proof fn lemma_restore_starts_significant(t: TokenView)
    requires
        wf_lexable(t),
    ensures
        spec_restore(t).len() > 0,
        !is_insignificant(spec_char_to_input(spec_restore(t)[0])),
{
    let r = spec_restore(t);
    match t {
        TokenView::BlockType(x) => {
            assert(r[0] == x[0]);
        },
        TokenView::Identifier(x) => {
            assert(r[0] == x[0]);
        },
        TokenView::SubBlockType(x) => {
            assert(r[0] == '.');
        },
        TokenView::BlockIdentifier(x) => {
            assert(r[0] == '"');
        },
        TokenView::StringValue(x) => {
            assert(r[0] == '`');
        },
        TokenView::Flag(b) => {
            assert(r[0] == (if b {
                '1'
            } else {
                '0'
            }));
        },
        TokenView::LeftBrace => {
            assert(r[0] == '{');
        },
        TokenView::RightBrace => {
            assert(r[0] == '}');
        },
        _ => {},
    }
}

/// One scan over a reconstructed literal yields the token back and stops
/// right after it: the token-level correctness of the tokenizer's round
/// trip. `p0` is where the scan starts; the insignificant characters before
/// `p`, where the literal stands, are skipped.
pub proof fn lemma_scan_restored(s: Seq<char>, p0: int, p: int, t: TokenView)
    requires
        0 <= p0 <= s.len(),
        wf_lexable(t),
        spec_skip(s, p0) == p,
        p + spec_restore(t).len() <= s.len(),
        s.subrange(p, p + spec_restore(t).len()) == spec_restore(t),
        term_ok(t, class_at(s, p + spec_restore(t).len())),
    ensures
        spec_scan(s, p0) == (t, p + spec_restore(t).len()),
{
    let r = spec_restore(t);
    let len = r.len() as int;
    let sub = s.subrange(p, p + len);
    lemma_restore_starts_significant(t);
    crate::lexer::lemma_skip_bounds(s, p0);
    assert(0 <= p);
    assert(s[p] == sub[0]);
    match t {
        TokenView::Flag(b) => {
            assert(s[p] == (if b {
                '1'
            } else {
                '0'
            }));
            assert(spec_char_to_input(s[p]) == Input::Digit);
            assert(spec_run(s, State::Start, p) == (State::EndDigit, p));
        },
        TokenView::LeftBrace => {
            assert(s[p] == '{');
            assert(spec_char_to_input(s[p]) == Input::Delimeter);
            assert(spec_run(s, State::Start, p) == (State::EndDelimeter, p));
        },
        TokenView::RightBrace => {
            assert(s[p] == '}');
            assert(spec_char_to_input(s[p]) == Input::Delimeter);
            assert(spec_run(s, State::Start, p) == (State::EndDelimeter, p));
        },
        TokenView::BlockType(x) => {
            lemma_scan_restored_word(s, p, x);
            assert(spec_keyword_token(x) == t);
        },
        TokenView::Identifier(x) => {
            lemma_scan_restored_word(s, p, x);
            assert(spec_keyword_token(x) == t);
        },
        TokenView::SubBlockType(x) => {
            assert(s[p] == '.');
            assert(spec_char_to_input(s[p]) == Input::Dot);
            assert forall|k: int| p + 1 <= k < p + len implies is_id_char(#[trigger] s[k]) by {
                assert(s[k] == sub[k - p]);
                assert(sub[k - p] == x[k - p - 1]);
            }
            lemma_run_ident(s, State::ReadSubBlockType, p + 1, p + len);
            assert(spec_run(s, State::Start, p) == spec_run(s, State::ReadSubBlockType, p + 1));
            assert(s.subrange(p + 1, p + len) =~= sub.skip(1));
            assert(r.skip(1) =~= x);
            assert(s.subrange(p + 1, p + len) == x);
        },
        TokenView::BlockIdentifier(x) => {
            assert(s[p] == '"');
            assert(spec_char_to_input(s[p]) == Input::DoubleQuote);
            let e = p + 1 + x.len() as int;
            assert forall|k: int|
                p + 1 <= k < e implies spec_char_to_input(#[trigger] s[k]) != Input::DoubleQuote
                && spec_char_to_input(s[k]) != Input::EOF by {
                assert(s[k] == sub[k - p]);
                assert(sub[k - p] == x[k - p - 1]);
            }
            assert(s[e] == sub[len - 1]);
            assert(sub[len - 1] == '"');
            assert(class_at(s, e) == Input::DoubleQuote);
            lemma_run_special(s, p + 1, e);
            assert(spec_run(s, State::Start, p) == spec_run(s, State::ReadSpecialIdentifier, p + 1));
            assert(s.subrange(p + 1, e) =~= sub.subrange(1, len - 1));
            assert(r.subrange(1, len - 1) =~= x);
            assert(s.subrange(p + 1, e) == x);
        },
        TokenView::StringValue(x) => {
            assert(s[p] == '`');
            assert(spec_char_to_input(s[p]) == Input::Tilt);
            let esc = escape_string(x);
            let e = p + 1 + esc.len() as int;
            assert(e == p + len - 1);
            assert(s.subrange(p + 1, e) =~= sub.subrange(1, len - 1));
            assert(r.subrange(1, len - 1) =~= esc);
            assert(s.subrange(p + 1, e) == esc);
            assert forall|k: int| 0 <= k < x.len() implies #[trigger] x[k] != '\0' by {
                assert(spec_char_to_input(x[k]) != Input::EOF);
            }
            assert(s[e] == sub[len - 1]);
            assert(sub[len - 1] == '`');
            assert(class_at(s, e) == Input::Tilt);
            lemma_run_string(s, p + 1, x);
            assert(spec_run(s, State::Start, p) == spec_run(s, State::ReadString, p + 1));
            lemma_unescape_escape(x);
        },
        _ => {},
    }
}

/// Helper for the word-shaped tokens: the machine reads the whole word and
/// maps it through the keyword table.
proof fn lemma_scan_restored_word(s: Seq<char>, p: int, x: Seq<char>)
    requires
        0 <= p,
        id_shape(x),
        p + x.len() <= s.len(),
        s.subrange(p, p + x.len()) == x,
        !(class_at(s, p + x.len()) == Input::Character || class_at(s, p + x.len())
            == Input::Phiten || class_at(s, p + x.len()) == Input::Underscore || class_at(
            s,
            p + x.len(),
        ) == Input::Digit),
    ensures
        spec_run(s, State::Start, p) == (State::EndIdentifier, p + x.len()),
        s.subrange(p, p + x.len()) == x,
{
    let len = x.len() as int;
    let sub = s.subrange(p, p + len);
    assert(s[p] == sub[0]);
    assert(sub[0] == x[0]);
    assert(spec_char_to_input(s[p]) == Input::Character || spec_char_to_input(s[p])
        == Input::Underscore);
    assert forall|k: int| p + 1 <= k < p + len implies is_id_char(#[trigger] s[k]) by {
        assert(s[k] == sub[k - p]);
        assert(sub[k - p] == x[k - p]);
    }
    lemma_run_ident(s, State::ReadIdentifier, p + 1, p + len);
    assert(spec_run(s, State::Start, p) == spec_run(s, State::ReadIdentifier, p + 1));
}

/// Round trip: re-lexing the reconstructed literal of any token the
/// tokenizer can produce — with its structural delimiters restored — yields
/// an equal token, followed by the end of the input.
pub proof fn lemma_round_trip(t: TokenView)
    requires
        wf_lexable(t),
    ensures
        spec_tokens(spec_restore(t)) == seq![t, TokenView::EndOfInput],
{
    let s = spec_restore(t);
    let len = s.len() as int;
    lemma_restore_starts_significant(t);
    lemma_skip_to(s, 0, 0);
    assert(s.subrange(0, len) =~= s);
    assert(class_at(s, len) == Input::EOF);
    lemma_scan_restored(s, 0, 0, t);
    assert(spec_scan(s, 0) == (t, len));
    lemma_skip_to(s, len, len);
    assert(spec_run(s, State::Start, len) == (State::EOF, len));
    assert(spec_scan(s, len) == (TokenView::EndOfInput, len));
    assert(spec_tokens_from(s, len) =~= seq![TokenView::EndOfInput]);
    assert(spec_tokens(s) =~= seq![t, TokenView::EndOfInput]);
}

/// The class at a shifted position: appending a prefix moves every position
/// by the prefix's length.
proof fn lemma_class_shift(a: Seq<char>, b: Seq<char>, i: int)
    requires
        0 <= i,
    ensures
        class_at(a + b, a.len() + i) == class_at(b, i),
{
    if i < b.len() {
        assert((a + b)[a.len() + i] == b[i]);
    }
}

/// Skipping never looks left of where it starts.
proof fn lemma_skip_shift(a: Seq<char>, b: Seq<char>, p: int)
    requires
        0 <= p,
    ensures
        spec_skip(a + b, a.len() + p) == a.len() + spec_skip(b, p),
    decreases b.len() - p,
{
    if p >= b.len() {
        assert((a + b).len() == a.len() + b.len());
    } else {
        assert((a + b)[a.len() + p] == b[p]);
        if is_insignificant(spec_char_to_input(b[p])) {
            lemma_skip_shift(a, b, p + 1);
        }
    }
}

/// A run never looks left of where it starts.
proof fn lemma_run_shift(a: Seq<char>, b: Seq<char>, st: State, i: int)
    requires
        crate::transition_table::spec_is_transitional(st),
        0 <= i <= b.len(),
    ensures
        spec_run(a + b, st, a.len() + i).0 == spec_run(b, st, i).0,
        spec_run(a + b, st, a.len() + i).1 == a.len() + spec_run(b, st, i).1,
    decreases b.len() - i,
{
    lemma_class_shift(a, b, i);
    let st2 = crate::transition_table::spec_transition(st, class_at(b, i));
    if crate::transition_table::spec_is_transitional(st2) {
        if i >= b.len() {
            assert(class_at(b, i) == Input::EOF);
        } else {
            lemma_run_shift(a, b, st2, i + 1);
        }
    }
}

/// A scan never looks left of where it starts: the token and the relative
/// stop position are those of the suffix alone.
proof fn lemma_scan_shift(a: Seq<char>, b: Seq<char>, p: int)
    requires
        0 <= p <= b.len(),
    ensures
        spec_scan(a + b, a.len() + p).0 == spec_scan(b, p).0,
        spec_scan(a + b, a.len() + p).1 == a.len() + spec_scan(b, p).1,
{
    let s = a + b;
    let al = a.len() as int;
    lemma_skip_shift(a, b, p);
    let start = spec_skip(b, p);
    crate::lexer::lemma_skip_bounds(b, p);
    lemma_run_shift(a, b, State::Start, start);
    let r = spec_run(b, State::Start, start);
    let term = r.0;
    let e = r.1;
    crate::lexer::lemma_run_bounds(b, State::Start, start);
    assert(spec_run(s, State::Start, al + start) == (term, al + e));
    assert forall|x: int, y: int| 0 <= x <= y <= b.len() implies s.subrange(al + x, al + y)
        =~= b.subrange(x, y) by {
        assert forall|j: int| 0 <= j < y - x implies s.subrange(al + x, al + y)[j] == b.subrange(
            x,
            y,
        )[j] by {
            assert(s.subrange(al + x, al + y)[j] == s[al + x + j]);
            assert(s[al + x + j] == b[x + j]);
        }
    }
    if e < b.len() {
        assert(s[al + e] == b[e]);
    }
    assert((e < b.len()) == (al + e < s.len()));
    lemma_class_shift(a, b, e);
    let st2 = crate::transition_table::spec_transition(State::Start, class_at(b, start));
    if !crate::transition_table::spec_is_transitional(st2) {
        assert(e == start);
        assert(term == st2);
        if term == State::Error || term == State::EndDelimeter || term == State::EndDigit {
            assert(class_at(b, start) != Input::EOF);
            assert(e < b.len());
            assert(s[al + e] == b[e]);
            assert(s.subrange(al + e, al + e + 1) =~= b.subrange(e, e + 1));
        }
    } else {
        assert(start < b.len());
        assert(spec_run(b, State::Start, start) == spec_run(b, st2, start + 1));
        crate::lexer::lemma_run_bounds(b, st2, start + 1);
        crate::lexer::lemma_run_terminal_entry(b, st2, start + 1);
        assert(start + 1 <= e);
        assert(s.subrange(al + start, al + e) =~= b.subrange(start, e));
        assert(s.subrange(al + start + 1, al + e) =~= b.subrange(start + 1, e));
    }
    if term == State::EOF {
        assert(spec_scan(b, p) == (TokenView::EndOfInput, e));
        assert(spec_scan(s, al + p) == (TokenView::EndOfInput, al + e));
    } else if term == State::Error {
        crate::lexer::lemma_run_error(b, State::Start, start);
        assert(e < b.len());
        assert(s[al + e] == b[e]);
        assert(s.subrange(al + e, al + e + 1) =~= b.subrange(e, e + 1));
        assert(spec_scan(b, p) == (TokenView::Illegal(b.subrange(e, e + 1)), e + 1));
        assert(spec_scan(s, al + p) == (TokenView::Illegal(b.subrange(e, e + 1)), al + e + 1));
    } else if term == State::EndDelimeter {
        assert(spec_scan(b, p).0 == spec_scan(s, al + p).0);
        assert(spec_scan(b, p).1 == e + 1);
        assert(spec_scan(s, al + p).1 == al + e + 1);
    } else if term == State::EndDigit {
        assert(spec_scan(b, p).0 == spec_scan(s, al + p).0);
        assert(spec_scan(b, p).1 == e + 1);
        assert(spec_scan(s, al + p).1 == al + e + 1);
    } else if term == State::EndIdentifier {
        assert(spec_scan(b, p).0 == spec_scan(s, al + p).0);
        assert(spec_scan(b, p).1 == e);
        assert(spec_scan(s, al + p).1 == al + e);
    } else if term == State::EndSubBlockType {
        assert(spec_scan(b, p).0 == spec_scan(s, al + p).0);
        assert(spec_scan(b, p).1 == e);
        assert(spec_scan(s, al + p).1 == al + e);
    } else if term == State::EndSpecialIdentifier {
        assert(spec_scan(b, p).0 == spec_scan(s, al + p).0);
        assert((e < b.len() && b[e] == '"') == (al + e < s.len() && s[al + e] == '"'));
        assert(spec_scan(b, p).1 == al + p - al - p + spec_scan(b, p).1);
        assert(spec_scan(s, al + p).1 == al + spec_scan(b, p).1);
    } else {
        assert(term == State::EndString);
        assert(spec_scan(b, p).0 == spec_scan(s, al + p).0);
        assert((e < b.len() && b[e] == '`') == (al + e < s.len() && s[al + e] == '`'));
        assert(spec_scan(s, al + p).1 == al + spec_scan(b, p).1);
    }
}

/// The token sequence of a suffix does not depend on what stands before it.
proof fn lemma_tokens_shift(a: Seq<char>, b: Seq<char>, p: int)
    requires
        0 <= p <= b.len(),
    ensures
        spec_tokens_from(a + b, a.len() + p) == spec_tokens_from(b, p),
    decreases b.len() - p,
{
    lemma_scan_shift(a, b, p);
    crate::lexer::lemma_scan_bounds(b, p);
    let r = spec_scan(b, p);
    let t = r.0;
    let q = r.1;
    if t == TokenView::EndOfInput {
    } else if t is Illegal {
    } else {
        assert(p < q <= b.len());
        assert((a + b).len() == a.len() + b.len());
        lemma_tokens_shift(a, b, q);
    }
}

/// A rendering of a token sequence: each token's reconstructed literal, with
/// a stretch of whitespace before each token and after the last.
pub open spec fn spec_render(ts: Seq<TokenView>, gaps: Seq<Seq<char>>) -> Seq<char>
    decreases ts.len(),
{
    if ts.len() == 0 {
        if gaps.len() > 0 {
            gaps[0]
        } else {
            Seq::empty()
        }
    } else {
        gaps[0] + spec_restore(ts[0]) + spec_render(ts.skip(1), gaps.skip(1))
    }
}

/// A stretch of whitespace: every character is whitespace or a newline.
pub open spec fn wf_gap(g: Seq<char>) -> bool {
    forall|j: int|
        0 <= j < g.len() ==> spec_char_to_input(#[trigger] g[j]) == Input::Whitespace
            || spec_char_to_input(g[j]) == Input::NewLine
}

/// Well-placed whitespace around a token sequence: one stretch per position,
/// each made of whitespace. A stretch between two tokens may be empty only
/// where the earlier token's literal cannot swallow the first character of
/// the later one; the leading and trailing stretches may always be empty.
pub open spec fn wf_gaps(ts: Seq<TokenView>, gaps: Seq<Seq<char>>) -> bool {
    &&& gaps.len() == ts.len() + 1
    &&& forall|k: int| 0 <= k < gaps.len() ==> wf_gap(#[trigger] gaps[k])
    &&& forall|k: int|
        0 < k < ts.len() && (#[trigger] gaps[k]).len() == 0 ==> term_ok(
            ts[k - 1],
            spec_char_to_input(spec_restore(ts[k])[0]),
        )
}

/// Every token of a sequence is one the tokenizer can produce.
pub open spec fn wf_tokens(ts: Seq<TokenView>) -> bool {
    forall|k: int| 0 <= k < ts.len() ==> wf_lexable(#[trigger] ts[k])
}

/// Rendering a token sequence with whitespace between tokens and re-lexing
/// it yields exactly that sequence back, however the whitespace is chosen.
#[verifier::rlimit(100)]
pub proof fn lemma_render_tokens(ts: Seq<TokenView>, gaps: Seq<Seq<char>>)
    requires
        wf_tokens(ts),
        wf_gaps(ts, gaps),
    ensures
        spec_tokens(spec_render(ts, gaps)) == ts.push(TokenView::EndOfInput),
    decreases ts.len(),
{
    let s = spec_render(ts, gaps);
    if ts.len() == 0 {
        let g = gaps[0];
        assert(s == g);
        assert forall|k: int| 0 <= k < s.len() implies is_insignificant(
            spec_char_to_input(#[trigger] s[k]),
        ) by {
            assert(wf_gap(gaps[0]));
        }
        lemma_skip_to(s, 0, s.len() as int);
        assert(class_at(s, s.len() as int) == Input::EOF);
        assert(spec_run(s, State::Start, s.len() as int) == (State::EOF, s.len() as int));
        assert(spec_scan(s, 0) == (TokenView::EndOfInput, s.len() as int));
        assert(spec_tokens_from(s, 0) =~= seq![TokenView::EndOfInput]);
        assert(ts.push(TokenView::EndOfInput) =~= seq![TokenView::EndOfInput]);
    } else {
        let g = gaps[0];
        let t = ts[0];
        let r = spec_restore(t);
        let rest = spec_render(ts.skip(1), gaps.skip(1));
        let gl = g.len() as int;
        let rl = r.len() as int;
        assert(wf_lexable(t));
        assert(wf_gap(gaps[0]));
        lemma_restore_starts_significant(t);
        assert(s == g + r + rest);
        assert(s.len() == gl + rl + rest.len());
        // the leading stretch is skipped
        assert forall|k: int| 0 <= k < gl implies is_insignificant(
            spec_char_to_input(#[trigger] s[k]),
        ) by {
            assert(s[k] == g[k]);
        }
        assert(s[gl] == r[0]);
        lemma_skip_to(s, 0, gl);
        // the literal stands right after it
        assert(s.subrange(gl, gl + rl) =~= r);
        // and is followed by whitespace or the end of the input
        let c = class_at(s, gl + rl);
        if gl + rl < s.len() {
            assert(s[gl + rl] == rest[0]);
            if ts.skip(1).len() == 0 {
                assert(rest == gaps.skip(1)[0]);
                assert(wf_gap(gaps[1]));
                assert(rest[0] == gaps[1][0]);
                assert(c == Input::Whitespace || c == Input::NewLine);
                assert(term_ok(t, c));
            } else {
                let g1 = gaps.skip(1)[0];
                let t1 = ts.skip(1)[0];
                assert(t1 == ts[1]);
                assert(wf_lexable(t1));
                assert(rest == g1 + spec_restore(t1) + spec_render(
                    ts.skip(1).skip(1),
                    gaps.skip(1).skip(1),
                ));
                assert(g1 == gaps[1]);
                assert(wf_gap(gaps[1]));
                if g1.len() > 0 {
                    assert(rest[0] == g1[0]);
                    assert(c == Input::Whitespace || c == Input::NewLine);
                    assert(term_ok(t, c));
                } else {
                    // an empty stretch is allowed only where the earlier
                    // token cannot swallow the later one's first character
                    lemma_restore_starts_significant(t1);
                    assert(rest[0] == spec_restore(t1)[0]);
                    assert(term_ok(ts[0], spec_char_to_input(spec_restore(ts[1])[0])));
                    assert(term_ok(t, c));
                }
            }
        } else {
            assert(c == Input::EOF);
            assert(term_ok(t, c));
        }
        lemma_scan_restored(s, 0, gl, t);
        // what follows the literal lexes on its own
        assert(s =~= (g + r) + rest);
        lemma_tokens_shift(g + r, rest, 0);
        assert(spec_tokens_from(s, gl + rl) == spec_tokens_from(rest, 0));
        assert forall|k: int| 0 <= k < ts.skip(1).len() implies wf_lexable(
            #[trigger] ts.skip(1)[k],
        ) by {
            assert(ts.skip(1)[k] == ts[k + 1]);
        }
        assert forall|k: int| 0 <= k < gaps.skip(1).len() implies wf_gap(
            #[trigger] gaps.skip(1)[k],
        ) by {
            assert(gaps.skip(1)[k] == gaps[k + 1]);
        }
        assert forall|k: int|
            0 < k < ts.skip(1).len() && (#[trigger] gaps.skip(1)[k]).len() == 0 implies term_ok(
            ts.skip(1)[k - 1],
            spec_char_to_input(spec_restore(ts.skip(1)[k])[0]),
        ) by {
            assert(gaps.skip(1)[k] == gaps[k + 1]);
            assert(ts.skip(1)[k - 1] == ts[k]);
            assert(ts.skip(1)[k] == ts[k + 1]);
        }
        lemma_render_tokens(ts.skip(1), gaps.skip(1));
        assert(spec_tokens_from(rest, 0) == ts.skip(1).push(TokenView::EndOfInput));
        assert(spec_tokens_from(s, 0) == seq![t] + spec_tokens_from(s, gl + rl));
        assert(spec_tokens(s) =~= ts.push(TokenView::EndOfInput));
    }
}

/// Whitespace idempotence: inserting or removing interspersed whitespace and
/// newlines between the tokens of a rendering does not change the resulting
/// token sequence.
pub proof fn lemma_whitespace_idempotence(
    ts: Seq<TokenView>,
    gaps1: Seq<Seq<char>>,
    gaps2: Seq<Seq<char>>,
)
    requires
        wf_tokens(ts),
        wf_gaps(ts, gaps1),
        wf_gaps(ts, gaps2),
    ensures
        spec_tokens(spec_render(ts, gaps1)) == spec_tokens(spec_render(ts, gaps2)),
{
    lemma_render_tokens(ts, gaps1);
    lemma_render_tokens(ts, gaps2);
}

/// Unterminated string: a source that opens a backtick and ends without
/// closing it still yields a string value spanning to the end of the input,
/// not an illegal token.
pub proof fn lemma_unterminated_string(x: Seq<char>)
    requires
        forall|k: int| 0 <= k < x.len() ==> x[k] != '`' && #[trigger] x[k] != '\0',
    ensures
        spec_scan(seq!['`'] + x, 0) == (
            TokenView::StringValue(unescape_string(x)),
            x.len() as int + 1,
        ),
        spec_tokens(seq!['`'] + x) == seq![
            TokenView::StringValue(unescape_string(x)),
            TokenView::EndOfInput,
        ],
{
    let s = seq!['`'] + x;
    assert(s[0] == '`');
    assert(spec_char_to_input(s[0]) == Input::Tilt);
    assert(!is_insignificant(spec_char_to_input(s[0])));
    lemma_skip_to(s, 0, 0);
    assert(forall|k: int| 1 <= k < s.len() ==> s[k] != '`' && #[trigger] s[k] != '\0');
    lemma_run_raw_string(s, 1);
    assert(spec_run(s, State::Start, 0) == spec_run(s, State::ReadString, 1));
    assert(s.subrange(1, s.len() as int) =~= x);
    assert(spec_scan(s, 0) == (TokenView::StringValue(unescape_string(x)), x.len() as int + 1));
    // after the string the scan is at the end of the input
    lemma_skip_to(s, s.len() as int, s.len() as int);
    assert(class_at(s, s.len() as int) == Input::EOF);
    assert(spec_scan(s, s.len() as int) == (TokenView::EndOfInput, s.len() as int));
    assert(spec_tokens_from(s, s.len() as int) =~= seq![TokenView::EndOfInput]);
    assert(spec_tokens(s) =~= seq![
        TokenView::StringValue(unescape_string(x)),
        TokenView::EndOfInput,
    ]);
}

} // verus!
