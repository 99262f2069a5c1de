//! The tokenizer: walks the source one character at a time applying the
//! transition table, and exposes the token sequence.
//!
//! The mathematical model lives in `spec_skip` (insignificant characters
//! before a token), `spec_run` (one run of the state machine), `spec_scan`
//! (one token and the position after it) and `spec_tokens_from` (the whole
//! token sequence); the executable `Lexer` is proved against it.

use vstd::prelude::*;

use crate::token::Token;
use crate::token::TokenView;
use crate::token::match_ident_to_keyword;
use crate::token::spec_keyword_token;
use crate::token::unescape_string;
use crate::transition_table::Input;
use crate::transition_table::State;
use crate::transition_table::TransitionTable;
use crate::transition_table::build_transition_table;
use crate::transition_table::char_to_input;
use crate::transition_table::is_transitional_state;
use crate::transition_table::spec_char_to_input;
use crate::transition_table::spec_is_transitional;
use crate::transition_table::spec_transition;

verus! {

/// Relies on `String::push`, which appends the given character to the end of
/// the string.
pub assume_specification[ String::push ](s: &mut String, ch: char)
    ensures
        final(s)@ == old(s)@.push(ch),
;

/// The input class of the character at a position; past the end of the source
/// it is the end-of-input class.
pub open spec fn class_at(s: Seq<char>, i: int) -> Input {
    if 0 <= i < s.len() {
        spec_char_to_input(s[i])
    } else {
        Input::EOF
    }
}

/// The classes the start state skips over: whitespace, newlines and the
/// insignificant colon separator.
pub open spec fn is_insignificant(c: Input) -> bool {
    spec_transition(State::Start, c) == State::Start
}

/// The first position at or after `i` holding a significant character, or the
/// end of the source.
pub open spec fn spec_skip(s: Seq<char>, i: int) -> int
    recommends
        0 <= i <= s.len(),
    decreases s.len() - i,
{
    if i < 0 || i >= s.len() {
        s.len() as int
    } else if is_insignificant(spec_char_to_input(s[i])) {
        spec_skip(s, i + 1)
    } else {
        i
    }
}

/// One run of the state machine: from transitional state `st`, about to
/// examine position `i`, the terminal state reached and the position at which
/// it was entered. The end of the input is itself a terminator, so every run
/// ends.
pub open spec fn spec_run(s: Seq<char>, st: State, i: int) -> (State, int)
    recommends
        spec_is_transitional(st),
        0 <= i <= s.len(),
    decreases s.len() - i,
{
    let st2 = spec_transition(st, class_at(s, i));
    if !spec_is_transitional(st2) {
        (st2, i)
    } else if i >= s.len() {
        // never reached: the end-of-input class ends every transitional state
        (State::Error, i)
    } else {
        spec_run(s, st2, i + 1)
    }
}

/// One token scanned at position `p`, and the position at which the next scan
/// starts: skip insignificant characters, run the machine from the start
/// state, and extract the literal with its structural delimiters trimmed.
pub open spec fn spec_scan(s: Seq<char>, p: int) -> (TokenView, int) {
    let start = spec_skip(s, p);
    let r = spec_run(s, State::Start, start);
    let term = r.0;
    let e = r.1;
    if term == State::EOF {
        (TokenView::EndOfInput, e)
    } else if term == State::Error {
        (TokenView::Illegal(s.subrange(e, e + 1)), e + 1)
    } else if term == State::EndDelimeter {
        (if s[e] == '{' {
            TokenView::LeftBrace
        } else {
            TokenView::RightBrace
        }, e + 1)
    } else if term == State::EndDigit {
        (TokenView::Flag(s[e] == '1'), e + 1)
    } else if term == State::EndIdentifier {
        (spec_keyword_token(s.subrange(start, e)), e)
    } else if term == State::EndSubBlockType {
        (TokenView::SubBlockType(s.subrange(start + 1, e)), e)
    } else if term == State::EndSpecialIdentifier {
        (TokenView::BlockIdentifier(s.subrange(start + 1, e)), if e < s.len() && s[e] == '"' {
            e + 1
        } else {
            e
        })
    } else {
        (TokenView::StringValue(unescape_string(s.subrange(start + 1, e))), if e < s.len() && s[e]
            == '`' {
            e + 1
        } else {
            e
        })
    }
}

/// The token sequence of the source from position `p` on. The sequence ends
/// with the first end-of-input or illegal token: the tokenizer performs no
/// error recovery. The third branch keeps the recursion well-founded;
/// `lemma_scan_bounds` shows it never fires.
pub open spec fn spec_tokens_from(s: Seq<char>, p: int) -> Seq<TokenView>
    recommends
        0 <= p <= s.len(),
    decreases s.len() - p,
{
    let r = spec_scan(s, p);
    let t = r.0;
    let q = r.1;
    if t == TokenView::EndOfInput {
        seq![t]
    } else if t is Illegal {
        seq![t]
    } else if !(p < q <= s.len()) {
        seq![t]
    } else {
        seq![t] + spec_tokens_from(s, q)
    }
}

/// The token sequence of a whole source.
pub open spec fn spec_tokens(s: Seq<char>) -> Seq<TokenView> {
    spec_tokens_from(s, 0)
}

/// Skipping never moves backwards, never past the end, and stops at a
/// significant character.
pub proof fn lemma_skip_bounds(s: Seq<char>, i: int)
    requires
        0 <= i <= s.len(),
    ensures
        i <= spec_skip(s, i) <= s.len(),
        spec_skip(s, i) < s.len() ==> !is_insignificant(spec_char_to_input(s[spec_skip(s, i)])),
    decreases s.len() - i,
{
    if i < s.len() && is_insignificant(spec_char_to_input(s[i])) {
        lemma_skip_bounds(s, i + 1);
    }
}

/// A run ends at or after where it started, within the source bounds plus
/// the end position, in a terminal state.
pub proof fn lemma_run_bounds(s: Seq<char>, st: State, i: int)
    requires
        spec_is_transitional(st),
        0 <= i <= s.len(),
    ensures
        i <= spec_run(s, st, i).1 <= s.len(),
        !spec_is_transitional(spec_run(s, st, i).0),
    decreases s.len() - i,
{
    let st2 = spec_transition(st, class_at(s, i));
    if spec_is_transitional(st2) && i < s.len() {
        lemma_run_bounds(s, st2, i + 1);
    }
}

/// A scan stays within the source, and every token but the end-of-input one
/// consumes at least one character.
pub proof fn lemma_scan_bounds(s: Seq<char>, p: int)
    requires
        0 <= p <= s.len(),
    ensures
        p <= spec_scan(s, p).1 <= s.len(),
        !(spec_scan(s, p).0 == TokenView::EndOfInput) ==> p < spec_scan(s, p).1,
{
    lemma_skip_bounds(s, p);
    let start = spec_skip(s, p);
    lemma_run_bounds(s, State::Start, start);
    let r = spec_run(s, State::Start, start);
    let term = r.0;
    let e = r.1;
    let st2 = spec_transition(State::Start, class_at(s, start));
    if !spec_is_transitional(st2) {
        // the machine ended on its first step: a one-character token or the end
        assert(e == start);
        assert(term == st2);
        if term != State::EOF {
            assert(class_at(s, start) != Input::EOF);
            assert(start < s.len());
        }
    } else {
        assert(st2 != State::Start);
        assert(r == spec_run(s, st2, start + 1));
        lemma_run_bounds(s, st2, start + 1);
        assert(e >= start + 1);
        if term == State::EOF || term == State::Error || term == State::EndDelimeter || term
            == State::EndDigit {
            // these terminals are entered only from the start state
            lemma_run_terminal_entry(s, st2, start + 1);
        }
    }
}

/// The terminals a run from a non-start transitional state can enter: never
/// the start-state-only boundaries.
pub(crate) proof fn lemma_run_terminal_entry(s: Seq<char>, st: State, i: int)
    requires
        spec_is_transitional(st),
        st != State::Start,
        0 <= i <= s.len(),
    ensures
        spec_run(s, st, i).0 != State::EOF,
        spec_run(s, st, i).0 != State::Error,
        spec_run(s, st, i).0 != State::EndDelimeter,
        spec_run(s, st, i).0 != State::EndDigit,
    decreases s.len() - i,
{
    let st2 = spec_transition(st, class_at(s, i));
    if spec_is_transitional(st2) && i < s.len() {
        lemma_run_terminal_entry(s, st2, i + 1);
    }
}

/// A run that ends in the error boundary stopped on an offending character
/// inside the source: the end of the input never produces it.
pub(crate) proof fn lemma_run_error(s: Seq<char>, st: State, i: int)
    requires
        spec_is_transitional(st),
        0 <= i <= s.len(),
    ensures
        spec_run(s, st, i).0 == State::Error ==> spec_run(s, st, i).1 < s.len(),
    decreases s.len() - i,
{
    let st2 = spec_transition(st, class_at(s, i));
    if spec_is_transitional(st2) && i < s.len() {
        lemma_run_error(s, st2, i + 1);
    }
}

/// Facts about the character a run's terminal state was entered on.
proof fn lemma_terminal_entry(p: State, c: Input)
    requires
        spec_is_transitional(p),
    ensures
        spec_transition(p, c) == State::EndDelimeter ==> c == Input::Delimeter,
        spec_transition(p, c) == State::EndDigit ==> c == Input::Digit,
        spec_transition(p, c) == State::Error ==> c != Input::EOF,
        spec_transition(p, c) == State::EOF ==> c == Input::EOF,
{
}

/// The tokenizer. It owns its own immutable copy of the source and the
/// transition table; each call of `next_token` scans one token and advances.
pub struct Lexer {
    chars: Vec<char>,
    pos: usize,
    transition_table: TransitionTable,
}

impl Lexer {
    /// Well-formed: the position is within the source and the table is the
    /// documented one.
    pub closed spec fn wf(&self) -> bool {
        &&& self.pos <= self.chars@.len()
        &&& self.transition_table.wf()
    }

    /// The source the tokenizer walks.
    pub closed spec fn src(&self) -> Seq<char> {
        self.chars@
    }

    /// The position of the next scan.
    pub closed spec fn position(&self) -> int {
        self.pos as int
    }

    /// A well-formed tokenizer's position is within its source.
    pub proof fn lemma_wf_bounds(&self)
        requires
            self.wf(),
        ensures
            0 <= self.position() <= self.src().len(),
    {
    }

    /// A fresh tokenizer over the given source, at its beginning.
    pub fn new(input: &str) -> (lx: Lexer)
        ensures
            lx.wf(),
            lx.src() == input@,
            lx.position() == 0,
    {
        let n = input.unicode_len();
        let mut chars: Vec<char> = Vec::new();
        let mut i: usize = 0;
        while i < n
            invariant
                i <= n,
                n == input@.len(),
                chars@ == input@.subrange(0, i as int),
            decreases n - i,
        {
            chars.push(input.get_char(i));
            proof {
                assert(input@.subrange(0, (i + 1) as int) =~= input@.subrange(0, i as int).push(
                    input@[i as int],
                ));
            }
            i += 1;
        }
        proof {
            assert(chars@ =~= input@);
        }
        Lexer { chars, pos: 0, transition_table: build_transition_table() }
    }

    /// The input class of the character at a position; past the end it is the
    /// end-of-input class.
    fn class_of(&self, idx: usize) -> (r: Input)
        ensures
            r == class_at(self.chars@, idx as int),
    {
        if idx < self.chars.len() {
            char_to_input(self.chars[idx])
        } else {
            Input::EOF
        }
    }

    /// The literal spanning [from, to), as an owned string.
    fn extract(&self, from: usize, to: usize) -> (r: String)
        requires
            from <= to <= self.chars@.len(),
        ensures
            r@ == self.chars@.subrange(from as int, to as int),
    {
        let mut r = String::new();
        let mut k = from;
        while k < to
            invariant
                from <= k <= to <= self.chars@.len(),
                r@ == self.chars@.subrange(from as int, k as int),
            decreases to - k,
        {
            r.push(self.chars[k]);
            proof {
                assert(self.chars@.subrange(from as int, (k + 1) as int) =~= self.chars@.subrange(
                    from as int,
                    k as int,
                ).push(self.chars@[k as int]));
            }
            k += 1;
        }
        r
    }

    /// The literal spanning [from, to) with its escape backslashes removed: a
    /// backslash escapes the following character, whatever it is.
    fn extract_unescaped(&self, from: usize, to: usize) -> (r: String)
        requires
            from <= to <= self.chars@.len(),
        ensures
            r@ == unescape_string(self.chars@.subrange(from as int, to as int)),
    {
        let ghost whole = self.chars@.subrange(from as int, to as int);
        let mut r = String::new();
        let mut k = from;
        while k < to
            invariant
                from <= k <= to <= self.chars@.len(),
                whole == self.chars@.subrange(from as int, to as int),
                unescape_string(whole) == r@ + unescape_string(
                    self.chars@.subrange(k as int, to as int),
                ),
            decreases to - k,
        {
            let ghost rest = self.chars@.subrange(k as int, to as int);
            let c = self.chars[k];
            if c == '\\' {
                if k + 1 < to {
                    r.push(self.chars[k + 1]);
                    proof {
                        assert(rest.skip(2) =~= self.chars@.subrange((k + 2) as int, to as int));
                        assert(unescape_string(rest) == seq![rest[1]] + unescape_string(
                            rest.skip(2),
                        ));
                        assert(r@ + unescape_string(self.chars@.subrange((k + 2) as int, to as int))
                            =~= unescape_string(whole));
                    }
                    k += 2;
                } else {
                    proof {
                        assert(rest.len() == 1);
                        assert(unescape_string(rest) =~= Seq::<char>::empty());
                        assert(self.chars@.subrange((k + 1) as int, to as int).len() == 0);
                        assert(unescape_string(self.chars@.subrange((k + 1) as int, to as int))
                            =~= Seq::<char>::empty());
                    }
                    k += 1;
                }
            } else {
                r.push(c);
                proof {
                    assert(rest.skip(1) =~= self.chars@.subrange((k + 1) as int, to as int));
                    assert(unescape_string(rest) == seq![rest[0]] + unescape_string(rest.skip(1)));
                    assert(r@ + unescape_string(self.chars@.subrange((k + 1) as int, to as int))
                        =~= unescape_string(whole));
                }
                k += 1;
            }
        }
        proof {
            assert(unescape_string(self.chars@.subrange(k as int, to as int)) =~= Seq::<
                char,
            >::empty());
            assert(r@ =~= unescape_string(whole));
        }
        r
    }

    /// Grab the next token that can be identified in the input: skip
    /// insignificant characters, run the state machine to a terminal state,
    /// and extract the literal. Callable repeatedly; at the end of the input
    /// it keeps returning the end-of-input token.
    pub fn next_token(&mut self) -> (t: Token)
        requires
            old(self).wf(),
        ensures
            final(self).wf(),
            final(self).src() == old(self).src(),
            t@ == spec_scan(old(self).src(), old(self).position()).0,
            final(self).position() == spec_scan(old(self).src(), old(self).position()).1,
    {
        let ghost s = self.chars@;
        let ghost p0 = self.pos as int;

        // skip whitespace, newlines and the insignificant colon separator
        loop
            invariant
                self.wf(),
                self.chars@ == s,
                0 <= p0 <= s.len(),
                p0 <= self.pos as int,
                spec_skip(s, p0) == spec_skip(s, self.pos as int),
            ensures
                self.wf(),
                self.chars@ == s,
                p0 <= self.pos as int,
                spec_skip(s, p0) == self.pos as int,
            decreases self.chars@.len() - self.pos,
        {
            if self.pos >= self.chars.len() {
                break ;
            }
            let cl = char_to_input(self.chars[self.pos]);
            if !(cl == Input::Whitespace || cl == Input::NewLine || cl == Input::Colon) {
                break ;
            }
            self.pos += 1;
        }
        let start = self.pos;

        let mut state = self.transition_table.lookup(State::Start, self.class_of(start));
        let mut i = start;
        let ghost mut prev: State = State::Start;
        while is_transitional_state(state)
            invariant
                self.wf(),
                self.chars@ == s,
                start <= i,
                i as int <= self.chars@.len(),
                spec_is_transitional(prev),
                state == spec_transition(prev, class_at(s, i as int)),
                i == start ==> prev == State::Start,
                spec_is_transitional(state) ==> i < self.chars@.len(),
                !spec_is_transitional(state) ==> spec_run(s, State::Start, start as int) == (
                state,
                i as int,
                ),
                spec_is_transitional(state) ==> spec_run(s, State::Start, start as int)
                    == spec_run(s, state, i as int + 1),
            decreases self.chars@.len() - i,
        {
            proof {
                prev = state;
            }
            let n = self.chars.len();
            proof {
                assert(i < n);
            }
            i += 1;
            state = self.transition_table.lookup(state, self.class_of(i));
        }
        let ghost term = state;
        let ghost e = i as int;
        proof {
            assert(spec_run(s, State::Start, start as int) == (term, e));
            lemma_terminal_entry(prev, class_at(s, e));
        }

        match state {
            State::EOF => {
                self.pos = i;
                Token::EndOfInput
            },
            State::EndDelimeter => {
                proof {
                    assert(class_at(s, e) == Input::Delimeter);
                    assert(e < s.len());
                }
                let n = self.chars.len();
                proof {
                    assert(i < n);
                }
                let ch = self.chars[i];
                self.pos = i + 1;
                if ch == '{' {
                    Token::LeftBrace
                } else {
                    Token::RightBrace
                }
            },
            State::EndDigit => {
                proof {
                    assert(class_at(s, e) == Input::Digit);
                    assert(e < s.len());
                }
                let n = self.chars.len();
                proof {
                    assert(i < n);
                }
                let ch = self.chars[i];
                self.pos = i + 1;
                Token::Flag(ch == '1')
            },
            State::EndIdentifier => {
                let lit = self.extract(start, i);
                self.pos = i;
                match_ident_to_keyword(lit)
            },
            State::EndSubBlockType => {
                proof {
                    assert(i != start);
                }
                let lit = self.extract(start + 1, i);
                self.pos = i;
                Token::SubBlockType(lit)
            },
            State::EndSpecialIdentifier => {
                proof {
                    assert(i != start);
                }
                let lit = self.extract(start + 1, i);
                if i < self.chars.len() && self.chars[i] == '"' {
                    self.pos = i + 1;
                } else {
                    self.pos = i;
                }
                Token::BlockIdentifier(lit)
            },
            State::EndString => {
                proof {
                    assert(i != start);
                }
                let lit = self.extract_unescaped(start + 1, i);
                if i < self.chars.len() && self.chars[i] == '`' {
                    self.pos = i + 1;
                } else {
                    self.pos = i;
                }
                Token::StringValue(lit)
            },
            _ => {
                proof {
                    assert(term == State::Error);
                    assert(class_at(s, e) != Input::EOF);
                    assert(e < s.len());
                }
                let n = self.chars.len();
                proof {
                    assert(i < n);
                }
                let lit = self.extract(i, i + 1);
                self.pos = i + 1;
                Token::Illegal(lit)
            },
        }
    }
}

} // verus!
