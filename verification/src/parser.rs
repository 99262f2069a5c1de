//! Driving the tokenizer over a whole source: the token sequence as a vector.

use vstd::prelude::*;

use crate::lexer::Lexer;
use crate::lexer::lemma_scan_bounds;
use crate::lexer::spec_tokens;
use crate::lexer::spec_tokens_from;
use crate::token::Token;
use crate::token::TokenView;

verus! {

/// The spec-level shadow of a token vector.
pub open spec fn views_of(ts: Seq<Token>) -> Seq<TokenView> {
    ts.map_values(|t: Token| t@)
}

/// Drains a tokenizer: every token up to and including the first end-of-input
/// or illegal token, after which the tokenizer has nothing more to say.
pub fn collect_tokens(lexer: &mut Lexer) -> (tokens: Vec<Token>)
    requires
        old(lexer).wf(),
    ensures
        final(lexer).wf(),
        final(lexer).src() == old(lexer).src(),
        views_of(tokens@) == spec_tokens_from(old(lexer).src(), old(lexer).position()),
{
    let ghost s = old(lexer).src();
    let ghost p_start = old(lexer).position();
    proof {
        lexer.lemma_wf_bounds();
    }
    let mut tokens: Vec<Token> = Vec::new();
    loop
        invariant_except_break
            spec_tokens_from(s, p_start) == views_of(tokens@) + spec_tokens_from(
                s,
                lexer.position(),
            ),
        invariant
            lexer.wf(),
            lexer.src() == s,
            0 <= p_start <= s.len(),
            0 <= lexer.position() <= s.len(),
        ensures
            lexer.wf(),
            lexer.src() == s,
            views_of(tokens@) == spec_tokens_from(s, p_start),
        decreases s.len() - lexer.position() + 1,
    {
        let ghost p = lexer.position();
        let t = lexer.next_token();
        proof {
            lemma_scan_bounds(s, p);
            lexer.lemma_wf_bounds();
        }
        let stop = match &t {
            Token::EndOfInput => true,
            Token::Illegal(_) => true,
            _ => false,
        };
        let ghost tv = t@;
        let ghost before = tokens@;
        tokens.push(t);
        proof {
            assert(views_of(tokens@) =~= views_of(before).push(tv));
            if stop {
                assert(spec_tokens_from(s, p) =~= seq![tv]);
                assert(spec_tokens_from(s, p_start) =~= views_of(tokens@));
            } else {
                assert(spec_tokens_from(s, p) =~= seq![tv] + spec_tokens_from(
                    s,
                    lexer.position(),
                ));
                assert(spec_tokens_from(s, p_start) =~= views_of(tokens@) + spec_tokens_from(
                    s,
                    lexer.position(),
                ));
            }
        }
        if stop {
            break ;
        }
    }
    tokens
}

/// Tokenizes a whole source: the token sequence up to and including the first
/// end-of-input or illegal token.
pub fn parse(input_string: &str) -> (tokens: Vec<Token>)
    ensures
        views_of(tokens@) == spec_tokens(input_string@),
{
    let mut lexer = Lexer::new(input_string);
    collect_tokens(&mut lexer)
}

} // verus!
