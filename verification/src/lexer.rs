//! Lexing: splitting raw source bytes into whitespace-delimited tokens, each
//! tagged with its 1-based source line.

use vstd::prelude::*;

verus! {

/// A whitespace-delimited fragment of source text together with the 1-based
/// line it came from.
#[derive(Clone, Debug, PartialEq, Eq)]
pub struct Token {
    pub line: usize,
    pub text: Vec<u8>,
}

/// The bytes that separate tokens: ASCII space, horizontal tab, line feed,
/// vertical tab, form feed and carriage return.
pub open spec fn is_space(b: u8) -> bool {
    b == 32 || b == 9 || b == 10 || b == 11 || b == 12 || b == 13
}

/// Index just past the maximal run of non-space bytes starting at `i`.
pub open spec fn token_end(s: Seq<u8>, i: int) -> int
    decreases s.len() - i,
{
    if i < 0 || i >= s.len() || is_space(s[i]) {
        i
    } else {
        token_end(s, i + 1)
    }
}

pub proof fn lemma_token_end_bounds(s: Seq<u8>, i: int)
    requires
        0 <= i <= s.len(),
    ensures
        i <= token_end(s, i) <= s.len(),
    decreases s.len() - i,
{
    if i < s.len() && !is_space(s[i]) {
        lemma_token_end_bounds(s, i + 1);
    }
}

/// The (line, token text) pairs of `s` from position `i` on; `line` is the
/// 1-based line number at position `i`.
pub open spec fn lex_spec(s: Seq<u8>, i: int, line: nat) -> Seq<(nat, Seq<u8>)>
    decreases s.len() - i
    via lex_spec_dec
{
    if i < 0 || i >= s.len() {
        Seq::empty()
    } else if s[i] == 10 {
        lex_spec(s, i + 1, line + 1)
    } else if is_space(s[i]) {
        lex_spec(s, i + 1, line)
    } else {
        seq![(line, s.subrange(i, token_end(s, i)))] + lex_spec(s, token_end(s, i), line)
    }
}

#[via_fn]
proof fn lex_spec_dec(s: Seq<u8>, i: int, line: nat) {
    if 0 <= i < s.len() && !is_space(s[i]) {
        lemma_token_end_bounds(s, i + 1);
        assert(token_end(s, i) == token_end(s, i + 1));
    }
}

/// The (line, text) pairs a sequence of tokens stands for.
pub open spec fn toks_view(ts: Seq<Token>) -> Seq<(nat, Seq<u8>)> {
    ts.map_values(|t: Token| (t.line as nat, t.text@))
}

/// Lexing is a pure function of the source text: equal sources lex to equal
/// token sequences.
pub proof fn lemma_lex_deterministic(s1: Seq<u8>, s2: Seq<u8>)
    requires
        s1 == s2,
    ensures
        lex_spec(s1, 0, 1) == lex_spec(s2, 0, 1),
{
}

fn is_space_byte(b: u8) -> (r: bool)
    ensures
        r == is_space(b),
{
    b == 32 || b == 9 || b == 10 || b == 11 || b == 12 || b == 13
}

/// Splits the source into tokens in source order: one token per maximal run
/// of non-whitespace bytes, tagged with the 1-based line it starts on.
pub fn lex(src: &[u8]) -> (tokens: Vec<Token>)
    requires
        src@.len() < usize::MAX,
    ensures
        toks_view(tokens@) == lex_spec(src@, 0, 1),
{
    let ghost s = src@;
    let mut tokens: Vec<Token> = Vec::new();
    let mut i: usize = 0;
    let mut line: usize = 1;
    while i < src.len()
        invariant
            src@ == s,
            i <= s.len() < usize::MAX,
            1 <= line,
            line <= i + 1,
            lex_spec(s, 0, 1) == toks_view(tokens@) + lex_spec(s, i as int, line as nat),
        decreases s.len() - i,
    {
        let b = src[i];
        if b == 10 {
            proof {
                assert(lex_spec(s, i as int, line as nat) == lex_spec(
                    s,
                    i + 1,
                    (line + 1) as nat,
                ));
            }
            i += 1;
            line += 1;
        } else if is_space_byte(b) {
            proof {
                assert(lex_spec(s, i as int, line as nat) == lex_spec(s, i + 1, line as nat));
            }
            i += 1;
        } else {
            let start = i;
            while i < src.len() && !is_space_byte(src[i])
                invariant
                    src@ == s,
                    start <= i <= s.len(),
                    token_end(s, start as int) == token_end(s, i as int),
                decreases s.len() - i,
            {
                proof {
                    assert(token_end(s, i as int) == token_end(s, i + 1));
                }
                i += 1;
            }
            proof {
                assert(token_end(s, i as int) == i as int);
                lemma_token_end_bounds(s, start as int);
            }
            let mut text: Vec<u8> = Vec::new();
            let mut k = start;
            while k < i
                invariant
                    src@ == s,
                    start <= k <= i <= s.len(),
                    text@ == s.subrange(start as int, k as int),
                decreases i - k,
            {
                text.push(src[k]);
                k += 1;
                proof {
                    assert(text@ =~= s.subrange(start as int, k as int));
                }
            }
            let ghost prev = tokens@;
            tokens.push(Token { line, text });
            proof {
                assert(toks_view(tokens@) =~= toks_view(prev) + seq![
                    (line as nat, s.subrange(start as int, i as int)),
                ]);
                assert(lex_spec(s, start as int, line as nat) == seq![
                    (line as nat, s.subrange(start as int, i as int)),
                ] + lex_spec(s, i as int, line as nat));
                assert(toks_view(prev) + lex_spec(s, start as int, line as nat) =~= toks_view(
                    tokens@,
                ) + lex_spec(s, i as int, line as nat));
            }
        }
    }
    proof {
        assert(lex_spec(s, i as int, line as nat) == Seq::<(nat, Seq<u8>)>::empty());
        assert(toks_view(tokens@) + lex_spec(s, i as int, line as nat) =~= toks_view(tokens@));
    }
    tokens
}

} // verus!
