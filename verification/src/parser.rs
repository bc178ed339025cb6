//! Parsing: classifying each token as an operator of the fixed vocabulary or
//! as a signed 64-bit decimal literal, in token order, rejecting the program
//! at the first token that is neither.

use vstd::prelude::*;

use crate::lexer::{toks_view, Token};

verus! {

/// One instruction of the language: a closed set of operations, with an
/// operand carried by `Push` alone.
#[derive(Clone, Copy, Debug, PartialEq, Eq, Structural)]
pub enum Op {
    Push(i64),
    Add,
    Sub,
    Equal,
    Dump,
}

/// The fatal diagnostic for a token that is neither an operator of the
/// vocabulary nor a signed 64-bit decimal literal.
#[derive(Clone, Debug, PartialEq, Eq)]
pub struct LexError {
    /// 1-based source line the offending token came from.
    pub line: usize,
    /// The offending token's text, byte for byte.
    pub token: Vec<u8>,
}

pub open spec fn is_digit(b: u8) -> bool {
    48 <= b <= 57
}

pub open spec fn all_digits(t: Seq<u8>) -> bool {
    forall|k: int| 0 <= k < t.len() ==> is_digit(t[k])
}

/// Value of a digit string, most significant digit first.
pub open spec fn digits_val(t: Seq<u8>) -> int
    decreases t.len(),
{
    if t.len() == 0 {
        0
    } else {
        digits_val(t.drop_last()) * 10 + (t.last() - 48)
    }
}

/// The digits of a literal: everything after the optional leading minus.
pub open spec fn lit_body(t: Seq<u8>) -> Seq<u8> {
    if t.len() >= 1 && t[0] == 45 {
        t.skip(1)
    } else {
        t
    }
}

/// Signed value of a literal (meaningful when the body is all digits).
pub open spec fn lit_val(t: Seq<u8>) -> int {
    if t.len() >= 1 && t[0] == 45 {
        -digits_val(t.skip(1))
    } else {
        digits_val(t)
    }
}

/// A base-10 signed 64-bit literal: an optional leading minus, then at least
/// one digit and nothing else, whose value fits in `i64`.
pub open spec fn is_int_literal(t: Seq<u8>) -> bool {
    &&& lit_body(t).len() >= 1
    &&& all_digits(lit_body(t))
    &&& i64::MIN <= lit_val(t) <= i64::MAX
}

/// Token classification: the operator vocabulary takes precedence, then the
/// integer literals; everything else is invalid.
pub open spec fn classify(text: Seq<u8>) -> Option<Op> {
    if text == seq![43u8] {
        Some(Op::Add)
    } else if text == seq![45u8] {
        Some(Op::Sub)
    } else if text == seq![63u8, 61u8] {
        Some(Op::Equal)
    } else if text == seq![100u8, 117u8, 109u8, 112u8] {
        Some(Op::Dump)
    } else if is_int_literal(text) {
        Some(Op::Push(lit_val(text) as i64))
    } else {
        None
    }
}

/// The program a token sequence parses to, or the first unparsable token
/// as (line, text).
pub open spec fn parse_spec(toks: Seq<(nat, Seq<u8>)>) -> Result<Seq<Op>, (nat, Seq<u8>)>
    decreases toks.len(),
{
    if toks.len() == 0 {
        Ok(Seq::empty())
    } else {
        match classify(toks[0].1) {
            Some(op) => match parse_spec(toks.skip(1)) {
                Ok(rest) => Ok(seq![op] + rest),
                Err(e) => Err(e),
            },
            None => Err(toks[0]),
        }
    }
}

/// A parsed program has exactly one instruction per token consumed.
pub proof fn lemma_parse_spec_len(toks: Seq<(nat, Seq<u8>)>)
    ensures
        parse_spec(toks) matches Ok(p) ==> p.len() == toks.len(),
    decreases toks.len(),
{
    if toks.len() > 0 {
        lemma_parse_spec_len(toks.skip(1));
    }
}

/// A token sequence whose first unrecognized token stands at `j` is rejected
/// with exactly that token's line and text.
pub proof fn lemma_first_invalid_token(toks: Seq<(nat, Seq<u8>)>, j: int)
    requires
        0 <= j < toks.len(),
        classify(toks[j].1) is None,
        forall|k: int| 0 <= k < j ==> classify(#[trigger] toks[k].1) is Some,
    ensures
        parse_spec(toks) == Err::<Seq<Op>, (nat, Seq<u8>)>(toks[j]),
    decreases j,
{
    if j > 0 {
        assert forall|k: int| 0 <= k < j - 1 implies classify(
            #[trigger] toks.skip(1)[k].1,
        ) is Some by {
            assert(toks.skip(1)[k] == toks[k + 1]);
        }
        assert(toks.skip(1)[j - 1] == toks[j]);
        lemma_first_invalid_token(toks.skip(1), j - 1);
    }
}

proof fn lemma_all_digits_drop_last(t: Seq<u8>)
    requires
        all_digits(t),
        t.len() > 0,
    ensures
        all_digits(t.drop_last()),
{
    assert forall|k: int| 0 <= k < t.drop_last().len() implies is_digit(
        #[trigger] t.drop_last()[k],
    ) by {
        assert(t.drop_last()[k] == t[k]);
    }
}

proof fn lemma_digits_val_nonneg(t: Seq<u8>)
    requires
        all_digits(t),
    ensures
        digits_val(t) >= 0,
    decreases t.len(),
{
    if t.len() > 0 {
        lemma_all_digits_drop_last(t);
        lemma_digits_val_nonneg(t.drop_last());
    }
}

/// Appending digits can only grow a digit string's value.
proof fn lemma_digits_val_mono(t: Seq<u8>, m: int)
    requires
        all_digits(t),
        0 <= m <= t.len(),
    ensures
        digits_val(t.take(m)) <= digits_val(t),
        digits_val(t) >= 0,
    decreases t.len(),
{
    lemma_digits_val_nonneg(t);
    if m == t.len() {
        assert(t.take(m) =~= t);
    } else {
        lemma_all_digits_drop_last(t);
        assert(t.drop_last().take(m) =~= t.take(m));
        lemma_digits_val_mono(t.drop_last(), m);
    }
}

fn copy_bytes(t: &Vec<u8>) -> (r: Vec<u8>)
    ensures
        r@ == t@,
{
    let mut r: Vec<u8> = Vec::new();
    let mut k: usize = 0;
    while k < t.len()
        invariant
            k <= t@.len(),
            r@ == t@.subrange(0, k as int),
        decreases t@.len() - k,
    {
        r.push(t[k]);
        k += 1;
        proof {
            assert(r@ =~= t@.subrange(0, k as int));
        }
    }
    proof {
        assert(t@.subrange(0, t@.len() as int) =~= t@);
    }
    r
}

/// Reads a token's text as a base-10 signed 64-bit literal, if it is one.
fn parse_i64(t: &Vec<u8>) -> (r: Option<i64>)
    ensures
        is_int_literal(t@) ==> (r matches Some(v) && v as int == lit_val(t@)),
        !is_int_literal(t@) ==> r is None,
{
    let n = t.len();
    if n == 0 {
        return None;
    }
    let neg = t[0] == 45;
    let start: usize = if neg {
        1
    } else {
        0
    };
    if start == n {
        return None;
    }
    let ghost body = lit_body(t@);
    proof {
        assert(body =~= t@.subrange(start as int, n as int));
    }
    let limit: u64 = if neg {
        9223372036854775808
    } else {
        9223372036854775807
    };
    let mut mag: u64 = 0;
    let mut k: usize = start;
    while k < n
        invariant
            start <= k <= n,
            n == t@.len(),
            start < n,
            body == lit_body(t@),
            body =~= t@.subrange(start as int, n as int),
            neg == (t@[0] == 45),
            start == (if neg { 1int } else { 0int }),
            limit == (if neg { 9223372036854775808u64 } else { 9223372036854775807u64 }),
            all_digits(t@.subrange(start as int, k as int)),
            mag as int == digits_val(t@.subrange(start as int, k as int)),
            mag <= limit,
        decreases n - k,
    {
        let d = t[k];
        if d < 48 || d > 57 {
            proof {
                assert(!is_digit(body[k - start]));
            }
            return None;
        }
        let dv: u64 = (d - 48) as u64;
        let ghost prefix = t@.subrange(start as int, k as int);
        let ghost prefix1 = t@.subrange(start as int, k as int + 1);
        proof {
            assert(prefix1.drop_last() =~= prefix);
            assert(prefix1.last() == t@[k as int]);
            assert(digits_val(prefix1) == mag * 10 + dv);
            assert forall|q: int| 0 <= q < prefix1.len() implies is_digit(
                #[trigger] prefix1[q],
            ) by {
                if q < prefix.len() {
                    assert(prefix1[q] == prefix[q]);
                }
            }
        }
        if mag > limit / 10 || (mag == limit / 10 && dv > limit % 10) {
            proof {
                assert(mag * 10 + dv > limit);
                if is_int_literal(t@) {
                    lemma_digits_val_mono(body, k + 1 - start as int);
                    assert(body.take(k + 1 - start as int) =~= prefix1);
                    assert(digits_val(body) > limit);
                    if neg {
                        assert(lit_val(t@) == -digits_val(body));
                        assert(lit_val(t@) < i64::MIN);
                    } else {
                        assert(lit_val(t@) > i64::MAX);
                    }
                }
            }
            return None;
        }
        proof {
            assert(mag * 10 + dv <= limit);
        }
        mag = mag * 10 + dv;
        k += 1;
    }
    proof {
        assert(t@.subrange(start as int, n as int) =~= body);
        assert(all_digits(body));
        assert(mag as int == digits_val(body));
        assert(body.len() >= 1);
    }
    if neg {
        proof {
            assert(lit_val(t@) == -(mag as int));
            assert(is_int_literal(t@));
        }
        if mag == 9223372036854775808 {
            Some(i64::MIN)
        } else {
            Some(-(mag as i64))
        }
    } else {
        proof {
            assert(lit_val(t@) == mag as int);
            assert(is_int_literal(t@));
        }
        Some(mag as i64)
    }
}

/// Turns the token sequence into the program, in token order, or reports the
/// first invalid token with its text and 1-based line.
pub fn parse_tokens_as_op(tokens: &Vec<Token>) -> (r: Result<Vec<Op>, LexError>)
    ensures
        r matches Ok(p) ==> parse_spec(toks_view(tokens@)) == Ok::<Seq<Op>, (nat, Seq<u8>)>(p@)
            && p@.len() == tokens@.len(),
        r matches Err(e) ==> parse_spec(toks_view(tokens@)) == Err::<Seq<Op>, (nat, Seq<u8>)>(
            (e.line as nat, e.token@),
        ),
{
    let ghost tv = toks_view(tokens@);
    proof {
        assert(tv.len() == tokens@.len());
    }
    let mut program: Vec<Op> = Vec::new();
    let mut j: usize = 0;
    proof {
        assert(tv.skip(0) =~= tv);
        match parse_spec(tv) {
            Ok(rest) => {
                assert(program@ + rest =~= rest);
            },
            Err(_) => {},
        }
    }
    while j < tokens.len()
        invariant
            j <= tokens@.len(),
            tv == toks_view(tokens@),
            tv.len() == tokens@.len(),
            program@.len() == j,
            parse_spec(tv) == (match parse_spec(tv.skip(j as int)) {
                Ok(rest) => Ok::<Seq<Op>, (nat, Seq<u8>)>(program@ + rest),
                Err(e) => Err::<Seq<Op>, (nat, Seq<u8>)>(e),
            }),
        decreases tokens@.len() - j,
    {
        let t = &tokens[j];
        proof {
            assert(tv[j as int] == (t.line as nat, t.text@));
            assert(tv.skip(j as int)[0] == tv[j as int]);
            assert(tv.skip(j as int).skip(1) =~= tv.skip(j as int + 1));
        }
        let text = &t.text;
        let op_found: Option<Op>;
        if text.len() == 1 && text[0] == 43 {
            proof {
                assert(text@ =~= seq![43u8]);
            }
            op_found = Some(Op::Add);
        } else if text.len() == 1 && text[0] == 45 {
            proof {
                assert(text@ =~= seq![45u8]);
            }
            op_found = Some(Op::Sub);
        } else if text.len() == 2 && text[0] == 63 && text[1] == 61 {
            proof {
                assert(text@ =~= seq![63u8, 61u8]);
            }
            op_found = Some(Op::Equal);
        } else if text.len() == 4 && text[0] == 100 && text[1] == 117 && text[2] == 109 && text[3]
            == 112 {
            proof {
                assert(text@ =~= seq![100u8, 117u8, 109u8, 112u8]);
            }
            op_found = Some(Op::Dump);
        } else {
            match parse_i64(text) {
                Some(v) => {
                    op_found = Some(Op::Push(v));
                },
                None => {
                    op_found = None;
                },
            }
            proof {
                if is_int_literal(text@) {
                    assert(classify(text@) == Some(Op::Push(lit_val(text@) as i64)));
                } else {
                    assert(classify(text@) is None);
                }
            }
        }
        match op_found {
            Some(op) => {
                proof {
                    assert(classify(tv[j as int].1) == Some(op));
                    match parse_spec(tv.skip(j as int + 1)) {
                        Ok(rest) => {
                            assert(program@ + (seq![op] + rest) =~= program@.push(op) + rest);
                        },
                        Err(_) => {},
                    }
                }
                program.push(op);
                j += 1;
            },
            None => {
                proof {
                    assert(classify(tv[j as int].1) is None);
                    assert(parse_spec(tv.skip(j as int)) == Err::<Seq<Op>, (nat, Seq<u8>)>(
                        tv[j as int],
                    ));
                }
                return Err(LexError { line: t.line, token: copy_bytes(text) });
            },
        }
    }
    proof {
        assert(tv.skip(j as int) =~= Seq::<(nat, Seq<u8>)>::empty());
        assert(parse_spec(tv.skip(j as int)) == Ok::<Seq<Op>, (nat, Seq<u8>)>(Seq::empty()));
        assert(program@ + Seq::<Op>::empty() =~= program@);
    }
    Ok(program)
}

} // verus!
