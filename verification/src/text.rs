//! Decimal rendering of 64-bit signed integers, and the two `String`
//! building blocks it and the code generator rely on.

use vstd::prelude::*;

verus! {

/// Relies on `String::push_str`: appends the characters of `string` to the
/// end of `s` and changes nothing else.
pub assume_specification[ String::push_str ](s: &mut String, string: &str)
    ensures
        final(s)@ == old(s)@ + string@,
;

/// Relies on `String::push`: appends the single character `c` to the end of
/// `s` and changes nothing else.
pub assume_specification[ String::push ](s: &mut String, ch: char)
    ensures
        final(s)@ == old(s)@ + seq![ch],
;

/// The character of a single decimal digit.
pub open spec fn digit_char(d: int) -> char {
    ((48 + d) as u8) as char
}

/// Decimal digits of a non-negative number, most significant first, with no
/// leading zero (and `0` written as the one digit `0`).
pub open spec fn dec_digits(n: nat) -> Seq<char>
    decreases n,
{
    if n < 10 {
        seq![digit_char(n as int)]
    } else {
        dec_digits(n / 10).push(digit_char((n % 10) as int))
    }
}

/// Decimal text of `v`: a minus sign for negative values, then the digits.
pub open spec fn dec_str(v: int) -> Seq<char> {
    if v < 0 {
        seq!['-'] + dec_digits((-v) as nat)
    } else {
        dec_digits(v as nat)
    }
}

/// The characters of a least-significant-first digit sequence, read back
/// most significant first.
spec fn chars_of(ds: Seq<u8>) -> Seq<char> {
    Seq::new(ds.len(), |i: int| digit_char(ds[ds.len() - 1 - i] as int))
}

/// Renders `v` as decimal text: correct sign, no leading zeros.
pub fn render_i64(v: i64) -> (s: String)
    ensures
        s@ == dec_str(v as int),
{
    let neg = v < 0;
    let m_init: u64 = if v < 0 {
        proof {
            assert(1 <= -(v as int) <= 0x8000_0000_0000_0000);
        }
        (-(v as i128)) as u64
    } else {
        v as u64
    };
    let ghost m0: nat = m_init as nat;
    let mut m: u64 = m_init;
    let mut ds: Vec<u8> = Vec::new();
    if m == 0 {
        ds.push(0);
        proof {
            assert(chars_of(ds@) =~= seq![digit_char(0)]);
        }
    } else {
        while m > 0
            invariant
                m > 0 ==> dec_digits(m0) == dec_digits(m as nat) + chars_of(ds@),
                m == 0 ==> dec_digits(m0) == chars_of(ds@),
                forall|q: int| 0 <= q < ds@.len() ==> ds@[q] < 10,
            decreases m,
        {
            let ghost ds_old = ds@;
            let ghost m_old: nat = m as nat;
            let d: u8 = (m % 10) as u8;
            ds.push(d);
            m = m / 10;
            proof {
                assert(chars_of(ds@) =~= seq![digit_char(d as int)] + chars_of(ds_old));
                if m_old >= 10 {
                    assert(dec_digits(m_old) == dec_digits(m_old / 10).push(
                        digit_char((m_old % 10) as int),
                    ));
                    assert(dec_digits(m_old / 10).push(digit_char(d as int)) =~= dec_digits(
                        m_old / 10,
                    ) + seq![digit_char(d as int)]);
                    assert(dec_digits(m_old / 10) + seq![digit_char(d as int)] + chars_of(ds_old)
                        =~= dec_digits(m_old / 10) + chars_of(ds@));
                } else {
                    assert(dec_digits(m_old) == seq![digit_char(m_old as int)]);
                    assert(seq![digit_char(d as int)] + chars_of(ds_old) =~= chars_of(ds@));
                }
            }
        }
        proof {
            assert(dec_digits(m0) == chars_of(ds@));
        }
    }
    let ghost prefix: Seq<char> = if neg {
        seq!['-']
    } else {
        Seq::<char>::empty()
    };
    let mut s = String::new();
    if neg {
        s.push('-');
    }
    proof {
        assert(s@ =~= prefix + chars_of(ds@).take(0));
    }
    let mut j: usize = ds.len();
    while j > 0
        invariant
            j <= ds@.len(),
            forall|q: int| 0 <= q < ds@.len() ==> ds@[q] < 10,
            s@ == prefix + chars_of(ds@).take(ds@.len() - j),
        decreases j,
    {
        j -= 1;
        let d = ds[j];
        let c = (48 + d) as char;
        let ghost n_done = ds@.len() - j - 1;
        proof {
            assert(chars_of(ds@)[n_done] == digit_char(ds@[j as int] as int));
            assert(c == digit_char(d as int));
        }
        s.push(c);
        proof {
            assert(chars_of(ds@).take(n_done + 1) =~= chars_of(ds@).take(n_done) + seq![
                chars_of(ds@)[n_done],
            ]);
            assert(s@ =~= prefix + chars_of(ds@).take(n_done + 1));
        }
    }
    proof {
        assert(chars_of(ds@).take(ds@.len() as int) =~= chars_of(ds@));
        assert(prefix + chars_of(ds@) =~= dec_str(v as int));
    }
    s
}

} // verus!
