//! Decimal rendering and parsing of the signed interval/score field of an
//! index entry, with the round-trip law between the two.
use vstd::prelude::*;

verus! {

/// Whether a byte is an ASCII decimal digit.
pub open spec fn is_digit(b: u8) -> bool {
    48 <= b <= 57
}

/// The digit byte for a value in 0..10.
pub open spec fn digit_byte(d: int) -> u8 {
    (48 + d) as u8
}

/// The decimal digits of a natural number, most significant first.
pub open spec fn dec_nat(n: nat) -> Seq<u8>
    decreases n,
{
    if n < 10 {
        seq![digit_byte(n as int)]
    } else {
        dec_nat(n / 10) + seq![digit_byte((n % 10) as int)]
    }
}

/// The decimal form of an integer: a minus sign for a negative value,
/// then the digits of its magnitude.
pub open spec fn dec_int(v: int) -> Seq<u8> {
    if v < 0 {
        seq![45u8] + dec_nat((-v) as nat)
    } else {
        dec_nat(v as nat)
    }
}

/// The digits of `s` without their optional single leading `+` or `-`.
pub open spec fn literal_body(s: Seq<u8>) -> Seq<u8> {
    if s.len() > 0 && (s[0] == 43 || s[0] == 45) {
        s.drop_first()
    } else {
        s
    }
}

/// Whether `s` is an integer literal: an optional sign, then one or more
/// decimal digits.
pub open spec fn is_int_literal(s: Seq<u8>) -> bool {
    literal_body(s).len() > 0 && (forall|i: int|
        0 <= i < literal_body(s).len() ==> is_digit(literal_body(s)[i]))
}

/// The value of a run of decimal digits.
pub open spec fn digits_value(s: Seq<u8>) -> int
    decreases s.len(),
{
    if s.len() == 0 {
        0
    } else {
        digits_value(s.drop_last()) * 10 + (s[s.len() - 1] - 48)
    }
}

/// The value an integer literal denotes.
pub open spec fn literal_value(s: Seq<u8>) -> int {
    if s.len() > 0 && s[0] == 45 {
        -digits_value(s.drop_first())
    } else {
        digits_value(literal_body(s))
    }
}

/// Every byte of `dec_nat(n)` is a digit, and there is at least one.
pub proof fn lemma_dec_nat_digits(n: nat)
    ensures
        dec_nat(n).len() >= 1,
        forall|i: int| 0 <= i < dec_nat(n).len() ==> is_digit(#[trigger] dec_nat(n)[i]),
    decreases n,
{
    if n < 10 {
    } else {
        lemma_dec_nat_digits(n / 10);
        assert(0 <= n % 10 < 10);
    }
}

/// The digits of a natural number denote it back.
pub proof fn lemma_digits_value_dec_nat(n: nat)
    ensures
        digits_value(dec_nat(n)) == n,
    decreases n,
{
    if n < 10 {
        let s = dec_nat(n);
        assert(s == seq![digit_byte(n as int)]);
        assert(s.drop_last() =~= Seq::<u8>::empty());
        assert(s[0] == digit_byte(n as int));
        assert(digits_value(s) == digits_value(s.drop_last()) * 10 + (s[0] - 48));
        assert(s[0] == 48 + n);
    } else {
        lemma_digits_value_dec_nat(n / 10);
        let s = dec_nat(n / 10) + seq![digit_byte((n % 10) as int)];
        assert(dec_nat(n) == s);
        assert(s.drop_last() =~= dec_nat(n / 10));
        assert(s[s.len() - 1] == digit_byte((n % 10) as int));
        assert(0 <= n % 10 < 10);
        assert(s[s.len() - 1] == 48 + n % 10);
        assert(digits_value(s) == digits_value(s.drop_last()) * 10 + (s[s.len() - 1] - 48));
        assert(digits_value(s) == (n / 10) * 10 + n % 10);
        assert((n / 10) * 10 + n % 10 == n) by (nonlinear_arith);
    }
}

/// Round trip: the decimal form of an integer is an integer literal and
/// denotes the integer itself.
pub proof fn lemma_literal_of_dec_int(v: int)
    ensures
        is_int_literal(dec_int(v)),
        literal_value(dec_int(v)) == v,
{
    if v < 0 {
        let mag = (-v) as nat;
        lemma_dec_nat_digits(mag);
        lemma_digits_value_dec_nat(mag);
        assert((seq![45u8] + dec_nat(mag)).drop_first() =~= dec_nat(mag));
        assert(dec_int(v)[0] == 45);
    } else {
        lemma_dec_nat_digits(v as nat);
        lemma_digits_value_dec_nat(v as nat);
        assert(is_digit(dec_nat(v as nat)[0]));
        assert(literal_body(dec_int(v)) =~= dec_int(v));
    }
}

/// The decimal form of an integer holds only digits after a possible
/// leading minus sign; in particular no whitespace, `@`, or newline.
pub proof fn lemma_dec_int_shape(v: int)
    ensures
        dec_int(v).len() >= 1,
        forall|i: int|
            0 <= i < dec_int(v).len() ==> (is_digit(#[trigger] dec_int(v)[i]) || (i == 0
                && dec_int(v)[i] == 45)),
{
    if v < 0 {
        lemma_dec_nat_digits((-v) as nat);
        assert forall|i: int|
            0 <= i < dec_int(v).len() implies (is_digit(#[trigger] dec_int(v)[i]) || (i == 0
            && dec_int(v)[i] == 45)) by {
            if i > 0 {
                assert(dec_int(v)[i] == dec_nat((-v) as nat)[i - 1]);
            }
        }
    } else {
        lemma_dec_nat_digits(v as nat);
    }
}

/// A run of digits has a non-negative value.
pub proof fn lemma_digits_value_nonneg(s: Seq<u8>)
    requires
        forall|i: int| 0 <= i < s.len() ==> is_digit(#[trigger] s[i]),
    ensures
        digits_value(s) >= 0,
    decreases s.len(),
{
    if s.len() > 0 {
        lemma_digits_value_nonneg(s.drop_last());
        assert(is_digit(s[s.len() - 1]));
    }
}

/// A prefix of a digit run denotes no more than the whole run.
pub proof fn lemma_digits_value_take_le(s: Seq<u8>, i: int)
    requires
        forall|j: int| 0 <= j < s.len() ==> is_digit(#[trigger] s[j]),
        0 <= i <= s.len(),
    ensures
        digits_value(s.take(i)) <= digits_value(s),
    decreases s.len() - i,
{
    if i == s.len() {
        assert(s.take(i) =~= s);
    } else {
        assert(s.take(i + 1).drop_last() =~= s.take(i));
        assert(forall|j: int| 0 <= j < s.take(i).len() ==> is_digit(#[trigger] s.take(i)[j]));
        lemma_digits_value_nonneg(s.take(i));
        assert(digits_value(s.take(i + 1)) == digits_value(s.take(i)) * 10 + (s[i] - 48));
        assert(is_digit(s[i]));
        lemma_digits_value_take_le(s, i + 1);
    }
}

/// Renders an integer in decimal.
pub fn format_i64(n: i64) -> (r: Vec<u8>)
    ensures
        r@ == dec_int(n as int),
{
    let neg = n < 0;
    let mut m: u64 = if n < 0 {
        proof {
            assert(-(n as i128) <= 9223372036854775808i128);
        }
        (-(n as i128)) as u64
    } else {
        n as u64
    };
    let ghost mag: nat = m as nat;
    let mut digits: Vec<u8> = Vec::new();
    if m == 0 {
        digits.push(48);
        assert(digits@ =~= dec_nat(mag));
    } else {
        proof {
            assert(dec_nat(mag) =~= dec_nat(m as nat) + digits@);
        }
        while m > 0
            invariant
                m > 0 ==> dec_nat(mag) == dec_nat(m as nat) + digits@,
            m == 0 ==> dec_nat(mag) == digits@,
            decreases m,
        {
            let d: u8 = 48 + (m % 10) as u8;
            let ghost pre = digits@;
            digits.insert(0, d);
            proof {
                assert(digits@ =~= seq![d] + pre);
                assert(d == digit_byte((m % 10) as int));
                if m >= 10 {
                    assert(dec_nat(m as nat) == dec_nat((m as nat) / 10) + seq![
                        digit_byte(((m as nat) % 10) as int),
                    ]);
                    assert((dec_nat((m as nat) / 10) + seq![d]) + pre =~= dec_nat((m as nat) / 10)
                        + (seq![d] + pre));
                    assert((m / 10) as nat == (m as nat) / 10);
                    assert(m / 10 > 0) by {
                        assert(m >= 10);
                        assert(m / 10 >= 1) by (nonlinear_arith)
                            requires
                                m >= 10,
                        ;
                    }
                } else {
                    assert(dec_nat(m as nat) == seq![d]);
                    assert(dec_nat(mag) =~= seq![d] + pre);
                    assert(m / 10 == 0);
                }
            }
            m = m / 10;
        }
    }
    if neg {
        let mut r: Vec<u8> = Vec::new();
        r.push(45);
        r.append(&mut digits);
        proof {
            assert(r@ =~= seq![45u8] + dec_nat(mag));
            assert(mag == (-(n as int)) as nat);
        }
        r
    } else {
        proof {
            assert(mag == n as nat);
        }
        digits
    }
}

/// Parses an optionally signed decimal integer, accepting exactly the
/// integer literals whose value fits in `i64`.
pub fn parse_i64(s: &[u8]) -> (r: Option<i64>)
    ensures
        r is Some <==> is_int_literal(s@) && i64::MIN <= literal_value(s@) <= i64::MAX,
        r is Some ==> r->Some_0 as int == literal_value(s@),
{
    let len: usize = s.len();
    if len == 0 {
        return None;
    }
    let first: u8 = s[0];
    let neg: bool = first == 45;
    let start: usize = if first == 45 || first == 43 {
        1
    } else {
        0
    };
    let ghost body: Seq<u8> = literal_body(s@);
    proof {
        assert(body =~= s@.subrange(start as int, len as int));
    }
    if start >= len {
        proof {
            assert(body.len() == 0);
        }
        return None;
    }
    let mut i: usize = start;
    let mut acc: u64 = 0;
    proof {
        assert(s@.subrange(start as int, start as int) =~= Seq::<u8>::empty());
    }
    while i < len
        invariant
            start <= i <= len,
            len == s@.len(),
            body == s@.subrange(start as int, len as int),
            body == literal_body(s@),
            start == if s@[0] == 45 || s@[0] == 43 { 1int } else { 0int },
            forall|j: int| start <= j < i ==> is_digit(#[trigger] s@[j]),
            acc as int == digits_value(s@.subrange(start as int, i as int)),
        decreases len - i,
    {
        let b: u8 = s[i];
        if !(48 <= b && b <= 57) {
            proof {
                assert(!is_digit(body[i - start]));
            }
            return None;
        }
        let d: u64 = (b - 48) as u64;
        proof {
            assert(s@.subrange(start as int, i as int + 1).drop_last() =~= s@.subrange(
                start as int,
                i as int,
            ));
            assert(digits_value(s@.subrange(start as int, i as int + 1)) == acc as int * 10
                + d as int);
        }
        if acc > (u64::MAX - d) / 10 {
            proof {
                assert(acc as int * 10 + d as int > u64::MAX as int) by (nonlinear_arith)
                    requires
                        acc as int > (u64::MAX as int - d as int) / 10,
                        0 <= d as int <= 9,
                ;
                if is_int_literal(s@) {
                    assert forall|j: int| 0 <= j < body.len() implies is_digit(
                        #[trigger] body[j],
                    ) by {}
                    lemma_digits_value_take_le(body, i as int + 1 - start);
                    assert(body.take(i as int + 1 - start) =~= s@.subrange(
                        start as int,
                        i as int + 1,
                    ));
                    assert(digits_value(body) > u64::MAX as int);
                    if s@[0] == 45 {
                        assert(s@.drop_first() =~= body);
                        assert(literal_value(s@) == -digits_value(body));
                        assert(literal_value(s@) < i64::MIN);
                    } else {
                        assert(s@[0] != 45);
                        assert(literal_value(s@) == digits_value(literal_body(s@)));
                        assert(digits_value(literal_body(s@)) == digits_value(body));
                        assert(literal_value(s@) > i64::MAX);
                    }
                }
            }
            return None;
        }
        acc = acc * 10 + d;
        i = i + 1;
    }
    proof {
        assert(s@.subrange(start as int, len as int) =~= body);
        assert(acc as int == digits_value(body));
        assert(is_int_literal(s@));
        lemma_digits_value_nonneg(body);
    }
    if neg {
        proof {
            assert(s@.drop_first() =~= body);
            assert(literal_value(s@) == -(acc as int));
        }
        if acc > 9223372036854775808u64 {
            None
        } else if acc == 9223372036854775808u64 {
            Some(i64::MIN)
        } else {
            Some(-(acc as i64))
        }
    } else {
        proof {
            assert(literal_value(s@) == acc as int);
        }
        if acc > 9223372036854775807u64 {
            None
        } else {
            Some(acc as i64)
        }
    }
}

} // verus!
