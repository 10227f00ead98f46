//! Decimal text for integer field values: canonical rendering and exact
//! parsing, as used by the free-text numeric editors.

use vstd::prelude::*;

verus! {

/// The character for a single decimal digit value in `0..=9`.
pub open spec fn dec_digit(d: int) -> char {
    ((d + 48) as u8) as char
}

/// Canonical decimal text of a non-negative value: no sign, no leading
/// zeros (a single `'0'` for zero).
pub open spec fn spec_dec_u64(n: nat) -> Seq<char>
    decreases n,
{
    if n < 10 {
        seq![dec_digit(n as int)]
    } else {
        spec_dec_u64(n / 10).push(dec_digit((n % 10) as int))
    }
}

/// Canonical decimal text of a signed value: a leading `'-'` for negative
/// values, then the magnitude's digits.
pub open spec fn spec_dec_i64(v: int) -> Seq<char> {
    if v >= 0 {
        spec_dec_u64(v as nat)
    } else {
        seq!['-'] + spec_dec_u64((-v) as nat)
    }
}

/// Whether a character is a decimal digit.
pub open spec fn is_dec_digit(c: char) -> bool {
    48 <= c as u32 <= 57
}

/// The numeric value of a decimal digit character.
pub open spec fn digit_val(c: char) -> int {
    c as u32 - 48
}

/// Whether every character of the sequence is a decimal digit.
pub open spec fn all_dec_digits(s: Seq<char>) -> bool {
    forall|i: int| 0 <= i < s.len() ==> is_dec_digit(#[trigger] s[i])
}

/// The value of a sequence of decimal digit characters, most significant
/// first.
pub open spec fn digits_val(s: Seq<char>) -> int
    decreases s.len(),
{
    if s.len() == 0 {
        0
    } else {
        digits_val(s.drop_last()) * 10 + digit_val(s.last())
    }
}

/// What a signed decimal numeral denotes: an optional `'-'` or `'+'` sign,
/// then at least one digit and nothing else.  `None` for any other text.
pub open spec fn spec_parse_int(s: Seq<char>) -> Option<int> {
    let body = if s.len() > 0 && (s[0] == '-' || s[0] == '+') {
        s.skip(1)
    } else {
        s
    };
    let neg = s.len() > 0 && s[0] == '-';
    if body.len() > 0 && all_dec_digits(body) {
        if neg {
            Some(-digits_val(body))
        } else {
            Some(digits_val(body))
        }
    } else {
        None
    }
}

/// What an unsigned decimal numeral denotes: an optional `'+'` sign, then
/// at least one digit and nothing else.  `None` for any other text.
pub open spec fn spec_parse_uint(s: Seq<char>) -> Option<int> {
    let body = if s.len() > 0 && s[0] == '+' {
        s.skip(1)
    } else {
        s
    };
    if body.len() > 0 && all_dec_digits(body) {
        Some(digits_val(body))
    } else {
        None
    }
}

proof fn lemma_digits_val_nonneg(s: Seq<char>)
    requires
        all_dec_digits(s),
    ensures
        digits_val(s) >= 0,
    decreases s.len(),
{
    if s.len() > 0 {
        assert(all_dec_digits(s.drop_last()));
        lemma_digits_val_nonneg(s.drop_last());
        assert(is_dec_digit(s.last()));
    }
}

proof fn lemma_digits_val_prefix_le(s: Seq<char>, k: int)
    requires
        all_dec_digits(s),
        0 <= k <= s.len(),
    ensures
        digits_val(s.take(k)) <= digits_val(s),
    decreases s.len(),
{
    if k == s.len() {
        assert(s.take(k) =~= s);
    } else {
        let dl = s.drop_last();
        assert(all_dec_digits(dl));
        lemma_digits_val_prefix_le(dl, k);
        lemma_digits_val_nonneg(dl);
        assert(s.take(k) =~= dl.take(k));
        assert(is_dec_digit(s.last()));
    }
}

proof fn lemma_dec_digits(n: nat)
    ensures
        spec_dec_u64(n).len() > 0,
        all_dec_digits(spec_dec_u64(n)),
        digits_val(spec_dec_u64(n)) == n,
    decreases n,
{
    let s = spec_dec_u64(n);
    if n < 10 {
        assert(dec_digit(n as int) as u32 == n + 48);
        assert(digit_val(dec_digit(n as int)) == n);
        assert(is_dec_digit(dec_digit(n as int)));
        assert(s.drop_last() =~= Seq::<char>::empty());
        assert(s.last() == dec_digit(n as int));
        assert(digits_val(s) == digits_val(s.drop_last()) * 10 + digit_val(s.last()));
        assert(digits_val(s.drop_last()) == 0);
    } else {
        lemma_dec_digits(n / 10);
        assert(s.drop_last() =~= spec_dec_u64(n / 10));
        assert(s.last() == dec_digit((n % 10) as int));
        assert(dec_digit((n % 10) as int) as u32 == n % 10 + 48);
        assert(digit_val(s.last()) == n % 10);
        assert(is_dec_digit(s.last()));
        assert(digits_val(s) == digits_val(s.drop_last()) * 10 + digit_val(s.last()));
        vstd::arithmetic::div_mod::lemma_fundamental_div_mod(n as int, 10);
    }
}

/// Law: the canonical decimal text of an unsigned value parses back to
/// exactly that value.
pub proof fn lemma_parse_canonical_u64(n: u64)
    ensures
        spec_parse_uint(spec_dec_u64(n as nat)) == Some(n as int),
{
    lemma_dec_digits(n as nat);
    let s = spec_dec_u64(n as nat);
    assert(is_dec_digit(s[0]));
    assert(s[0] != '+');
}

/// Law: the canonical decimal text of a signed value parses back to
/// exactly that value.
pub proof fn lemma_parse_canonical_i64(v: i64)
    ensures
        spec_parse_int(spec_dec_i64(v as int)) == Some(v as int),
{
    let s = spec_dec_i64(v as int);
    if v >= 0 {
        lemma_dec_digits(v as nat);
        assert(is_dec_digit(s[0]));
        assert(s[0] != '+' && s[0] != '-');
    } else {
        lemma_dec_digits((-(v as int)) as nat);
        assert(s[0] == '-');
        assert(s.skip(1) =~= spec_dec_u64((-(v as int)) as nat));
    }
}

/// Relies on `String::push`: appends the given character to the end of
/// the string.
#[verifier::external_body]
fn push_char(s: &mut String, c: char)
    ensures
        final(s)@ == old(s)@.push(c),
{
    s.push(c)
}

/// The characters of a digit-byte sequence, in reverse order.
spec fn rev_chars(ds: Seq<u8>) -> Seq<char> {
    Seq::new(ds.len(), |j: int| ds[ds.len() - 1 - j] as char)
}

/// Appends the canonical decimal text of `n` to `s`.
fn push_dec_u64(s: &mut String, n: u64)
    ensures
        final(s)@ == old(s)@ + spec_dec_u64(n as nat),
{
    if n == 0 {
        push_char(s, '0');
        proof {
            assert(spec_dec_u64(0) =~= seq![dec_digit(0)]);
            assert(s@ =~= old(s)@ + spec_dec_u64(0));
        }
        return;
    }
    let mut x: u64 = n;
    let mut digits: Vec<u8> = Vec::new();
    while x > 0
        invariant
            n > 0,
            x == 0 ==> digits@.len() > 0,
            if x > 0 {
                spec_dec_u64(n as nat) =~= spec_dec_u64(x as nat) + rev_chars(digits@)
            } else {
                spec_dec_u64(n as nat) =~= rev_chars(digits@)
            },
        decreases x,
    {
        let ghost x0 = x;
        let ghost ds0 = digits@;
        let d: u8 = (x % 10) as u8 + 48;
        digits.push(d);
        x = x / 10;
        proof {
            assert(rev_chars(ds0.push(d)) =~= seq![d as char] + rev_chars(ds0)) by {
                assert forall|j: int| 0 <= j < ds0.len() + 1 implies rev_chars(ds0.push(d))[j] == (
                seq![d as char] + rev_chars(ds0))[j] by {
                    if j > 0 {
                        assert(ds0.push(d)[ds0.len() - j] == ds0[ds0.len() - j]);
                    }
                }
            }
            assert(d as char == dec_digit((x0 % 10) as int));
            if x0 < 10 {
                assert(spec_dec_u64(x0 as nat) =~= seq![dec_digit(x0 as int)]);
                assert(spec_dec_u64(n as nat) =~= rev_chars(digits@));
            } else {
                assert(spec_dec_u64(x0 as nat) == spec_dec_u64((x0 / 10) as nat).push(
                    dec_digit((x0 % 10) as int),
                ));
                assert(spec_dec_u64((x0 / 10) as nat).push(dec_digit((x0 % 10) as int)) =~= spec_dec_u64(
                    (x0 / 10) as nat,
                ) + seq![dec_digit((x0 % 10) as int)]);
                assert(spec_dec_u64(n as nat) =~= spec_dec_u64(x as nat) + rev_chars(digits@));
            }
        }
    }
    let len: usize = digits.len();
    let mut k: usize = len;
    while k > 0
        invariant
            k <= len,
            len == digits@.len(),
            spec_dec_u64(n as nat) =~= rev_chars(digits@),
            s@ == old(s)@ + rev_chars(digits@).take(len - k),
        decreases k,
    {
        k = k - 1;
        let b: u8 = digits[k];
        push_char(s, b as char);
        proof {
            assert(rev_chars(digits@)[len - k - 1] == b as char);
            assert(rev_chars(digits@).take(len - k) =~= rev_chars(digits@).take(len - k - 1).push(
                b as char,
            ));
        }
    }
    proof {
        assert(rev_chars(digits@).take(len as int) =~= rev_chars(digits@));
    }
}

/// The canonical decimal text of an unsigned value.
pub fn u64_to_string(n: u64) -> (s: String)
    ensures
        s@ == spec_dec_u64(n as nat),
{
    let mut s = String::new();
    push_dec_u64(&mut s, n);
    proof {
        assert(s@ =~= spec_dec_u64(n as nat));
    }
    s
}

/// The canonical decimal text of a signed value.
pub fn i64_to_string(v: i64) -> (s: String)
    ensures
        s@ == spec_dec_i64(v as int),
{
    let mut s = String::new();
    if v < 0 {
        push_char(&mut s, '-');
        let m: u64 = ((-(v + 1)) as u64) + 1;
        proof {
            assert(m as int == -(v as int));
            assert(s@ =~= seq!['-']);
        }
        push_dec_u64(&mut s, m);
        proof {
            assert(s@ =~= seq!['-'] + spec_dec_u64((-(v as int)) as nat));
        }
    } else {
        push_dec_u64(&mut s, v as u64);
        proof {
            assert(s@ =~= spec_dec_u64(v as nat));
        }
    }
    s
}

/// Parses a run of decimal digits starting at character index `start`,
/// succeeding exactly when the rest of the string is a non-empty digit run
/// whose value fits in `u64`.
fn parse_dec_digits(s: &str, start: usize) -> (r: Option<u64>)
    requires
        start as int <= s@.len(),
    ensures
        ({
            let body = s@.skip(start as int);
            match r {
                Some(m) => body.len() > 0 && all_dec_digits(body) && m as int == digits_val(body),
                None => body.len() == 0 || !all_dec_digits(body) || digits_val(body)
                    > u64::MAX as int,
            }
        }),
{
    let n: usize = s.unicode_len();
    if start == n {
        return None;
    }
    let ghost body = s@.skip(start as int);
    let mut acc: u64 = 0;
    let mut i: usize = start;
    while i < n
        invariant
            start <= i <= n,
            n == s@.len(),
            body == s@.skip(start as int),
            all_dec_digits(s@.subrange(start as int, i as int)),
            acc as int == digits_val(s@.subrange(start as int, i as int)),
        decreases n - i,
    {
        let c: char = s.get_char(i);
        let cv: u32 = c as u32;
        if cv < 48 || cv > 57 {
            proof {
                assert(body[i - start] == s@[i as int]);
                assert(!is_dec_digit(body[i - start]));
            }
            return None;
        }
        let d: u64 = (cv - 48) as u64;
        let ghost pre = s@.subrange(start as int, i as int);
        let ghost pre1 = s@.subrange(start as int, i + 1 as int);
        proof {
            assert(pre1.drop_last() =~= pre);
            assert(pre1.last() == s@[i as int]);
            assert(digits_val(pre1) == digits_val(pre) * 10 + digit_val(s@[i as int]));
            assert(all_dec_digits(pre1)) by {
                assert(forall|j: int|
                    0 <= j < pre1.len() ==> pre1[j] == #[trigger] pre1.index(j) && (j < pre.len()
                        ==> pre1[j] == pre[j]));
            }
        }
        if acc > (u64::MAX - d) / 10 {
            proof {
                vstd::arithmetic::div_mod::lemma_fundamental_div_mod(u64::MAX - d, 10);
                let q = (u64::MAX as int - d as int) / 10;
                assert(acc as int * 10 >= (q + 1) * 10) by (nonlinear_arith)
                    requires
                        acc as int >= q + 1,
                ;
                assert(digits_val(pre1) > u64::MAX as int);
                if all_dec_digits(body) {
                    lemma_digits_val_prefix_le(body, i + 1 - start);
                    assert(body.take(i + 1 - start) =~= pre1);
                }
            }
            return None;
        }
        acc = acc * 10 + d;
        i = i + 1;
    }
    proof {
        assert(s@.subrange(start as int, n as int) =~= body);
        lemma_digits_val_nonneg(body);
    }
    Some(acc)
}

/// Parses signed decimal text, succeeding exactly when the text is a
/// numeral whose value fits in `i64`.
pub fn parse_i64(s: &str) -> (r: Option<i64>)
    ensures
        match spec_parse_int(s@) {
            Some(v) => r == (if i64::MIN <= v <= i64::MAX {
                Some(v as i64)
            } else {
                None::<i64>
            }),
            None => r is None,
        },
{
    let n: usize = s.unicode_len();
    if n == 0 {
        return None;
    }
    let c0: char = s.get_char(0);
    let neg: bool = c0 == '-';
    let start: usize = if c0 == '-' || c0 == '+' {
        1
    } else {
        0
    };
    let ghost body = s@.skip(start as int);
    proof {
        assert(s@.skip(0) =~= s@);
    }
    match parse_dec_digits(s, start) {
        None => {
            proof {
                if body.len() > 0 && all_dec_digits(body) {
                    lemma_digits_val_nonneg(body);
                }
            }
            None
        },
        Some(m) => {
            proof {
                assert(spec_parse_int(s@) == Some(
                    if neg {
                        -digits_val(body)
                    } else {
                        digits_val(body)
                    },
                ));
            }
            if neg {
                if m <= 9223372036854775807u64 {
                    Some(-(m as i64))
                } else if m == 9223372036854775808u64 {
                    Some(i64::MIN)
                } else {
                    None
                }
            } else {
                if m <= 9223372036854775807u64 {
                    Some(m as i64)
                } else {
                    None
                }
            }
        },
    }
}

/// Parses unsigned decimal text, succeeding exactly when the text is a
/// numeral whose value fits in `u64`.
pub fn parse_u64(s: &str) -> (r: Option<u64>)
    ensures
        match spec_parse_uint(s@) {
            Some(v) => v >= 0 && r == (if v <= u64::MAX as int {
                Some(v as u64)
            } else {
                None::<u64>
            }),
            None => r is None,
        },
{
    let n: usize = s.unicode_len();
    if n == 0 {
        return None;
    }
    let c0: char = s.get_char(0);
    let start: usize = if c0 == '+' {
        1
    } else {
        0
    };
    let ghost body = s@.skip(start as int);
    proof {
        assert(s@.skip(0) =~= s@);
    }
    match parse_dec_digits(s, start) {
        None => {
            proof {
                if body.len() > 0 && all_dec_digits(body) {
                    lemma_digits_val_nonneg(body);
                }
            }
            None
        },
        Some(m) => {
            proof {
                lemma_digits_val_nonneg(body);
            }
            Some(m)
        },
    }
}

} // verus!
