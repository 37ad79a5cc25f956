use vstd::prelude::*;

verus! {

/// The ASCII digit for `d`, which is below ten.
pub open spec fn digit_char(d: nat) -> char {
    (d + 48) as char
}

pub open spec fn is_digit(c: char) -> bool {
    '0' <= c <= '9'
}

pub open spec fn digit_value(c: char) -> int {
    c as int - 48
}

pub open spec fn all_digits(s: Seq<char>) -> bool {
    forall|i: int| 0 <= i < s.len() ==> is_digit(#[trigger] s[i])
}

/// The number that a string of decimal digits denotes (leading zeros allowed).
pub open spec fn digits_value(s: Seq<char>) -> nat
    decreases s.len(),
{
    if s.len() == 0 {
        0
    } else {
        (digits_value(s.drop_last()) * 10 + digit_value(s.last())) as nat
    }
}

/// The shortest decimal text of `n`: no sign and no leading zero.
pub open spec fn decimal(n: nat) -> Seq<char>
    decreases n,
{
    if n < 10 {
        seq![digit_char(n)]
    } else {
        decimal(n / 10).push(digit_char(n % 10))
    }
}

/// What parsing `s` as a `u32` gives: an optional `+`, then one or more
/// decimal digits whose value fits in a `u32`.
pub open spec fn u32_text_value(s: Seq<char>) -> Option<u32> {
    let digits = if s.len() > 0 && s[0] == '+' {
        s.drop_first()
    } else {
        s
    };
    if digits.len() > 0 && all_digits(digits) && digits_value(digits) <= u32::MAX {
        Some(digits_value(digits) as u32)
    } else {
        None
    }
}

proof fn lemma_digit_char(d: nat)
    requires
        d < 10,
    ensures
        is_digit(digit_char(d)),
        digit_value(digit_char(d)) == d,
{
}

/// The decimal text of `n` is a nonempty string of digits that denotes `n`,
/// with no leading zero unless `n` is zero.
pub proof fn lemma_decimal_denotes(n: nat)
    ensures
        decimal(n).len() >= 1,
        all_digits(decimal(n)),
        digits_value(decimal(n)) == n,
        decimal(n).len() > 1 ==> decimal(n)[0] != '0',
    decreases n,
{
    if n < 10 {
        lemma_digit_char(n);
        assert(decimal(n).drop_last() =~= Seq::<char>::empty());
        assert(digits_value(Seq::<char>::empty()) == 0);
        assert(decimal(n).last() == digit_char(n));
    } else {
        lemma_decimal_denotes(n / 10);
        lemma_digit_char(n % 10);
        let s = decimal(n);
        assert(s.drop_last() =~= decimal(n / 10));
        assert(s.last() == digit_char(n % 10));
        assert((n / 10) * 10 + n % 10 == n);
        assert forall|i: int| 0 <= i < s.len() implies is_digit(#[trigger] s[i]) by {
            if i < s.len() - 1 {
                assert(s[i] == decimal(n / 10)[i]);
            }
        }
        if decimal(n / 10).len() == 1 {
            assert(n / 10 < 10) by {
                if n / 10 >= 10 {
                    lemma_decimal_denotes(n / 100);
                    assert(decimal(n / 10).len() == decimal(n / 100).len() + 1);
                }
            }
            assert(decimal(n / 10)[0] == digit_char(n / 10));
            assert(n / 10 >= 1);
        }
        assert(s[0] == decimal(n / 10)[0]);
    }
}

/// A string of digits denotes at least what each of its prefixes denotes.
pub proof fn lemma_prefix_value_le(s: Seq<char>, k: int)
    requires
        all_digits(s),
        0 <= k <= s.len(),
    ensures
        digits_value(s.take(k)) <= digits_value(s),
    decreases s.len(),
{
    if k < s.len() {
        let t = s.drop_last();
        assert(all_digits(t)) by {
            assert forall|i: int| 0 <= i < t.len() implies is_digit(#[trigger] t[i]) by {
                assert(t[i] == s[i]);
            }
        }
        lemma_prefix_value_le(t, k);
        assert(t.take(k) =~= s.take(k));
        assert(is_digit(s[s.len() - 1]));
    } else {
        assert(s.take(k) =~= s);
    }
}

/// Parsing the decimal text of a `u32` gives the number back.
pub proof fn lemma_parse_decimal_roundtrip(n: u32)
    ensures
        u32_text_value(decimal(n as nat)) == Some(n),
{
    lemma_decimal_denotes(n as nat);
    let s = decimal(n as nat);
    assert(is_digit(s[0]));
}

/// Appending a digit multiplies the value by ten and adds the digit.
pub proof fn lemma_digits_value_push(s: Seq<char>, c: char)
    requires
        is_digit(c),
    ensures
        digits_value(s.push(c)) == 10 * digits_value(s) + (c as int - '0' as int),
{
    assert(s.push(c).drop_last() =~= s);
}

/// Parsing accepts every nonempty run of digits whose value fits, with or
/// without a leading `+` and whatever leading zeros it has, and gives that
/// value; it refuses any text holding a character that is neither a digit
/// nor a leading `+`.
pub proof fn lemma_parse_accepts_digit_runs(s: Seq<char>)
    ensures
        (s.len() > 0 && all_digits(s) && digits_value(s) <= u32::MAX) ==> {
            &&& u32_text_value(s) == Some(digits_value(s) as u32)
            &&& u32_text_value(seq!['+'] + s) == Some(digits_value(s) as u32)
        },
        (exists|i: int| 0 < i < s.len() && !is_digit(#[trigger] s[i])) ==> u32_text_value(s) is None,
        (s.len() > 0 && !is_digit(s[0]) && s[0] != '+') ==> u32_text_value(s) is None,
        s.len() == 0 ==> u32_text_value(s) is None,
{
    assert((seq!['+'] + s).drop_first() =~= s);
    if exists|i: int| 0 < i < s.len() && !is_digit(#[trigger] s[i]) {
        let i = choose|i: int| 0 < i < s.len() && !is_digit(#[trigger] s[i]);
        if s[0] == '+' {
            assert(s.drop_first()[i - 1] == s[i]);
        }
    }
    if s.len() > 0 && !is_digit(s[0]) && s[0] != '+' {
        assert(s[0] == s[0]);
    }
}

fn digit_text(d: u64) -> (t: &'static str)
    requires
        d < 10,
    ensures
        t@ == seq![digit_char(d as nat)],
{
    proof {
        reveal_strlit("0");
        reveal_strlit("1");
        reveal_strlit("2");
        reveal_strlit("3");
        reveal_strlit("4");
        reveal_strlit("5");
        reveal_strlit("6");
        reveal_strlit("7");
        reveal_strlit("8");
        reveal_strlit("9");
    }
    let t = if d == 0 {
        "0"
    } else if d == 1 {
        "1"
    } else if d == 2 {
        "2"
    } else if d == 3 {
        "3"
    } else if d == 4 {
        "4"
    } else if d == 5 {
        "5"
    } else if d == 6 {
        "6"
    } else if d == 7 {
        "7"
    } else if d == 8 {
        "8"
    } else {
        "9"
    };
    assert(t@ =~= seq![digit_char(d as nat)]);
    t
}

/// Appends the decimal text of `n` to `out`.
pub fn push_decimal(out: &mut String, n: u64)
    ensures
        final(out)@ == old(out)@ + decimal(n as nat),
    decreases n,
{
    if n >= 10 {
        push_decimal(out, n / 10);
    }
    out.append(digit_text(n % 10));
    proof {
        if n >= 10 {
            assert(decimal(n as nat) == decimal((n / 10) as nat).push(digit_char((n % 10) as nat)));
        }
    }
}

/// The decimal text of `n`, as `format!("{}", n)` writes a `u32`.
pub fn u32_to_decimal(n: u32) -> (s: String)
    ensures
        s@ == decimal(n as nat),
{
    let mut s = String::new();
    push_decimal(&mut s, n as u64);
    assert(s@ =~= decimal(n as nat));
    s
}

/// Parses `s` as `u32::from_str` does: an optional leading `+`, then one or
/// more ASCII digits whose value fits in a `u32`; anything else is `None`.
pub fn parse_u32(s: &str) -> (r: Option<u32>)
    ensures
        r == u32_text_value(s@),
{
    if !s.is_ascii() {
        proof {
            if u32_text_value(s@) is Some {
                let d = if s@.len() > 0 && s@[0] == '+' { s@.drop_first() } else { s@ };
                assert forall|i: int| 0 <= i < s@.len() implies '\0' <= #[trigger] s@[i] <= '\u{7f}' by {
                    if s@.len() > 0 && s@[0] == '+' {
                        if i > 0 {
                            assert(is_digit(d[i - 1]));
                        }
                    } else {
                        assert(is_digit(d[i]));
                    }
                }
                assert(vstd::utf8::is_ascii_chars(s@));
            }
        }
        return None;
    }
    let len = s.unicode_len();
    let mut start: usize = 0;
    if len > 0 && s.get_ascii(0) == 43u8 {
        start = 1;
    }
    let ghost digits = if s@.len() > 0 && s@[0] == '+' { s@.drop_first() } else { s@ };
    proof {
        if len > 0 {
            let c = s@[0];
            assert('\0' <= c <= '\u{7f}');
            assert((c == '+') == ((c as u8) == 43u8));
        }
        assert(digits =~= s@.subrange(start as int, len as int));
    }
    if start == len {
        return None;
    }
    let mut acc: u64 = 0;
    let mut i: usize = start;
    while i < len
        invariant
            len == s@.len(),
            s.is_ascii(),
            start <= i <= len,
            start < len,
            digits =~= s@.subrange(start as int, len as int),
            digits == (if s@.len() > 0 && s@[0] == '+' { s@.drop_first() } else { s@ }),
            all_digits(s@.subrange(start as int, i as int)),
            acc == digits_value(s@.subrange(start as int, i as int)),
            acc <= u32::MAX,
        decreases len - i,
    {
        let b = s.get_ascii(i);
        let ghost c = s@[i as int];
        proof {
            assert('\0' <= c <= '\u{7f}');
        }
        let ghost before = s@.subrange(start as int, i as int);
        let ghost after = s@.subrange(start as int, i + 1);
        assert(after.drop_last() =~= before);
        assert(after.last() == c);
        if b < 48u8 || b > 57u8 {
            proof {
                assert(!is_digit(c));
                assert(digits[i - start] == s@[i as int]);
                assert(!all_digits(digits));
            }
            return None;
        }
        proof {
            assert(is_digit(c));
            assert(digit_value(c) == (b - 48) as int);
            assert(all_digits(after)) by {
                assert forall|j: int| 0 <= j < after.len() implies is_digit(#[trigger] after[j]) by {
                    if j < after.len() - 1 {
                        assert(after[j] == before[j]);
                    }
                }
            }
        }
        acc = acc * 10 + (b - 48u8) as u64;
        assert(acc == digits_value(after));
        if acc > 4294967295u64 {
            proof {
                if all_digits(digits) {
                    assert(digits.take((i + 1 - start) as int) =~= after);
                    lemma_prefix_value_le(digits, (i + 1 - start) as int);
                }
            }
            return None;
        }
        i = i + 1;
    }
    assert(s@.subrange(start as int, len as int) =~= digits);
    Some(acc as u32)
}

} // verus!
