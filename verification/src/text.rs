use vstd::prelude::*;

verus! {

/// Whether two strings hold the same characters.
pub fn str_eq(a: &str, b: &str) -> (r: bool)
    ensures
        r == (a@ == b@),
{
    let n = a.unicode_len();
    if n != b.unicode_len() {
        return false;
    }
    let mut i: usize = 0;
    while i < n
        invariant
            n == a@.len(),
            n == b@.len(),
            i <= n,
            forall|j: int| 0 <= j < i ==> a@[j] == b@[j],
        decreases n - i,
    {
        if a.get_char(i) != b.get_char(i) {
            return false;
        }
        i = i + 1;
    }
    assert(a@ =~= b@);
    true
}

/// Appends `c` to `s` (`String::push`).
#[verifier::external_body]
pub(crate) fn push_char(s: &mut String, c: char)
    ensures
        final(s)@ == old(s)@.push(c),
{
    s.push(c);
}

/// The character of a decimal digit.
pub open spec fn digit_char(d: nat) -> char
    recommends
        d < 10,
{
    (d + 48) as char
}

/// Decimal digits of a natural number, most significant first, without leading zeros.
pub open spec fn nat_text(n: nat) -> Seq<char>
    decreases n,
{
    if n < 10 {
        seq![digit_char(n)]
    } else {
        nat_text(n / 10).push(digit_char(n % 10))
    }
}

/// Decimal text of an integer, with a leading `-` when it is negative.
pub open spec fn int_text(i: int) -> Seq<char> {
    if i < 0 {
        seq!['-'] + nat_text((-i) as nat)
    } else {
        nat_text(i as nat)
    }
}

fn push_digits(s: &mut String, n: u32)
    ensures
        final(s)@ == old(s)@ + nat_text(n as nat),
    decreases n,
{
    if n >= 10 {
        push_digits(s, n / 10);
    }
    let d: u32 = n % 10;
    assert(d < 10);
    let c = ((d as u8) + 48u8) as char;
    assert(c == digit_char(d as nat));
    push_char(s, c);
    assert(final(s)@ =~= old(s)@ + nat_text(n as nat));
}

/// Decimal text of an `i32`.
pub fn i32_text(i: i32) -> (r: String)
    ensures
        r@ == int_text(i as int),
{
    let mut s = String::new();
    if i < 0 {
        push_char(&mut s, '-');
        let magnitude: u32 = if i == i32::MIN {
            2147483648u32
        } else {
            (-i) as u32
        };
        push_digits(&mut s, magnitude);
    } else {
        push_digits(&mut s, i as u32);
    }
    assert(s@ =~= int_text(i as int));
    s
}

/// Whether `c` is an ASCII decimal digit.
pub open spec fn is_digit(c: char) -> bool {
    '0' <= c <= '9'
}

/// Value of a string of decimal digits.
pub open spec fn digits_value(s: Seq<char>) -> nat
    decreases s.len(),
{
    if s.len() == 0 {
        0
    } else {
        digits_value(s.drop_last()) * 10 + ((s.last() as nat) - 48) as nat
    }
}

/// The integer a non-empty run of decimal digits denotes; `None` for any other text.
pub open spec fn decimal_value(s: Seq<char>) -> Option<nat> {
    if s.len() > 0 && forall|i: int| 0 <= i < s.len() ==> is_digit(#[trigger] s[i]) {
        Some(digits_value(s))
    } else {
        None
    }
}

/// The integer a literal spells: decimal digits, with an optional `+` or `-`
/// in front; `None` for any other text.
pub open spec fn signed_value(s: Seq<char>) -> Option<int> {
    if s.len() > 0 && (s[0] == '-' || s[0] == '+') {
        match decimal_value(s.drop_first()) {
            Some(n) => Some(if s[0] == '-' { -n } else { n as int }),
            None => None,
        }
    } else {
        match decimal_value(s) {
            Some(n) => Some(n as int),
            None => None,
        }
    }
}

/// The decimal text of a natural number is a run of digits worth that number.
proof fn lemma_nat_text_value(n: nat)
    ensures
        nat_text(n).len() > 0,
        forall|j: int| 0 <= j < nat_text(n).len() ==> is_digit(#[trigger] nat_text(n)[j]),
        digits_value(nat_text(n)) == n,
    decreases n,
{
    let d = n % 10;
    assert(digit_char(d) as nat == d + 48);
    if n >= 10 {
        lemma_nat_text_value(n / 10);
        let s = nat_text(n);
        assert(s.drop_last() =~= nat_text(n / 10));
        assert(s.last() == digit_char(d));
        assert forall|j: int| 0 <= j < s.len() implies is_digit(#[trigger] s[j]) by {
            if j < s.len() - 1 {
                assert(s[j] == nat_text(n / 10)[j]);
            }
        }
        assert(digits_value(s) == digits_value(s.drop_last()) * 10 + ((s.last() as nat) - 48) as nat);
        assert(n == (n / 10) * 10 + d);
    } else {
        let s = nat_text(n);
        assert(s.drop_last() =~= Seq::<char>::empty());
        assert(digits_value(s) == digits_value(s.drop_last()) * 10 + ((s.last() as nat) - 48) as nat);
        assert(digits_value(Seq::<char>::empty()) == 0);
    }
}

/// The decimal text of an integer reads back as that integer.
pub proof fn law_int_text_reads_back(i: int)
    ensures
        signed_value(int_text(i)) == Some(i),
{
    if i < 0 {
        lemma_nat_text_value((-i) as nat);
        let s = int_text(i);
        assert(s.drop_first() =~= nat_text((-i) as nat));
    } else {
        lemma_nat_text_value(i as nat);
        assert(is_digit(nat_text(i as nat)[0]));
    }
}

/// Parses an integer as `str::parse::<i32>` does: decimal digits with an
/// optional sign; `None` when the text holds anything else or its value does
/// not fit an `i32`.
pub fn parse_i32(text: &str) -> (r: Option<i32>)
    ensures
        match r {
            Some(v) => signed_value(text@) == Some(v as int),
            None => signed_value(text@) is None || !(i32::MIN <= signed_value(text@)->0 <= i32::MAX),
        },
{
    let n = text.unicode_len();
    if n == 0 {
        return None;
    }
    let first = text.get_char(0);
    let neg = first == '-';
    let start: usize = if first == '-' || first == '+' {
        1
    } else {
        0
    };
    if start == n {
        return None;
    }
    let ghost digits = text@.subrange(start as int, n as int);
    let cap: u64 = 2147483649;
    let mut acc: u64 = 0;
    let mut i: usize = start;
    while i < n
        invariant
            n == text@.len(),
            start <= i <= n,
            start < n,
            start == 0 || start == 1,
            start == 1 <==> (text@[0] == '-' || text@[0] == '+'),
            neg <==> text@[0] == '-',
            digits == text@.subrange(start as int, n as int),
            cap == 2147483649,
            forall|j: int| start <= j < i ==> is_digit(#[trigger] text@[j]),
            acc as int == if digits_value(digits.take(i - start)) < cap {
                digits_value(digits.take(i - start)) as int
            } else {
                cap as int
            },
        decreases n - i,
    {
        let c = text.get_char(i);
        if !('0' <= c && c <= '9') {
            assert(!is_digit(digits[i - start]));
            if start == 1 {
                assert(digits =~= text@.drop_first());
            } else {
                assert(digits =~= text@);
            }
            return None;
        }
        let d = (c as u32 - 48) as u64;
        assert(digits.take(i + 1 - start).drop_last() =~= digits.take(i - start));
        let next = acc * 10 + d;
        acc = if next < cap {
            next
        } else {
            cap
        };
        i = i + 1;
    }
    assert(digits.take(n - start) =~= digits);
    assert forall|j: int| 0 <= j < digits.len() implies is_digit(#[trigger] digits[j]) by {
        assert(digits[j] == text@[j + start]);
    }
    if start == 1 {
        assert(digits =~= text@.drop_first());
    } else {
        assert(digits =~= text@);
    }
    if neg {
        if acc <= 2147483648 {
            Some((0 - acc as i64) as i32)
        } else {
            None
        }
    } else {
        if acc <= 2147483647 {
            Some(acc as i32)
        } else {
            None
        }
    }
}

} // verus!
