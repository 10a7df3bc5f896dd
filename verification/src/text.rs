use vstd::prelude::*;
use vstd::string::*;

verus! {

/// The character sequences of a list of strings, in order.
pub open spec fn texts(list: Seq<String>) -> Seq<Seq<char>> {
    Seq::new(list.len(), |i: int| list[i]@)
}

/// The character sequence of a string that may be absent.
pub open spec fn opt_text(s: Option<String>) -> Option<Seq<char>> {
    match s {
        Some(s) => Some(s@),
        None => None,
    }
}

/// The character sequences of a list of strings that may be absent.
pub open spec fn opt_texts(list: Option<Vec<String>>) -> Option<Seq<Seq<char>>> {
    match list {
        Some(list) => Some(texts(list@)),
        None => None,
    }
}

/// The character sequence of a string slice that may be absent.
pub open spec fn opt_str(s: Option<&str>) -> Option<Seq<char>> {
    match s {
        Some(s) => Some(s@),
        None => None,
    }
}

/// Listing the texts of two lists one after the other is listing the texts
/// of their concatenation.
pub proof fn lemma_texts_concat(a: Seq<String>, b: Seq<String>)
    ensures
        texts(a + b) == texts(a) + texts(b),
{
    assert(texts(a + b) =~= texts(a) + texts(b));
}

/// The characters of `s`, one by one.
pub fn chars_of(s: &str) -> (chars: Vec<char>)
    ensures
        chars@ == s@,
{
    let mut chars: Vec<char> = Vec::new();
    for c in it: s.chars()
        invariant
            it.seq() == s@,
            chars@ == s@.take(it.index()),
    {
        chars.push(c);
        assert(chars@ =~= s@.take(it.index() + 1));
    }
    assert(s@.take(s@.len() as int) =~= s@);
    chars
}

/// `head` followed by `tail`.
pub fn join(head: &str, tail: &str) -> (joined: String)
    ensures
        joined@ == head@ + tail@,
{
    let mut joined = String::from_str(head);
    joined.append(tail);
    joined
}

/// The character that writes the digit `d`.
pub open spec fn digit_char(d: int) -> char {
    if d == 0 {
        '0'
    } else if d == 1 {
        '1'
    } else if d == 2 {
        '2'
    } else if d == 3 {
        '3'
    } else if d == 4 {
        '4'
    } else if d == 5 {
        '5'
    } else if d == 6 {
        '6'
    } else if d == 7 {
        '7'
    } else if d == 8 {
        '8'
    } else {
        '9'
    }
}

/// The digit that `c` writes, if it writes one.
pub open spec fn digit_value(c: char) -> Option<int> {
    if c == '0' {
        Some(0)
    } else if c == '1' {
        Some(1)
    } else if c == '2' {
        Some(2)
    } else if c == '3' {
        Some(3)
    } else if c == '4' {
        Some(4)
    } else if c == '5' {
        Some(5)
    } else if c == '6' {
        Some(6)
    } else if c == '7' {
        Some(7)
    } else if c == '8' {
        Some(8)
    } else if c == '9' {
        Some(9)
    } else {
        None
    }
}

/// The decimal digits of `n`, most significant first, without leading zeros.
pub open spec fn decimal_digits(n: nat) -> Seq<char>
    decreases n,
{
    if n < 10 {
        seq![digit_char(n as int)]
    } else {
        decimal_digits(n / 10).push(digit_char((n % 10) as int))
    }
}

/// How `n` is written in decimal: a minus sign if it is negative, then its digits.
pub open spec fn decimal(n: int) -> Seq<char> {
    if n < 0 {
        seq!['-'] + decimal_digits((-n) as nat)
    } else {
        decimal_digits(n as nat)
    }
}

fn digit_str(d: u8) -> (s: &'static str)
    requires
        d < 10,
    ensures
        s@ == seq![digit_char(d as int)],
{
    let s = match d {
        0 => "0",
        1 => "1",
        2 => "2",
        3 => "3",
        4 => "4",
        5 => "5",
        6 => "6",
        7 => "7",
        8 => "8",
        _ => "9",
    };
    proof {
        reveal_strlit("0");
        reveal_strlit("1");
        reveal_strlit("2");
        reveal_strlit("3");
        reveal_strlit("4");
        reveal_strlit("5");
        reveal_strlit("6");
        reveal_strlit("7");
        reveal_strlit("8");
        reveal_strlit("9");
        assert(s@ =~= seq![digit_char(d as int)]);
    }
    s
}

/// Writes `n` in decimal.
pub fn decimal_string(n: i32) -> (out: String)
    ensures
        out@ == decimal(n as int),
{
    let negative = n < 0;
    let magnitude: u32 = if negative {
        (0 - (n as i64)) as u32
    } else {
        n as u32
    };
    let mut rest: u32 = magnitude;
    let mut low: Vec<u8> = Vec::new();
    let ghost mut tail: Seq<char> = Seq::empty();
    while rest >= 10
        invariant
            decimal_digits(magnitude as nat) == decimal_digits(rest as nat) + tail,
            tail.len() == low@.len(),
            forall|j: int| 0 <= j < low@.len() ==> #[trigger] low@[j] < 10,
            forall|j: int| 0 <= j < low@.len() ==> #[trigger] tail[j] == digit_char(low@[low@.len() - 1 - j] as int),
        decreases rest,
    {
        let d = (rest % 10) as u8;
        proof {
            let shorter = decimal_digits((rest / 10) as nat);
            assert(decimal_digits(rest as nat) == shorter.push(digit_char(d as int)));
            assert(shorter.push(digit_char(d as int)) + tail =~= shorter + (seq![digit_char(d as int)] + tail));
        }
        let ghost before = tail;
        let ghost produced = low@;
        low.push(d);
        rest = rest / 10;
        proof {
            tail = seq![digit_char(d as int)] + before;
            assert forall|j: int| 0 <= j < low@.len() implies #[trigger] tail[j] == digit_char(
                low@[low@.len() - 1 - j] as int,
            ) by {
                if j > 0 {
                    assert(tail[j] == before[j - 1]);
                    assert(low@[low@.len() - 1 - j] == produced[produced.len() - 1 - (j - 1)]);
                }
            }
        }
    }
    let mut out = if negative {
        String::from_str("-")
    } else {
        String::new()
    };
    let ghost sign = out@;
    proof {
        reveal_strlit("-");
        assert(sign =~= if negative {
            seq!['-']
        } else {
            Seq::<char>::empty()
        });
    }
    out.append(digit_str(rest as u8));
    let mut k: usize = low.len();
    while k > 0
        invariant
            k <= low@.len(),
            tail.len() == low@.len(),
            forall|j: int| 0 <= j < low@.len() ==> #[trigger] low@[j] < 10,
            forall|j: int| 0 <= j < low@.len() ==> #[trigger] tail[j] == digit_char(low@[low@.len() - 1 - j] as int),
            out@ == sign + decimal_digits(rest as nat) + tail.take(low@.len() - k),
            rest < 10,
        decreases k,
    {
        k -= 1;
        let ghost at = low@.len() - 1 - k;
        out.append(digit_str(low[k]));
        proof {
            assert(tail[at] == digit_char(low@[k as int] as int));
            assert(tail.take(at + 1) =~= tail.take(at) + seq![tail[at]]);
            assert(out@ =~= sign + decimal_digits(rest as nat) + tail.take(at + 1));
        }
    }
    proof {
        assert(tail.take(low@.len() as int) =~= tail);
        assert(out@ =~= sign + (decimal_digits(rest as nat) + tail));
        if !negative {
            assert(out@ =~= decimal_digits(magnitude as nat));
        }
    }
    out
}

/// Every character of `s` is a decimal digit.
pub open spec fn all_digits(s: Seq<char>) -> bool {
    forall|i: int| 0 <= i < s.len() ==> digit_value(#[trigger] s[i]) is Some
}

/// The number that the digits `s` write; leading zeros count for nothing.
pub open spec fn digits_value(s: Seq<char>) -> int
    decreases s.len(),
{
    if s.len() == 0 {
        0
    } else {
        digits_value(s.drop_last()) * 10 + digit_value(s.last())->0
    }
}

/// The 32-bit integer that `s` writes in decimal, if it writes one: an
/// optional `+` or `-`, then at least one digit and nothing else, and a
/// value that fits.
pub open spec fn parse_decimal(s: Seq<char>) -> Option<int> {
    let signed = s.len() > 0 && (s[0] == '-' || s[0] == '+');
    let digits = if signed {
        s.skip(1)
    } else {
        s
    };
    let value = if s.len() > 0 && s[0] == '-' {
        -digits_value(digits)
    } else {
        digits_value(digits)
    };
    if digits.len() > 0 && all_digits(digits) && i32::MIN <= value <= i32::MAX {
        Some(value)
    } else {
        None
    }
}

/// Reading more digits never makes the number smaller.
pub proof fn lemma_digits_value_grows(s: Seq<char>, n: int)
    requires
        all_digits(s),
        0 <= n <= s.len(),
    ensures
        0 <= digits_value(s.take(n)) <= digits_value(s),
    decreases s.len() - n,
{
    lemma_digits_value_nonnegative(s.take(n));
    if n < s.len() {
        assert(s.take(n + 1).drop_last() =~= s.take(n));
        assert(s.take(n + 1).last() == s[n]);
        lemma_digits_value_grows(s, n + 1);
    } else {
        assert(s.take(n) =~= s);
    }
}

/// Digits write a number that is not negative.
pub proof fn lemma_digits_value_nonnegative(s: Seq<char>)
    requires
        all_digits(s),
    ensures
        0 <= digits_value(s),
    decreases s.len(),
{
    if s.len() > 0 {
        assert(digit_value(s[s.len() - 1]) is Some);
        lemma_digits_value_nonnegative(s.drop_last());
    }
}

fn digit_of(c: char) -> (d: Option<u8>)
    ensures
        d matches Some(v) ==> digit_value(c) == Some(v as int),
        d is None ==> digit_value(c) is None,
{
    match c {
        '0' => Some(0),
        '1' => Some(1),
        '2' => Some(2),
        '3' => Some(3),
        '4' => Some(4),
        '5' => Some(5),
        '6' => Some(6),
        '7' => Some(7),
        '8' => Some(8),
        '9' => Some(9),
        _ => None,
    }
}

/// Reads `s` as a 32-bit integer written in decimal.
pub fn parse_i32(s: &str) -> (out: Option<i32>)
    ensures
        out matches Some(v) ==> parse_decimal(s@) == Some(v as int),
        out is None ==> parse_decimal(s@) is None,
{
    let chars = chars_of(s);
    let n = chars.len();
    if n == 0 {
        return None;
    }
    let negative = chars[0] == '-';
    let start: usize = if negative || chars[0] == '+' {
        1
    } else {
        0
    };
    if start == n {
        return None;
    }
    let ghost digits = s@.skip(start as int);
    proof {
        assert(s@.skip(0) =~= s@);
    }
    let mut acc: i64 = 0;
    let mut k: usize = start;
    while k < n
        invariant
            start <= k <= n,
            start < n,
            n == chars@.len(),
            chars@ == s@,
            negative == (s@[0] == '-'),
            start == (if s@[0] == '-' || s@[0] == '+' {
                1int
            } else {
                0int
            }),
            digits == s@.skip(start as int),
            all_digits(digits.take(k - start)),
            acc == digits_value(digits.take(k - start)),
            0 <= acc <= 2147483648,
        decreases n - k,
    {
        let ghost read = k - start;
        proof {
            assert(digits.take(read + 1).drop_last() =~= digits.take(read));
            assert(digits.take(read + 1).last() == chars@[k as int]);
        }
        match digit_of(chars[k]) {
            None => {
                assert(digit_value(digits[read]) is None);
                assert(s@.skip(0) =~= s@);
                return None;
            },
            Some(d) => {
                let next = acc * 10 + d as i64;
                proof {
                    assert forall|i: int| 0 <= i < read + 1 implies digit_value(#[trigger] digits.take(read + 1)[i]) is Some by {
                        if i < read {
                            assert(digits.take(read + 1)[i] == digits.take(read)[i]);
                        }
                    }
                    assert(next == digits_value(digits.take(read + 1)));
                }
                if next > 2147483648 {
                    proof {
                        assert(s@.skip(0) =~= s@);
                        if all_digits(digits) {
                            lemma_digits_value_grows(digits, read + 1);
                        }
                    }
                    return None;
                }
                acc = next;
            },
        }
        k += 1;
    }
    proof {
        assert(digits.take(n - start) =~= digits);
        assert(s@.skip(0) =~= s@);
    }
    if negative {
        Some((0 - acc) as i32)
    } else if acc > 2147483647 {
        None
    } else {
        Some(acc as i32)
    }
}

/// `pattern` stands in `text` from position `at` on.
pub open spec fn occurs_at(text: Seq<char>, pattern: Seq<char>, at: int) -> bool {
    0 <= at && at + pattern.len() <= text.len() && text.subrange(at, at + pattern.len()) == pattern
}

/// `at` is the first position from which `pattern` stands in `text`.
pub open spec fn first_at(text: Seq<char>, pattern: Seq<char>, at: int) -> bool {
    occurs_at(text, pattern, at) && forall|j: int| 0 <= j < at ==> !occurs_at(text, pattern, j)
}

/// `pattern` stands nowhere in `text`.
pub open spec fn absent(text: Seq<char>, pattern: Seq<char>) -> bool {
    forall|j: int| !occurs_at(text, pattern, j)
}

/// Looks for the first place where `pattern` stands in `text`.
pub fn find(text: &Vec<char>, pattern: &Vec<char>) -> (found: Option<usize>)
    ensures
        found matches Some(at) ==> first_at(text@, pattern@, at as int),
        found is None ==> absent(text@, pattern@),
{
    let n = text.len();
    let m = pattern.len();
    if m > n {
        return None;
    }
    let mut at: usize = 0;
    while at <= n - m
        invariant
            n == text@.len(),
            m == pattern@.len(),
            m <= n,
            at <= n - m + 1,
            forall|j: int| 0 <= j < at ==> !occurs_at(text@, pattern@, j),
        decreases n - m + 1 - at,
    {
        let mut j: usize = 0;
        while j < m && text[at + j] == pattern[j]
            invariant
                n == text@.len(),
                m == pattern@.len(),
                at + m <= n,
                j <= m,
                forall|i: int| 0 <= i < j ==> text@[at + i] == pattern@[i],
            decreases m - j,
        {
            j += 1;
        }
        if j == m {
            assert(text@.subrange(at as int, at + m) =~= pattern@);
            return Some(at);
        }
        assert(!occurs_at(text@, pattern@, at as int)) by {
            if occurs_at(text@, pattern@, at as int) {
                assert(text@.subrange(at as int, at + m)[j as int] == pattern@[j as int]);
            }
        }
        at += 1;
    }
    None
}

/// Whether two string slices hold the same characters.
pub fn same_text(a: &str, b: &str) -> (same: bool)
    ensures
        same == (a@ == b@),
{
    let left = chars_of(a);
    let right = chars_of(b);
    if left.len() != right.len() {
        return false;
    }
    let mut k: usize = 0;
    while k < left.len()
        invariant
            k <= left@.len(),
            left@ == a@,
            right@ == b@,
            left@.len() == right@.len(),
            forall|i: int| 0 <= i < k ==> left@[i] == right@[i],
        decreases left.len() - k,
    {
        if left[k] != right[k] {
            return false;
        }
        k += 1;
    }
    assert(left@ =~= right@);
    true
}

} // verus!
