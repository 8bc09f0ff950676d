//! Character classes and the runs of characters that the line grammars are
//! made of.

use vstd::prelude::*;

verus! {

/// The classes of characters that the line grammars tell apart.
#[derive(Clone, Copy, Debug, PartialEq, Eq)]
pub enum CharClass {
    /// A space or a tab.
    Blank,
    /// Anything but a space or a tab.
    Word,
    /// An ASCII decimal digit.
    Digit,
    /// Anything but an ASCII decimal digit.
    NonDigit,
    /// Anything but a colon.
    NonColon,
}

/// Whether `c` is a space or a tab.
pub open spec fn is_blank(c: char) -> bool {
    c == ' ' || c == '\t'
}

/// Whether `c` is one of the ten ASCII decimal digits.
pub open spec fn is_digit(c: char) -> bool {
    '0' <= c && c <= '9'
}

impl CharClass {
    /// Whether `c` belongs to the class.
    pub open spec fn admits(self, c: char) -> bool {
        match self {
            CharClass::Blank => is_blank(c),
            CharClass::Word => !is_blank(c),
            CharClass::Digit => is_digit(c),
            CharClass::NonDigit => !is_digit(c),
            CharClass::NonColon => c != ':',
        }
    }

    /// Whether `c` belongs to the class.
    pub fn contains(&self, c: char) -> (found: bool)
        ensures
            found == self.admits(c),
    {
        match self {
            CharClass::Blank => c == ' ' || c == '\t',
            CharClass::Word => !(c == ' ' || c == '\t'),
            CharClass::Digit => '0' <= c && c <= '9',
            CharClass::NonDigit => !('0' <= c && c <= '9'),
            CharClass::NonColon => c != ':',
        }
    }
}

/// The index just past the longest run of characters of `class` that begins
/// at `from`; `from` itself where no such character stands there.
pub open spec fn run_end(s: Seq<char>, from: int, class: CharClass) -> int
    decreases s.len() - from,
{
    if 0 <= from < s.len() && class.admits(s[from]) {
        run_end(s, from + 1, class)
    } else {
        from
    }
}

/// A run ends inside the text, holds only characters of its class, and is
/// followed by a character outside the class or by the end of the text.
pub proof fn lemma_run_end(s: Seq<char>, from: int, class: CharClass)
    requires
        0 <= from <= s.len(),
    ensures
        from <= run_end(s, from, class) <= s.len(),
        forall|k: int| from <= k < run_end(s, from, class) ==> class.admits(#[trigger] s[k]),
        run_end(s, from, class) < s.len() ==> !class.admits(s[run_end(s, from, class)]),
    decreases s.len() - from,
{
    if from < s.len() && class.admits(s[from]) {
        lemma_run_end(s, from + 1, class);
    }
}

/// Finds the end of the run of `class` that begins at `from`.
pub fn scan(chars: &Vec<char>, from: usize, class: CharClass) -> (end: usize)
    requires
        from <= chars.len(),
    ensures
        end == run_end(chars@, from as int, class),
        from <= end <= chars.len(),
{
    let mut end: usize = from;
    while end < chars.len() && class.contains(chars[end])
        invariant
            from <= end <= chars.len(),
            run_end(chars@, from as int, class) == run_end(chars@, end as int, class),
        decreases chars.len() - end,
    {
        end = end + 1;
    }
    end
}


/// The characters of `text`, one by one.
pub fn chars_of(text: &str) -> (chars: Vec<char>)
    ensures
        chars@ == text@,
{
    let mut chars: Vec<char> = Vec::new();
    for c in it: text.chars()
        invariant
            it.seq() == text@,
            chars@ == it.seq().take(it.index() as int),
    {
        chars.push(c);
    }
    chars
}

/// The number that the digit `c` stands for; 0 for any other character.
pub open spec fn digit_value(c: char) -> nat {
    if is_digit(c) {
        (c as u32 - '0' as u32) as nat
    } else {
        0
    }
}

/// The number that a run of decimal digits stands for, leading zeros
/// allowed; 0 for the empty run.
pub open spec fn decimal_value(digits: Seq<char>) -> nat
    decreases digits.len(),
{
    if digits.len() == 0 {
        0
    } else {
        decimal_value(digits.drop_last()) * 10 + digit_value(digits.last())
    }
}

/// The number that a run of decimal digits stands for, where a `u64` can
/// hold it.
pub open spec fn decimal_u64(digits: Seq<char>) -> Option<u64> {
    if decimal_value(digits) <= u64::MAX {
        Some(decimal_value(digits) as u64)
    } else {
        None
    }
}

/// A run of digits stands for no less than any of its beginnings.
pub proof fn lemma_decimal_value_grows(digits: Seq<char>, n: int)
    requires
        0 <= n <= digits.len(),
    ensures
        decimal_value(digits.take(n)) <= decimal_value(digits),
    decreases digits.len(),
{
    if n == digits.len() {
        assert(digits.take(n) =~= digits);
    } else {
        lemma_decimal_value_grows(digits.drop_last(), n);
        assert(digits.drop_last().take(n) =~= digits.take(n));
    }
}

/// Two digits stand for ten times the first plus the second, which is 99 at
/// most.
pub proof fn lemma_two_digits(digits: Seq<char>)
    requires
        digits.len() == 2,
    ensures
        decimal_value(digits) == digit_value(digits[0]) * 10 + digit_value(digits[1]),
        decimal_value(digits) <= 99,
{
    assert(digits.drop_last().drop_last() =~= Seq::<char>::empty());
    assert(decimal_value(digits.drop_last()) == digit_value(digits[0])) by {
        reveal_with_fuel(decimal_value, 2);
    }
}

/// Reads the digits between `from` and `to` as a decimal number.
pub fn read_decimal(chars: &Vec<char>, from: usize, to: usize) -> (value: Option<u64>)
    requires
        from <= to <= chars.len(),
        forall|k: int| from <= k < to ==> is_digit(#[trigger] chars@[k]),
    ensures
        value == decimal_u64(chars@.subrange(from as int, to as int)),
{
    let ghost digits = chars@.subrange(from as int, to as int);
    let mut value: u64 = 0;
    let mut at: usize = from;
    while at < to
        invariant
            from <= at <= to <= chars.len(),
            digits == chars@.subrange(from as int, to as int),
            forall|k: int| from <= k < to ==> is_digit(#[trigger] chars@[k]),
            value == decimal_value(digits.take(at - from)),
        decreases to - at,
    {
        let digit: u64 = (chars[at] as u32 - '0' as u32) as u64;
        proof {
            let longer = digits.take(at - from + 1);
            assert(longer.drop_last() =~= digits.take(at - from));
            assert(longer.last() == chars@[at as int]);
            assert(decimal_value(longer) == value * 10 + digit);
            lemma_decimal_value_grows(digits, at - from + 1);
        }
        let shifted: u64 = match value.checked_mul(10) {
            Some(shifted) => shifted,
            None => {
                return None;
            },
        };
        value = match shifted.checked_add(digit) {
            Some(sum) => sum,
            None => {
                return None;
            },
        };
        at = at + 1;
    }
    assert(digits.take(to - from) =~= digits);
    Some(value)
}


} // verus!
