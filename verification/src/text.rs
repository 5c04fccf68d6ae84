//! Characters of a source text: classes, runs and decimal numbers.

use vstd::prelude::*;

verus! {

/// A class of characters that a lexeme is made of.
#[derive(Clone, Copy, Debug, PartialEq, Eq, Structural)]
pub enum CharClass {
    /// `0` to `9`.
    Digit,
    /// `A` to `Z`.
    Upper,
    /// `a` to `z` and `A` to `Z`.
    Letter,
}

impl CharClass {
    /// Whether `c` belongs to the class.
    pub open spec fn holds(self, c: char) -> bool {
        match self {
            CharClass::Digit => '0' <= c && c <= '9',
            CharClass::Upper => 'A' <= c && c <= 'Z',
            CharClass::Letter => ('a' <= c && c <= 'z') || ('A' <= c && c <= 'Z'),
        }
    }

    /// Tests membership of `c`.
    pub fn test(self, c: char) -> (member: bool)
        ensures
            member == self.holds(c),
    {
        match self {
            CharClass::Digit => '0' <= c && c <= '9',
            CharClass::Upper => 'A' <= c && c <= 'Z',
            CharClass::Letter => ('a' <= c && c <= 'z') || ('A' <= c && c <= 'Z'),
        }
    }
}

/// Whether `c` is whitespace, which separates tokens: a blank, a tab, a line
/// feed, a form feed or a carriage return.
pub open spec fn is_blank(c: char) -> bool {
    c == ' ' || c == '\t' || c == '\n' || c == '\x0c' || c == '\r'
}

/// Tests whether `c` is whitespace.
pub fn blank(c: char) -> (is: bool)
    ensures
        is == is_blank(c),
{
    c == ' ' || c == '\t' || c == '\n' || c == '\x0c' || c == '\r'
}

/// The number of consecutive characters of `class` in `text`, from `from` on.
pub open spec fn run_len(text: Seq<char>, from: int, class: CharClass) -> nat
    decreases text.len() - from,
{
    if 0 <= from < text.len() && class.holds(text[from]) {
        1 + run_len(text, from + 1, class)
    } else {
        0
    }
}

/// Whether every character of `text` belongs to `class`.
pub open spec fn all_of(text: Seq<char>, class: CharClass) -> bool {
    forall|i: int| 0 <= i < text.len() ==> class.holds(#[trigger] text[i])
}

/// The value of a decimal digit.
pub open spec fn digit_value(c: char) -> nat {
    (c as u32 - '0' as u32) as nat
}

/// The number that a run of decimal digits writes; leading zeros are allowed.
pub open spec fn decimal_value(digits: Seq<char>) -> nat
    decreases digits.len(),
{
    if digits.len() == 0 {
        0
    } else {
        decimal_value(digits.drop_last()) * 10 + digit_value(digits.last())
    }
}

/// A run stays within the text.
pub proof fn lemma_run_len_bound(text: Seq<char>, from: int, class: CharClass)
    requires
        0 <= from <= text.len(),
    ensures
        from + run_len(text, from, class) <= text.len(),
        all_of(text.subrange(from, from + run_len(text, from, class)), class),
        from + run_len(text, from, class) < text.len() ==> !class.holds(
            text[from + run_len(text, from, class)],
        ),
    decreases text.len() - from,
{
    if from < text.len() && class.holds(text[from]) {
        lemma_run_len_bound(text, from + 1, class);
        let n = run_len(text, from, class);
        assert forall|i: int| 0 <= i < n implies class.holds(
            #[trigger] text.subrange(from, from + n)[i],
        ) by {
            if i > 0 {
                assert(text.subrange(from, from + n)[i] == text.subrange(
                    from + 1,
                    from + 1 + run_len(text, from + 1, class),
                )[i - 1]);
            }
        }
    }
}

/// Reads a run of decimal digits as a 16-bit number, if it fits.
pub fn parse_decimal(digits: &Vec<char>) -> (value: Option<u16>)
    requires
        all_of(digits@, CharClass::Digit),
    ensures
        value == if decimal_value(digits@) <= u16::MAX {
            Some(decimal_value(digits@) as u16)
        } else {
            None
        },
{
    let mut acc: u32 = 0;
    let mut i: usize = 0;
    while i < digits.len()
        invariant
            0 <= i <= digits.len(),
            all_of(digits@, CharClass::Digit),
            acc == decimal_value(digits@.take(i as int)),
            acc <= u16::MAX,
        decreases digits.len() - i,
    {
        let c = digits[i];
        let d: u32 = c as u32 - '0' as u32;
        let next: u32 = acc * 10 + d;
        proof {
            assert(digits@.take(i + 1).drop_last() =~= digits@.take(i as int));
        }
        if next > 65535 {
            proof {
                lemma_decimal_value_grows(digits@, i + 1);
            }
            return None;
        }
        acc = next;
        i += 1;
    }
    proof {
        assert(digits@.take(digits.len() as int) =~= digits@);
    }
    Some(acc as u16)
}

/// A number does not shrink when digits are appended to it.
pub proof fn lemma_decimal_value_grows(digits: Seq<char>, n: int)
    requires
        0 <= n <= digits.len(),
    ensures
        decimal_value(digits.take(n)) <= decimal_value(digits),
    decreases digits.len() - n,
{
    if n < digits.len() {
        lemma_decimal_value_grows(digits, n + 1);
        assert(digits.take(n + 1).drop_last() =~= digits.take(n));
    } else {
        assert(digits.take(n) =~= digits);
    }
}

/// The characters of `source`, in order.
pub fn chars_of(source: &str) -> (chars: Vec<char>)
    ensures
        chars@ == source@,
{
    let mut chars: Vec<char> = Vec::new();
    for c in it: source.chars()
        invariant
            it.seq() == source@,
            chars@ == it.seq().take(it.index()),
    {
        chars.push(c);
    }
    chars
}

/// `String::push` appends the character to the end of the string.
pub assume_specification[ String::push ](text: &mut String, c: char)
    ensures
        final(text)@ == old(text)@.push(c),
;

/// The string that `chars` spell.
pub fn string_of(chars: &Vec<char>) -> (text: String)
    ensures
        text@ == chars@,
{
    let mut text = String::new();
    let mut i: usize = 0;
    while i < chars.len()
        invariant
            0 <= i <= chars.len(),
            text@ == chars@.take(i as int),
        decreases chars.len() - i,
    {
        text.push(chars[i]);
        i += 1;
    }
    text
}

/// The capital of a small letter; any other character as it is.
pub open spec fn upper(c: char) -> char {
    if 'a' <= c && c <= 'z' {
        ((c as u8 - 32) as u8) as char
    } else {
        c
    }
}

/// `word` with its small letters in capitals.
pub open spec fn uppercase(word: Seq<char>) -> Seq<char> {
    Seq::new(word.len(), |i: int| upper(word[i]))
}

/// Puts a small letter in capitals.
pub fn to_upper(c: char) -> (capital: char)
    ensures
        capital == upper(c),
{
    if 'a' <= c && c <= 'z' {
        let code: u8 = c as u8 - 32;
        code as char
    } else {
        c
    }
}

/// The end of the run of `class` that starts at `from`.
pub fn run_end(chars: &Vec<char>, from: usize, class: CharClass) -> (end: usize)
    requires
        from <= chars.len(),
    ensures
        end == from + run_len(chars@, from as int, class),
        end <= chars.len(),
{
    let mut end: usize = from;
    while end < chars.len() && class.test(chars[end])
        invariant
            from <= end <= chars.len(),
            end + run_len(chars@, end as int, class) == from + run_len(chars@, from as int, class),
        decreases chars.len() - end,
    {
        end += 1;
    }
    end
}

/// The capitals of the characters `from..to`.
pub fn uppercase_of(chars: &Vec<char>, from: usize, to: usize) -> (word: Vec<char>)
    requires
        from <= to <= chars.len(),
    ensures
        word@ == uppercase(chars@.subrange(from as int, to as int)),
{
    let mut word: Vec<char> = Vec::new();
    let mut i: usize = from;
    while i < to
        invariant
            from <= i <= to <= chars.len(),
            word@ == uppercase(chars@.subrange(from as int, i as int)),
        decreases to - i,
    {
        word.push(to_upper(chars[i]));
        i += 1;
    }
    word
}

/// The characters `from..to`.
pub fn slice_of(chars: &Vec<char>, from: usize, to: usize) -> (word: Vec<char>)
    requires
        from <= to <= chars.len(),
    ensures
        word@ == chars@.subrange(from as int, to as int),
{
    let mut word: Vec<char> = Vec::new();
    let mut i: usize = from;
    while i < to
        invariant
            from <= i <= to <= chars.len(),
            word@ == chars@.subrange(from as int, i as int),
        decreases to - i,
    {
        word.push(chars[i]);
        i += 1;
    }
    word
}

/// The texts of `items`, with a blank between each two.
pub open spec fn joined(items: Seq<Seq<char>>) -> Seq<char>
    decreases items.len(),
{
    if items.len() == 0 {
        Seq::empty()
    } else if items.len() == 1 {
        items[0]
    } else {
        joined(items.drop_last()) + seq![' '] + items.last()
    }
}

/// The texts of `items` as a list: in parentheses, with a blank between each
/// two.
pub open spec fn listed(items: Seq<Seq<char>>) -> Seq<char> {
    seq!['('] + joined(items) + seq![')']
}

/// The decimal digit of a value below ten.
pub open spec fn digit_char(value: nat) -> char {
    if value == 0 {
        '0'
    } else if value == 1 {
        '1'
    } else if value == 2 {
        '2'
    } else if value == 3 {
        '3'
    } else if value == 4 {
        '4'
    } else if value == 5 {
        '5'
    } else if value == 6 {
        '6'
    } else if value == 7 {
        '7'
    } else if value == 8 {
        '8'
    } else {
        '9'
    }
}

/// The decimal digits of a number, without leading zeros.
pub open spec fn decimal_digits(number: nat) -> Seq<char>
    decreases number,
{
    if number < 10 {
        seq![digit_char(number)]
    } else {
        decimal_digits(number / 10).push(digit_char(number % 10))
    }
}

/// The digits of a number are digits, and write that number.
pub proof fn lemma_decimal_digits(number: nat)
    ensures
        decimal_digits(number).len() > 0,
        all_of(decimal_digits(number), CharClass::Digit),
        decimal_value(decimal_digits(number)) == number,
    decreases number,
{
    let digits = decimal_digits(number);
    if number < 10 {
        assert(decimal_value(digits.drop_last()) == 0);
    } else {
        lemma_decimal_digits(number / 10);
        assert(digits.drop_last() =~= decimal_digits(number / 10));
    }
}

/// Computes the decimal digits of a number.
pub fn digits_of(number: u16) -> (digits: Vec<char>)
    ensures
        digits@ == decimal_digits(number as nat),
    decreases number,
{
    let last: u16 = number % 10;
    let c = if last == 0 {
        '0'
    } else if last == 1 {
        '1'
    } else if last == 2 {
        '2'
    } else if last == 3 {
        '3'
    } else if last == 4 {
        '4'
    } else if last == 5 {
        '5'
    } else if last == 6 {
        '6'
    } else if last == 7 {
        '7'
    } else if last == 8 {
        '8'
    } else {
        '9'
    };
    if number < 10 {
        let mut digits: Vec<char> = Vec::new();
        digits.push(c);
        digits
    } else {
        let mut digits = digits_of(number / 10);
        digits.push(c);
        digits
    }
}

/// The length of a run whose characters and whose end are known.
pub proof fn lemma_run_len_exact(text: Seq<char>, from: int, count: nat, class: CharClass)
    requires
        0 <= from,
        from + count <= text.len(),
        forall|i: int| from <= i < from + count ==> class.holds(#[trigger] text[i]),
        from + count == text.len() || !class.holds(text[from + count]),
    ensures
        run_len(text, from, class) == count,
    decreases count,
{
    if count > 0 {
        lemma_run_len_exact(text, from + 1, (count - 1) as nat, class);
    }
}

} // verus!
