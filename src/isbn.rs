//! Parsing raw text into a validated ISBN-13.
use vstd::prelude::*;

verus! {

/// Why a text was rejected as an ISBN-13.
#[derive(Debug, Clone, Copy, PartialEq, Eq, Structural)]
pub enum InvalidIsbn {
    /// More than 13 digits once separators are removed.
    TooLong,
    /// Fewer than 13 digits once separators are removed.
    TooShort,
    /// Thirteen digits, but the last is not the check digit of the others.
    FailedCheck,
    /// A character that is neither a digit nor `-`, with its zero-based position.
    InvalidCharacter(usize, char),
}

/// The number of digits in an ISBN-13.
pub const ISBN_LEN: usize = 13;

/// The number of payload digits that the check digit is computed over.
pub const PAYLOAD_LEN: usize = 12;

/// A decimal digit character.
pub open spec fn is_digit(c: char) -> bool {
    '0' <= c <= '9'
}

/// Characters that may appear in raw ISBN text: decimal digits and the separator.
pub open spec fn is_allowed(c: char) -> bool {
    c == '-' || is_digit(c)
}

/// The value of a decimal digit character.
pub open spec fn digit_value(c: char) -> u8 {
    (c as u32 - '0' as u32) as u8
}

/// The position of the first character of `s` that is not allowed, if any.
pub open spec fn first_invalid(s: Seq<char>) -> Option<nat>
    decreases s.len(),
{
    if s.len() == 0 {
        None
    } else {
        match first_invalid(s.drop_last()) {
            Some(p) => Some(p),
            None => if is_allowed(s.last()) {
                None
            } else {
                Some((s.len() - 1) as nat)
            },
        }
    }
}

/// The values of the decimal digits of `s`, in order; every other character is skipped.
pub open spec fn digits_of(s: Seq<char>) -> Seq<u8>
    decreases s.len(),
{
    if s.len() == 0 {
        Seq::empty()
    } else if is_digit(s.last()) {
        digits_of(s.drop_last()).push(digit_value(s.last()))
    } else {
        digits_of(s.drop_last())
    }
}

/// ISBN-13 weight of a payload position: 1 at even positions, 3 at odd ones.
pub open spec fn weight(i: int) -> int {
    if i % 2 == 0 {
        1
    } else {
        3
    }
}

/// Sum of the digits of `p`, each multiplied by the weight of its position.
pub open spec fn weighted_sum(p: Seq<u8>) -> int
    decreases p.len(),
{
    if p.len() == 0 {
        0
    } else {
        weighted_sum(p.drop_last()) + p.last() * weight(p.len() - 1)
    }
}

/// The check digit of a payload: `10 - (sum mod 10)`, where 10 stands for 0.
pub open spec fn check_digit(p: Seq<u8>) -> u8 {
    let c = 10 - weighted_sum(p) % 10;
    if c == 10 {
        0
    } else {
        c as u8
    }
}

/// What parsing `s` yields: the thirteen digits, or the reason for rejection.
pub open spec fn parse_outcome(s: Seq<char>) -> Result<Seq<u8>, InvalidIsbn> {
    match first_invalid(s) {
        Some(p) => Err(InvalidIsbn::InvalidCharacter(p as usize, s[p as int])),
        None => {
            let d = digits_of(s);
            if d.len() > ISBN_LEN {
                Err(InvalidIsbn::TooLong)
            } else if d.len() < ISBN_LEN {
                Err(InvalidIsbn::TooShort)
            } else if d[12] != check_digit(d.subrange(0, 12)) {
                Err(InvalidIsbn::FailedCheck)
            } else {
                Ok(d)
            }
        },
    }
}

/// `r` is what parsing `s` returns: an `Isbn` holding `s` and its digits, or the error.
pub open spec fn parsed_as(s: Seq<char>, r: Result<Isbn, InvalidIsbn>) -> bool {
    match r {
        Ok(isbn) => parse_outcome(s) == Ok::<Seq<u8>, InvalidIsbn>(isbn@.1) && isbn@.0 == s,
        Err(e) => parse_outcome(s) == Err::<Seq<u8>, InvalidIsbn>(e),
    }
}

/// Computes the ISBN-13 check digit of the first twelve entries of `digits`.
pub fn calculate_check_digit(digits: &[u8]) -> (r: u8)
    requires
        digits@.len() >= PAYLOAD_LEN,
        forall|k: int| 0 <= k < PAYLOAD_LEN ==> #[trigger] digits@[k] <= 9,
    ensures
        r == check_digit(digits@.subrange(0, 12)),
        r <= 9,
{
    let mut sum: u32 = 0;
    let mut i: usize = 0;
    while i < PAYLOAD_LEN
        invariant
            i <= PAYLOAD_LEN,
            digits@.len() >= PAYLOAD_LEN,
            forall|k: int| 0 <= k < PAYLOAD_LEN ==> #[trigger] digits@[k] <= 9,
            sum == weighted_sum(digits@.subrange(0, i as int)),
            sum <= 27 * i,
        decreases PAYLOAD_LEN - i,
    {
        let w: u32 = if i % 2 == 0 {
            1
        } else {
            3
        };
        assert(digits@.subrange(0, i as int + 1).drop_last() =~= digits@.subrange(0, i as int));
        sum = sum + (digits[i] as u32) * w;
        i = i + 1;
    }
    let check: u32 = 10 - sum % 10;
    if check == 10 {
        0
    } else {
        check as u8
    }
}

/// A validated ISBN-13: the text it was read from and its thirteen digits.
#[derive(Debug, PartialEq, Eq)]
pub struct Isbn {
    raw: String,
    digits: Vec<u8>,
}

impl View for Isbn {
    /// The raw text and the digits read from it.
    type V = (Seq<char>, Seq<u8>);

    closed spec fn view(&self) -> (Seq<char>, Seq<u8>) {
        (self.raw@, self.digits@)
    }
}

impl Isbn {
    #[verifier::type_invariant]
    spec fn inv(self) -> bool {
        parse_outcome(self.raw@) == Ok::<Seq<u8>, InvalidIsbn>(self.digits@)
    }

    /// Reads `s` as an ISBN-13: separators `-` are skipped, the first other
    /// non-digit is reported with its position, then the digit count and the
    /// check digit are verified in that order.
    pub fn from_str(s: &str) -> (r: Result<Isbn, InvalidIsbn>)
        ensures
            parsed_as(s@, r),
    {
        let n = s.unicode_len();
        let mut digits: Vec<u8> = Vec::new();
        let mut i: usize = 0;
        while i < n
            invariant
                n == s@.len(),
                i <= n,
                first_invalid(s@.take(i as int)) == None::<nat>,
                digits@ == digits_of(s@.take(i as int)),
            decreases n - i,
        {
            let c = s.get_char(i);
            assert(s@.take(i as int + 1).drop_last() =~= s@.take(i as int));
            if c == '-' {
                // a separator: skipped, and not counted as a digit
            } else if '0' <= c && c <= '9' {
                digits.push((c as u32 - '0' as u32) as u8);
            } else {
                proof {
                    lemma_first_invalid_extends(s@, i as int);
                    lemma_first_invalid_prefix(s@, i as int + 1);
                }
                return Err(InvalidIsbn::InvalidCharacter(i, c));
            }
            i = i + 1;
        }
        assert(s@.take(n as int) =~= s@);
        if digits.len() > ISBN_LEN {
            return Err(InvalidIsbn::TooLong);
        } else if digits.len() < ISBN_LEN {
            return Err(InvalidIsbn::TooShort);
        }
        proof {
            lemma_digits_of_are_digits(s@);
        }
        if digits[12] != calculate_check_digit(digits.as_slice()) {
            return Err(InvalidIsbn::FailedCheck);
        }
        Ok(Isbn { raw: s.to_string(), digits })
    }

    /// The text this ISBN was read from, unchanged.
    pub fn raw(&self) -> (r: &str)
        ensures
            r@ == self@.0,
    {
        self.raw.as_str()
    }

    /// The thirteen digits, the check digit last.
    pub fn digits(&self) -> (r: &[u8])
        ensures
            r@ == self@.1,
    {
        self.digits.as_slice()
    }

    /// The ISBN as displayed: its raw text, verbatim.
    pub fn to_string(&self) -> (r: String)
        ensures
            r@ == self@.0,
    {
        self.raw.clone()
    }
}

/// Parsing the raw text of a parsed `Isbn` again gives an `Isbn` with the
/// same text and digits.
pub proof fn lemma_reparse_valid(s: Seq<char>, isbn: Isbn, r: Result<Isbn, InvalidIsbn>)
    requires
        parsed_as(s, Ok(isbn)),
        parsed_as(isbn@.0, r),
    ensures
        r matches Ok(again) && again@ == isbn@,
{
}

/// A parsed `Isbn` holds thirteen decimal digits, the last of which is the
/// check digit of the twelve before it.
pub proof fn lemma_parsed_isbn_is_well_formed(s: Seq<char>, isbn: Isbn)
    requires
        parsed_as(s, Ok(isbn)),
    ensures
        isbn@.1.len() == ISBN_LEN,
        isbn@.1[12] == check_digit(isbn@.1.subrange(0, 12)),
        forall|k: int| 0 <= k < ISBN_LEN ==> #[trigger] isbn@.1[k] <= 9,
{
    lemma_digits_of_are_digits(s);
}

/// Parsing is deterministic: two results of parsing one text are both the same
/// error, or both an `Isbn` with the same text and digits.
pub proof fn lemma_parse_deterministic(
    s: Seq<char>,
    r1: Result<Isbn, InvalidIsbn>,
    r2: Result<Isbn, InvalidIsbn>,
)
    requires
        parsed_as(s, r1),
        parsed_as(s, r2),
    ensures
        match (r1, r2) {
            (Ok(a), Ok(b)) => a@ == b@,
            (Err(e1), Err(e2)) => e1 == e2,
            _ => false,
        },
{
}

/// The check digit of twelve payload digits is `(10 - (sum of d[i] * w[i]) mod 10) mod 10`,
/// with weights alternating 1, 3 from the first position.
pub proof fn lemma_check_digit_formula(p: Seq<u8>)
    requires
        p.len() == PAYLOAD_LEN,
    ensures
        check_digit(p) as int == (10 - weighted_sum(p) % 10) % 10,
        0 <= check_digit(p) <= 9,
{
}

/// An invalid character is reported at its position, whatever the number of digits.
pub proof fn lemma_invalid_character_wins(s: Seq<char>, p: int)
    requires
        0 <= p < s.len(),
        !is_allowed(s[p]),
        forall|q: int| 0 <= q < p ==> is_allowed(#[trigger] s[q]),
    ensures
        parse_outcome(s) == Err::<Seq<u8>, InvalidIsbn>(InvalidIsbn::InvalidCharacter(p as usize, s[p])),
{
    lemma_all_allowed(s.take(p));
    lemma_first_invalid_extends(s, p);
    lemma_first_invalid_prefix(s, p + 1);
}

/// A text made only of allowed characters has no invalid position.
proof fn lemma_all_allowed(s: Seq<char>)
    requires
        forall|q: int| 0 <= q < s.len() ==> is_allowed(#[trigger] s[q]),
    ensures
        first_invalid(s) == None::<nat>,
    decreases s.len(),
{
    if s.len() > 0 {
        lemma_all_allowed(s.drop_last());
    }
}

/// If the prefix before `i` is all allowed and `s[i]` is not, the first invalid position is `i`.
proof fn lemma_first_invalid_extends(s: Seq<char>, i: int)
    requires
        0 <= i < s.len(),
        first_invalid(s.take(i)) == None::<nat>,
        !is_allowed(s[i]),
    ensures
        first_invalid(s.take(i + 1)) == Some(i as nat),
{
    assert(s.take(i + 1).drop_last() =~= s.take(i));
}

/// Every value in `digits_of(s)` is a decimal digit.
proof fn lemma_digits_of_are_digits(s: Seq<char>)
    ensures
        forall|k: int| 0 <= k < digits_of(s).len() ==> #[trigger] digits_of(s)[k] <= 9,
    decreases s.len(),
{
    if s.len() > 0 {
        lemma_digits_of_are_digits(s.drop_last());
        let c = s.last();
        if is_digit(c) {
            assert(48 <= c as u32 <= 57);
            assert(digit_value(c) <= 9);
            let d = digits_of(s.drop_last());
            assert(digits_of(s) == d.push(digit_value(c)));
            assert forall|k: int| 0 <= k < digits_of(s).len() implies #[trigger] digits_of(s)[k]
                <= 9 by {
                if k < d.len() {
                    assert(digits_of(s)[k] == d[k]);
                }
            }
        } else {
            assert(digits_of(s) == digits_of(s.drop_last()));
        }
    }
}

/// An invalid character found in a prefix is the first invalid character of the whole text.
proof fn lemma_first_invalid_prefix(s: Seq<char>, k: int)
    requires
        0 <= k <= s.len(),
        first_invalid(s.take(k)) is Some,
    ensures
        first_invalid(s) == first_invalid(s.take(k)),
    decreases s.len() - k,
{
    if k < s.len() {
        assert(s.take(k + 1).drop_last() =~= s.take(k));
        lemma_first_invalid_prefix(s, k + 1);
    } else {
        assert(s.take(k) =~= s);
    }
}

} // verus!
