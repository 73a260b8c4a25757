//! A match policy for a single time field of a rule: any value, one exact
//! value, or every value divisible by a fixed positive divisor.

use vstd::prelude::*;
use vstd::string::StrSliceExecFns;

verus! {

/// How one time field (day-of-month, day-of-week, hour or minute) of a rule
/// is matched against the corresponding field of a timestamp.
///
/// The matcher itself is agnostic to the field's range: which values a caller
/// may supply is a convention of the caller, not of this type.
#[derive(Clone, Copy, Debug, PartialEq, Eq, Structural)]
pub enum TimeConfig {
    /// Matches every value.
    Any,
    /// Matches only the one stored value.
    Exact(u32),
    /// Matches every value divisible by the stored divisor.
    /// A well-formed matcher never stores a zero divisor.
    DividableBy(u32),
}

/// Why a single field text was rejected.
#[derive(Clone, Copy, Debug, PartialEq, Eq, Structural)]
pub enum ParseError {
    /// The field text was empty (for instance after an accidental double space).
    EmptyField,
    /// The field text was neither `*` nor a leading `/` nor an unsigned integer.
    MalformedNumber,
    /// The text after a leading `/` was not a positive integer.
    MalformedDivisor,
}

/// Whether `c` is an ASCII decimal digit.
pub open spec fn is_digit(c: char) -> bool {
    48 <= c as int && c as int <= 57
}

/// The numeric value of an ASCII decimal digit.
pub open spec fn digit_val(c: char) -> int {
    c as int - 48
}

/// Whether every character of `s` is an ASCII decimal digit.
pub open spec fn all_digits(s: Seq<char>) -> bool {
    forall|i: int| 0 <= i < s.len() ==> is_digit(#[trigger] s[i])
}

/// The value of a digit string read as a base-10 number.
pub open spec fn dec_val(s: Seq<char>) -> int
    decreases s.len(),
{
    if s.len() == 0 {
        0
    } else {
        dec_val(s.drop_last()) * 10 + digit_val(s.last())
    }
}

/// The digits of an unsigned-integer text: an optional single leading `+`
/// sign is stripped, as `str::parse::<u32>` accepts one.
pub open spec fn digits_of(s: Seq<char>) -> Seq<char> {
    if s.len() > 0 && s[0] == '+' {
        s.skip(1)
    } else {
        s
    }
}

/// Whether `s` is a text that parses as a `u32`: after stripping an optional
/// leading `+`, at least one character, all of them digits, and a value that
/// fits in a `u32`.
pub open spec fn is_u32_text(s: Seq<char>) -> bool {
    let d = digits_of(s);
    d.len() > 0 && all_digits(d) && dec_val(d) <= u32::MAX
}

/// What parsing a field text yields, as a mathematical function of the text.
pub open spec fn spec_parse_field(s: Seq<char>) -> Result<TimeConfig, ParseError> {
    if s.len() == 0 {
        Err(ParseError::EmptyField)
    } else if s == seq!['*'] {
        Ok(TimeConfig::Any)
    } else if s[0] == '/' {
        let d = s.skip(1);
        if is_u32_text(d) && dec_val(digits_of(d)) > 0 {
            Ok(TimeConfig::DividableBy(dec_val(digits_of(d)) as u32))
        } else {
            Err(ParseError::MalformedDivisor)
        }
    } else if is_u32_text(s) {
        Ok(TimeConfig::Exact(dec_val(digits_of(s)) as u32))
    } else {
        Err(ParseError::MalformedNumber)
    }
}

/// A digit string's value is never negative.
proof fn lemma_dec_val_nonneg(s: Seq<char>)
    requires
        all_digits(s),
    ensures
        dec_val(s) >= 0,
    decreases s.len(),
{
    if s.len() > 0 {
        assert(all_digits(s.drop_last())) by {
            assert(forall|i: int|
                0 <= i < s.drop_last().len() ==> #[trigger] s.drop_last()[i] == s[i]);
        }
        lemma_dec_val_nonneg(s.drop_last());
    }
}

/// A digit string's value is at least the value of any of its prefixes.
proof fn lemma_dec_val_prefix_le(s: Seq<char>, i: int)
    requires
        all_digits(s),
        0 <= i <= s.len(),
    ensures
        dec_val(s.take(i)) <= dec_val(s),
    decreases s.len(),
{
    if i < s.len() {
        assert(all_digits(s.drop_last())) by {
            assert(forall|j: int|
                0 <= j < s.drop_last().len() ==> #[trigger] s.drop_last()[j] == s[j]);
        }
        assert(s.take(i) =~= s.drop_last().take(i));
        lemma_dec_val_prefix_le(s.drop_last(), i);
        lemma_dec_val_nonneg(s.drop_last());
    } else {
        assert(s.take(i) =~= s);
    }
}

/// Parses the characters of `s` from position `from` on as a `u32`, the way
/// `str::parse::<u32>` reads them: an optional leading `+`, then at least one
/// digit, with a value that fits.
fn parse_u32_from(s: &str, n: usize, from: usize) -> (r: Option<u32>)
    requires
        n == s@.len(),
        from <= n,
    ensures
        match r {
            Some(v) => is_u32_text(s@.skip(from as int)) && v == dec_val(
                digits_of(s@.skip(from as int)),
            ),
            None => !is_u32_text(s@.skip(from as int)),
        },
{
    let ghost seg = s@.skip(from as int);
    let mut start: usize = from;
    if from < n {
        let c0 = s.get_char(from);
        if c0 == '+' {
            start = from + 1;
        }
    }
    let ghost digits = digits_of(seg);
    proof {
        assert(digits =~= s@.skip(start as int));
    }
    if start == n {
        return None;
    }
    let mut acc: u32 = 0;
    let mut i: usize = start;
    while i < n
        invariant
            n == s@.len(),
            from <= start <= i <= n,
            start < n,
            seg == s@.skip(from as int),
            digits == digits_of(seg),
            digits == s@.skip(start as int),
            all_digits(digits.take(i - start)),
            acc == dec_val(digits.take(i - start)),
        decreases n - i,
    {
        let ghost j = i - start;
        let c = s.get_char(i);
        let cu = c as u32;
        proof {
            assert(digits[j] == s@[i as int]);
            assert(digits.take(j + 1).drop_last() =~= digits.take(j));
            assert(digits.take(j + 1).last() == c);
        }
        if cu < 48 || cu > 57 {
            proof {
                assert(!is_digit(digits[j]));
            }
            return None;
        }
        let d: u32 = cu - 48;
        let acc64: u64 = acc as u64 * 10 + d as u64;
        proof {
            assert(dec_val(digits.take(j + 1)) == dec_val(digits.take(j)) * 10 + digit_val(c));
            assert(all_digits(digits.take(j + 1)));
        }
        if acc64 > 0xFFFF_FFFFu64 {
            proof {
                if all_digits(digits) {
                    lemma_dec_val_prefix_le(digits, j + 1);
                }
            }
            return None;
        }
        acc = acc64 as u32;
        i = i + 1;
    }
    proof {
        assert(digits.take(n - start) =~= digits);
    }
    Some(acc)
}

impl TimeConfig {
    /// A matcher is well formed when a stored divisor is positive, so that
    /// matching never divides by zero. Parsing only ever constructs
    /// well-formed matchers.
    pub open spec fn wf(&self) -> bool {
        match *self {
            TimeConfig::DividableBy(n) => n > 0,
            _ => true,
        }
    }

    /// What matching means, as a mathematical predicate on the field value.
    pub open spec fn spec_matches(&self, value: u32) -> bool {
        match *self {
            TimeConfig::Any => true,
            TimeConfig::Exact(n) => value == n,
            TimeConfig::DividableBy(n) => value % n == 0,
        }
    }

    /// Reads one field text: `*` means any value, `/N` means divisible by the
    /// positive integer `N`, and any other text must be an unsigned integer
    /// meaning that exact value.
    pub fn parse(text: &str) -> (r: Result<Self, ParseError>)
        ensures
            r == spec_parse_field(text@),
            r matches Ok(m) ==> m.wf(),
    {
        let n = text.unicode_len();
        if n == 0 {
            return Err(ParseError::EmptyField);
        }
        let c0 = text.get_char(0);
        if n == 1 && c0 == '*' {
            proof {
                assert(text@ =~= seq!['*']);
            }
            return Ok(TimeConfig::Any);
        }
        proof {
            if text@ == seq!['*'] {
                assert(text@.len() == 1 && text@[0] == '*');
            }
        }
        if c0 == '/' {
            match parse_u32_from(text, n, 1) {
                Some(v) => {
                    if v > 0 {
                        Ok(TimeConfig::DividableBy(v))
                    } else {
                        Err(ParseError::MalformedDivisor)
                    }
                },
                None => Err(ParseError::MalformedDivisor),
            }
        } else {
            match parse_u32_from(text, n, 0) {
                Some(v) => {
                    proof {
                        assert(text@.skip(0) =~= text@);
                    }
                    Ok(TimeConfig::Exact(v))
                },
                None => {
                    proof {
                        assert(text@.skip(0) =~= text@);
                    }
                    Err(ParseError::MalformedNumber)
                },
            }
        }
    }

    /// Decides whether this matcher accepts the given field value.
    pub fn matches(&self, time: &u32) -> (r: bool)
        requires
            self.wf(),
        ensures
            r == self.spec_matches(*time),
    {
        match self {
            TimeConfig::Any => true,
            TimeConfig::Exact(i) => *time == *i,
            TimeConfig::DividableBy(i) => *time % *i == 0,
        }
    }
}

/// For every text that parses, matching agrees with the direct semantic
/// reading of the text: an `Exact(n)` matcher accepts exactly the value `n`,
/// a `DividableBy(n)` matcher has a positive `n` and accepts exactly the
/// multiples of `n`, and an `Any` matcher accepts every value.
pub proof fn lemma_parse_then_matches(s: Seq<char>, m: TimeConfig, v: u32)
    requires
        spec_parse_field(s) == Ok::<TimeConfig, ParseError>(m),
    ensures
        m matches TimeConfig::Exact(n) ==> (m.spec_matches(v) <==> v == n),
        m matches TimeConfig::DividableBy(n) ==> n > 0 && (m.spec_matches(v) <==> v % n == 0),
        m matches TimeConfig::Any ==> m.spec_matches(v),
{
    lemma_parse_field_wf(s, m);
}

/// A parsed matcher is well formed: in particular, a divisor of zero can
/// never come out of parsing.
pub proof fn lemma_parse_field_wf(s: Seq<char>, m: TimeConfig)
    requires
        spec_parse_field(s) == Ok::<TimeConfig, ParseError>(m),
    ensures
        m.wf(),
        m != TimeConfig::DividableBy(0),
{
    if s.len() > 0 && s != seq!['*'] && s[0] == '/' {
        let d = s.skip(1);
        if is_u32_text(d) && dec_val(digits_of(d)) > 0 {
            lemma_dec_val_nonneg(digits_of(d));
        }
    }
}

} // verus!
