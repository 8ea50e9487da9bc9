//! Parsing of address pattern strings.
//!
//! Grammar: an address is one component, or two separated by one comma, with
//! an optional trailing `!` that negates the whole expression; the empty
//! string is the match-everything address. A component is a line number
//! (digits), a relative offset (`+` then digits), or a regular expression
//! between slashes. A relative offset as the sole component or as the start
//! of a range is rejected, as is a number beyond the machine's word, a
//! slash-opened component that does not close, or a regex that does not
//! compile.

use vstd::prelude::*;

use crate::address::{Address, AddressComponent, AddressPattern, AddrSpec, CompSpec, PatSpec};
use crate::regex_text::{re_compiles, regex_new};

verus! {

/// Why a pattern string was rejected: it falls outside the grammar, its
/// regex does not compile, or a relative offset stands where a range can not
/// start from it.
#[derive(Clone, Copy, Debug, PartialEq, Eq, Structural)]
pub enum PatternSyntaxError {
    Malformed,
    BadRegex,
    RelativeFirst,
}

/// A decimal digit.
pub open spec fn is_digit(c: char) -> bool {
    48 <= c as u32 <= 57
}

/// The value of a decimal digit.
pub open spec fn digit_val(c: char) -> int {
    c as u32 - 48
}

/// A non-empty string of decimal digits.
pub open spec fn all_digits(s: Seq<char>) -> bool {
    s.len() > 0 && forall|i: int| 0 <= i < s.len() ==> is_digit(#[trigger] s[i])
}

/// The number a digit string denotes, most significant digit first.
pub open spec fn digits_val(s: Seq<char>) -> int
    decreases s.len(),
{
    if s.len() == 0 {
        0
    } else {
        digits_val(s.take(s.len() - 1)) * 10 + digit_val(s[s.len() - 1])
    }
}

/// A digit string denotes a non-negative number.
pub proof fn lemma_digits_val_nonneg(s: Seq<char>)
    requires
        forall|i: int| 0 <= i < s.len() ==> is_digit(#[trigger] s[i]),
    ensures
        digits_val(s) >= 0,
    decreases s.len(),
{
    if s.len() > 0 {
        lemma_digits_val_nonneg(s.take(s.len() - 1));
    }
}

/// Extending a digit string on the right never shrinks its value.
pub proof fn lemma_digits_val_mono(s: Seq<char>, i: int)
    requires
        0 <= i <= s.len(),
        forall|j: int| 0 <= j < s.len() ==> is_digit(#[trigger] s[j]),
    ensures
        digits_val(s.take(i)) <= digits_val(s),
    decreases s.len() - i,
{
    if i < s.len() {
        lemma_digits_val_mono(s, i + 1);
        assert(s.take(i + 1).take(i) =~= s.take(i));
        assert(forall|j: int| 0 <= j < s.take(i).len() ==> is_digit(#[trigger] s.take(i)[j]));
        lemma_digits_val_nonneg(s.take(i));
        assert(digits_val(s.take(i + 1)) == digits_val(s.take(i)) * 10 + digit_val(s[i]));
    } else {
        assert(s.take(i) =~= s);
    }
}

/// The index of the first occurrence of `c` in `s`, or the length of `s`
/// when there is none.
pub open spec fn find_char(s: Seq<char>, c: char) -> int
    decreases s.len(),
{
    if s.len() == 0 {
        0
    } else if s[0] == c {
        0
    } else {
        1 + find_char(s.skip(1), c)
    }
}

/// `find_char` points at the first occurrence: nothing before it is `c`, and
/// it is `c` unless it is the length.
pub proof fn lemma_find_char(s: Seq<char>, c: char)
    ensures
        0 <= find_char(s, c) <= s.len(),
        forall|j: int| 0 <= j < find_char(s, c) ==> #[trigger] s[j] != c,
        find_char(s, c) < s.len() ==> s[find_char(s, c)] == c,
    decreases s.len(),
{
    if s.len() == 0 || s[0] == c {
    } else {
        lemma_find_char(s.skip(1), c);
        assert forall|j: int| 0 <= j < find_char(s, c) implies #[trigger] s[j] != c by {
            if j > 0 {
                assert(s.skip(1)[j - 1] == s[j]);
            }
        }
        if find_char(s, c) < s.len() {
            assert(s.skip(1)[find_char(s, c) - 1] == s[find_char(s, c)]);
        }
    }
}

/// Any position with the first-occurrence properties is `find_char`.
pub proof fn lemma_find_char_unique(s: Seq<char>, c: char, k: int)
    requires
        0 <= k <= s.len(),
        forall|j: int| 0 <= j < k ==> #[trigger] s[j] != c,
        k < s.len() ==> s[k] == c,
    ensures
        k == find_char(s, c),
{
    lemma_find_char(s, c);
}

/// The component grammar: digits denote a line number, `+` then digits a
/// relative offset, and slashes enclose a regex pattern. A number must fit
/// the machine word; a slash-opened component must close with a slash and
/// its inner text must compile.
pub open spec fn comp_outcome(s: Seq<char>) -> Result<CompSpec, PatternSyntaxError> {
    if s.len() >= 1 && s[0] == '/' {
        if s.len() >= 2 && s[s.len() - 1] == '/' {
            let inner = s.subrange(1, s.len() - 1);
            if re_compiles(inner) {
                Ok(CompSpec::Pat(inner))
            } else {
                Err(PatternSyntaxError::BadRegex)
            }
        } else {
            Err(PatternSyntaxError::Malformed)
        }
    } else if s.len() >= 1 && s[0] == '+' {
        if all_digits(s.skip(1)) && digits_val(s.skip(1)) <= usize::MAX {
            Ok(CompSpec::Off(digits_val(s.skip(1)) as usize))
        } else {
            Err(PatternSyntaxError::Malformed)
        }
    } else if all_digits(s) && digits_val(s) <= usize::MAX {
        Ok(CompSpec::Num(digits_val(s) as usize))
    } else {
        Err(PatternSyntaxError::Malformed)
    }
}

/// The address grammar over the pattern body (negation already stripped):
/// empty matches everything; otherwise one component, or two around the
/// single comma; a relative offset may not stand first.
pub open spec fn addr_outcome(body: Seq<char>) -> Result<AddrSpec, PatternSyntaxError> {
    if body.len() == 0 {
        Ok(AddrSpec::Empty)
    } else {
        let k = find_char(body, ',');
        if k == body.len() {
            match comp_outcome(body) {
                Ok(c) => if c is Off {
                    Err(PatternSyntaxError::RelativeFirst)
                } else {
                    Ok(AddrSpec::Single(c))
                },
                Err(e) => Err(e),
            }
        } else {
            let left = body.take(k);
            let right = body.skip(k + 1);
            if find_char(right, ',') < right.len() {
                Err(PatternSyntaxError::Malformed)
            } else {
                match comp_outcome(left) {
                    Ok(a) => if a is Off {
                        Err(PatternSyntaxError::RelativeFirst)
                    } else {
                        match comp_outcome(right) {
                            Ok(b) => Ok(AddrSpec::Span(a, b)),
                            Err(e) => Err(e),
                        }
                    },
                    Err(e) => Err(e),
                }
            }
        }
    }
}

/// The pattern body and negation flag of a pattern string: a trailing `!`
/// negates and is stripped.
pub open spec fn strip_neg(s: Seq<char>) -> (Seq<char>, bool) {
    if s.len() > 0 && s[s.len() - 1] == '!' {
        (s.take(s.len() - 1), true)
    } else {
        (s, false)
    }
}

/// What parsing a whole pattern string yields: the address model and the
/// negation flag, or the error.
pub open spec fn pattern_outcome(s: Seq<char>) -> Result<PatSpec, PatternSyntaxError> {
    let (body, neg) = strip_neg(s);
    match addr_outcome(body) {
        Ok(a) => Ok(PatSpec { addr: a, negated: neg }),
        Err(e) => Err(e),
    }
}

/// Parse a non-empty digit string into the number it denotes, refusing one
/// beyond the machine word.
fn parse_number(s: &str) -> (r: Option<usize>)
    ensures
        r is Some <==> all_digits(s@) && digits_val(s@) <= usize::MAX,
        r is Some ==> r->0 == digits_val(s@),
{
    let len = s.unicode_len();
    if len == 0 {
        return None;
    }
    let mut acc: usize = 0;
    let mut i: usize = 0;
    while i < len
        invariant
            0 <= i <= len,
            len == s@.len(),
            forall|j: int| 0 <= j < i ==> is_digit(#[trigger] s@[j]),
            acc == digits_val(s@.take(i as int)),
        decreases len - i,
    {
        let c = s.get_char(i);
        let u = c as u32;
        if u < 48 || u > 57 {
            return None;
        }
        let d = (u - 48) as usize;
        let wide: u128 = acc as u128 * 10 + d as u128;
        proof {
            assert(s@.take(i + 1).take(i as int) =~= s@.take(i as int));
            assert(digits_val(s@.take(i + 1)) == digits_val(s@.take(i as int)) * 10 + digit_val(
                s@[i as int],
            ));
        }
        if wide > usize::MAX as u128 {
            proof {
                if all_digits(s@) {
                    lemma_digits_val_mono(s@, i + 1);
                }
            }
            return None;
        }
        acc = wide as usize;
        i = i + 1;
    }
    proof {
        assert(s@.take(len as int) =~= s@);
    }
    Some(acc)
}

/// The index of the first comma in `s`, or its length when there is none.
fn find_comma(s: &str) -> (r: usize)
    ensures
        r == find_char(s@, ','),
{
    let len = s.unicode_len();
    let mut i: usize = 0;
    while i < len && s.get_char(i) != ','
        invariant
            0 <= i <= len,
            len == s@.len(),
            forall|j: int| 0 <= j < i ==> #[trigger] s@[j] != ',',
        decreases len - i,
    {
        i = i + 1;
    }
    proof {
        lemma_find_char_unique(s@, ',', i as int);
    }
    i
}

/// Parse one address component: exactly the grammar's `comp_outcome`, with
/// a compiled regex standing for a `/pattern/` component.
pub fn try_parse_component(s: &str) -> (r: Result<AddressComponent, PatternSyntaxError>)
    ensures
        r is Ok <==> comp_outcome(s@) is Ok,
        r is Ok ==> (r->Ok_0).model() == comp_outcome(s@)->Ok_0,
        r is Err ==> r->Err_0 == comp_outcome(s@)->Err_0,
{
    let len = s.unicode_len();
    if len >= 1 && s.get_char(0) == '/' {
        if len >= 2 && s.get_char(len - 1) == '/' {
            let inner = s.substring_char(1, len - 1);
            match regex_new(inner) {
                Some(re) => Ok(AddressComponent::RegexPattern(re)),
                None => Err(PatternSyntaxError::BadRegex),
            }
        } else {
            Err(PatternSyntaxError::Malformed)
        }
    } else if len >= 1 && s.get_char(0) == '+' {
        let digits = s.substring_char(1, len);
        proof {
            assert(digits@ =~= s@.skip(1));
        }
        match parse_number(digits) {
            Some(n) => Ok(AddressComponent::Relative(n)),
            None => Err(PatternSyntaxError::Malformed),
        }
    } else {
        match parse_number(s) {
            Some(n) => Ok(AddressComponent::Line(n)),
            None => Err(PatternSyntaxError::Malformed),
        }
    }
}

/// Parse a whole pattern string: exactly the grammar's `pattern_outcome`.
/// A successful parse yields a well-formed pattern: no relative offset
/// stands as the sole address or as the start of a range.
pub fn try_parse_pattern(s: &str) -> (r: Result<AddressPattern, PatternSyntaxError>)
    ensures
        r is Ok <==> pattern_outcome(s@) is Ok,
        r is Ok ==> (r->Ok_0).model() == pattern_outcome(s@)->Ok_0,
        r is Ok ==> (r->Ok_0).model().addr.wf(),
        r is Err ==> r->Err_0 == pattern_outcome(s@)->Err_0,
{
    let len = s.unicode_len();
    let negated = len > 0 && s.get_char(len - 1) == '!';
    let body = if negated {
        s.substring_char(0, len - 1)
    } else {
        s
    };
    proof {
        assert(body@ =~= strip_neg(s@).0);
        assert(negated == strip_neg(s@).1);
    }
    let blen = body.unicode_len();
    if blen == 0 {
        return Ok(AddressPattern { pattern: Address::ZeroAddress, negated });
    }
    let k = find_comma(body);
    proof {
        lemma_find_char(body@, ',');
    }
    if k == blen {
        match try_parse_component(body) {
            Ok(c) => match c {
                AddressComponent::Relative(_) => Err(PatternSyntaxError::RelativeFirst),
                other => Ok(AddressPattern { pattern: Address::OneAddress(other), negated }),
            },
            Err(e) => Err(e),
        }
    } else {
        let left = body.substring_char(0, k);
        let right = body.substring_char(k + 1, blen);
        proof {
            assert(left@ =~= strip_neg(s@).0.take(k as int));
            assert(right@ =~= strip_neg(s@).0.skip(k + 1));
        }
        if find_comma(right) < right.unicode_len() {
            return Err(PatternSyntaxError::Malformed);
        }
        match try_parse_component(left) {
            Ok(a) => match a {
                AddressComponent::Relative(_) => Err(PatternSyntaxError::RelativeFirst),
                first => match try_parse_component(right) {
                    Ok(b) => Ok(
                        AddressPattern { pattern: Address::AddressRange(first, b), negated },
                    ),
                    Err(e) => Err(e),
                },
            },
            Err(e) => Err(e),
        }
    }
}

} // verus!
