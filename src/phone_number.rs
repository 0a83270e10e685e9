//! The phone-number value: three bounded fields, their canonical text form
//! `AAA-EEE-NNNN`, a parser for that form, and the order over the fields.

use crate::groups::{
    group_value, groups, lemma_groups_digits, lemma_groups_digits_then_rest, lemma_padded,
    lemma_padded_group, padded, pow10, push_padded, read_group,
};
use rand::Rng;
use std::cmp::Ordering;
use vstd::prelude::*;
use vstd::std_specs::cmp::PartialOrdSpec;
use vstd::string::*;

verus! {

/// Why a text is not a phone number. The groups are checked in order and the
/// first defect found is the one reported.
#[derive(Clone, Copy, Debug, PartialEq, Eq, Structural)]
pub enum PhoneNumberParseError {
    InvalidAreaCode,
    InvalidExchange,
    InvalidNumber,
    InvalidFormat,
}

/// A North-American-style phone number: area code, exchange and line number.
#[derive(Clone, Copy, Debug, PartialEq, Eq, Structural, Ord, Hash)]
pub struct PhoneNumber {
    area_code: u16,
    exchange: u16,
    number: u16,
}

/// Field values that a phone number can hold: at most three, three and four digits.
pub open spec fn in_range(v: (nat, nat, nat)) -> bool {
    v.0 <= 999 && v.1 <= 999 && v.2 <= 9999
}

impl View for PhoneNumber {
    type V = (nat, nat, nat);

    closed spec fn view(&self) -> (nat, nat, nat) {
        (self.area_code as nat, self.exchange as nat, self.number as nat)
    }
}

/// What parsing `s` gives: the groups of `s` between dashes must be exactly
/// three, of widths 3, 3 and 4, each an unsigned decimal literal.
pub open spec fn parse_spec(s: Seq<char>) -> Result<(nat, nat, nat), PhoneNumberParseError> {
    let g = groups(s);
    match group_value(g[0], 3) {
        None => Err(PhoneNumberParseError::InvalidAreaCode),
        Some(a) => if g.len() < 2 {
            Err(PhoneNumberParseError::InvalidFormat)
        } else {
            match group_value(g[1], 3) {
                None => Err(PhoneNumberParseError::InvalidExchange),
                Some(e) => if g.len() < 3 {
                    Err(PhoneNumberParseError::InvalidFormat)
                } else {
                    match group_value(g[2], 4) {
                        None => Err(PhoneNumberParseError::InvalidNumber),
                        Some(n) => if g.len() > 3 {
                            Err(PhoneNumberParseError::InvalidFormat)
                        } else {
                            Ok((a, e, n))
                        },
                    }
                },
            }
        },
    }
}

/// The canonical text of field values: each group zero-padded to widths 3, 3
/// and 4, joined by dashes.
pub open spec fn canonical(v: (nat, nat, nat)) -> Seq<char> {
    padded(v.0, 3) + seq!['-'] + padded(v.1, 3) + seq!['-'] + padded(v.2, 4)
}

/// Relies on rand's `Rng::gen_range` on the thread-local generator: a value
/// drawn from `low..high`; it panics when `low >= high`.
#[verifier::external_body]
fn random_in_range(low: u16, high: u16) -> (r: u16)
    requires
        low < high,
    ensures
        low <= r < high,
{
    rand::thread_rng().gen_range(low, high)
}

/// A random phone number, for exercising the type end to end: each field is
/// drawn from its whole range, the area code from `1..=999`, the exchange from
/// `0..=999` and the number from `0..=9999`.
pub fn random_phone_number() -> (r: PhoneNumber)
    ensures
        1 <= r@.0,
        in_range(r@),
{
    let area_code = random_in_range(1, 1000);
    let exchange = random_in_range(0, 1000);
    let number = random_in_range(0, 10000);
    PhoneNumber::new(area_code, exchange, number)
}

/// Formatting and then parsing gives back the same field values, for all field
/// values that a phone number can hold.
pub proof fn lemma_parse_canonical(v: (nat, nat, nat))
    requires
        in_range(v),
    ensures
        parse_spec(canonical(v)) == Ok::<(nat, nat, nat), PhoneNumberParseError>(v),
{
    reveal_with_fuel(pow10, 5);
    lemma_padded(v.0, 3);
    lemma_padded(v.1, 3);
    lemma_padded(v.2, 4);
    lemma_padded_group(v.0, 3);
    lemma_padded_group(v.1, 3);
    lemma_padded_group(v.2, 4);
    let a = padded(v.0, 3);
    let e = padded(v.1, 3);
    let n = padded(v.2, 4);
    lemma_groups_digits(n);
    lemma_groups_digits_then_rest(e, n);
    assert(canonical(v) =~= a + seq!['-'] + (e + seq!['-'] + n));
    lemma_groups_digits_then_rest(a, e + seq!['-'] + n);
    assert(groups(canonical(v)) =~= seq![a, e, n]);
}

impl PhoneNumber {
    #[verifier::type_invariant]
    spec fn fields_in_range(&self) -> bool {
        in_range(self@)
    }

    pub fn area_code(&self) -> (r: u16)
        ensures
            r as nat == self@.0,
    {
        self.area_code
    }

    pub fn exchange(&self) -> (r: u16)
        ensures
            r as nat == self@.1,
    {
        self.exchange
    }

    pub fn number(&self) -> (r: u16)
        ensures
            r as nat == self@.2,
    {
        self.number
    }

    /// The phone number with the given fields, which must be in range.
    pub fn new(area_code: u16, exchange: u16, number: u16) -> (r: PhoneNumber)
        requires
            in_range((area_code as nat, exchange as nat, number as nat)),
        ensures
            r@ == (area_code as nat, exchange as nat, number as nat),
    {
        PhoneNumber { area_code, exchange, number }
    }

    /// Rebuilds a phone number from its three fields, as stored in a structured
    /// encoding; `None` when a field is out of range.
    pub fn from_fields(area_code: u16, exchange: u16, number: u16) -> (r: Option<PhoneNumber>)
        ensures
            r is Some <==> in_range((area_code as nat, exchange as nat, number as nat)),
            r is Some ==> r->Some_0@ == (area_code as nat, exchange as nat, number as nat),
    {
        if area_code <= 999 && exchange <= 999 && number <= 9999 {
            Some(PhoneNumber::new(area_code, exchange, number))
        } else {
            None
        }
    }

    /// The canonical text of this number, such as `800-555-1212`.
    pub fn to_string(&self) -> (r: String)
        ensures
            r@ == canonical(self@),
            in_range(self@),
    {
        proof {
            use_type_invariant(self);
        }
        let mut s = String::new();
        push_padded(&mut s, self.area_code, 3);
        s.append("-");
        push_padded(&mut s, self.exchange, 3);
        s.append("-");
        push_padded(&mut s, self.number, 4);
        proof {
            reveal_strlit("-");
        }
        assert(s@ =~= canonical(self@));
        s
    }

    /// Parses text such as `800-555-1212`.
    pub fn parse(input: &str) -> (r: Result<PhoneNumber, PhoneNumberParseError>)
        ensures
            match parse_spec(input@) {
                Ok(v) => r is Ok && r->Ok_0@ == v && in_range(v),
                Err(e) => r == Err::<PhoneNumber, PhoneNumberParseError>(e),
            },
    {
        let ghost s = input@;
        let n = input.unicode_len();
        assert(s.skip(0) =~= s);
        let area_code = match read_group(input, n, 0, 3) {
            Some(v) => v,
            None => return Err(PhoneNumberParseError::InvalidAreaCode),
        };
        proof {
            crate::groups::lemma_groups_unfold(s);
        }
        if n <= 3 {
            return Err(PhoneNumberParseError::InvalidFormat);
        }
        let ghost s1 = s.skip(4);
        let exchange = match read_group(input, n, 4, 3) {
            Some(v) => v,
            None => return Err(PhoneNumberParseError::InvalidExchange),
        };
        proof {
            crate::groups::lemma_groups_unfold(s1);
        }
        if n <= 7 {
            return Err(PhoneNumberParseError::InvalidFormat);
        }
        assert(s1.skip(4) =~= s.skip(8));
        let number = match read_group(input, n, 8, 4) {
            Some(v) => v,
            None => return Err(PhoneNumberParseError::InvalidNumber),
        };
        proof {
            crate::groups::lemma_groups_unfold(s.skip(8));
            reveal_with_fuel(crate::groups::pow10, 5);
        }
        if n > 12 {
            return Err(PhoneNumberParseError::InvalidFormat);
        }
        Ok(PhoneNumber::new(area_code, exchange, number))
    }
}

/// Lexicographic order of field triples: area code first, then exchange, then number.
pub open spec fn lex_cmp(a: (nat, nat, nat), b: (nat, nat, nat)) -> Ordering {
    if a.0 < b.0 {
        Ordering::Less
    } else if a.0 > b.0 {
        Ordering::Greater
    } else if a.1 < b.1 {
        Ordering::Less
    } else if a.1 > b.1 {
        Ordering::Greater
    } else if a.2 < b.2 {
        Ordering::Less
    } else if a.2 > b.2 {
        Ordering::Greater
    } else {
        Ordering::Equal
    }
}

/// Two phone numbers are equal exactly when their fields are, exactly when
/// neither comes before the other; one comes before another exactly when the
/// other comes after it, and the order is lexicographic over area code,
/// exchange and number.
pub proof fn lemma_order_agrees_with_eq(a: PhoneNumber, b: PhoneNumber)
    ensures
        (a == b) <==> a@ == b@,
        (a == b) <==> (a.partial_cmp_spec(&b) != Some(Ordering::Less) && b.partial_cmp_spec(&a)
            != Some(Ordering::Less)),
        (a == b) <==> a.partial_cmp_spec(&b) == Some(Ordering::Equal),
        a.partial_cmp_spec(&b) == Some(Ordering::Less) <==> b.partial_cmp_spec(&a) == Some(
            Ordering::Greater,
        ),
        a.partial_cmp_spec(&b) == Some(Ordering::Less) <==> (a@.0 < b@.0 || (a@.0 == b@.0 && (a@.1
            < b@.1 || (a@.1 == b@.1 && a@.2 < b@.2)))),
{
}

impl PartialOrd for PhoneNumber {
    fn partial_cmp(&self, other: &PhoneNumber) -> (r: Option<Ordering>)
        ensures
            r == Some(lex_cmp(self@, other@)),
    {
        if self.area_code < other.area_code {
            Some(Ordering::Less)
        } else if self.area_code > other.area_code {
            Some(Ordering::Greater)
        } else if self.exchange < other.exchange {
            Some(Ordering::Less)
        } else if self.exchange > other.exchange {
            Some(Ordering::Greater)
        } else if self.number < other.number {
            Some(Ordering::Less)
        } else if self.number > other.number {
            Some(Ordering::Greater)
        } else {
            Some(Ordering::Equal)
        }
    }
}

impl std::str::FromStr for PhoneNumber {
    type Err = PhoneNumberParseError;

    fn from_str(input: &str) -> (r: Result<PhoneNumber, PhoneNumberParseError>)
        ensures
            match parse_spec(input@) {
                Ok(v) => r is Ok && r->Ok_0@ == v && in_range(v),
                Err(e) => r == Err::<PhoneNumber, PhoneNumberParseError>(e),
            },
    {
        PhoneNumber::parse(input)
    }
}

impl vstd::std_specs::cmp::PartialOrdSpecImpl for PhoneNumber {
    open spec fn obeys_partial_cmp_spec() -> bool {
        true
    }

    open spec fn partial_cmp_spec(&self, other: &PhoneNumber) -> Option<Ordering> {
        Some(lex_cmp(self@, other@))
    }
}

} // verus!
