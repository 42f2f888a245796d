//! The typed-extraction protocol.
//!
//! [`FromQueryString`] converts the decoded values recorded for one query
//! string key into a typed result: scalar leaf types demand exactly one
//! value, the optional wrapper turns an empty value sequence into "absent",
//! and the repeated wrapper converts each value on its own, in order. Every
//! failure is surfaced as a [`FromQueryStringError`] carrying only a
//! human-readable description.

use vstd::prelude::*;
use vstd::string::StringExecFns;

use crate::decode::FormUrlDecoded;
use crate::mapping::opt_str_view;
use crate::mapping::value_views;

verus! {

/// Represents an error in converting the values of a `key=value` pair from
/// a query string into a type-safe value.
///
/// Deliberately kept generic, as implementations of `FromQueryString`
/// cannot be known in advance.
#[derive(Debug)]
pub struct FromQueryStringError {
    description: String,
}

/// The description of the error raised when a scalar conversion is handed a
/// value count other than one.
pub open spec fn invalid_count_description() -> Seq<char> {
    "Invalid number of values"@
}

impl View for FromQueryStringError {
    type V = Seq<char>;

    closed spec fn view(&self) -> Seq<char> {
        self.description@
    }
}

impl FromQueryStringError {
    /// The error for a scalar conversion that saw a value count other than
    /// one.
    pub fn invalid_number_of_values() -> (r: FromQueryStringError)
        ensures
            r@ == invalid_count_description(),
    {
        FromQueryStringError { description: String::from_str("Invalid number of values") }
    }

    /// A human-readable description of the conversion failure.
    pub fn description(&self) -> (r: &str)
        ensures
            r@ == self@,
    {
        self.description.as_str()
    }
}

/// A one-element sequence of decoded values.
pub open spec fn single_value(v: Seq<char>) -> Seq<Seq<char>> {
    seq![v]
}

/// True for the character of a decimal digit.
pub open spec fn is_dec_digit(c: char) -> bool {
    0x30 <= c as u32 <= 0x39
}

/// Numeric value of a decimal digit character.
pub open spec fn dec_digit_val(c: char) -> int
    recommends
        is_dec_digit(c),
{
    c as u32 - 0x30
}

/// True when the text is one or more decimal digits.
pub open spec fn all_dec_digits(s: Seq<char>) -> bool {
    s.len() > 0 && forall|i: int| 0 <= i < s.len() ==> is_dec_digit(s[i])
}

/// Value of decimal digit text.
pub open spec fn dec_val(s: Seq<char>) -> int
    decreases s.len(),
{
    if s.len() == 0 {
        0
    } else {
        dec_val(s.drop_last()) * 10 + dec_digit_val(s.last())
    }
}

/// Result of parsing text as an unsigned decimal integer no greater than
/// `max`: an optional `+` sign followed by one or more decimal digits.
/// Anything else, or a value above `max`, is rejected.
pub open spec fn parse_unsigned_spec(s: Seq<char>, max: int) -> Option<int> {
    let body = if s.len() > 0 && s[0] == '+' {
        s.skip(1)
    } else {
        s
    };
    if all_dec_digits(body) && dec_val(body) <= max {
        Some(dec_val(body))
    } else {
        None
    }
}

/// Result of parsing text as a signed decimal integer within `min ..= max`:
/// an optional `+` or `-` sign followed by one or more decimal digits.
/// Anything else, or a value out of range, is rejected.
pub open spec fn parse_signed_spec(s: Seq<char>, min: int, max: int) -> Option<int> {
    if s.len() > 0 && s[0] == '-' {
        let body = s.skip(1);
        if all_dec_digits(body) && -dec_val(body) >= min {
            Some(-dec_val(body))
        } else {
            None
        }
    } else {
        parse_unsigned_spec(s, max)
    }
}

/// Relies on `u8`'s `FromStr` implementation: it accepts an optional `+`
/// sign followed by decimal digits, and rejects any other text and any
/// value above `u8::MAX`.
#[verifier::external_body]
fn parse_u8(s: &str) -> (r: Result<u8, String>)
    ensures
        r is Ok <==> parse_unsigned_spec(s@, u8::MAX as int) is Some,
        r is Ok ==> r->Ok_0 as int == parse_unsigned_spec(s@, u8::MAX as int)->0,
{
    s.parse::<u8>().map_err(|e| e.to_string())
}

/// Relies on `u16`'s `FromStr` implementation: it accepts an optional `+`
/// sign followed by decimal digits, and rejects any other text and any
/// value above `u16::MAX`.
#[verifier::external_body]
fn parse_u16(s: &str) -> (r: Result<u16, String>)
    ensures
        r is Ok <==> parse_unsigned_spec(s@, u16::MAX as int) is Some,
        r is Ok ==> r->Ok_0 as int == parse_unsigned_spec(s@, u16::MAX as int)->0,
{
    s.parse::<u16>().map_err(|e| e.to_string())
}

/// Relies on `u32`'s `FromStr` implementation: it accepts an optional `+`
/// sign followed by decimal digits, and rejects any other text and any
/// value above `u32::MAX`.
#[verifier::external_body]
fn parse_u32(s: &str) -> (r: Result<u32, String>)
    ensures
        r is Ok <==> parse_unsigned_spec(s@, u32::MAX as int) is Some,
        r is Ok ==> r->Ok_0 as int == parse_unsigned_spec(s@, u32::MAX as int)->0,
{
    s.parse::<u32>().map_err(|e| e.to_string())
}

/// Relies on `u64`'s `FromStr` implementation: it accepts an optional `+`
/// sign followed by decimal digits, and rejects any other text and any
/// value above `u64::MAX`.
#[verifier::external_body]
fn parse_u64(s: &str) -> (r: Result<u64, String>)
    ensures
        r is Ok <==> parse_unsigned_spec(s@, u64::MAX as int) is Some,
        r is Ok ==> r->Ok_0 as int == parse_unsigned_spec(s@, u64::MAX as int)->0,
{
    s.parse::<u64>().map_err(|e| e.to_string())
}

/// Relies on `usize`'s `FromStr` implementation: it accepts an optional `+`
/// sign followed by decimal digits, and rejects any other text and any
/// value above `usize::MAX`.
#[verifier::external_body]
fn parse_usize(s: &str) -> (r: Result<usize, String>)
    ensures
        r is Ok <==> parse_unsigned_spec(s@, usize::MAX as int) is Some,
        r is Ok ==> r->Ok_0 as int == parse_unsigned_spec(s@, usize::MAX as int)->0,
{
    s.parse::<usize>().map_err(|e| e.to_string())
}

/// Relies on `i8`'s `FromStr` implementation: it accepts an optional `+`
/// or `-` sign followed by decimal digits, and rejects any other text and
/// any value outside `i8::MIN ..= i8::MAX`.
#[verifier::external_body]
fn parse_i8(s: &str) -> (r: Result<i8, String>)
    ensures
        r is Ok <==> parse_signed_spec(s@, i8::MIN as int, i8::MAX as int) is Some,
        r is Ok ==> r->Ok_0 as int == parse_signed_spec(s@, i8::MIN as int, i8::MAX as int)->0,
{
    s.parse::<i8>().map_err(|e| e.to_string())
}

/// Relies on `i16`'s `FromStr` implementation: it accepts an optional `+`
/// or `-` sign followed by decimal digits, and rejects any other text and
/// any value outside `i16::MIN ..= i16::MAX`.
#[verifier::external_body]
fn parse_i16(s: &str) -> (r: Result<i16, String>)
    ensures
        r is Ok <==> parse_signed_spec(s@, i16::MIN as int, i16::MAX as int) is Some,
        r is Ok ==> r->Ok_0 as int == parse_signed_spec(s@, i16::MIN as int, i16::MAX as int)->0,
{
    s.parse::<i16>().map_err(|e| e.to_string())
}

/// Relies on `i32`'s `FromStr` implementation: it accepts an optional `+`
/// or `-` sign followed by decimal digits, and rejects any other text and
/// any value outside `i32::MIN ..= i32::MAX`.
#[verifier::external_body]
fn parse_i32(s: &str) -> (r: Result<i32, String>)
    ensures
        r is Ok <==> parse_signed_spec(s@, i32::MIN as int, i32::MAX as int) is Some,
        r is Ok ==> r->Ok_0 as int == parse_signed_spec(s@, i32::MIN as int, i32::MAX as int)->0,
{
    s.parse::<i32>().map_err(|e| e.to_string())
}

/// Relies on `i64`'s `FromStr` implementation: it accepts an optional `+`
/// or `-` sign followed by decimal digits, and rejects any other text and
/// any value outside `i64::MIN ..= i64::MAX`.
#[verifier::external_body]
fn parse_i64(s: &str) -> (r: Result<i64, String>)
    ensures
        r is Ok <==> parse_signed_spec(s@, i64::MIN as int, i64::MAX as int) is Some,
        r is Ok ==> r->Ok_0 as int == parse_signed_spec(s@, i64::MIN as int, i64::MAX as int)->0,
{
    s.parse::<i64>().map_err(|e| e.to_string())
}

/// Relies on `isize`'s `FromStr` implementation: it accepts an optional `+`
/// or `-` sign followed by decimal digits, and rejects any other text and
/// any value outside `isize::MIN ..= isize::MAX`.
#[verifier::external_body]
fn parse_isize(s: &str) -> (r: Result<isize, String>)
    ensures
        r is Ok <==> parse_signed_spec(s@, isize::MIN as int, isize::MAX as int) is Some,
        r is Ok ==> r->Ok_0 as int == parse_signed_spec(s@, isize::MIN as int, isize::MAX as int)->0,
{
    s.parse::<isize>().map_err(|e| e.to_string())
}

/// Converts the decoded string values recorded for one query-string key
/// into a type-safe value.
pub trait FromQueryString: Sized {
    /// Whether conversion of these decoded values into `Self` succeeds.
    spec fn accepts(values: Seq<Seq<char>>) -> bool;

    /// Whether `self` is the result of converting these decoded values.
    spec fn is_value_for(&self, values: Seq<Seq<char>>) -> bool;

    /// Converts the values supplied for `key` into a typed value, or
    /// reports why the conversion failed.
    fn from_query_string(key: &str, values: &[FormUrlDecoded]) -> (r: Result<
        Self,
        FromQueryStringError,
    >)
        ensures
            r is Ok <==> Self::accepts(value_views(values@)),
            r is Ok ==> (r->Ok_0).is_value_for(value_views(values@)),
    ;
}

impl FromQueryString for String {
    open spec fn accepts(values: Seq<Seq<char>>) -> bool {
        values.len() == 1
    }

    open spec fn is_value_for(&self, values: Seq<Seq<char>>) -> bool {
        self@ == values[0]
    }

    fn from_query_string(key: &str, values: &[FormUrlDecoded]) -> (r: Result<
        Self,
        FromQueryStringError,
    >) {
        if values.len() == 1 {
            Ok(String::from_str(values[0].val()))
        } else {
            Err(FromQueryStringError::invalid_number_of_values())
        }
    }
}

impl FromQueryString for bool {
    open spec fn accepts(values: Seq<Seq<char>>) -> bool {
        values.len() == 1 && (values[0] == "true"@ || values[0] == "false"@)
    }

    open spec fn is_value_for(&self, values: Seq<Seq<char>>) -> bool {
        *self == (values[0] == "true"@)
    }

    fn from_query_string(key: &str, values: &[FormUrlDecoded]) -> (r: Result<
        Self,
        FromQueryStringError,
    >) {
        if values.len() == 1 {
            let v = String::from_str(values[0].val());
            if v == String::from_str("true") {
                Ok(true)
            } else if v == String::from_str("false") {
                Ok(false)
            } else {
                Err(
                    FromQueryStringError {
                        description: String::from_str("provided string was not a boolean"),
                    },
                )
            }
        } else {
            Err(FromQueryStringError::invalid_number_of_values())
        }
    }
}

impl FromQueryString for u8 {
    open spec fn accepts(values: Seq<Seq<char>>) -> bool {
        values.len() == 1 && parse_unsigned_spec(values[0], u8::MAX as int) is Some
    }

    open spec fn is_value_for(&self, values: Seq<Seq<char>>) -> bool {
        *self as int == parse_unsigned_spec(values[0], u8::MAX as int)->0
    }

    fn from_query_string(key: &str, values: &[FormUrlDecoded]) -> (r: Result<
        Self,
        FromQueryStringError,
    >) {
        if values.len() == 1 {
            match parse_u8(values[0].val()) {
                Ok(v) => Ok(v),
                Err(description) => Err(FromQueryStringError { description }),
            }
        } else {
            Err(FromQueryStringError::invalid_number_of_values())
        }
    }
}

impl FromQueryString for u16 {
    open spec fn accepts(values: Seq<Seq<char>>) -> bool {
        values.len() == 1 && parse_unsigned_spec(values[0], u16::MAX as int) is Some
    }

    open spec fn is_value_for(&self, values: Seq<Seq<char>>) -> bool {
        *self as int == parse_unsigned_spec(values[0], u16::MAX as int)->0
    }

    fn from_query_string(key: &str, values: &[FormUrlDecoded]) -> (r: Result<
        Self,
        FromQueryStringError,
    >) {
        if values.len() == 1 {
            match parse_u16(values[0].val()) {
                Ok(v) => Ok(v),
                Err(description) => Err(FromQueryStringError { description }),
            }
        } else {
            Err(FromQueryStringError::invalid_number_of_values())
        }
    }
}

impl FromQueryString for u32 {
    open spec fn accepts(values: Seq<Seq<char>>) -> bool {
        values.len() == 1 && parse_unsigned_spec(values[0], u32::MAX as int) is Some
    }

    open spec fn is_value_for(&self, values: Seq<Seq<char>>) -> bool {
        *self as int == parse_unsigned_spec(values[0], u32::MAX as int)->0
    }

    fn from_query_string(key: &str, values: &[FormUrlDecoded]) -> (r: Result<
        Self,
        FromQueryStringError,
    >) {
        if values.len() == 1 {
            match parse_u32(values[0].val()) {
                Ok(v) => Ok(v),
                Err(description) => Err(FromQueryStringError { description }),
            }
        } else {
            Err(FromQueryStringError::invalid_number_of_values())
        }
    }
}

impl FromQueryString for u64 {
    open spec fn accepts(values: Seq<Seq<char>>) -> bool {
        values.len() == 1 && parse_unsigned_spec(values[0], u64::MAX as int) is Some
    }

    open spec fn is_value_for(&self, values: Seq<Seq<char>>) -> bool {
        *self as int == parse_unsigned_spec(values[0], u64::MAX as int)->0
    }

    fn from_query_string(key: &str, values: &[FormUrlDecoded]) -> (r: Result<
        Self,
        FromQueryStringError,
    >) {
        if values.len() == 1 {
            match parse_u64(values[0].val()) {
                Ok(v) => Ok(v),
                Err(description) => Err(FromQueryStringError { description }),
            }
        } else {
            Err(FromQueryStringError::invalid_number_of_values())
        }
    }
}

impl FromQueryString for usize {
    open spec fn accepts(values: Seq<Seq<char>>) -> bool {
        values.len() == 1 && parse_unsigned_spec(values[0], usize::MAX as int) is Some
    }

    open spec fn is_value_for(&self, values: Seq<Seq<char>>) -> bool {
        *self as int == parse_unsigned_spec(values[0], usize::MAX as int)->0
    }

    fn from_query_string(key: &str, values: &[FormUrlDecoded]) -> (r: Result<
        Self,
        FromQueryStringError,
    >) {
        if values.len() == 1 {
            match parse_usize(values[0].val()) {
                Ok(v) => Ok(v),
                Err(description) => Err(FromQueryStringError { description }),
            }
        } else {
            Err(FromQueryStringError::invalid_number_of_values())
        }
    }
}

impl FromQueryString for i8 {
    open spec fn accepts(values: Seq<Seq<char>>) -> bool {
        values.len() == 1 && parse_signed_spec(values[0], i8::MIN as int, i8::MAX as int) is Some
    }

    open spec fn is_value_for(&self, values: Seq<Seq<char>>) -> bool {
        *self as int == parse_signed_spec(values[0], i8::MIN as int, i8::MAX as int)->0
    }

    fn from_query_string(key: &str, values: &[FormUrlDecoded]) -> (r: Result<
        Self,
        FromQueryStringError,
    >) {
        if values.len() == 1 {
            match parse_i8(values[0].val()) {
                Ok(v) => Ok(v),
                Err(description) => Err(FromQueryStringError { description }),
            }
        } else {
            Err(FromQueryStringError::invalid_number_of_values())
        }
    }
}

impl FromQueryString for i16 {
    open spec fn accepts(values: Seq<Seq<char>>) -> bool {
        values.len() == 1 && parse_signed_spec(values[0], i16::MIN as int, i16::MAX as int) is Some
    }

    open spec fn is_value_for(&self, values: Seq<Seq<char>>) -> bool {
        *self as int == parse_signed_spec(values[0], i16::MIN as int, i16::MAX as int)->0
    }

    fn from_query_string(key: &str, values: &[FormUrlDecoded]) -> (r: Result<
        Self,
        FromQueryStringError,
    >) {
        if values.len() == 1 {
            match parse_i16(values[0].val()) {
                Ok(v) => Ok(v),
                Err(description) => Err(FromQueryStringError { description }),
            }
        } else {
            Err(FromQueryStringError::invalid_number_of_values())
        }
    }
}

impl FromQueryString for i32 {
    open spec fn accepts(values: Seq<Seq<char>>) -> bool {
        values.len() == 1 && parse_signed_spec(values[0], i32::MIN as int, i32::MAX as int) is Some
    }

    open spec fn is_value_for(&self, values: Seq<Seq<char>>) -> bool {
        *self as int == parse_signed_spec(values[0], i32::MIN as int, i32::MAX as int)->0
    }

    fn from_query_string(key: &str, values: &[FormUrlDecoded]) -> (r: Result<
        Self,
        FromQueryStringError,
    >) {
        if values.len() == 1 {
            match parse_i32(values[0].val()) {
                Ok(v) => Ok(v),
                Err(description) => Err(FromQueryStringError { description }),
            }
        } else {
            Err(FromQueryStringError::invalid_number_of_values())
        }
    }
}

impl FromQueryString for i64 {
    open spec fn accepts(values: Seq<Seq<char>>) -> bool {
        values.len() == 1 && parse_signed_spec(values[0], i64::MIN as int, i64::MAX as int) is Some
    }

    open spec fn is_value_for(&self, values: Seq<Seq<char>>) -> bool {
        *self as int == parse_signed_spec(values[0], i64::MIN as int, i64::MAX as int)->0
    }

    fn from_query_string(key: &str, values: &[FormUrlDecoded]) -> (r: Result<
        Self,
        FromQueryStringError,
    >) {
        if values.len() == 1 {
            match parse_i64(values[0].val()) {
                Ok(v) => Ok(v),
                Err(description) => Err(FromQueryStringError { description }),
            }
        } else {
            Err(FromQueryStringError::invalid_number_of_values())
        }
    }
}

impl FromQueryString for isize {
    open spec fn accepts(values: Seq<Seq<char>>) -> bool {
        values.len() == 1 && parse_signed_spec(values[0], isize::MIN as int, isize::MAX as int) is Some
    }

    open spec fn is_value_for(&self, values: Seq<Seq<char>>) -> bool {
        *self as int == parse_signed_spec(values[0], isize::MIN as int, isize::MAX as int)->0
    }

    fn from_query_string(key: &str, values: &[FormUrlDecoded]) -> (r: Result<
        Self,
        FromQueryStringError,
    >) {
        if values.len() == 1 {
            match parse_isize(values[0].val()) {
                Ok(v) => Ok(v),
                Err(description) => Err(FromQueryStringError { description }),
            }
        } else {
            Err(FromQueryStringError::invalid_number_of_values())
        }
    }
}

impl<T: FromQueryString> FromQueryString for Option<T> {
    open spec fn accepts(values: Seq<Seq<char>>) -> bool {
        values.len() == 0 || T::accepts(values)
    }

    open spec fn is_value_for(&self, values: Seq<Seq<char>>) -> bool {
        if values.len() == 0 {
            *self is None
        } else {
            *self is Some && (*self)->0.is_value_for(values)
        }
    }

    fn from_query_string(key: &str, values: &[FormUrlDecoded]) -> (r: Result<
        Self,
        FromQueryStringError,
    >) {
        if values.len() == 0 {
            Ok(None)
        } else {
            match T::from_query_string(key, values) {
                Ok(v) => Ok(Some(v)),
                Err(e) => Err(e),
            }
        }
    }
}

impl<T: FromQueryString> FromQueryString for Vec<T> {
    open spec fn accepts(values: Seq<Seq<char>>) -> bool {
        forall|i: int| 0 <= i < values.len() ==> #[trigger] T::accepts(single_value(values[i]))
    }

    open spec fn is_value_for(&self, values: Seq<Seq<char>>) -> bool {
        self@.len() == values.len() && forall|i: int|
            0 <= i < values.len() ==> #[trigger] self@[i].is_value_for(single_value(values[i]))
    }

    fn from_query_string(key: &str, values: &[FormUrlDecoded]) -> (r: Result<
        Self,
        FromQueryStringError,
    >) {
        let ghost views = value_views(values@);
        let mut out: Vec<T> = Vec::new();
        let mut i: usize = 0;
        while i < values.len()
            invariant
                i <= values@.len(),
                views == value_views(values@),
                out@.len() == i,
                forall|j: int| 0 <= j < i ==> #[trigger] T::accepts(single_value(views[j])),
                forall|j: int|
                    0 <= j < i ==> #[trigger] out@[j].is_value_for(single_value(views[j])),
            decreases values@.len() - i,
        {
            let one = &values[i..i + 1];
            proof {
                assert(value_views(one@) =~= single_value(views[i as int]));
            }
            match T::from_query_string(key, one) {
                Ok(v) => out.push(v),
                Err(e) => {
                    proof {
                        assert(!T::accepts(single_value(views[i as int])));
                    }
                    return Err(e);
                },
            }
            i += 1;
        }
        Ok(out)
    }
}

/// Law: converting an empty value sequence through the optional wrapper
/// always succeeds as "absent", whatever the wrapped type.
pub proof fn lemma_optional_empty_is_absent<T: FromQueryString>(values: Seq<Seq<char>>)
    requires
        values.len() == 0,
    ensures
        <Option<T> as FromQueryString>::accepts(values),
        forall|o: Option<T>| #[trigger] o.is_value_for(values) <==> o is None,
{
}

/// Law: repeated conversion succeeds exactly when every element converts on
/// its own as the element type, and a converted sequence matches the input
/// element by element, in the input's order.
pub proof fn lemma_repeated_elementwise<T: FromQueryString>(values: Seq<Seq<char>>, out: Vec<T>)
    ensures
        <Vec<T> as FromQueryString>::accepts(values) <==> (forall|i: int|
            0 <= i < values.len() ==> #[trigger] T::accepts(single_value(values[i]))),
        out.is_value_for(values) <==> (out@.len() == values.len() && forall|i: int|
            0 <= i < values.len() ==> #[trigger] out@[i].is_value_for(single_value(values[i]))),
{
}

/// Populates typed data from a query string. Implemented by application
/// code for each set of declared parameters; extraction may fail when the
/// query string does not fit the declared shape.
pub trait QueryStringExtractor {
    /// Whether extraction succeeds on this query string.
    spec fn extract_ok(query: Option<Seq<char>>) -> bool;

    /// Extracts typed data from the query string.
    fn extract(query: Option<&str>) -> (r: Result<(), String>)
        ensures
            r is Ok <==> Self::extract_ok(opt_str_view(query)),
    ;
}

/// A `QueryStringExtractor` that does not extract or store any data.
///
/// Useful in routes that declare no typed query parameters.
#[derive(Debug)]
pub struct NoopQueryStringExtractor;

impl QueryStringExtractor for NoopQueryStringExtractor {
    open spec fn extract_ok(query: Option<Seq<char>>) -> bool {
        true
    }

    fn extract(query: Option<&str>) -> (r: Result<(), String>) {
        Ok(())
    }
}

} // verus!
