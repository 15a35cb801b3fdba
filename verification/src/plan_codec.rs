//! The byte format of persisted plans: bounded little-endian primitives, and a
//! reader for them.
//!
//! Integers are little-endian; flags are one byte, 0 or 1; an optional value is a
//! flag followed by the value where there is one; strings and lists are a 32-bit
//! count followed by UTF-8 bytes or items.

use vstd::bytes::*;
use vstd::prelude::*;
use vstd::slice::{slice_subrange, slice_to_vec};
use vstd::string::*;

use crate::text;

verus! {

pub const MAX_PERSISTED_PLAN_BYTES: usize = 1048576;

pub const MAX_STRING_BYTES: usize = 65536;

pub const MAX_LIST_ITEMS: usize = 1024;

#[derive(Debug, Clone, PartialEq, Eq)]
pub enum PlanPersistenceError {
    TooLarge { bytes: usize, maximum: usize },
    InvalidMagic,
    UnsupportedPersistenceSchema { found: u32, supported: u32 },
    Truncated { field: &'static str },
    TrailingBytes { bytes: usize },
    InvalidBoolean { field: &'static str, value: u8 },
    InvalidEnum { field: &'static str, value: u8 },
    InvalidUtf8 { field: &'static str },
    LimitExceeded { field: &'static str, value: usize, maximum: usize },
    NumericOverflow { field: &'static str },
    InvalidPlan { field: &'static str },
}

impl PlanPersistenceError {
    pub open spec fn spec_message(self) -> Seq<char> {
        match self {
            PlanPersistenceError::TooLarge { bytes, maximum } => "persisted plan is "@
                + text::decimal(bytes as nat) + " bytes; maximum is "@ + text::decimal(
                maximum as nat,
            ) + " bytes"@,
            PlanPersistenceError::InvalidMagic => "invalid persisted execution plan magic"@,
            PlanPersistenceError::UnsupportedPersistenceSchema { found, supported } =>
                "persisted plan schema "@ + text::decimal(found as nat)
                    + " is unsupported; expected "@ + text::decimal(supported as nat),
            PlanPersistenceError::Truncated { field } => "persisted plan is truncated at "@
                + field@,
            PlanPersistenceError::TrailingBytes { bytes } => "persisted plan has "@
                + text::decimal(bytes as nat) + " trailing bytes"@,
            PlanPersistenceError::InvalidBoolean { field, value } =>
                "persisted plan has invalid boolean "@ + text::decimal(value as nat) + " for "@
                    + field@,
            PlanPersistenceError::InvalidEnum { field, value } =>
                "persisted plan has invalid enum tag "@ + text::decimal(value as nat) + " for "@
                    + field@,
            PlanPersistenceError::InvalidUtf8 { field } => "persisted plan has invalid UTF-8 for "@
                + field@,
            PlanPersistenceError::LimitExceeded { field, value, maximum } => "persisted plan "@
                + field@ + " value "@ + text::decimal(value as nat) + " exceeds maximum "@
                + text::decimal(maximum as nat),
            PlanPersistenceError::NumericOverflow { field } =>
                "persisted plan numeric value overflows "@ + field@,
            PlanPersistenceError::InvalidPlan { field } => "persisted execution plan is invalid: "@
                + field@,
        }
    }

    pub fn message(&self) -> (message: String)
        ensures
            message@ == self.spec_message(),
    {
        let mut message = String::new();
        assert(message@ =~= Seq::empty());
        match self {
            PlanPersistenceError::TooLarge { bytes, maximum } => {
                message = "persisted plan is ".to_owned();
                text::push_decimal(&mut message, *bytes as u64);
                message.append(" bytes; maximum is ");
                text::push_decimal(&mut message, *maximum as u64);
                message.append(" bytes");
            },
            PlanPersistenceError::InvalidMagic => {
                message = "invalid persisted execution plan magic".to_owned();
            },
            PlanPersistenceError::UnsupportedPersistenceSchema { found, supported } => {
                message = "persisted plan schema ".to_owned();
                text::push_decimal(&mut message, *found as u64);
                message.append(" is unsupported; expected ");
                text::push_decimal(&mut message, *supported as u64);
            },
            PlanPersistenceError::Truncated { field } => {
                message = "persisted plan is truncated at ".to_owned();
                message.append(field);
            },
            PlanPersistenceError::TrailingBytes { bytes } => {
                message = "persisted plan has ".to_owned();
                text::push_decimal(&mut message, *bytes as u64);
                message.append(" trailing bytes");
            },
            PlanPersistenceError::InvalidBoolean { field, value } => {
                message = "persisted plan has invalid boolean ".to_owned();
                text::push_decimal(&mut message, *value as u64);
                message.append(" for ");
                message.append(field);
            },
            PlanPersistenceError::InvalidEnum { field, value } => {
                message = "persisted plan has invalid enum tag ".to_owned();
                text::push_decimal(&mut message, *value as u64);
                message.append(" for ");
                message.append(field);
            },
            PlanPersistenceError::InvalidUtf8 { field } => {
                message = "persisted plan has invalid UTF-8 for ".to_owned();
                message.append(field);
            },
            PlanPersistenceError::LimitExceeded { field, value, maximum } => {
                message = "persisted plan ".to_owned();
                message.append(field);
                message.append(" value ");
                text::push_decimal(&mut message, *value as u64);
                message.append(" exceeds maximum ");
                text::push_decimal(&mut message, *maximum as u64);
            },
            PlanPersistenceError::NumericOverflow { field } => {
                message = "persisted plan numeric value overflows ".to_owned();
                message.append(field);
            },
            PlanPersistenceError::InvalidPlan { field } => {
                message = "persisted execution plan is invalid: ".to_owned();
                message.append(field);
            },
        }
        message
    }
}

// ---------------------------------------------------------------------------
// Writing
// ---------------------------------------------------------------------------
pub open spec fn u32_bytes(value: u32) -> Seq<u8> {
    spec_u32_to_le_bytes(value)
}

pub open spec fn u64_bytes(value: u64) -> Seq<u8> {
    spec_u64_to_le_bytes(value)
}

pub open spec fn flag_byte(value: bool) -> u8 {
    if value {
        1
    } else {
        0
    }
}

pub open spec fn flag_bytes(value: bool) -> Seq<u8> {
    seq![flag_byte(value)]
}

pub open spec fn optional_u32_bytes(value: Option<u32>) -> Seq<u8> {
    match value {
        Some(number) => flag_bytes(true) + u32_bytes(number),
        None => flag_bytes(false),
    }
}

pub open spec fn optional_u64_bytes(value: Option<u64>) -> Seq<u8> {
    match value {
        Some(number) => flag_bytes(true) + u64_bytes(number),
        None => flag_bytes(false),
    }
}

pub open spec fn string_bytes(value: Seq<char>) -> Seq<u8> {
    u32_bytes(vstd::utf8::encode_utf8(value).len() as u32) + vstd::utf8::encode_utf8(value)
}

pub open spec fn optional_string_bytes(value: Option<Seq<char>>) -> Seq<u8> {
    match value {
        Some(text) => flag_bytes(true) + string_bytes(text),
        None => flag_bytes(false),
    }
}

pub open spec fn strings_bytes(values: Seq<Seq<char>>) -> Seq<u8>
    decreases values.len(),
{
    if values.len() == 0 {
        Seq::empty()
    } else {
        strings_bytes(values.drop_last()) + string_bytes(values.last())
    }
}

pub open spec fn string_list_bytes(values: Seq<Seq<char>>) -> Seq<u8> {
    u32_bytes(values.len() as u32) + strings_bytes(values)
}

pub fn put_u32(bytes: &mut Vec<u8>, value: u32)
    ensures
        final(bytes)@ == old(bytes)@ + u32_bytes(value),
{
    let mut encoded = u32_to_le_bytes(value);
    bytes.append(&mut encoded);
}

pub fn put_u64(bytes: &mut Vec<u8>, value: u64)
    ensures
        final(bytes)@ == old(bytes)@ + u64_bytes(value),
{
    let mut encoded = u64_to_le_bytes(value);
    bytes.append(&mut encoded);
}

pub fn put_u8(bytes: &mut Vec<u8>, value: u8)
    ensures
        final(bytes)@ == old(bytes)@ + seq![value],
{
    bytes.push(value);
    assert(bytes@ =~= old(bytes)@ + seq![value]);
}

pub fn put_bool(bytes: &mut Vec<u8>, value: bool)
    ensures
        final(bytes)@ == old(bytes)@ + flag_bytes(value),
{
    put_u8(
        bytes,
        if value {
            1
        } else {
            0
        },
    );
}

pub fn put_optional_u32(bytes: &mut Vec<u8>, value: Option<u32>)
    ensures
        final(bytes)@ == old(bytes)@ + optional_u32_bytes(value),
{
    match value {
        Some(number) => {
            put_bool(bytes, true);
            put_u32(bytes, number);
            assert(bytes@ =~= old(bytes)@ + optional_u32_bytes(value));
        },
        None => put_bool(bytes, false),
    }
}

pub fn put_optional_u64(bytes: &mut Vec<u8>, value: Option<u64>)
    ensures
        final(bytes)@ == old(bytes)@ + optional_u64_bytes(value),
{
    match value {
        Some(number) => {
            put_bool(bytes, true);
            put_u64(bytes, number);
            assert(bytes@ =~= old(bytes)@ + optional_u64_bytes(value));
        },
        None => put_bool(bytes, false),
    }
}

/// The string fits the format.
pub open spec fn string_fits(value: Seq<char>) -> bool {
    vstd::utf8::encode_utf8(value).len() <= MAX_STRING_BYTES
}

pub fn put_string(bytes: &mut Vec<u8>, value: &str, field: &'static str) -> (result: Result<
    (),
    PlanPersistenceError,
>)
    ensures
        result == (if string_fits(value@) {
            Ok::<(), PlanPersistenceError>(())
        } else {
            Err(
                PlanPersistenceError::LimitExceeded {
                    field,
                    value: vstd::utf8::encode_utf8(value@).len() as usize,
                    maximum: MAX_STRING_BYTES,
                },
            )
        }),
        result is Ok ==> final(bytes)@ == old(bytes)@ + string_bytes(value@),
{
    let encoded = value.as_bytes();
    if encoded.len() > MAX_STRING_BYTES {
        return Err(
            PlanPersistenceError::LimitExceeded {
                field,
                value: encoded.len(),
                maximum: MAX_STRING_BYTES,
            },
        );
    }
    put_u32(bytes, encoded.len() as u32);
    let mut copy = slice_to_vec(encoded);
    bytes.append(&mut copy);
    assert(bytes@ =~= old(bytes)@ + string_bytes(value@));
    Ok(())
}

pub fn put_optional_string(
    bytes: &mut Vec<u8>,
    value: &Option<String>,
    field: &'static str,
) -> (result: Result<(), PlanPersistenceError>)
    ensures
        result == (if value is None || string_fits(value->0@) {
            Ok::<(), PlanPersistenceError>(())
        } else {
            Err(
                PlanPersistenceError::LimitExceeded {
                    field,
                    value: vstd::utf8::encode_utf8(value->0@).len() as usize,
                    maximum: MAX_STRING_BYTES,
                },
            )
        }),
        result is Ok ==> final(bytes)@ == old(bytes)@ + optional_string_bytes(
            text::text_option(*value),
        ),
{
    match value {
        Some(content) => {
            put_bool(bytes, true);
            match put_string(bytes, content.as_str(), field) {
                Ok(()) => {},
                Err(error) => {
                    return Err(error);
                },
            }
            assert(bytes@ =~= old(bytes)@ + optional_string_bytes(text::text_option(*value)));
            Ok(())
        },
        None => {
            put_bool(bytes, false);
            Ok(())
        },
    }
}

/// Every string of a list fits the format.
pub open spec fn strings_fit(values: Seq<Seq<char>>) -> bool {
    forall|i: int| 0 <= i < values.len() ==> string_fits(#[trigger] values[i])
}

/// The error that a string is written with.
pub open spec fn string_check(field: &'static str, value: Seq<char>) -> Result<
    (),
    PlanPersistenceError,
> {
    if string_fits(value) {
        Ok(())
    } else {
        Err(
            PlanPersistenceError::LimitExceeded {
                field,
                value: vstd::utf8::encode_utf8(value).len() as usize,
                maximum: MAX_STRING_BYTES,
            },
        )
    }
}

pub open spec fn strings_check(field: &'static str, values: Seq<Seq<char>>) -> Result<
    (),
    PlanPersistenceError,
>
    decreases values.len(),
{
    if values.len() == 0 {
        Ok(())
    } else {
        let earlier = strings_check(field, values.drop_last());
        if earlier is Err {
            earlier
        } else {
            string_check(field, values.last())
        }
    }
}

/// The error that a list of that many items is written with.
pub open spec fn count_check(field: &'static str, count: nat) -> Result<(), PlanPersistenceError> {
    if count <= MAX_LIST_ITEMS {
        Ok(())
    } else {
        Err(
            PlanPersistenceError::LimitExceeded {
                field,
                value: count as usize,
                maximum: MAX_LIST_ITEMS,
            },
        )
    }
}

pub open spec fn string_list_check(field: &'static str, values: Seq<Seq<char>>) -> Result<
    (),
    PlanPersistenceError,
> {
    if count_check(field, values.len()) is Err {
        count_check(field, values.len())
    } else {
        strings_check(field, values)
    }
}

proof fn lemma_strings_check_prefix(field: &'static str, values: Seq<Seq<char>>, upto: int)
    requires
        0 <= upto <= values.len(),
        strings_check(field, values.take(upto)) is Err,
    ensures
        strings_check(field, values) == strings_check(field, values.take(upto)),
    decreases values.len(),
{
    if upto == values.len() {
        assert(values.take(upto) =~= values);
    } else {
        assert(values.drop_last().take(upto) =~= values.take(upto));
        lemma_strings_check_prefix(field, values.drop_last(), upto);
    }
}

/// Strings that fit are written without an error.
pub proof fn lemma_strings_fit_check(field: &'static str, values: Seq<Seq<char>>)
    requires
        strings_fit(values),
    ensures
        strings_check(field, values) is Ok,
    decreases values.len(),
{
    if values.len() > 0 {
        let earlier = values.drop_last();
        assert forall|i: int| 0 <= i < earlier.len() implies string_fits(#[trigger] earlier[i]) by {
            assert(earlier[i] == values[i]);
        }
        assert(string_fits(values[values.len() - 1]));
        lemma_strings_fit_check(field, earlier);
    }
}

pub fn put_list_count(bytes: &mut Vec<u8>, count: usize, field: &'static str) -> (result: Result<
    (),
    PlanPersistenceError,
>)
    ensures
        result == count_check(field, count as nat),
        result is Ok ==> final(bytes)@ == old(bytes)@ + u32_bytes(count as u32),
{
    if count > MAX_LIST_ITEMS {
        return Err(
            PlanPersistenceError::LimitExceeded { field, value: count, maximum: MAX_LIST_ITEMS },
        );
    }
    put_u32(bytes, count as u32);
    Ok(())
}

pub fn put_string_list(bytes: &mut Vec<u8>, values: &Vec<String>, field: &'static str) -> (result:
    Result<(), PlanPersistenceError>)
    ensures
        result == string_list_check(field, text::texts(values@)),
        result is Ok ==> final(bytes)@ == old(bytes)@ + string_list_bytes(text::texts(values@)),
{
    let ghost all = text::texts(values@);
    match put_list_count(bytes, values.len(), field) {
        Ok(()) => {},
        Err(error) => {
            return Err(error);
        },
    }
    let ghost head = bytes@;
    assert(head =~= head + strings_bytes(all.take(0)));
    for i in 0..values.len()
        invariant
            all == text::texts(values@),
            values@.len() <= MAX_LIST_ITEMS,
            strings_check(field, all.take(i as int)) is Ok,
            bytes@ == head + strings_bytes(all.take(i as int)),
    {
        proof {
            assert(all.take(i as int + 1).drop_last() =~= all.take(i as int));
            assert(all[i as int] == values@[i as int]@);
        }
        match put_string(bytes, values[i].as_str(), field) {
            Ok(()) => {},
            Err(error) => {
                proof {
                    lemma_strings_check_prefix(field, all, i as int + 1);
                }
                return Err(error);
            },
        }
        assert(bytes@ =~= head + strings_bytes(all.take(i as int + 1)));
    }
    assert(all.take(all.len() as int) =~= all);
    assert(bytes@ =~= old(bytes)@ + string_list_bytes(all));
    Ok(())
}

// ---------------------------------------------------------------------------
// Reading
// ---------------------------------------------------------------------------
pub open spec fn get_bytes(bytes: Seq<u8>, at: int, length: int, field: &'static str) -> Result<
    (Seq<u8>, int),
    PlanPersistenceError,
> {
    if at + length > bytes.len() {
        Err(PlanPersistenceError::Truncated { field })
    } else {
        Ok((bytes.subrange(at, at + length), at + length))
    }
}

pub open spec fn get_u8(bytes: Seq<u8>, at: int, field: &'static str) -> Result<
    (u8, int),
    PlanPersistenceError,
> {
    match get_bytes(bytes, at, 1, field) {
        Ok((raw, next)) => Ok((raw[0], next)),
        Err(error) => Err(error),
    }
}

pub open spec fn get_u32(bytes: Seq<u8>, at: int, field: &'static str) -> Result<
    (u32, int),
    PlanPersistenceError,
> {
    match get_bytes(bytes, at, 4, field) {
        Ok((raw, next)) => Ok((spec_u32_from_le_bytes(raw), next)),
        Err(error) => Err(error),
    }
}

pub open spec fn get_u64(bytes: Seq<u8>, at: int, field: &'static str) -> Result<
    (u64, int),
    PlanPersistenceError,
> {
    match get_bytes(bytes, at, 8, field) {
        Ok((raw, next)) => Ok((spec_u64_from_le_bytes(raw), next)),
        Err(error) => Err(error),
    }
}

pub open spec fn get_flag(bytes: Seq<u8>, at: int, field: &'static str) -> Result<
    (bool, int),
    PlanPersistenceError,
> {
    match get_u8(bytes, at, field) {
        Ok((value, next)) => if value == 0 {
            Ok((false, next))
        } else if value == 1 {
            Ok((true, next))
        } else {
            Err(PlanPersistenceError::InvalidBoolean { field, value })
        },
        Err(error) => Err(error),
    }
}

pub open spec fn get_optional_u32(bytes: Seq<u8>, at: int, field: &'static str) -> Result<
    (Option<u32>, int),
    PlanPersistenceError,
> {
    match get_flag(bytes, at, field) {
        Err(error) => Err(error),
        Ok((false, next)) => Ok((None, next)),
        Ok((true, next)) => match get_u32(bytes, next, field) {
            Ok((value, end)) => Ok((Some(value), end)),
            Err(error) => Err(error),
        },
    }
}

pub open spec fn get_optional_u64(bytes: Seq<u8>, at: int, field: &'static str) -> Result<
    (Option<u64>, int),
    PlanPersistenceError,
> {
    match get_flag(bytes, at, field) {
        Err(error) => Err(error),
        Ok((false, next)) => Ok((None, next)),
        Ok((true, next)) => match get_u64(bytes, next, field) {
            Ok((value, end)) => Ok((Some(value), end)),
            Err(error) => Err(error),
        },
    }
}

pub open spec fn get_string(bytes: Seq<u8>, at: int, field: &'static str) -> Result<
    (Seq<char>, int),
    PlanPersistenceError,
> {
    match get_u32(bytes, at, field) {
        Err(error) => Err(error),
        Ok((length, next)) => if length > MAX_STRING_BYTES {
            Err(
                PlanPersistenceError::LimitExceeded {
                    field,
                    value: length as usize,
                    maximum: MAX_STRING_BYTES,
                },
            )
        } else {
            match get_bytes(bytes, next, length as int, field) {
                Err(error) => Err(error),
                Ok((raw, end)) => if vstd::utf8::valid_utf8(raw) {
                    Ok((vstd::utf8::decode_utf8(raw), end))
                } else {
                    Err(PlanPersistenceError::InvalidUtf8 { field })
                },
            }
        },
    }
}

pub open spec fn get_optional_string(bytes: Seq<u8>, at: int, field: &'static str) -> Result<
    (Option<Seq<char>>, int),
    PlanPersistenceError,
> {
    match get_flag(bytes, at, field) {
        Err(error) => Err(error),
        Ok((false, next)) => Ok((None, next)),
        Ok((true, next)) => match get_string(bytes, next, field) {
            Ok((value, end)) => Ok((Some(value), end)),
            Err(error) => Err(error),
        },
    }
}

pub open spec fn get_count(bytes: Seq<u8>, at: int, field: &'static str) -> Result<
    (nat, int),
    PlanPersistenceError,
> {
    match get_u32(bytes, at, field) {
        Err(error) => Err(error),
        Ok((count, next)) => if count > MAX_LIST_ITEMS {
            Err(
                PlanPersistenceError::LimitExceeded {
                    field,
                    value: count as usize,
                    maximum: MAX_LIST_ITEMS,
                },
            )
        } else {
            Ok((count as nat, next))
        },
    }
}

pub open spec fn get_strings(bytes: Seq<u8>, at: int, count: nat, field: &'static str) -> Result<
    (Seq<Seq<char>>, int),
    PlanPersistenceError,
>
    decreases count,
{
    if count == 0 {
        Ok((Seq::empty(), at))
    } else {
        match get_strings(bytes, at, (count - 1) as nat, field) {
            Err(error) => Err(error),
            Ok((earlier, next)) => match get_string(bytes, next, field) {
                Err(error) => Err(error),
                Ok((value, end)) => Ok((earlier.push(value), end)),
            },
        }
    }
}

pub open spec fn get_string_list(bytes: Seq<u8>, at: int, field: &'static str) -> Result<
    (Seq<Seq<char>>, int),
    PlanPersistenceError,
> {
    match get_count(bytes, at, field) {
        Err(error) => Err(error),
        Ok((count, next)) => get_strings(bytes, next, count, field),
    }
}

/// The bytes at `at` are `piece`.
pub open spec fn holds(bytes: Seq<u8>, at: int, piece: Seq<u8>) -> bool {
    0 <= at && at + piece.len() <= bytes.len() && bytes.subrange(at, at + piece.len()) == piece
}

/// Two pieces in a row are where their concatenation is.
pub broadcast proof fn lemma_holds_concat(bytes: Seq<u8>, at: int, first: Seq<u8>, second: Seq<u8>)
    ensures
        #[trigger] holds(bytes, at, first + second) == (holds(bytes, at, first) && holds(
            bytes,
            at + first.len(),
            second,
        )),
{
    let whole = first + second;
    if holds(bytes, at, whole) {
        assert(bytes.subrange(at, at + first.len()) =~= first) by {
            assert forall|i: int| 0 <= i < first.len() implies bytes[at + i] == first[i] by {
                assert(bytes.subrange(at, at + whole.len())[i] == whole[i]);
            }
        }
        assert(bytes.subrange(at + first.len(), at + first.len() + second.len()) =~= second) by {
            assert forall|i: int| 0 <= i < second.len() implies bytes[at + first.len() + i]
                == second[i] by {
                assert(bytes.subrange(at, at + whole.len())[first.len() + i]
                    == whole[first.len() + i]);
            }
        }
    }
    if holds(bytes, at, first) && holds(bytes, at + first.len(), second) {
        assert(bytes.subrange(at, at + whole.len()) =~= whole) by {
            assert forall|i: int| 0 <= i < whole.len() implies bytes[at + i] == whole[i] by {
                if i < first.len() {
                    assert(bytes.subrange(at, at + first.len())[i] == first[i]);
                } else {
                    assert(bytes.subrange(
                        at + first.len(),
                        at + first.len() + second.len(),
                    )[i - first.len()] == second[i - first.len()]);
                }
            }
        }
    }
}

pub broadcast proof fn lemma_u32_length(value: u32)
    ensures
        #[trigger] u32_bytes(value).len() == 4,
{
    lemma_auto_spec_u32_to_from_le_bytes();
}

pub broadcast proof fn lemma_u64_length(value: u64)
    ensures
        #[trigger] u64_bytes(value).len() == 8,
{
    lemma_auto_spec_u64_to_from_le_bytes();
}

/// A 32-bit integer reads back where it was written, and nothing else reads so.
pub proof fn lemma_u32(bytes: Seq<u8>, at: int, field: &'static str, value: u32)
    requires
        0 <= at <= bytes.len(),
    ensures
        holds(bytes, at, u32_bytes(value)) <==> get_u32(bytes, at, field) == Ok::<
            (u32, int),
            PlanPersistenceError,
        >((value, at + 4)),
{
    lemma_numbers(bytes, at, field);
}

/// A 64-bit integer reads back where it was written, and nothing else reads so.
pub proof fn lemma_u64(bytes: Seq<u8>, at: int, field: &'static str, value: u64)
    requires
        0 <= at <= bytes.len(),
    ensures
        holds(bytes, at, u64_bytes(value)) <==> get_u64(bytes, at, field) == Ok::<
            (u64, int),
            PlanPersistenceError,
        >((value, at + 8)),
{
    lemma_numbers(bytes, at, field);
}

/// A byte reads back where it was written, and nothing else reads so.
pub proof fn lemma_u8(bytes: Seq<u8>, at: int, field: &'static str, value: u8)
    requires
        0 <= at <= bytes.len(),
    ensures
        holds(bytes, at, seq![value]) <==> get_u8(bytes, at, field) == Ok::<
            (u8, int),
            PlanPersistenceError,
        >((value, at + 1)),
{
    lemma_numbers(bytes, at, field);
}

/// A flag reads back where it was written, and nothing else reads so.
pub proof fn lemma_flag(bytes: Seq<u8>, at: int, field: &'static str, value: bool)
    requires
        0 <= at <= bytes.len(),
    ensures
        holds(bytes, at, flag_bytes(value)) <==> get_flag(bytes, at, field) == Ok::<
            (bool, int),
            PlanPersistenceError,
        >((value, at + 1)),
{
    lemma_numbers(bytes, at, field);
}

/// Reading one byte, a 32-bit or a 64-bit integer, a flag or an optional integer
/// gives back exactly what was written there, and nothing else reads so.
pub proof fn lemma_numbers(bytes: Seq<u8>, at: int, field: &'static str)
    requires
        0 <= at <= bytes.len(),
    ensures
        forall|value: u8|
            #[trigger] holds(bytes, at, seq![value]) <==> get_u8(bytes, at, field) == Ok::<
                (u8, int),
                PlanPersistenceError,
            >((value, at + 1)),
        forall|value: u32|
            #[trigger] holds(bytes, at, u32_bytes(value)) <==> get_u32(bytes, at, field) == Ok::<
                (u32, int),
                PlanPersistenceError,
            >((value, at + 4)),
        forall|value: u64|
            #[trigger] holds(bytes, at, u64_bytes(value)) <==> get_u64(bytes, at, field) == Ok::<
                (u64, int),
                PlanPersistenceError,
            >((value, at + 8)),
        forall|value: bool|
            #[trigger] holds(bytes, at, flag_bytes(value)) <==> get_flag(bytes, at, field) == Ok::<
                (bool, int),
                PlanPersistenceError,
            >((value, at + 1)),
{
    lemma_auto_spec_u32_to_from_le_bytes();
    lemma_auto_spec_u64_to_from_le_bytes();
    assert forall|value: u8|
        #[trigger] holds(bytes, at, seq![value]) <==> get_u8(bytes, at, field) == Ok::<
            (u8, int),
            PlanPersistenceError,
        >((value, at + 1)) by {
        if at + 1 <= bytes.len() {
            assert(bytes.subrange(at, at + 1)[0] == bytes[at]);
            if bytes[at] == value {
                assert(bytes.subrange(at, at + 1) =~= seq![value]);
            } else {
                assert(seq![value][0] == value);
            }
        }
    }
    assert forall|value: u32|
        #[trigger] holds(bytes, at, u32_bytes(value)) <==> get_u32(bytes, at, field) == Ok::<
            (u32, int),
            PlanPersistenceError,
        >((value, at + 4)) by {
        assert(u32_bytes(value).len() == 4);
    }
    assert forall|value: u64|
        #[trigger] holds(bytes, at, u64_bytes(value)) <==> get_u64(bytes, at, field) == Ok::<
            (u64, int),
            PlanPersistenceError,
        >((value, at + 8)) by {
        assert(u64_bytes(value).len() == 8);
    }
    assert forall|value: bool|
        #[trigger] holds(bytes, at, flag_bytes(value)) <==> get_flag(bytes, at, field) == Ok::<
            (bool, int),
            PlanPersistenceError,
        >((value, at + 1)) by {
        assert(holds(bytes, at, seq![flag_byte(value)]) <==> get_u8(bytes, at, field) == Ok::<
            (u8, int),
            PlanPersistenceError,
        >((flag_byte(value), at + 1)));
    }
}

/// What was read ends inside the bytes.
pub open spec fn ends_inside<T>(
    result: Result<(T, int), PlanPersistenceError>,
    at: int,
    bytes: Seq<u8>,
) -> bool {
    result matches Ok((_, end)) ==> at <= end <= bytes.len()
}

pub proof fn lemma_read_ends(bytes: Seq<u8>, at: int, field: &'static str)
    requires
        0 <= at <= bytes.len(),
    ensures
        ends_inside(get_u8(bytes, at, field), at, bytes),
        ends_inside(get_u32(bytes, at, field), at, bytes),
        ends_inside(get_u64(bytes, at, field), at, bytes),
        ends_inside(get_flag(bytes, at, field), at, bytes),
        ends_inside(get_optional_u32(bytes, at, field), at, bytes),
        ends_inside(get_optional_u64(bytes, at, field), at, bytes),
        ends_inside(get_string(bytes, at, field), at, bytes),
        ends_inside(get_optional_string(bytes, at, field), at, bytes),
        ends_inside(get_count(bytes, at, field), at, bytes),
{
}

pub proof fn lemma_strings_end(bytes: Seq<u8>, at: int, count: nat, field: &'static str)
    requires
        0 <= at <= bytes.len(),
    ensures
        ends_inside(get_strings(bytes, at, count, field), at, bytes),
    decreases count,
{
    if count > 0 {
        lemma_strings_end(bytes, at, (count - 1) as nat, field);
        if let Ok((_, next)) = get_strings(bytes, at, (count - 1) as nat, field) {
            lemma_read_ends(bytes, next, field);
        }
    }
}

/// What reads at `at` in bytes that were cut at `length`, given what the whole
/// bytes read: the same where it ends before the cut, and else a truncation.
pub open spec fn reads_when_cut<T>(
    whole: Result<(T, int), PlanPersistenceError>,
    cut: Result<(T, int), PlanPersistenceError>,
    at: int,
    length: int,
) -> bool {
    whole matches Ok((_, end)) ==> {
        &&& at <= end
        &&& end <= length ==> cut == whole
        &&& end > length ==> cut is Err && cut->Err_0 is Truncated
    }
}

pub broadcast proof fn lemma_cut_bytes(
    bytes: Seq<u8>,
    length: int,
    at: int,
    count: int,
    field: &'static str,
)
    requires
        0 <= at <= length <= bytes.len(),
        0 <= count,
    ensures
        reads_when_cut(
            get_bytes(bytes, at, count, field),
            #[trigger] get_bytes(bytes.take(length), at, count, field),
            at,
            length,
        ),
{
    if at + count <= length {
        assert(bytes.take(length).subrange(at, at + count) =~= bytes.subrange(at, at + count));
    }
}

pub broadcast proof fn lemma_cut_u8(bytes: Seq<u8>, length: int, at: int, field: &'static str)
    requires
        0 <= at <= length <= bytes.len(),
    ensures
        reads_when_cut(
            get_u8(bytes, at, field),
            #[trigger] get_u8(bytes.take(length), at, field),
            at,
            length,
        ),
{
    broadcast use lemma_cut_bytes;

}

pub broadcast proof fn lemma_cut_u32(bytes: Seq<u8>, length: int, at: int, field: &'static str)
    requires
        0 <= at <= length <= bytes.len(),
    ensures
        reads_when_cut(
            get_u32(bytes, at, field),
            #[trigger] get_u32(bytes.take(length), at, field),
            at,
            length,
        ),
{
    broadcast use lemma_cut_bytes;

}

pub broadcast proof fn lemma_cut_u64(bytes: Seq<u8>, length: int, at: int, field: &'static str)
    requires
        0 <= at <= length <= bytes.len(),
    ensures
        reads_when_cut(
            get_u64(bytes, at, field),
            #[trigger] get_u64(bytes.take(length), at, field),
            at,
            length,
        ),
{
    broadcast use lemma_cut_bytes;

}

pub broadcast proof fn lemma_cut_flag(bytes: Seq<u8>, length: int, at: int, field: &'static str)
    requires
        0 <= at <= length <= bytes.len(),
    ensures
        reads_when_cut(
            get_flag(bytes, at, field),
            #[trigger] get_flag(bytes.take(length), at, field),
            at,
            length,
        ),
{
    broadcast use lemma_cut_u8;

}

pub broadcast proof fn lemma_cut_optional_u32(bytes: Seq<u8>, length: int, at: int, field: &'static str)
    requires
        0 <= at <= length <= bytes.len(),
    ensures
        reads_when_cut(
            get_optional_u32(bytes, at, field),
            #[trigger] get_optional_u32(bytes.take(length), at, field),
            at,
            length,
        ),
{
    broadcast use lemma_cut_flag;
    broadcast use lemma_cut_u32;

}

pub broadcast proof fn lemma_cut_optional_u64(bytes: Seq<u8>, length: int, at: int, field: &'static str)
    requires
        0 <= at <= length <= bytes.len(),
    ensures
        reads_when_cut(
            get_optional_u64(bytes, at, field),
            #[trigger] get_optional_u64(bytes.take(length), at, field),
            at,
            length,
        ),
{
    broadcast use lemma_cut_flag;
    broadcast use lemma_cut_u64;

}

pub broadcast proof fn lemma_cut_string(bytes: Seq<u8>, length: int, at: int, field: &'static str)
    requires
        0 <= at <= length <= bytes.len(),
    ensures
        reads_when_cut(
            get_string(bytes, at, field),
            #[trigger] get_string(bytes.take(length), at, field),
            at,
            length,
        ),
{
    broadcast use lemma_cut_u32;
    broadcast use lemma_cut_bytes;

}

pub broadcast proof fn lemma_cut_optional_string(bytes: Seq<u8>, length: int, at: int, field: &'static str)
    requires
        0 <= at <= length <= bytes.len(),
    ensures
        reads_when_cut(
            get_optional_string(bytes, at, field),
            #[trigger] get_optional_string(bytes.take(length), at, field),
            at,
            length,
        ),
{
    broadcast use lemma_cut_flag;
    broadcast use lemma_cut_string;

}

pub broadcast proof fn lemma_cut_count(bytes: Seq<u8>, length: int, at: int, field: &'static str)
    requires
        0 <= at <= length <= bytes.len(),
    ensures
        reads_when_cut(
            get_count(bytes, at, field),
            #[trigger] get_count(bytes.take(length), at, field),
            at,
            length,
        ),
{
    broadcast use lemma_cut_u32;

}

pub broadcast proof fn lemma_cut_strings(
    bytes: Seq<u8>,
    length: int,
    at: int,
    count: nat,
    field: &'static str,
)
    requires
        0 <= at <= length <= bytes.len(),
    ensures
        reads_when_cut(
            get_strings(bytes, at, count, field),
            #[trigger] get_strings(bytes.take(length), at, count, field),
            at,
            length,
        ),
    decreases count,
{
    if count > 0 {
        lemma_cut_strings(bytes, length, at, (count - 1) as nat, field);
        lemma_strings_end(bytes, at, (count - 1) as nat, field);
        if let Ok((_, next)) = get_strings(bytes, at, (count - 1) as nat, field) {
            if next <= length {
                lemma_cut_string(bytes, length, next, field);
            }
            lemma_read_ends(bytes, next, field);
        }
    }
}

pub broadcast proof fn lemma_cut_string_list(bytes: Seq<u8>, length: int, at: int, field: &'static str)
    requires
        0 <= at <= length <= bytes.len(),
    ensures
        reads_when_cut(
            get_string_list(bytes, at, field),
            #[trigger] get_string_list(bytes.take(length), at, field),
            at,
            length,
        ),
{
    broadcast use lemma_cut_count;

    if let Ok((count, next)) = get_count(bytes, at, field) {
        lemma_strings_end(bytes, next, count, field);
        if next <= length {
            lemma_cut_strings(bytes, length, next, count, field);
        }
    }
}

pub broadcast group group_cut {
    lemma_cut_u8,
    lemma_cut_u32,
    lemma_cut_u64,
    lemma_cut_flag,
    lemma_cut_optional_u32,
    lemma_cut_optional_u64,
    lemma_cut_string,
    lemma_cut_optional_string,
    lemma_cut_count,
    lemma_cut_string_list,
}

pub proof fn lemma_optional_u32(bytes: Seq<u8>, at: int, field: &'static str, value: Option<u32>)
    requires
        0 <= at <= bytes.len(),
    ensures
        holds(bytes, at, optional_u32_bytes(value)) <==> get_optional_u32(bytes, at, field) == Ok::<
            (Option<u32>, int),
            PlanPersistenceError,
        >((value, at + optional_u32_bytes(value).len())),
{
    broadcast use lemma_holds_concat;

    lemma_auto_spec_u32_to_from_le_bytes();
    lemma_numbers(bytes, at, field);
    assert(holds(bytes, at, flag_bytes(true)) || !holds(bytes, at, flag_bytes(true)));
    assert(holds(bytes, at, flag_bytes(false)) || !holds(bytes, at, flag_bytes(false)));
    if at + 1 <= bytes.len() {
        lemma_numbers(bytes, at + 1, field);
        if let Some(number) = value {
            assert(u32_bytes(number).len() == 4);
            assert(holds(bytes, at + 1, u32_bytes(number)) || !holds(
                bytes,
                at + 1,
                u32_bytes(number),
            ));
        }
    }
}

pub proof fn lemma_optional_u64(bytes: Seq<u8>, at: int, field: &'static str, value: Option<u64>)
    requires
        0 <= at <= bytes.len(),
    ensures
        holds(bytes, at, optional_u64_bytes(value)) <==> get_optional_u64(bytes, at, field) == Ok::<
            (Option<u64>, int),
            PlanPersistenceError,
        >((value, at + optional_u64_bytes(value).len())),
{
    broadcast use lemma_holds_concat;

    lemma_auto_spec_u64_to_from_le_bytes();
    lemma_numbers(bytes, at, field);
    assert(holds(bytes, at, flag_bytes(true)) || !holds(bytes, at, flag_bytes(true)));
    assert(holds(bytes, at, flag_bytes(false)) || !holds(bytes, at, flag_bytes(false)));
    if at + 1 <= bytes.len() {
        lemma_numbers(bytes, at + 1, field);
        if let Some(number) = value {
            assert(u64_bytes(number).len() == 8);
            assert(holds(bytes, at + 1, u64_bytes(number)) || !holds(
                bytes,
                at + 1,
                u64_bytes(number),
            ));
        }
    }
}

/// A string that fits reads back exactly, and nothing else reads as it.
pub proof fn lemma_string(bytes: Seq<u8>, at: int, field: &'static str, value: Seq<char>)
    requires
        0 <= at <= bytes.len(),
    ensures
        string_fits(value) && holds(bytes, at, string_bytes(value)) <==> get_string(
            bytes,
            at,
            field,
        ) == Ok::<(Seq<char>, int), PlanPersistenceError>((value, at + string_bytes(value).len())),
        get_string(bytes, at, field) matches Ok((text, end)) ==> string_fits(text) && end == at
            + string_bytes(text).len(),
{
    broadcast use lemma_holds_concat;

    lemma_auto_spec_u32_to_from_le_bytes();
    lemma_numbers(bytes, at, field);
    let encoded = vstd::utf8::encode_utf8(value);
    vstd::utf8::encode_utf8_valid_utf8(value);
    vstd::utf8::encode_utf8_decode_utf8(value);
    assert(u32_bytes(encoded.len() as u32).len() == 4);
    assert(holds(bytes, at, u32_bytes(encoded.len() as u32)) || !holds(
        bytes,
        at,
        u32_bytes(encoded.len() as u32),
    ));
    if let Ok((text, end)) = get_string(bytes, at, field) {
        let length = get_u32(bytes, at, field)->Ok_0.0;
        let raw = bytes.subrange(at + 4, at + 4 + length);
        vstd::utf8::decode_utf8_encode_utf8(raw);
        assert(u32_bytes(vstd::utf8::encode_utf8(text).len() as u32).len() == 4);
    }
}

pub proof fn lemma_optional_string(
    bytes: Seq<u8>,
    at: int,
    field: &'static str,
    value: Option<Seq<char>>,
)
    requires
        0 <= at <= bytes.len(),
    ensures
        (value is Some ==> string_fits(value->0)) && holds(bytes, at, optional_string_bytes(value))
            <==> get_optional_string(bytes, at, field) == Ok::<
            (Option<Seq<char>>, int),
            PlanPersistenceError,
        >((value, at + optional_string_bytes(value).len())),
        get_optional_string(bytes, at, field) matches Ok((text, end)) ==> (text is Some
            ==> string_fits(text->0)) && end == at + optional_string_bytes(text).len(),
{
    broadcast use lemma_holds_concat;

    lemma_numbers(bytes, at, field);
    assert(holds(bytes, at, flag_bytes(true)) || !holds(bytes, at, flag_bytes(true)));
    assert(holds(bytes, at, flag_bytes(false)) || !holds(bytes, at, flag_bytes(false)));
    if at + 1 <= bytes.len() {
        if let Some(text) = value {
            lemma_string(bytes, at + 1, field, text);
        }
        if let Ok((Some(text), end)) = get_optional_string(bytes, at, field) {
            lemma_string(bytes, at + 1, field, text);
        }
    }
}

pub proof fn lemma_strings(bytes: Seq<u8>, at: int, field: &'static str, values: Seq<Seq<char>>)
    requires
        0 <= at <= bytes.len(),
    ensures
        strings_fit(values) && holds(bytes, at, strings_bytes(values)) <==> get_strings(
            bytes,
            at,
            values.len(),
            field,
        ) == Ok::<(Seq<Seq<char>>, int), PlanPersistenceError>(
            (values, at + strings_bytes(values).len()),
        ),
    decreases values.len(),
{
    broadcast use lemma_holds_concat;

    if values.len() > 0 {
        let earlier = values.drop_last();
        let last = values.last();
        lemma_strings(bytes, at, field, earlier);
        assert(earlier.push(last) =~= values);
        assert(strings_fit(values) == (strings_fit(earlier) && string_fits(last))) by {
            if strings_fit(values) {
                assert forall|i: int| 0 <= i < earlier.len() implies string_fits(
                    #[trigger] earlier[i],
                ) by {
                    assert(earlier[i] == values[i]);
                }
            }
            if strings_fit(earlier) && string_fits(last) {
                assert forall|i: int| 0 <= i < values.len() implies string_fits(
                    #[trigger] values[i],
                ) by {
                    if i < earlier.len() {
                        assert(earlier[i] == values[i]);
                    }
                }
            }
        }
        let next = at + strings_bytes(earlier).len();
        lemma_strings_end(bytes, at, earlier.len(), field);
        if next <= bytes.len() {
            lemma_string(bytes, next, field, last);
        }
        let outcome = get_strings(bytes, at, values.len(), field);
        if outcome == Ok::<(Seq<Seq<char>>, int), PlanPersistenceError>(
            (values, at + strings_bytes(values).len()),
        ) {
            let (list, middle) = get_strings(bytes, at, earlier.len(), field)->Ok_0;
            let (value, end) = get_string(bytes, middle, field)->Ok_0;
            assert(list.push(value).drop_last() =~= list);
            assert(list == earlier);
            assert(value == last);
            lemma_string(bytes, middle, field, last);
        }
    } else {
        assert(values =~= Seq::empty());
        assert(bytes.subrange(at, at) =~= Seq::empty());
    }
}

pub proof fn lemma_strings_length(bytes: Seq<u8>, at: int, count: nat, field: &'static str)
    ensures
        get_strings(bytes, at, count, field) matches Ok((list, _)) ==> list.len() == count,
    decreases count,
{
    if count > 0 {
        lemma_strings_length(bytes, at, (count - 1) as nat, field);
    }
}

pub proof fn lemma_string_list(bytes: Seq<u8>, at: int, field: &'static str, values: Seq<Seq<char>>)
    requires
        0 <= at <= bytes.len(),
    ensures
        values.len() <= MAX_LIST_ITEMS && strings_fit(values) && holds(
            bytes,
            at,
            string_list_bytes(values),
        ) <==> get_string_list(bytes, at, field) == Ok::<
            (Seq<Seq<char>>, int),
            PlanPersistenceError,
        >((values, at + string_list_bytes(values).len())),
{
    broadcast use lemma_holds_concat;

    lemma_auto_spec_u32_to_from_le_bytes();
    lemma_numbers(bytes, at, field);
    let count = values.len() as u32;
    assert(u32_bytes(count).len() == 4);
    assert(holds(bytes, at, u32_bytes(count)) || !holds(bytes, at, u32_bytes(count)));
    if at + 4 <= bytes.len() {
        lemma_strings(bytes, at + 4, field, values);
        if let Ok((stated, next)) = get_count(bytes, at, field) {
            lemma_strings_length(bytes, next, stated, field);
        }
    }
}

/// An error among the first strings decides the outcome of the list.
proof fn lemma_strings_prefix(
    bytes: Seq<u8>,
    at: int,
    upto: nat,
    count: nat,
    field: &'static str,
)
    requires
        upto <= count,
        get_strings(bytes, at, upto, field) is Err,
    ensures
        get_strings(bytes, at, count, field) == get_strings(bytes, at, upto, field),
    decreases count,
{
    if upto < count {
        lemma_strings_prefix(bytes, at, upto, (count - 1) as nat, field);
    }
}

/// Decodes UTF-8. This is `String::from_utf8`, which succeeds exactly on valid
/// UTF-8 and then gives the string with those bytes.
#[verifier::external_body]
fn string_from_utf8(bytes: Vec<u8>) -> (text: Option<String>)
    ensures
        text is Some <==> vstd::utf8::valid_utf8(bytes@),
        text is Some ==> vstd::utf8::encode_utf8(text->0@) == bytes@,
{
    String::from_utf8(bytes).ok()
}

/// A cursor over the bytes of a persisted plan.
pub struct PlanReader<'a> {
    pub bytes: &'a [u8],
    pub position: usize,
}

/// The outcome of a read, with the position it leads to.
pub open spec fn read_as<T, V>(
    result: Result<T, PlanPersistenceError>,
    content: V,
    end: usize,
    expected: Result<(V, int), PlanPersistenceError>,
) -> bool {
    match result {
        Ok(_) => expected == Ok::<(V, int), PlanPersistenceError>((content, end as int)),
        Err(error) => expected == Err::<(V, int), PlanPersistenceError>(error),
    }
}

impl<'a> PlanReader<'a> {
    pub open spec fn wf(&self) -> bool {
        self.position <= self.bytes@.len() <= MAX_PERSISTED_PLAN_BYTES
    }

    pub fn new(bytes: &'a [u8]) -> (reader: Self)
        requires
            bytes@.len() <= MAX_PERSISTED_PLAN_BYTES,
        ensures
            reader.wf(),
            reader.bytes == bytes,
            reader.position == 0,
    {
        PlanReader { bytes, position: 0 }
    }

    pub fn remaining(&self) -> (count: usize)
        requires
            self.wf(),
        ensures
            count == self.bytes@.len() - self.position,
    {
        self.bytes.len() - self.position
    }

    pub fn take(&mut self, length: usize, field: &'static str) -> (result: Result<
        &'a [u8],
        PlanPersistenceError,
    >)
        requires
            old(self).wf(),
        ensures
            final(self).wf(),
            final(self).bytes == old(self).bytes,
            read_as(
                result,
                match result {
                    Ok(raw) => raw@,
                    Err(_) => Seq::empty(),
                },
                final(self).position,
                get_bytes(old(self).bytes@, old(self).position as int, length as int, field),
            ),
    {
        if length > self.bytes.len() - self.position {
            return Err(PlanPersistenceError::Truncated { field });
        }
        let end: usize = self.position + length;
        let value = slice_subrange(self.bytes, self.position, end);
        self.position = end;
        Ok(value)
    }

    pub fn u8(&mut self, field: &'static str) -> (result: Result<u8, PlanPersistenceError>)
        requires
            old(self).wf(),
        ensures
            final(self).wf(),
            final(self).bytes == old(self).bytes,
            read_as(
                result,
                result->Ok_0,
                final(self).position,
                get_u8(old(self).bytes@, old(self).position as int, field),
            ),
    {
        match self.take(1, field) {
            Ok(raw) => Ok(raw[0]),
            Err(error) => Err(error),
        }
    }

    pub fn u32(&mut self, field: &'static str) -> (result: Result<u32, PlanPersistenceError>)
        requires
            old(self).wf(),
        ensures
            final(self).wf(),
            final(self).bytes == old(self).bytes,
            read_as(
                result,
                result->Ok_0,
                final(self).position,
                get_u32(old(self).bytes@, old(self).position as int, field),
            ),
    {
        match self.take(4, field) {
            Ok(raw) => Ok(u32_from_le_bytes(raw)),
            Err(error) => Err(error),
        }
    }

    pub fn u64(&mut self, field: &'static str) -> (result: Result<u64, PlanPersistenceError>)
        requires
            old(self).wf(),
        ensures
            final(self).wf(),
            final(self).bytes == old(self).bytes,
            read_as(
                result,
                result->Ok_0,
                final(self).position,
                get_u64(old(self).bytes@, old(self).position as int, field),
            ),
    {
        match self.take(8, field) {
            Ok(raw) => Ok(u64_from_le_bytes(raw)),
            Err(error) => Err(error),
        }
    }

    pub fn boolean(&mut self, field: &'static str) -> (result: Result<bool, PlanPersistenceError>)
        requires
            old(self).wf(),
        ensures
            final(self).wf(),
            final(self).bytes == old(self).bytes,
            read_as(
                result,
                result->Ok_0,
                final(self).position,
                get_flag(old(self).bytes@, old(self).position as int, field),
            ),
    {
        let value: u8 = self.u8(field)?;
        match value {
            0 => Ok(false),
            1 => Ok(true),
            _ => Err(PlanPersistenceError::InvalidBoolean { field, value }),
        }
    }

    pub fn optional_u32(&mut self, field: &'static str) -> (result: Result<
        Option<u32>,
        PlanPersistenceError,
    >)
        requires
            old(self).wf(),
        ensures
            final(self).wf(),
            final(self).bytes == old(self).bytes,
            read_as(
                result,
                result->Ok_0,
                final(self).position,
                get_optional_u32(old(self).bytes@, old(self).position as int, field),
            ),
    {
        if self.boolean(field)? {
            let value: u32 = self.u32(field)?;
            Ok(Some(value))
        } else {
            Ok(None)
        }
    }

    pub fn optional_u64(&mut self, field: &'static str) -> (result: Result<
        Option<u64>,
        PlanPersistenceError,
    >)
        requires
            old(self).wf(),
        ensures
            final(self).wf(),
            final(self).bytes == old(self).bytes,
            read_as(
                result,
                result->Ok_0,
                final(self).position,
                get_optional_u64(old(self).bytes@, old(self).position as int, field),
            ),
    {
        if self.boolean(field)? {
            let value: u64 = self.u64(field)?;
            Ok(Some(value))
        } else {
            Ok(None)
        }
    }

    pub fn string(&mut self, field: &'static str) -> (result: Result<String, PlanPersistenceError>)
        requires
            old(self).wf(),
        ensures
            final(self).wf(),
            final(self).bytes == old(self).bytes,
            read_as(
                result,
                result->Ok_0@,
                final(self).position,
                get_string(old(self).bytes@, old(self).position as int, field),
            ),
    {
        let length: usize = self.u32(field)? as usize;
        if length > MAX_STRING_BYTES {
            return Err(
                PlanPersistenceError::LimitExceeded {
                    field,
                    value: length,
                    maximum: MAX_STRING_BYTES,
                },
            );
        }
        let raw = self.take(length, field)?;
        match string_from_utf8(slice_to_vec(raw)) {
            Some(text) => {
                proof {
                    vstd::utf8::encode_utf8_decode_utf8(text@);
                }
                Ok(text)
            },
            None => Err(PlanPersistenceError::InvalidUtf8 { field }),
        }
    }

    pub fn optional_string(&mut self, field: &'static str) -> (result: Result<
        Option<String>,
        PlanPersistenceError,
    >)
        requires
            old(self).wf(),
        ensures
            final(self).wf(),
            final(self).bytes == old(self).bytes,
            read_as(
                result,
                text::text_option(result->Ok_0),
                final(self).position,
                get_optional_string(old(self).bytes@, old(self).position as int, field),
            ),
    {
        if self.boolean(field)? {
            let value = self.string(field)?;
            Ok(Some(value))
        } else {
            Ok(None)
        }
    }

    pub fn list_count(&mut self, field: &'static str) -> (result: Result<
        usize,
        PlanPersistenceError,
    >)
        requires
            old(self).wf(),
        ensures
            final(self).wf(),
            final(self).bytes == old(self).bytes,
            read_as(
                result,
                result->Ok_0 as nat,
                final(self).position,
                get_count(old(self).bytes@, old(self).position as int, field),
            ),
            result is Ok ==> result->Ok_0 <= MAX_LIST_ITEMS,
    {
        let count: usize = self.u32(field)? as usize;
        if count > MAX_LIST_ITEMS {
            return Err(
                PlanPersistenceError::LimitExceeded {
                    field,
                    value: count,
                    maximum: MAX_LIST_ITEMS,
                },
            );
        }
        Ok(count)
    }

    pub fn string_list(&mut self, field: &'static str) -> (result: Result<
        Vec<String>,
        PlanPersistenceError,
    >)
        requires
            old(self).wf(),
        ensures
            final(self).wf(),
            final(self).bytes == old(self).bytes,
            read_as(
                result,
                text::texts(result->Ok_0@),
                final(self).position,
                get_string_list(old(self).bytes@, old(self).position as int, field),
            ),
    {
        let ghost bytes = self.bytes@;
        let count: usize = self.list_count(field)?;
        let ghost start = self.position as int;
        let mut values: Vec<String> = Vec::new();
        assert(text::texts(values@) =~= Seq::empty());
        for i in 0..count
            invariant
                self.wf(),
                self.bytes@ == bytes,
                self.bytes == old(self).bytes,
                bytes == old(self).bytes@,
                get_count(bytes, old(self).position as int, field) == Ok::<
                    (nat, int),
                    PlanPersistenceError,
                >((count as nat, start)),
                get_strings(bytes, start, i as nat, field) == Ok::<
                    (Seq<Seq<char>>, int),
                    PlanPersistenceError,
                >((text::texts(values@), self.position as int)),
        {
            let ghost before = values@;
            match self.string(field) {
                Ok(value) => {
                    let ghost content = value@;
                    values.push(value);
                    assert(text::texts(values@) =~= text::texts(before).push(content));
                },
                Err(error) => {
                    proof {
                        assert(get_strings(bytes, start, (i + 1) as nat, field) is Err);
                        lemma_strings_prefix(bytes, start, (i + 1) as nat, count as nat, field);
                    }
                    return Err(error);
                },
            }
        }
        Ok(values)
    }
}

/// Numbers take as many bytes as their width, whatever their value.
pub proof fn lemma_number_lengths()
    ensures
        forall|value: u32| (#[trigger] u32_bytes(value)).len() == 4,
        forall|value: u64| (#[trigger] u64_bytes(value)).len() == 8,
{
    lemma_auto_spec_u32_to_from_le_bytes();
    lemma_auto_spec_u64_to_from_le_bytes();
}

/// How single values are written: a flag as one or zero; what may be absent behind
/// such a flag; a string behind the number of its bytes.
pub proof fn lemma_value_layout(number: u32, large: u64, text: Seq<char>)
    ensures
        flag_bytes(true) == seq![1u8],
        flag_bytes(false) == seq![0u8],
        optional_u32_bytes(None) == seq![0u8],
        optional_u64_bytes(None) == seq![0u8],
        optional_string_bytes(None) == seq![0u8],
        optional_u32_bytes(Some(number)) == seq![1u8] + u32_bytes(number),
        optional_u64_bytes(Some(large)) == seq![1u8] + u64_bytes(large),
        optional_string_bytes(Some(text)) == seq![1u8] + string_bytes(text),
        string_bytes(text) == u32_bytes(vstd::utf8::encode_utf8(text).len() as u32)
            + vstd::utf8::encode_utf8(text),
        string_fits(text) <==> vstd::utf8::encode_utf8(text).len() <= 65536,
{
}

/// A list may have up to a thousand and twenty-four items and a text up to sixty-four
/// kibibytes, and no more.
pub proof fn lemma_codec_limits(field: &'static str, count: nat, value: Seq<char>)
    ensures
        count_check(field, count) is Ok <==> count < 1025,
        string_fits(value) <==> vstd::utf8::encode_utf8(value).len() < 65537,
        count_check(field, count) is Err && count <= usize::MAX ==> count_check(field, count)
            == Err::<(), PlanPersistenceError>(
            PlanPersistenceError::LimitExceeded { field, value: count as usize, maximum: 1024 },
        ),
{
}

} // verus!
