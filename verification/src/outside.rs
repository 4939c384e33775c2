//! What the library takes on trust from the crates it calls: the JSON
//! values of `json`, and the generators of `rand`, `rand_seeder` and
//! `rand_xoshiro`.

use rand::Rng;
use vstd::prelude::*;

verus! {

/// `json::JsonValue`, a parsed JSON value. Its contents are not visible to
/// the verifier.
#[verifier::external_type_specification]
#[verifier::external_body]
pub struct ExJsonValue(json::JsonValue);

/// `rand_xoshiro::Xoshiro256PlusPlus`, a seeded generator. Its state is not
/// visible to the verifier.
#[verifier::external_type_specification]
#[verifier::external_body]
pub struct ExXoshiro256PlusPlus(rand_xoshiro::Xoshiro256PlusPlus);

/// `rand_seeder::Seeder`, which derives the states of generators from a
/// seed. Its state is not visible to the verifier.
#[verifier::external_type_specification]
#[verifier::external_body]
pub struct ExSeeder(rand_seeder::Seeder);

/// `json::number::Number`, the number that a JSON value holds. Its fields
/// are not visible to the verifier.
#[verifier::external_type_specification]
#[verifier::external_body]
pub struct ExNumber(json::number::Number);

/// What indexing `value` with `key` gives.
pub uninterp spec fn member_of(value: json::JsonValue, key: Seq<char>) -> json::JsonValue;

/// What `as_number` gives for `value`.
pub uninterp spec fn as_number_of(value: json::JsonValue) -> Option<json::number::Number>;

/// What `as_parts` gives for `number`: whether the sign is positive, the
/// mantissa, and the decimal exponent.
pub uninterp spec fn parts_of(number: json::number::Number) -> (bool, u64, i16);

/// The seeder that `Seeder::from` makes of the text `seed`.
pub uninterp spec fn seeder_of(seed: Seq<char>) -> rand_seeder::Seeder;

/// The generator that `make_rng` makes from `seeder`.
pub uninterp spec fn generator_of(seeder: rand_seeder::Seeder) -> rand_xoshiro::Xoshiro256PlusPlus;

/// What `gen_range(low..high)` gives on `generator`: the number that is
/// drawn, and the generator as it is afterwards.
pub uninterp spec fn draw_of(generator: rand_xoshiro::Xoshiro256PlusPlus, low: i32, high: i32) -> (
    i32,
    rand_xoshiro::Xoshiro256PlusPlus,
);

/// What `as_bool` gives for `value`.
pub uninterp spec fn as_bool_of(value: json::JsonValue) -> Option<bool>;

/// The members of `value` where it is an array.
pub uninterp spec fn items_of(value: json::JsonValue) -> Option<Seq<json::JsonValue>>;

/// Indexing a `json::JsonValue` with a string: the member under that key of
/// an object, and the null value where there is none or the value is no
/// object. The contract only names the result.
#[verifier::external_body]
pub(crate) fn json_member<'a>(value: &'a json::JsonValue, key: &str) -> (member: &'a json::JsonValue)
    ensures
        *member == member_of(*value, key@),
{
    &value[key]
}

/// `JsonValue::as_number`: the number that the value holds, where it is
/// one. It copies a field. The contract only names the result.
#[verifier::external_body]
pub(crate) fn json_as_number(value: &json::JsonValue) -> (number: Option<json::number::Number>)
    ensures
        number == as_number_of(*value),
{
    value.as_number()
}

/// `Number::as_parts`: the sign, the mantissa and the decimal exponent of
/// the number. It copies fields. The contract only names the result.
#[verifier::external_body]
pub(crate) fn number_parts(number: &json::number::Number) -> (parts: (bool, u64, i16))
    ensures
        parts == parts_of(*number),
{
    number.as_parts()
}

/// `JsonValue::as_bool`: the truth value that the value holds, where it is
/// one. The contract only names the result.
#[verifier::external_body]
pub(crate) fn json_as_bool(value: &json::JsonValue) -> (flag: Option<bool>)
    ensures
        flag == as_bool_of(*value),
{
    value.as_bool()
}

/// Tells the variant `JsonValue::Array` from the others, and hands out its
/// members. The contract only names the result.
#[verifier::external_body]
pub(crate) fn json_items(value: json::JsonValue) -> (items: Option<Vec<json::JsonValue>>)
    ensures
        match items {
            Some(v) => items_of(value) == Some(v@),
            None => items_of(value) is None,
        },
{
    match value {
        json::JsonValue::Array(items) => Some(items),
        _ => None,
    }
}

/// `Seeder::from` on a text: a seeder whose state is derived from the text
/// by a hash with fixed keys, so that the same text gives the same seeder.
/// The contract only names the result.
#[verifier::external_body]
pub(crate) fn seeder_from(seed: &str) -> (seeder: rand_seeder::Seeder)
    ensures
        seeder == seeder_of(seed@),
{
    rand_seeder::Seeder::from(seed)
}

/// `Seeder::make_rng`: a generator whose state is drawn from the seeder,
/// and from nothing else. The contract only names the result; of the seeder
/// afterwards it claims nothing.
#[verifier::external_body]
pub(crate) fn make_generator(seeder: &mut rand_seeder::Seeder) -> (generator:
    rand_xoshiro::Xoshiro256PlusPlus)
    ensures
        generator == generator_of(*old(seeder)),
{
    seeder.make_rng()
}

/// `Rng::gen_range(low..high)` on a seeded generator: a number from `low`
/// on and below `high`. The number and the generator afterwards depend on
/// the generator and the two ends alone; the contract names them. An empty
/// range, on which the call panics, is left out.
#[verifier::external_body]
pub(crate) fn draw_seeded_offset(
    generator: &mut rand_xoshiro::Xoshiro256PlusPlus,
    low: i32,
    high: i32,
) -> (offset: i32)
    requires
        low < high,
    ensures
        low <= offset < high,
        (offset, *final(generator)) == draw_of(*old(generator), low, high),
{
    generator.gen_range(low..high)
}

/// `rand::random::<i32>()`: some `i32` value. Nothing is claimed of it.
#[verifier::external_body]
pub(crate) fn draw_unseeded() -> i32 {
    rand::random::<i32>()
}

} // verus!
