//! Numbers that JavaScript can hold stay as they are.
use crate::float_arithmetic::nearest_bits;
use crate::float_order::lemma_exact;
use crate::json::{js_model, js_number, needs_float, JsonModel, JsonNumber};
use vstd::arithmetic::power2::pow2;
use vstd::prelude::*;

verus! {

/// A value whose numbers were made ready for JavaScript once needs no more.
pub proof fn law_javascript_values_are_fixed(value: JsonModel)
    ensures
        js_model(js_model(value)) == js_model(value),
    decreases value,
{
    match value {
        JsonModel::Array(items) => {
            let once = js_model(value)->Array_0;
            let twice = js_model(js_model(value))->Array_0;
            assert forall|i: int| 0 <= i < items.len() implies twice[i] == once[i] by {
                assert(decreases_to!(value => items[i]));
                law_javascript_values_are_fixed(items[i]);
            }
            assert(twice =~= once);
        },
        JsonModel::Object(fields) => {
            let once = js_model(value)->Object_0;
            let twice = js_model(js_model(value))->Object_0;
            assert forall|i: int| 0 <= i < fields.len() implies twice[i] == once[i] by {
                assert(decreases_to!(value => fields[i].1));
                law_javascript_values_are_fixed(fields[i].1);
            }
            assert(twice =~= once);
        },
        _ => {},
    }
}

/// An integer that becomes a double for JavaScript keeps its value: the double, a significand
/// times a power of two of the smallest value, is that integer.
pub proof fn law_converted_integers_are_exact(n: u64)
    requires
        needs_float(n as int),
    ensures
        js_number(JsonNumber::Unsigned(n)) matches JsonNumber::Float(value) && value.significand()
            * pow2(value.exponent() as nat) == n * pow2(1074),
{
    lemma_exact(n as nat, 1074);
}

/// Integers of 32 bits, and those that a double cannot hold, stay integers; between them they
/// become doubles.
pub proof fn law_only_wide_exact_integers_are_converted(n: u64)
    ensures
        js_number(JsonNumber::Unsigned(n)) is Float <==> 0xffff_ffff < n && n
            < 0x20_0000_0000_0000,
        !(js_number(JsonNumber::Unsigned(n)) is Float) ==> js_number(JsonNumber::Unsigned(n))
            == JsonNumber::Unsigned(n),
{
}

/// A negative integer is converted as its magnitude is, with its sign.
pub proof fn law_negative_integers_are_converted_alike(n: i64)
    requires
        n < 0,
    ensures
        js_number(JsonNumber::Negative(n)) is Float <==> 0xffff_ffff < -n && -n
            < 0x20_0000_0000_0000,
        js_number(JsonNumber::Negative(n)) is Float ==> js_number(
            JsonNumber::Negative(n),
        )->Float_0.bits == (0x8000_0000_0000_0000 + nearest_bits((-n) as nat)) as u64,
{
}

} // verus!
