//! Drawing the values random markers stand for.

use vstd::prelude::*;

use crate::key::dec_digits;
use crate::value::{int_chars, render_i128, render_i64, render_u128, ConfigValue, RandValue, Val};

verus! {

/// Relies on `rand::random`: a freshly drawn value of the requested type.
/// Nothing is promised of the value.
pub assume_specification<T>[ rand::random::<T> ]() -> (r: T)
    where
        rand::distributions::Standard: rand::distributions::Distribution<T>,
;

fn value_of_u128(v: u128) -> (r: ConfigValue)
    ensures
        v <= i64::MAX as u128 ==> r@ == Val::Int(v as i64),
        v > i64::MAX as u128 ==> r@ == Val::Str(dec_digits(v as nat)),
{
    if v <= i64::MAX as u128 {
        ConfigValue::Int(v as i64)
    } else {
        ConfigValue::Str(render_u128(v))
    }
}

fn value_of_i128(v: i128) -> (r: ConfigValue)
    ensures
        i64::MIN as i128 <= v <= i64::MAX as i128 ==> r@ == Val::Int(v as i64),
        !(i64::MIN as i128 <= v <= i64::MAX as i128) ==> r@ == Val::Str(int_chars(v as int)),
{
    if v <= i64::MAX as i128 && v >= i64::MIN as i128 {
        ConfigValue::Int(v as i64)
    } else {
        ConfigValue::Str(render_i128(v))
    }
}

/// Replace a random marker by a freshly drawn scalar of the marker's type:
/// a value that fits the store's integer is stored as such, in the drawn
/// type's range; a wider one is stored as its decimal text.
pub fn normalize_rand(rv: RandValue) -> (r: ConfigValue)
    ensures
        r@ is Int || r@ is Str,
        rv == RandValue::U8 ==> (r@ matches Val::Int(v) && 0 <= v <= u8::MAX),
        rv == RandValue::U16 ==> (r@ matches Val::Int(v) && 0 <= v <= u16::MAX),
        rv == RandValue::U32 ==> (r@ matches Val::Int(v) && 0 <= v <= u32::MAX),
        rv == RandValue::U64 || rv == RandValue::U128 || rv == RandValue::Usize ==> ((r@
            matches Val::Int(v) && 0 <= v) || (r@ matches Val::Str(s) && exists|x: u128|
            x > i64::MAX as u128 && s == dec_digits(x as nat))),
        rv == RandValue::I8 ==> (r@ matches Val::Int(v) && i8::MIN <= v <= i8::MAX),
        rv == RandValue::I16 ==> (r@ matches Val::Int(v) && i16::MIN <= v <= i16::MAX),
        rv == RandValue::I32 ==> (r@ matches Val::Int(v) && i32::MIN <= v <= i32::MAX),
        rv == RandValue::I64 ==> r@ is Int,
        rv == RandValue::I128 || rv == RandValue::Isize ==> (r@ is Int || (r@ matches Val::Str(s)
            && exists|x: i128| !(i64::MIN as i128 <= x <= i64::MAX as i128) && s == int_chars(
            x as int,
        ))),
{
    match rv {
        RandValue::U8 => ConfigValue::Int(rand::random::<u8>() as i64),
        RandValue::U16 => ConfigValue::Int(rand::random::<u16>() as i64),
        RandValue::U32 => ConfigValue::Int(rand::random::<u32>() as i64),
        RandValue::U64 => {
            let x = rand::random::<u64>();
            let r = value_of_u128(x as u128);
            proof {
                if x as u128 > i64::MAX as u128 {
                    assert(exists|w: u128|
                        w > i64::MAX as u128 && r@->Str_0 == dec_digits(w as nat)) by {
                        assert(x as u128 > i64::MAX as u128 && r@->Str_0 == dec_digits(
                            (x as u128) as nat,
                        ));
                    }
                }
            }
            r
        },
        RandValue::U128 => {
            let x = rand::random::<u128>();
            let r = value_of_u128(x);
            proof {
                if x > i64::MAX as u128 {
                    assert(exists|w: u128|
                        w > i64::MAX as u128 && r@->Str_0 == dec_digits(w as nat)) by {
                        assert(x > i64::MAX as u128 && r@->Str_0 == dec_digits(x as nat));
                    }
                }
            }
            r
        },
        RandValue::Usize => {
            let x = rand::random::<usize>();
            let r = value_of_u128(x as u128);
            proof {
                if x as u128 > i64::MAX as u128 {
                    assert(exists|w: u128|
                        w > i64::MAX as u128 && r@->Str_0 == dec_digits(w as nat)) by {
                        assert(x as u128 > i64::MAX as u128 && r@->Str_0 == dec_digits(
                            (x as u128) as nat,
                        ));
                    }
                }
            }
            r
        },
        RandValue::I8 => ConfigValue::Int(rand::random::<i8>() as i64),
        RandValue::I16 => ConfigValue::Int(rand::random::<i16>() as i64),
        RandValue::I32 => ConfigValue::Int(rand::random::<i32>() as i64),
        RandValue::I64 => ConfigValue::Int(rand::random::<i64>()),
        RandValue::I128 => {
            let x = rand::random::<i128>();
            let r = value_of_i128(x);
            proof {
                if !(i64::MIN as i128 <= x <= i64::MAX as i128) {
                    assert(exists|w: i128|
                        !(i64::MIN as i128 <= w <= i64::MAX as i128) && r@->Str_0 == int_chars(
                            w as int,
                        )) by {
                        assert(!(i64::MIN as i128 <= x <= i64::MAX as i128) && r@->Str_0
                            == int_chars(x as int));
                    }
                }
            }
            r
        },
        RandValue::Isize => {
            let x = rand::random::<isize>();
            let r = value_of_i128(x as i128);
            proof {
                if !(i64::MIN as i128 <= x as i128 <= i64::MAX as i128) {
                    assert(exists|w: i128|
                        !(i64::MIN as i128 <= w <= i64::MAX as i128) && r@->Str_0 == int_chars(
                            w as int,
                        )) by {
                        assert(!(i64::MIN as i128 <= x as i128 <= i64::MAX as i128) && r@->Str_0
                            == int_chars((x as i128) as int));
                    }
                }
            }
            r
        },
    }
}

/// The drawn value as text, as a placeholder expression consumes it.
pub fn rand_scalar_string(rv: RandValue) -> (r: String) {
    match normalize_rand(rv) {
        ConfigValue::Str(s) => s,
        ConfigValue::Int(x) => render_i64(x),
        _ => {
            proof {
                assert(false);
            }
            String::new()
        },
    }
}

} // verus!
