//! Whole numbers as parts of a route: read from and written as decimal
//! texts.

use vstd::prelude::*;
use crate::decimal::{integer_text, integer_within, read_integer, write_integer};
use crate::route::Route;
use crate::switch::{Reading, Switch};
use crate::text::chars_of;

verus! {

impl Switch for isize {
    open spec fn reading(route: Seq<char>) -> Reading {
        Reading {
            accepted: integer_within(route, true, isize::MIN as int, isize::MAX as int) is Some,
            keeps_state: true,
        }
    }

    open spec fn reads_as(route: Seq<char>, value: Self) -> bool {
        integer_within(route, true, isize::MIN as int, isize::MAX as int) == Some(value as int)
    }

    open spec fn written(&self) -> Seq<char> {
        integer_text(*self as int)
    }

    /// Reads a decimal text, with or without a sign, as a number of this type.
    fn from_route_part<T>(part: Route<T>) -> (r: (Option<Self>, Option<T>)) {
        let text = chars_of(part.route.as_str());
        let value = match read_integer(&text, true, isize::MIN as i128, isize::MAX as i128) {
            Some(v) => Some(v as isize),
            None => None,
        };
        (value, part.state)
    }

    /// Writes the number in decimal digits, behind a `-` where it is negative.
    fn build_route_section<T>(self, route: &mut String) -> (r: Option<T>) {
        write_integer(route, self as i128);
        None
    }
}

impl Switch for i64 {
    open spec fn reading(route: Seq<char>) -> Reading {
        Reading {
            accepted: integer_within(route, true, i64::MIN as int, i64::MAX as int) is Some,
            keeps_state: true,
        }
    }

    open spec fn reads_as(route: Seq<char>, value: Self) -> bool {
        integer_within(route, true, i64::MIN as int, i64::MAX as int) == Some(value as int)
    }

    open spec fn written(&self) -> Seq<char> {
        integer_text(*self as int)
    }

    /// Reads a decimal text, with or without a sign, as a number of this type.
    fn from_route_part<T>(part: Route<T>) -> (r: (Option<Self>, Option<T>)) {
        let text = chars_of(part.route.as_str());
        let value = match read_integer(&text, true, i64::MIN as i128, i64::MAX as i128) {
            Some(v) => Some(v as i64),
            None => None,
        };
        (value, part.state)
    }

    /// Writes the number in decimal digits, behind a `-` where it is negative.
    fn build_route_section<T>(self, route: &mut String) -> (r: Option<T>) {
        write_integer(route, self as i128);
        None
    }
}

impl Switch for i32 {
    open spec fn reading(route: Seq<char>) -> Reading {
        Reading {
            accepted: integer_within(route, true, i32::MIN as int, i32::MAX as int) is Some,
            keeps_state: true,
        }
    }

    open spec fn reads_as(route: Seq<char>, value: Self) -> bool {
        integer_within(route, true, i32::MIN as int, i32::MAX as int) == Some(value as int)
    }

    open spec fn written(&self) -> Seq<char> {
        integer_text(*self as int)
    }

    /// Reads a decimal text, with or without a sign, as a number of this type.
    fn from_route_part<T>(part: Route<T>) -> (r: (Option<Self>, Option<T>)) {
        let text = chars_of(part.route.as_str());
        let value = match read_integer(&text, true, i32::MIN as i128, i32::MAX as i128) {
            Some(v) => Some(v as i32),
            None => None,
        };
        (value, part.state)
    }

    /// Writes the number in decimal digits, behind a `-` where it is negative.
    fn build_route_section<T>(self, route: &mut String) -> (r: Option<T>) {
        write_integer(route, self as i128);
        None
    }
}

impl Switch for i16 {
    open spec fn reading(route: Seq<char>) -> Reading {
        Reading {
            accepted: integer_within(route, true, i16::MIN as int, i16::MAX as int) is Some,
            keeps_state: true,
        }
    }

    open spec fn reads_as(route: Seq<char>, value: Self) -> bool {
        integer_within(route, true, i16::MIN as int, i16::MAX as int) == Some(value as int)
    }

    open spec fn written(&self) -> Seq<char> {
        integer_text(*self as int)
    }

    /// Reads a decimal text, with or without a sign, as a number of this type.
    fn from_route_part<T>(part: Route<T>) -> (r: (Option<Self>, Option<T>)) {
        let text = chars_of(part.route.as_str());
        let value = match read_integer(&text, true, i16::MIN as i128, i16::MAX as i128) {
            Some(v) => Some(v as i16),
            None => None,
        };
        (value, part.state)
    }

    /// Writes the number in decimal digits, behind a `-` where it is negative.
    fn build_route_section<T>(self, route: &mut String) -> (r: Option<T>) {
        write_integer(route, self as i128);
        None
    }
}

impl Switch for i8 {
    open spec fn reading(route: Seq<char>) -> Reading {
        Reading {
            accepted: integer_within(route, true, i8::MIN as int, i8::MAX as int) is Some,
            keeps_state: true,
        }
    }

    open spec fn reads_as(route: Seq<char>, value: Self) -> bool {
        integer_within(route, true, i8::MIN as int, i8::MAX as int) == Some(value as int)
    }

    open spec fn written(&self) -> Seq<char> {
        integer_text(*self as int)
    }

    /// Reads a decimal text, with or without a sign, as a number of this type.
    fn from_route_part<T>(part: Route<T>) -> (r: (Option<Self>, Option<T>)) {
        let text = chars_of(part.route.as_str());
        let value = match read_integer(&text, true, i8::MIN as i128, i8::MAX as i128) {
            Some(v) => Some(v as i8),
            None => None,
        };
        (value, part.state)
    }

    /// Writes the number in decimal digits, behind a `-` where it is negative.
    fn build_route_section<T>(self, route: &mut String) -> (r: Option<T>) {
        write_integer(route, self as i128);
        None
    }
}

impl Switch for usize {
    open spec fn reading(route: Seq<char>) -> Reading {
        Reading {
            accepted: integer_within(route, false, usize::MIN as int, usize::MAX as int) is Some,
            keeps_state: true,
        }
    }

    open spec fn reads_as(route: Seq<char>, value: Self) -> bool {
        integer_within(route, false, usize::MIN as int, usize::MAX as int) == Some(value as int)
    }

    open spec fn written(&self) -> Seq<char> {
        integer_text(*self as int)
    }

    /// Reads a decimal text, with or without a `+`, as a number of this type.
    fn from_route_part<T>(part: Route<T>) -> (r: (Option<Self>, Option<T>)) {
        let text = chars_of(part.route.as_str());
        let value = match read_integer(&text, false, usize::MIN as i128, usize::MAX as i128) {
            Some(v) => Some(v as usize),
            None => None,
        };
        (value, part.state)
    }

    /// Writes the number in decimal digits.
    fn build_route_section<T>(self, route: &mut String) -> (r: Option<T>) {
        write_integer(route, self as i128);
        None
    }
}

impl Switch for u64 {
    open spec fn reading(route: Seq<char>) -> Reading {
        Reading {
            accepted: integer_within(route, false, u64::MIN as int, u64::MAX as int) is Some,
            keeps_state: true,
        }
    }

    open spec fn reads_as(route: Seq<char>, value: Self) -> bool {
        integer_within(route, false, u64::MIN as int, u64::MAX as int) == Some(value as int)
    }

    open spec fn written(&self) -> Seq<char> {
        integer_text(*self as int)
    }

    /// Reads a decimal text, with or without a `+`, as a number of this type.
    fn from_route_part<T>(part: Route<T>) -> (r: (Option<Self>, Option<T>)) {
        let text = chars_of(part.route.as_str());
        let value = match read_integer(&text, false, u64::MIN as i128, u64::MAX as i128) {
            Some(v) => Some(v as u64),
            None => None,
        };
        (value, part.state)
    }

    /// Writes the number in decimal digits.
    fn build_route_section<T>(self, route: &mut String) -> (r: Option<T>) {
        write_integer(route, self as i128);
        None
    }
}

impl Switch for u32 {
    open spec fn reading(route: Seq<char>) -> Reading {
        Reading {
            accepted: integer_within(route, false, u32::MIN as int, u32::MAX as int) is Some,
            keeps_state: true,
        }
    }

    open spec fn reads_as(route: Seq<char>, value: Self) -> bool {
        integer_within(route, false, u32::MIN as int, u32::MAX as int) == Some(value as int)
    }

    open spec fn written(&self) -> Seq<char> {
        integer_text(*self as int)
    }

    /// Reads a decimal text, with or without a `+`, as a number of this type.
    fn from_route_part<T>(part: Route<T>) -> (r: (Option<Self>, Option<T>)) {
        let text = chars_of(part.route.as_str());
        let value = match read_integer(&text, false, u32::MIN as i128, u32::MAX as i128) {
            Some(v) => Some(v as u32),
            None => None,
        };
        (value, part.state)
    }

    /// Writes the number in decimal digits.
    fn build_route_section<T>(self, route: &mut String) -> (r: Option<T>) {
        write_integer(route, self as i128);
        None
    }
}

impl Switch for u16 {
    open spec fn reading(route: Seq<char>) -> Reading {
        Reading {
            accepted: integer_within(route, false, u16::MIN as int, u16::MAX as int) is Some,
            keeps_state: true,
        }
    }

    open spec fn reads_as(route: Seq<char>, value: Self) -> bool {
        integer_within(route, false, u16::MIN as int, u16::MAX as int) == Some(value as int)
    }

    open spec fn written(&self) -> Seq<char> {
        integer_text(*self as int)
    }

    /// Reads a decimal text, with or without a `+`, as a number of this type.
    fn from_route_part<T>(part: Route<T>) -> (r: (Option<Self>, Option<T>)) {
        let text = chars_of(part.route.as_str());
        let value = match read_integer(&text, false, u16::MIN as i128, u16::MAX as i128) {
            Some(v) => Some(v as u16),
            None => None,
        };
        (value, part.state)
    }

    /// Writes the number in decimal digits.
    fn build_route_section<T>(self, route: &mut String) -> (r: Option<T>) {
        write_integer(route, self as i128);
        None
    }
}

impl Switch for u8 {
    open spec fn reading(route: Seq<char>) -> Reading {
        Reading {
            accepted: integer_within(route, false, u8::MIN as int, u8::MAX as int) is Some,
            keeps_state: true,
        }
    }

    open spec fn reads_as(route: Seq<char>, value: Self) -> bool {
        integer_within(route, false, u8::MIN as int, u8::MAX as int) == Some(value as int)
    }

    open spec fn written(&self) -> Seq<char> {
        integer_text(*self as int)
    }

    /// Reads a decimal text, with or without a `+`, as a number of this type.
    fn from_route_part<T>(part: Route<T>) -> (r: (Option<Self>, Option<T>)) {
        let text = chars_of(part.route.as_str());
        let value = match read_integer(&text, false, u8::MIN as i128, u8::MAX as i128) {
            Some(v) => Some(v as u8),
            None => None,
        };
        (value, part.state)
    }

    /// Writes the number in decimal digits.
    fn build_route_section<T>(self, route: &mut String) -> (r: Option<T>) {
        write_integer(route, self as i128);
        None
    }
}

} // verus!
