//! Floating-point numbers, as far as the rules read them: by the plain values
//! that the machine's reading of a text comes to.

use vstd::hash_map::StringHashMap;
use vstd::prelude::*;

verus! {

/// A double-precision number, by its IEEE 754 bits.
#[derive(Debug, Clone, Copy, PartialEq, Eq, Structural)]
pub struct Float {
    pub bits: u64,
}

/// Whether the number is neither infinite nor no number: its exponent is not all
/// ones.
pub open spec fn finite(number: Float) -> bool {
    magnitude(number) < 0x7ff0_0000_0000_0000
}

/// The bits without the sign.
pub open spec fn magnitude(number: Float) -> int {
    if number.bits < 0x8000_0000_0000_0000 {
        number.bits as int
    } else {
        number.bits - 0x8000_0000_0000_0000
    }
}

/// An integer that stands to those of other numbers as the number does in the
/// total order of IEEE 754: by sign and magnitude, with the negative zero before
/// the positive one.
pub open spec fn total_rank(number: Float) -> int {
    if number.bits < 0x8000_0000_0000_0000 {
        magnitude(number)
    } else {
        -magnitude(number) - 1
    }
}

/// An integer that stands to those of other finite numbers as their values do.
pub open spec fn value_rank(number: Float) -> int {
    if number.bits < 0x8000_0000_0000_0000 {
        magnitude(number)
    } else {
        -magnitude(number)
    }
}

/// The total order of IEEE 754.
pub open spec fn float_order() -> spec_fn(Float, Float) -> bool {
    |a: Float, b: Float| total_rank(a) < total_rank(b)
}

impl Float {
    /// Whether the number is neither infinite nor no number.
    pub fn is_finite(&self) -> (r: bool)
        ensures
            r == finite(*self),
    {
        let size: u64 = if self.bits < 0x8000_0000_0000_0000 {
            self.bits
        } else {
            self.bits - 0x8000_0000_0000_0000
        };
        size < 0x7ff0_0000_0000_0000
    }

    /// The place of the number in the total order of IEEE 754.
    pub fn rank(&self) -> (r: i128)
        ensures
            r == total_rank(*self),
    {
        if self.bits < 0x8000_0000_0000_0000 {
            self.bits as i128
        } else {
            -((self.bits - 0x8000_0000_0000_0000) as i128) - 1
        }
    }

    /// The place of a finite number by its value.
    pub fn size_rank(&self) -> (r: i128)
        ensures
            r == value_rank(*self),
    {
        if self.bits < 0x8000_0000_0000_0000 {
            self.bits as i128
        } else {
            -((self.bits - 0x8000_0000_0000_0000) as i128)
        }
    }
}

/// A cost as it is known: not at all, as stated, or as the sum of two that are, if
/// that is finite.
#[derive(Debug, Clone, Copy, PartialEq, Eq, Structural)]
pub enum Cost {
    Unknown,
    Stated(Float),
    Summed(Float, Float),
}

/// What a text comes to when it is read as a double-precision number.
#[derive(Debug, PartialEq, Eq)]
pub struct FloatReading {
    /// The IEEE 754 bits.
    pub bits: u64,
    /// The number as it is displayed.
    pub text: String,
    /// The number as it is shown for debugging.
    pub debug: String,
    /// The number without its fraction, within the range of an `i64`.
    pub whole: i64,
    /// The number times 1_000_000_000, without its fraction, within the range
    /// of an `i64`.
    pub nanos: i64,
    /// The number times 1_000_000_000, rounded, within the range of an `i64`, if
    /// that product is neither negative nor above 2 to the power of 63.
    pub rounded_nanos: Option<i64>,
}

/// What a [`FloatReading`] holds.
pub struct Reading {
    pub bits: u64,
    pub text: Seq<char>,
    pub debug: Seq<char>,
    pub whole: i64,
    pub nanos: i64,
    pub rounded_nanos: Option<i64>,
}

impl View for FloatReading {
    type V = Reading;

    open spec fn view(&self) -> Reading {
        Reading {
            bits: self.bits,
            text: self.text@,
            debug: self.debug@,
            whole: self.whole,
            nanos: self.nanos,
            rounded_nanos: self.rounded_nanos,
        }
    }
}

impl Clone for FloatReading {
    fn clone(&self) -> (r: Self)
        ensures
            r == *self,
    {
        FloatReading {
            bits: self.bits,
            text: self.text.clone(),
            debug: self.debug.clone(),
            whole: self.whole,
            nanos: self.nanos,
            rounded_nanos: self.rounded_nanos,
        }
    }
}

/// What an optional reading holds.
pub open spec fn opt_reading(reading: Option<FloatReading>) -> Option<Reading> {
    match reading {
        Some(r) => Some(r@),
        None => None,
    }
}

/// Whether a number with these bits is finite and at least zero: its sign bit is
/// clear and its exponent not all ones, or it is negative zero.
pub open spec fn finite_nonnegative(bits: u64) -> bool {
    bits < 0x7ff0_0000_0000_0000 || bits == 0x8000_0000_0000_0000
}

pub fn is_finite_nonnegative(bits: u64) -> (r: bool)
    ensures
        r == finite_nonnegative(bits),
{
    bits < 0x7ff0_0000_0000_0000 || bits == 0x8000_0000_0000_0000
}

/// Texts, each with what it reads as. A text that is not in here is no number.
pub struct FloatReadings {
    table: StringHashMap<FloatReading>,
}

impl View for FloatReadings {
    type V = Map<Seq<char>, Reading>;

    closed spec fn view(&self) -> Map<Seq<char>, Reading> {
        self.table@.map_values(|reading: FloatReading| reading@)
    }
}

/// What `text` reads as.
pub open spec fn reading_of(readings: Map<Seq<char>, Reading>, text: Seq<char>) -> Option<Reading> {
    if readings.contains_key(text) {
        Some(readings[text])
    } else {
        None
    }
}

impl FloatReadings {
    /// No text reads as a number.
    pub fn new() -> (r: Self)
        ensures
            r@ == Map::<Seq<char>, Reading>::empty(),
    {
        let r = FloatReadings { table: StringHashMap::new() };
        assert(r@ =~= Map::<Seq<char>, Reading>::empty());
        r
    }

    /// Says what `text` reads as.
    pub fn insert(&mut self, text: String, reading: FloatReading)
        ensures
            final(self)@ == old(self)@.insert(text@, reading@),
    {
        let ghost before = self@;
        self.table.insert(text, reading);
        assert(self@ =~= before.insert(text@, reading@));
    }

    /// What `text` reads as, if it is a number.
    pub fn get(&self, text: &str) -> (r: Option<FloatReading>)
        ensures
            opt_reading(r) == reading_of(self@, text@),
    {
        match self.table.get(text) {
            Some(reading) => Some(reading.clone()),
            None => None,
        }
    }
}

/// Numbers are ordered by their value: those with a sign come before those without, and the larger
/// the magnitude, the farther from zero they stand.
pub proof fn law_float_order(a: Float, b: Float)
    ensures
        a.bits >= 0x8000_0000_0000_0000 && b.bits < 0x8000_0000_0000_0000 ==> float_order()(a, b),
        a.bits < 0x8000_0000_0000_0000 && b.bits < 0x8000_0000_0000_0000 ==> (float_order()(a, b)
            <==> magnitude(a) < magnitude(b)),
        a.bits >= 0x8000_0000_0000_0000 && b.bits >= 0x8000_0000_0000_0000 ==> (float_order()(a, b)
            <==> magnitude(a) > magnitude(b)),
        !float_order()(a, b) && !float_order()(b, a) ==> a == b,
{
}

/// A number can be an amount just if it is finite and not below zero.
pub proof fn law_amounts_are_not_negative(number: Float)
    ensures
        finite_nonnegative(number.bits) <==> finite(number) && value_rank(number) >= 0,
{
}

} // verus!
