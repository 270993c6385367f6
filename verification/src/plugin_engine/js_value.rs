//! Values that scripts hand to the host.

use crate::text::{blank, is_blank, opt_view, trim, trimmed};
use vstd::arithmetic::power2::{lemma2_to64, lemma_pow2_strictly_increases, lemma_pow2_unfold, pow2};
use vstd::prelude::*;

verus! {

/// A number of a script: the bits of its double-precision representation, and the text
/// that it is shown as.
#[derive(Debug, PartialEq, Eq)]
pub struct Number {
    pub bits: u64,
    pub text: String,
}

impl Clone for Number {
    fn clone(&self) -> (r: Self)
        ensures
            r == *self,
    {
        Number { bits: self.bits, text: self.text.clone() }
    }
}

/// True if the sign bit is set.
pub open spec fn sign_is_set(bits: u64) -> bool {
    bits >= 0x8000_0000_0000_0000
}

/// The exponent field.
pub open spec fn exponent_field(bits: u64) -> int {
    (bits / 0x10_0000_0000_0000) as int % 2048
}

/// The fraction field.
pub open spec fn fraction_field(bits: u64) -> int {
    bits as int % 0x10_0000_0000_0000
}

/// True for numbers other than the infinities and those that are no number.
pub open spec fn is_finite_bits(bits: u64) -> bool {
    exponent_field(bits) != 2047
}

/// True for zero, of either sign.
pub open spec fn is_zero_bits(bits: u64) -> bool {
    exponent_field(bits) == 0 && fraction_field(bits) == 0
}

/// The bits of one hundred.
pub open spec fn hundred_bits() -> u64 {
    0x4059_0000_0000_0000
}

/// The number as an unsigned integer: without its fraction, with 0 for what is negative
/// or no number, and with the largest integer for what is too large.
pub open spec fn as_unsigned(bits: u64) -> u64 {
    let exponent = exponent_field(bits);
    let fraction = fraction_field(bits);
    if sign_is_set(bits) {
        0
    } else if exponent == 2047 {
        if fraction == 0 {
            u64::MAX
        } else {
            0
        }
    } else if exponent < 1023 {
        0
    } else if exponent >= 1023 + 64 {
        u64::MAX
    } else {
        (((0x10_0000_0000_0000 + fraction) * pow2((exponent - 1023) as nat) as int)
            / 0x10_0000_0000_0000) as u64
    }
}

pub(crate) proof fn lemma_scaled_fits(significand: int, shift: nat)
    requires
        0x10_0000_0000_0000 <= significand < 0x20_0000_0000_0000,
        shift < 64,
    ensures
        0 <= significand * pow2(shift) < 0x1_0000_0000_0000_0000 * 0x10_0000_0000_0000,
        1 <= pow2(shift) <= 0x8000_0000_0000_0000,
{
    lemma2_to64();
    assert(pow2(63) == 0x8000_0000_0000_0000) by {
        vstd::arithmetic::power2::lemma2_to64_rest();
    }
    if shift < 63 {
        lemma_pow2_strictly_increases(shift, 63);
    }
    vstd::arithmetic::power2::lemma_pow2_pos(shift);
    let p = pow2(shift) as int;
    assert(0 <= significand * p < 0x1_0000_0000_0000_0000 * 0x10_0000_0000_0000) by (nonlinear_arith)
        requires
            0x10_0000_0000_0000 <= significand < 0x20_0000_0000_0000,
            1 <= p <= 0x8000_0000_0000_0000,
    ;
}

impl Number {
    /// True for numbers other than the infinities and those that are no number.
    pub fn is_finite(&self) -> (r: bool)
        ensures
            r == is_finite_bits(self.bits),
    {
        (self.bits / 0x10_0000_0000_0000) % 2048 != 2047
    }

    /// True for numbers below zero that are finite.
    pub fn is_below_zero(&self) -> (r: bool)
        ensures
            r == (is_finite_bits(self.bits) && sign_is_set(self.bits) && !is_zero_bits(self.bits)),
    {
        let exponent: u64 = (self.bits / 0x10_0000_0000_0000) % 2048;
        let fraction: u64 = self.bits % 0x10_0000_0000_0000;
        self.bits >= 0x8000_0000_0000_0000 && exponent != 2047 && !(exponent == 0 && fraction == 0)
    }

    /// True for zero and for finite numbers below zero.
    pub fn is_zero_or_below(&self) -> (r: bool)
        ensures
            r == (is_finite_bits(self.bits) && (sign_is_set(self.bits) || is_zero_bits(self.bits))),
    {
        let exponent: u64 = (self.bits / 0x10_0000_0000_0000) % 2048;
        let fraction: u64 = self.bits % 0x10_0000_0000_0000;
        exponent != 2047 && (self.bits >= 0x8000_0000_0000_0000 || (exponent == 0 && fraction == 0))
    }

    /// True for one hundred.
    pub fn is_hundred(&self) -> (r: bool)
        ensures
            r == (self.bits == hundred_bits()),
    {
        self.bits == 0x4059_0000_0000_0000
    }

    /// The number as an unsigned integer.
    pub fn to_unsigned(&self) -> (r: u64)
        ensures
            r == as_unsigned(self.bits),
    {
        if self.bits >= 0x8000_0000_0000_0000 {
            return 0;
        }
        let exponent: u64 = (self.bits / 0x10_0000_0000_0000) % 2048;
        let fraction: u64 = self.bits % 0x10_0000_0000_0000;
        if exponent == 2047 {
            return if fraction == 0 {
                u64::MAX
            } else {
                0
            };
        }
        if exponent < 1023 {
            return 0;
        }
        if exponent >= 1087 {
            return u64::MAX;
        }
        let shift: u64 = exponent - 1023;
        let significand: u128 = 0x10_0000_0000_0000 + fraction as u128;
        let mut scaled: u128 = significand;
        let mut done: u64 = 0;
        proof {
            lemma2_to64();
        }
        while done < shift
            invariant
                done <= shift < 64,
                0x10_0000_0000_0000 <= significand < 0x20_0000_0000_0000,
                scaled == significand * pow2(done as nat),
            decreases shift - done,
        {
            proof {
                lemma_scaled_fits(significand as int, done as nat);
                lemma_pow2_unfold((done + 1) as nat);
                let p = pow2(done as nat) as int;
                let s = significand as int;
                assert(s * (2 * p) == 2 * (s * p)) by (nonlinear_arith);
            }
            scaled = scaled * 2;
            done = done + 1;
        }
        proof {
            lemma_scaled_fits(significand as int, shift as nat);
        }
        (scaled / 0x10_0000_0000_0000) as u64
    }
}

/// A value, as far as the host looks at it.
#[derive(Debug)]
pub enum JsValue {
    Undefined,
    Null,
    Bool(bool),
    Number(Number),
    Text(String),
    /// A text that is not valid Unicode.
    BrokenText,
    Function,
    Object,
    Other,
}

/// What reading a property gave.
#[derive(Debug)]
pub enum Slot {
    /// Reading the property threw an exception.
    Threw,
    /// The property has this value.
    Value(JsValue),
}

/// True if the property was read and is null or undefined.
pub open spec fn is_absent(slot: Slot) -> bool {
    slot == Slot::Value(JsValue::Undefined) || slot == Slot::Value(JsValue::Null)
}

/// The text of a property that holds one.
pub open spec fn slot_text(slot: Slot) -> Option<Seq<char>> {
    match slot {
        Slot::Value(JsValue::Text(text)) => Some(text@),
        _ => None,
    }
}

/// The text of a property that holds a text, valid or not: one that is not valid counts
/// as empty.
pub open spec fn slot_any_text(slot: Slot) -> Option<Seq<char>> {
    match slot {
        Slot::Value(JsValue::Text(text)) => Some(text@),
        Slot::Value(JsValue::BrokenText) => Some(Seq::empty()),
        _ => None,
    }
}

/// The number of a property that holds one.
pub open spec fn slot_number(slot: Slot) -> Option<Number> {
    match slot {
        Slot::Value(JsValue::Number(number)) => Some(number),
        _ => None,
    }
}

impl Slot {
    /// True if reading the property threw an exception.
    pub fn threw(&self) -> (r: bool)
        ensures
            r == (*self is Threw),
    {
        match self {
            Slot::Threw => true,
            Slot::Value(_) => false,
        }
    }

    /// True if the property was read and is null or undefined.
    pub fn absent(&self) -> (r: bool)
        ensures
            r == is_absent(*self),
    {
        match self {
            Slot::Value(JsValue::Undefined) => true,
            Slot::Value(JsValue::Null) => true,
            _ => false,
        }
    }

    /// The text of a property that holds one.
    pub fn text(&self) -> (r: Option<String>)
        ensures
            opt_view(r) == slot_text(*self),
    {
        match self {
            Slot::Value(JsValue::Text(text)) => Some(text.clone()),
            _ => None,
        }
    }

    /// The text of a property that holds one, or the empty text.
    pub fn text_or_empty(&self) -> (r: String)
        ensures
            r@ == text_or_nothing(slot_text(*self)),
    {
        match self.text() {
            Some(text) => text,
            None => {
                let empty = String::new();
                assert(empty@ =~= Seq::<char>::empty());
                empty
            },
        }
    }

    /// The text of a property that holds a text, valid or not.
    pub fn any_text(&self) -> (r: Option<String>)
        ensures
            opt_view(r) == slot_any_text(*self),
    {
        match self {
            Slot::Value(JsValue::Text(text)) => Some(text.clone()),
            Slot::Value(JsValue::BrokenText) => {
                let empty = String::new();
                assert(empty@ =~= Seq::<char>::empty());
                Some(empty)
            },
            _ => None,
        }
    }

    /// The number of a property that holds one.
    pub fn number(&self) -> (r: Option<Number>)
        ensures
            r == slot_number(*self),
    {
        match self {
            Slot::Value(JsValue::Number(number)) => Some(number.clone()),
            _ => None,
        }
    }
}

/// A text, or the empty text in place of none.
pub open spec fn text_or_nothing(text: Option<Seq<char>>) -> Seq<char> {
    match text {
        Some(t) => t,
        None => Seq::empty(),
    }
}

/// An exception, as far as the host looks at it.
#[derive(Debug)]
pub enum Caught {
    /// There was none, or it was null or undefined.
    Nothing,
    /// A text was thrown.
    Text(String),
    /// A text that is not valid Unicode was thrown.
    BrokenText,
    /// An object was thrown, with these properties.
    Object { name: Slot, message: Slot, stack: Slot },
    /// Something else was thrown.
    Other,
}

/// What a user is told where a plugin gives no reason.
pub open spec fn unknown_failure() -> Seq<char> {
    "The plugin failed, try again or contact plugin author."@
}

/// The text of a property without white space around it, if there is any left.
pub open spec fn shown_text(slot: Slot) -> Option<Seq<char>> {
    match slot_text(slot) {
        Some(text) => if is_blank(text) {
            None
        } else {
            Some(trimmed(text))
        },
        None => None,
    }
}

/// What a user is told of an exception: the thrown text, or else the message of the
/// thrown object, or else its name.
pub open spec fn failure_text(caught: Caught) -> Seq<char> {
    match caught {
        Caught::Text(text) => if is_blank(text@) {
            unknown_failure()
        } else {
            trimmed(text@)
        },
        Caught::Object { name, message, stack } => match shown_text(message) {
            Some(text) => text,
            None => match shown_text(name) {
                Some(text) => text,
                None => unknown_failure(),
            },
        },
        _ => unknown_failure(),
    }
}

fn shown(slot: &Slot) -> (r: Option<String>)
    ensures
        opt_view(r) == shown_text(*slot),
{
    match slot.text() {
        Some(text) => if blank(text.as_str()) {
            None
        } else {
            Some(trim(text.as_str()))
        },
        None => None,
    }
}

/// What a user is told of an exception.
pub fn extract_error_string(caught: &Caught) -> (r: String)
    ensures
        r@ == failure_text(*caught),
{
    let unknown = "The plugin failed, try again or contact plugin author.".to_string();
    match caught {
        Caught::Text(text) => if blank(text.as_str()) {
            unknown
        } else {
            trim(text.as_str())
        },
        Caught::Object { name, message, stack } => match shown(message) {
            Some(text) => text,
            None => match shown(name) {
                Some(text) => text,
                None => unknown,
            },
        },
        _ => unknown,
    }
}

/// A user is always told something.
pub proof fn law_failure_is_never_silent(caught: Caught)
    ensures
        failure_text(caught).len() > 0,
{
    reveal_strlit("The plugin failed, try again or contact plugin author.");
}

} // verus!
