//! Variable-width sequence numbers.
//!
//! A sequence counter is carried on the wire in the narrowest of four widths
//! (2, 4, 6 or 8 bytes) able to hold it, most significant byte first.

use vstd::prelude::*;

verus! {

/// One of the four widths a sequence number can take on the wire.
#[derive(Clone, Copy, Debug, PartialEq, Eq, Structural)]
pub enum WidthClass {
    /// Two bytes: values below 2^16.
    W2,
    /// Four bytes: values from 2^16 up to 2^32 - 1.
    W4,
    /// Six bytes: values from 2^32 up to 2^48 - 1.
    W6,
    /// Eight bytes: values from 2^48 on.
    W8,
}

/// The first value that no longer fits in two bytes.
pub const LIMIT_W2: u64 = 0x1_0000;

/// The first value that no longer fits in four bytes.
pub const LIMIT_W4: u64 = 0x1_0000_0000;

/// The first value that no longer fits in six bytes.
pub const LIMIT_W6: u64 = 0x1_0000_0000_0000;

/// The narrowest width class whose range holds `value`.
pub open spec fn minimal_class(value: nat) -> WidthClass {
    if value < LIMIT_W2 {
        WidthClass::W2
    } else if value < LIMIT_W4 {
        WidthClass::W4
    } else if value < LIMIT_W6 {
        WidthClass::W6
    } else {
        WidthClass::W8
    }
}

impl WidthClass {
    /// Number of bytes a sequence number of this class occupies.
    pub open spec fn width(self) -> nat {
        match self {
            WidthClass::W2 => 2,
            WidthClass::W4 => 4,
            WidthClass::W6 => 6,
            WidthClass::W8 => 8,
        }
    }

    /// The two-bit code of this class in the header flags.
    pub open spec fn spec_code(self) -> u8 {
        match self {
            WidthClass::W2 => 0,
            WidthClass::W4 => 1,
            WidthClass::W6 => 2,
            WidthClass::W8 => 3,
        }
    }

    /// Whether `value` can be written in this many bytes at all.
    pub open spec fn holds(self, value: nat) -> bool {
        match self {
            WidthClass::W2 => value < LIMIT_W2,
            WidthClass::W4 => value < LIMIT_W4,
            WidthClass::W6 => value < LIMIT_W6,
            WidthClass::W8 => value <= u64::MAX,
        }
    }

    /// Number of bytes a sequence number of this class occupies.
    pub fn bytes(self) -> (n: usize)
        ensures
            n == self.width(),
    {
        match self {
            WidthClass::W2 => 2,
            WidthClass::W4 => 4,
            WidthClass::W6 => 6,
            WidthClass::W8 => 8,
        }
    }

    /// The two-bit code of this class in the header flags.
    #[verifier::when_used_as_spec(spec_code)]
    pub fn code(self) -> (c: u8)
        ensures
            c == self.spec_code(),
    {
        match self {
            WidthClass::W2 => 0,
            WidthClass::W4 => 1,
            WidthClass::W6 => 2,
            WidthClass::W8 => 3,
        }
    }

    /// The class that a two-bit code stands for. Only the two low bits of
    /// `code` are looked at.
    pub fn from_code(code: u8) -> (class: WidthClass)
        ensures
            class.spec_code() == code % 4,
    {
        let low: u8 = code % 4;
        if low == 0 {
            WidthClass::W2
        } else if low == 1 {
            WidthClass::W4
        } else if low == 2 {
            WidthClass::W6
        } else {
            WidthClass::W8
        }
    }
}

/// Chooses the narrowest width class able to represent `value`.
pub fn select_width(value: u64) -> (class: WidthClass)
    ensures
        class == minimal_class(value as nat),
{
    if value < LIMIT_W2 {
        WidthClass::W2
    } else if value < LIMIT_W4 {
        WidthClass::W4
    } else if value < LIMIT_W6 {
        WidthClass::W6
    } else {
        WidthClass::W8
    }
}

/// The minimal class is the narrowest that holds the value: it holds it, and
/// every class that holds it is at least as wide.
pub proof fn lemma_minimal_class_is_narrowest(value: u64, other: WidthClass)
    ensures
        minimal_class(value as nat).holds(value as nat),
        other.holds(value as nat) ==> minimal_class(value as nat).width() <= other.width(),
        other.holds(value as nat) && other.width() == minimal_class(value as nat).width()
            ==> other == minimal_class(value as nat),
{
}

/// A sequence counter value tagged with the width it takes on the wire.
///
/// A value is *minimal* when its variant is the narrowest able to hold the
/// number. The conversions from integers only build minimal values; the
/// header codec accepts and produces no others.
#[derive(Clone, Copy, Debug, PartialEq, Eq, Structural)]
pub enum SequenceNumber {
    /// A number carried in two bytes.
    Len2(u16),
    /// A number carried in four bytes.
    Len4(u32),
    /// A number carried in six bytes.
    Len6(u64),
    /// A number carried in eight bytes.
    Len8(u64),
}

impl SequenceNumber {
    /// The number held.
    pub open spec fn spec_value(self) -> u64 {
        match self {
            SequenceNumber::Len2(x) => x as u64,
            SequenceNumber::Len4(x) => x as u64,
            SequenceNumber::Len6(x) => x,
            SequenceNumber::Len8(x) => x,
        }
    }

    /// The width class of the variant.
    pub open spec fn spec_class(self) -> WidthClass {
        match self {
            SequenceNumber::Len2(_) => WidthClass::W2,
            SequenceNumber::Len4(_) => WidthClass::W4,
            SequenceNumber::Len6(_) => WidthClass::W6,
            SequenceNumber::Len8(_) => WidthClass::W8,
        }
    }

    /// Whether the variant is the narrowest one able to hold the number.
    pub open spec fn spec_is_minimal(self) -> bool {
        self.spec_class() == minimal_class(self.spec_value() as nat)
    }

    /// The minimal sequence number that holds `value`.
    pub open spec fn of(value: u64) -> SequenceNumber {
        match minimal_class(value as nat) {
            WidthClass::W2 => SequenceNumber::Len2(value as u16),
            WidthClass::W4 => SequenceNumber::Len4(value as u32),
            WidthClass::W6 => SequenceNumber::Len6(value),
            WidthClass::W8 => SequenceNumber::Len8(value),
        }
    }

    /// The number held.
    #[verifier::when_used_as_spec(spec_value)]
    pub fn value(self) -> (v: u64)
        ensures
            v == self.spec_value(),
    {
        match self {
            SequenceNumber::Len2(x) => x as u64,
            SequenceNumber::Len4(x) => x as u64,
            SequenceNumber::Len6(x) => x,
            SequenceNumber::Len8(x) => x,
        }
    }

    /// The width class of the variant.
    #[verifier::when_used_as_spec(spec_class)]
    pub fn class(self) -> (c: WidthClass)
        ensures
            c == self.spec_class(),
    {
        match self {
            SequenceNumber::Len2(_) => WidthClass::W2,
            SequenceNumber::Len4(_) => WidthClass::W4,
            SequenceNumber::Len6(_) => WidthClass::W6,
            SequenceNumber::Len8(_) => WidthClass::W8,
        }
    }

    /// Whether the variant is the narrowest one able to hold the number.
    #[verifier::when_used_as_spec(spec_is_minimal)]
    pub fn is_minimal(self) -> (b: bool)
        ensures
            b == self.spec_is_minimal(),
    {
        select_width(self.value()) == self.class()
    }
}

/// Every number has exactly one minimal sequence number: the one `of` builds.
pub proof fn lemma_minimal_is_unique(seq: SequenceNumber)
    ensures
        SequenceNumber::of(seq.value()).is_minimal(),
        SequenceNumber::of(seq.value()).value() == seq.value(),
        seq.is_minimal() <==> seq == SequenceNumber::of(seq.value()),
{
}

impl From<u64> for SequenceNumber {
    fn from(x: u64) -> (seq: Self) {
        if x < LIMIT_W2 {
            SequenceNumber::Len2(x as u16)
        } else if x < LIMIT_W4 {
            SequenceNumber::Len4(x as u32)
        } else if x < LIMIT_W6 {
            SequenceNumber::Len6(x)
        } else {
            SequenceNumber::Len8(x)
        }
    }
}

impl vstd::std_specs::convert::FromSpecImpl<u64> for SequenceNumber {
    open spec fn obeys_from_spec() -> bool {
        true
    }

    open spec fn from_spec(x: u64) -> Self {
        SequenceNumber::of(x)
    }
}

impl From<u32> for SequenceNumber {
    fn from(x: u32) -> (seq: Self) {
        if x < 65536 {
            SequenceNumber::Len2(x as u16)
        } else {
            SequenceNumber::Len4(x)
        }
    }
}

impl vstd::std_specs::convert::FromSpecImpl<u32> for SequenceNumber {
    open spec fn obeys_from_spec() -> bool {
        true
    }

    open spec fn from_spec(x: u32) -> Self {
        SequenceNumber::of(x as u64)
    }
}

impl From<u16> for SequenceNumber {
    fn from(x: u16) -> (seq: Self) {
        SequenceNumber::Len2(x)
    }
}

impl vstd::std_specs::convert::FromSpecImpl<u16> for SequenceNumber {
    open spec fn obeys_from_spec() -> bool {
        true
    }

    open spec fn from_spec(x: u16) -> Self {
        SequenceNumber::of(x as u64)
    }
}

impl From<u8> for SequenceNumber {
    fn from(x: u8) -> (seq: Self) {
        SequenceNumber::Len2(x as u16)
    }
}

impl vstd::std_specs::convert::FromSpecImpl<u8> for SequenceNumber {
    open spec fn obeys_from_spec() -> bool {
        true
    }

    open spec fn from_spec(x: u8) -> Self {
        SequenceNumber::of(x as u64)
    }
}

} // verus!
