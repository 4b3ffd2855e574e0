//! The failures that the filesystem reports.

use vstd::prelude::*;
use vstd::string::*;
use crate::FatEntry;

verus! {

/// Why a device was not accepted as a filesystem.
#[derive(Debug, Clone, Copy, PartialEq, Eq, Structural)]
pub enum FormatError {
    /// The first nine bytes are not the magic.
    Magic,
    /// The version byte, carried here, is not the supported one.
    Version(u8),
}

/// Why a cluster number or slot index cannot be used as an address.
#[derive(Debug, Clone, Copy, PartialEq, Eq, Structural)]
pub enum BoundsError {
    /// The number is the marker of a free cluster.
    Unallocated,
    /// The number is the marker of a cluster that must not be used.
    BadBlock,
    /// The number is the marker that ends a chain.
    EndOfChain,
    /// The number, carried here, lies behind the end of the table.
    OutOfBounds(FatEntry),
    /// The slot index, carried here, lies behind the last slot of a cluster.
    Slot(u32),
    /// The address, carried here, names no slot of any cluster.
    Address(u64),
}

/// A failed filesystem operation.
#[derive(Debug, Clone, Copy, PartialEq, Eq, Structural)]
pub enum FsError {
    /// The device does not hold this filesystem.
    Format(FormatError),
    /// A cluster number or slot index was not addressable.
    Bounds(BoundsError),
    /// The device ends before the last byte of the region that was asked for.
    Io,
    /// A name stored in a directory slot is not UTF-8.
    Encoding,
    /// A chain has more links than the table has entries, so it never ends.
    Cycle,
}

/// The sixteen digits of base 16, in order.
pub open spec fn hex_digits() -> Seq<char> {
    seq!['0', '1', '2', '3', '4', '5', '6', '7', '8', '9', 'A', 'B', 'C', 'D', 'E', 'F']
}

/// The last `digits` digits of `value` in base 16, with zeros where it has fewer.
pub open spec fn hex(value: nat, digits: nat) -> Seq<char>
    decreases digits,
{
    if digits == 0 {
        Seq::empty()
    } else {
        hex(value / 16, (digits - 1) as nat).push(hex_digits()[(value % 16) as int])
    }
}

/// `value` in base 10, without leading zeros.
pub open spec fn decimal(value: nat) -> Seq<char>
    decreases value,
{
    if value < 10 {
        seq![hex_digits()[value as int]]
    } else {
        decimal(value / 10).push(hex_digits()[(value % 10) as int])
    }
}

/// The digit `digit` of base 16, as text.
fn digit_text(digit: u8) -> (text: &'static str)
    requires
        digit < 16,
    ensures
        text@ == seq![hex_digits()[digit as int]],
{
    proof {
        reveal_strlit("0");
        reveal_strlit("1");
        reveal_strlit("2");
        reveal_strlit("3");
        reveal_strlit("4");
        reveal_strlit("5");
        reveal_strlit("6");
        reveal_strlit("7");
        reveal_strlit("8");
        reveal_strlit("9");
        reveal_strlit("A");
        reveal_strlit("B");
        reveal_strlit("C");
        reveal_strlit("D");
        reveal_strlit("E");
        reveal_strlit("F");
    }
    let text = match digit {
        0 => "0",
        1 => "1",
        2 => "2",
        3 => "3",
        4 => "4",
        5 => "5",
        6 => "6",
        7 => "7",
        8 => "8",
        9 => "9",
        10 => "A",
        11 => "B",
        12 => "C",
        13 => "D",
        14 => "E",
        _ => "F",
    };
    text
}

/// Appends to `text` the last `digits` digits of `value` in base 16.
fn push_hex(text: &mut String, value: u64, digits: u32)
    ensures
        final(text)@ == old(text)@ + hex(value as nat, digits as nat),
    decreases digits,
{
    if digits > 0 {
        push_hex(text, value / 16, digits - 1);
        text.append(digit_text((value % 16) as u8));
    }
}

/// Appends to `text` the number `value` in base 10.
fn push_decimal(text: &mut String, value: u64)
    ensures
        final(text)@ == old(text)@ + decimal(value as nat),
    decreases value,
{
    if value >= 10 {
        push_decimal(text, value / 10);
    }
    text.append(digit_text((value % 10) as u8));
}

impl BoundsError {
    /// What `message` says.
    pub open spec fn text(self) -> Seq<char> {
        match self {
            BoundsError::Unallocated => "unallocated cluster"@,
            BoundsError::BadBlock => "bad block"@,
            BoundsError::EndOfChain => "end of chain"@,
            BoundsError::OutOfBounds(cluster) => "fat out of bounds 0x"@ + hex(cluster as nat, 8),
            BoundsError::Slot(idx) => "slot out of bounds 0x"@ + hex(idx as nat, 8),
            BoundsError::Address(address) => "address out of bounds 0x"@ + hex(address as nat, 16),
        }
    }

    /// Says in words what is wrong, with the number in question in base 16.
    pub fn message(&self) -> (message: String)
        ensures
            message@ == self.text(),
    {
        match self {
            BoundsError::Unallocated => String::from_str("unallocated cluster"),
            BoundsError::BadBlock => String::from_str("bad block"),
            BoundsError::EndOfChain => String::from_str("end of chain"),
            BoundsError::OutOfBounds(cluster) => {
                let mut message = String::from_str("fat out of bounds 0x");
                push_hex(&mut message, *cluster as u64, 8);
                message
            },
            BoundsError::Slot(idx) => {
                let mut message = String::from_str("slot out of bounds 0x");
                push_hex(&mut message, *idx as u64, 8);
                message
            },
            BoundsError::Address(address) => {
                let mut message = String::from_str("address out of bounds 0x");
                push_hex(&mut message, *address, 16);
                message
            },
        }
    }
}

impl FsError {
    /// What `message` says.
    pub open spec fn text(self) -> Seq<char> {
        match self {
            FsError::Format(FormatError::Magic) => "invalid filesystem"@,
            FsError::Format(FormatError::Version(version)) => "invalid filesystem version "@
                + decimal(version as nat),
            FsError::Bounds(bounds) => bounds.text(),
            FsError::Io => "device too short"@,
            FsError::Encoding => "name is not UTF-8"@,
            FsError::Cycle => "chain does not end"@,
        }
    }

    /// Says in words what went wrong.
    pub fn message(&self) -> (message: String)
        ensures
            message@ == self.text(),
    {
        match self {
            FsError::Format(FormatError::Magic) => String::from_str("invalid filesystem"),
            FsError::Format(FormatError::Version(version)) => {
                let mut message = String::from_str("invalid filesystem version ");
                push_decimal(&mut message, *version as u64);
                message
            },
            FsError::Bounds(bounds) => bounds.message(),
            FsError::Io => String::from_str("device too short"),
            FsError::Encoding => String::from_str("name is not UTF-8"),
            FsError::Cycle => String::from_str("chain does not end"),
        }
    }
}

} // verus!
