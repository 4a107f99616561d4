use vstd::prelude::*;

use crate::bits::{
    bits_to_bytes, bytes_to_bits, bytes_to_bool_vec, bool_vec_to_bytes, lemma_bits_to_bytes_inverse,
    lemma_bytes_to_bits_len, lemma_u16_le_round_trip, lemma_u32_le_round_trip, u16_from_le,
    u16_le_bytes, u32_from_le, u32_le_bytes, u8_bit,
};
use crate::bit_buffers::{msb0_bits, MsbBitVec};
use crate::HidError;

verus! {

// ---------------------------------------------------------------------------
// The structured form of one short descriptor item.
// ---------------------------------------------------------------------------

#[derive(Debug, PartialEq, Eq, Clone, Copy, Structural)]
pub enum ReportConstantFlag {
    Data,
    Constant,
}

#[derive(Debug, PartialEq, Eq, Clone, Copy, Structural)]
pub enum ReportLayoutFlag {
    Array,
    Variable,
}

#[derive(Debug, PartialEq, Eq, Clone, Copy, Structural)]
pub enum ReportRelativeFlag {
    Absolute,
    Relative,
}

#[derive(Debug, PartialEq, Eq, Clone, Copy, Structural)]
pub enum ReportWrapFlag {
    NoWrap,
    Wrap,
}

#[derive(Debug, PartialEq, Eq, Clone, Copy, Structural)]
pub enum ReportLinearFlag {
    Linear,
    NonLinear,
}

#[derive(Debug, PartialEq, Eq, Clone, Copy, Structural)]
pub enum ReportPreferredStateFlag {
    PreferredState,
    NoPreferred,
}

#[derive(Debug, PartialEq, Eq, Clone, Copy, Structural)]
pub enum ReportNullStateFlag {
    NoNullPosition,
    NullState,
}

#[derive(Debug, PartialEq, Eq, Clone, Copy, Structural)]
pub enum ReportVolatileFlag {
    NonVolatile,
    Volatile,
}

#[derive(Debug, PartialEq, Eq, Clone, Copy, Structural)]
pub enum ReportBufferedBytesFlag {
    BitField,
    BufferedBytes,
}

#[derive(Debug, PartialEq, Eq, Clone, Copy, Structural)]
pub enum CollectionType {
    Physical,
    Application,
    Logical,
    Report,
    NamedArray,
    UsageSwitch,
    UsageModifier,
    VendorDefined(u8),
}

/// A usage named either by its 16-bit in-page id or by the 32-bit extended
/// form that embeds the usage page in the upper half.
#[derive(Debug, PartialEq, Eq, Clone, Copy, Structural)]
pub enum Usage {
    Usage(u16),
    ExtendedUsage(u32),
}

#[derive(Debug, PartialEq, Eq, Clone, Copy, Structural)]
pub enum DelimiterFlag {
    Close,
    Open,
}

#[derive(Debug, PartialEq, Eq, Clone, Copy, Structural)]
pub enum DescriptorItem {
    Input {
        constant: ReportConstantFlag,
        layout: ReportLayoutFlag,
        relative: ReportRelativeFlag,
        wrap: ReportWrapFlag,
        linear: ReportLinearFlag,
        preferred_state: ReportPreferredStateFlag,
        null_state: ReportNullStateFlag,
        buffered_bytes: ReportBufferedBytesFlag,
    },
    Output {
        constant: ReportConstantFlag,
        layout: ReportLayoutFlag,
        relative: ReportRelativeFlag,
        wrap: ReportWrapFlag,
        linear: ReportLinearFlag,
        preferred_state: ReportPreferredStateFlag,
        null_state: ReportNullStateFlag,
        volatile: ReportVolatileFlag,
        buffered_bytes: ReportBufferedBytesFlag,
    },
    Feature {
        constant: ReportConstantFlag,
        layout: ReportLayoutFlag,
        relative: ReportRelativeFlag,
        wrap: ReportWrapFlag,
        linear: ReportLinearFlag,
        preferred_state: ReportPreferredStateFlag,
        null_state: ReportNullStateFlag,
        volatile: ReportVolatileFlag,
        buffered_bytes: ReportBufferedBytesFlag,
    },
    Collection { ty: CollectionType },
    EndCollection,
    UsagePage(u16),
    LogicalMinimum(i32),
    LogicalMaximum(i32),
    PhysicalMinimum(i32),
    PhysicalMaximum(i32),
    UnitExponent(i8),
    Unit(u32),
    ReportSize(u32),
    ReportId(u8),
    ReportCount(u32),
    Push,
    Pop,
    Usage(Usage),
    UsageMinimum(Usage),
    UsageMaximum(Usage),
    DesignatorIndex(u32),
    DesignatorMinimum(u32),
    DesignatorMaximum(u32),
    StringIndex(u32),
    StringMinimum(u32),
    StringMaximum(u32),
    Delimiter(DelimiterFlag),
}

// ---------------------------------------------------------------------------
// Encoding model.
//
// A short item is one prefix byte — four tag bits, two type bits, two
// size-code bits — followed by 0, 1, 2 or 4 data bytes (size code 3 stands
// for 4 bytes). The payload is laid into a four-byte buffer, least
// significant byte first; the number of data bytes actually emitted comes
// from a fixed zero/nonzero lookup over that buffer, not from the smallest
// lossless width, so some payloads do not survive a round trip.
// ---------------------------------------------------------------------------

/// The six tag-and-type bits of an item's prefix byte.
pub open spec fn item_tag_code(item: DescriptorItem) -> u8 {
    match item {
        DescriptorItem::Input { .. } => 0b1000_00,
        DescriptorItem::Output { .. } => 0b1001_00,
        DescriptorItem::Feature { .. } => 0b1011_00,
        DescriptorItem::Collection { .. } => 0b1010_00,
        DescriptorItem::EndCollection => 0b1100_00,
        DescriptorItem::UsagePage(_) => 0b0000_01,
        DescriptorItem::LogicalMinimum(_) => 0b0001_01,
        DescriptorItem::LogicalMaximum(_) => 0b0010_01,
        DescriptorItem::PhysicalMinimum(_) => 0b0011_01,
        DescriptorItem::PhysicalMaximum(_) => 0b0100_01,
        DescriptorItem::UnitExponent(_) => 0b0101_01,
        DescriptorItem::Unit(_) => 0b0110_01,
        DescriptorItem::ReportSize(_) => 0b0111_01,
        DescriptorItem::ReportId(_) => 0b1000_01,
        DescriptorItem::ReportCount(_) => 0b1001_01,
        DescriptorItem::Push => 0b1010_01,
        DescriptorItem::Pop => 0b1011_01,
        DescriptorItem::Usage(_) => 0b0000_10,
        DescriptorItem::UsageMinimum(_) => 0b0001_10,
        DescriptorItem::UsageMaximum(_) => 0b0010_10,
        DescriptorItem::DesignatorIndex(_) => 0b0011_10,
        DescriptorItem::DesignatorMinimum(_) => 0b0100_10,
        DescriptorItem::DesignatorMaximum(_) => 0b0101_10,
        DescriptorItem::StringIndex(_) => 0b0111_10,
        DescriptorItem::StringMinimum(_) => 0b1000_10,
        DescriptorItem::StringMaximum(_) => 0b1001_10,
        DescriptorItem::Delimiter(_) => 0b1010_10,
    }
}

/// The first flag byte of a main item: one flag per bit, most significant
/// bit first.
pub open spec fn flag_byte0(
    c: bool,
    var: bool,
    rel: bool,
    wrap: bool,
    nonlin: bool,
    nopref: bool,
    nul: bool,
    vol: bool,
) -> u8 {
    (if c {
        0x80u8
    } else {
        0u8
    }) | (if var {
        0x40u8
    } else {
        0u8
    }) | (if rel {
        0x20u8
    } else {
        0u8
    }) | (if wrap {
        0x10u8
    } else {
        0u8
    }) | (if nonlin {
        0x08u8
    } else {
        0u8
    }) | (if nopref {
        0x04u8
    } else {
        0u8
    }) | (if nul {
        0x02u8
    } else {
        0u8
    }) | (if vol {
        0x01u8
    } else {
        0u8
    })
}

/// The second flag byte of a main item: only the buffered-bytes flag, in the
/// most significant bit.
pub open spec fn flag_byte1(buf: bool) -> u8 {
    if buf {
        0x80u8
    } else {
        0u8
    }
}

/// The byte value of a collection type.
pub open spec fn collection_type_byte(ty: CollectionType) -> u8 {
    match ty {
        CollectionType::Physical => 0,
        CollectionType::Application => 1,
        CollectionType::Logical => 2,
        CollectionType::Report => 3,
        CollectionType::NamedArray => 4,
        CollectionType::UsageSwitch => 5,
        CollectionType::UsageModifier => 6,
        CollectionType::VendorDefined(n) => n,
    }
}

/// The payload of a usage item: two bytes for the 16-bit form, four for the
/// extended form, least significant byte first.
pub open spec fn usage_data_bytes(u: Usage) -> Seq<u8> {
    match u {
        Usage::Usage(x) => u16_le_bytes(x) + seq![0u8, 0u8],
        Usage::ExtendedUsage(x) => u32_le_bytes(x),
    }
}

/// An item's payload laid into a four-byte buffer, least significant byte
/// first; unused bytes are zero.
pub open spec fn item_data_bytes(item: DescriptorItem) -> Seq<u8> {
    match item {
        DescriptorItem::Input {
            constant,
            layout,
            relative,
            wrap,
            linear,
            preferred_state,
            null_state,
            buffered_bytes,
        } => seq![
            flag_byte0(
                constant is Constant,
                layout is Variable,
                relative is Relative,
                wrap is Wrap,
                linear is NonLinear,
                preferred_state is NoPreferred,
                null_state is NullState,
                false,
            ),
            flag_byte1(buffered_bytes is BufferedBytes),
            0u8,
            0u8,
        ],
        DescriptorItem::Output {
            constant,
            layout,
            relative,
            wrap,
            linear,
            preferred_state,
            null_state,
            volatile,
            buffered_bytes,
        } => seq![
            flag_byte0(
                constant is Constant,
                layout is Variable,
                relative is Relative,
                wrap is Wrap,
                linear is NonLinear,
                preferred_state is NoPreferred,
                null_state is NullState,
                volatile is Volatile,
            ),
            flag_byte1(buffered_bytes is BufferedBytes),
            0u8,
            0u8,
        ],
        DescriptorItem::Feature {
            constant,
            layout,
            relative,
            wrap,
            linear,
            preferred_state,
            null_state,
            volatile,
            buffered_bytes,
        } => seq![
            flag_byte0(
                constant is Constant,
                layout is Variable,
                relative is Relative,
                wrap is Wrap,
                linear is NonLinear,
                preferred_state is NoPreferred,
                null_state is NullState,
                volatile is Volatile,
            ),
            flag_byte1(buffered_bytes is BufferedBytes),
            0u8,
            0u8,
        ],
        DescriptorItem::Collection { ty } => seq![collection_type_byte(ty), 0u8, 0u8, 0u8],
        DescriptorItem::EndCollection => seq![0u8, 0u8, 0u8, 0u8],
        DescriptorItem::UsagePage(page) => u16_le_bytes(page) + seq![0u8, 0u8],
        DescriptorItem::LogicalMinimum(v) => u32_le_bytes(v as u32),
        DescriptorItem::LogicalMaximum(v) => u32_le_bytes(v as u32),
        DescriptorItem::PhysicalMinimum(v) => u32_le_bytes(v as u32),
        DescriptorItem::PhysicalMaximum(v) => u32_le_bytes(v as u32),
        DescriptorItem::UnitExponent(e) => seq![e as u8, 0u8, 0u8, 0u8],
        DescriptorItem::Unit(v) => u32_le_bytes(v),
        DescriptorItem::ReportSize(v) => u32_le_bytes(v),
        DescriptorItem::ReportId(id) => seq![id, 0u8, 0u8, 0u8],
        DescriptorItem::ReportCount(v) => u32_le_bytes(v),
        DescriptorItem::Push => seq![0u8, 0u8, 0u8, 0u8],
        DescriptorItem::Pop => seq![0u8, 0u8, 0u8, 0u8],
        DescriptorItem::Usage(u) => usage_data_bytes(u),
        DescriptorItem::UsageMinimum(u) => usage_data_bytes(u),
        DescriptorItem::UsageMaximum(u) => usage_data_bytes(u),
        DescriptorItem::DesignatorIndex(v) => u32_le_bytes(v),
        DescriptorItem::DesignatorMinimum(v) => u32_le_bytes(v),
        DescriptorItem::DesignatorMaximum(v) => u32_le_bytes(v),
        DescriptorItem::StringIndex(v) => u32_le_bytes(v),
        DescriptorItem::StringMinimum(v) => u32_le_bytes(v),
        DescriptorItem::StringMaximum(v) => u32_le_bytes(v),
        DescriptorItem::Delimiter(flag) => seq![
            (if flag is Open {
                0x80u8
            } else {
                0u8
            }),
            0u8,
            0u8,
            0u8,
        ],
    }
}

/// The fixed data-byte-count lookup over the four-byte payload buffer.
/// It is a literal zero/nonzero pattern table, not the smallest lossless
/// width: all-nonzero payloads emit no data bytes at all.
pub open spec fn size_selection(d: Seq<u8>) -> u8 {
    if d[0] != 0 && d[1] != 0 && d[2] != 0 && d[3] != 0 {
        0u8
    } else if d[0] == 0 && d[1] != 0 && d[2] != 0 && d[3] != 0 {
        1u8
    } else if d[0] == 0 && d[1] == 0 && d[2] != 0 && d[3] != 0 {
        2u8
    } else {
        4u8
    }
}

/// The two-bit size code carried in the prefix byte.
pub open spec fn size_code_of(size: u8) -> u8 {
    if size == 4 {
        3u8
    } else {
        size
    }
}

/// The canonical bytes of one item: the prefix byte, then the selected
/// number of payload bytes.
pub open spec fn item_encoded_bytes(item: DescriptorItem) -> Seq<u8> {
    let d = item_data_bytes(item);
    let size = size_selection(d);
    seq![((item_tag_code(item) << 2) | size_code_of(size)) as u8] + d.take(size as int)
}

/// The canonical bit sequence of one item.
pub open spec fn item_encoded_bits(item: DescriptorItem) -> Seq<bool> {
    bytes_to_bits(item_encoded_bytes(item))
}

// ---------------------------------------------------------------------------
// Decoding model.
// ---------------------------------------------------------------------------

/// A partial payload zero-extended to the four-byte buffer.
pub open spec fn pad4(d: Seq<u8>) -> Seq<u8> {
    Seq::new(
        4,
        |i: int|
            if i < d.len() {
                d[i]
            } else {
                0u8
            },
    )
}

/// The structured item a six-bit tag code, a data byte count and a
/// zero-extended payload buffer stand for, if any.
pub open spec fn decode_payload(code: u8, size: u8, d: Seq<u8>) -> Option<DescriptorItem> {
    if code & 3 == 0 {
        decode_main_payload(code, d)
    } else if code & 3 == 1 {
        decode_global_payload(code, d)
    } else if code & 3 == 2 {
        decode_local_payload(code, size, d)
    } else {
        None
    }
}

/// The main items: field definitions and collection nesting.
pub open spec fn decode_main_payload(code: u8, d: Seq<u8>) -> Option<DescriptorItem> {
    if code == 0b1000_00 {
        Some(
            DescriptorItem::Input {
                constant: if u8_bit(d[0], 7) {
                    ReportConstantFlag::Constant
                } else {
                    ReportConstantFlag::Data
                },
                layout: if u8_bit(d[0], 6) {
                    ReportLayoutFlag::Variable
                } else {
                    ReportLayoutFlag::Array
                },
                relative: if u8_bit(d[0], 5) {
                    ReportRelativeFlag::Relative
                } else {
                    ReportRelativeFlag::Absolute
                },
                wrap: if u8_bit(d[0], 4) {
                    ReportWrapFlag::Wrap
                } else {
                    ReportWrapFlag::NoWrap
                },
                linear: if u8_bit(d[0], 3) {
                    ReportLinearFlag::NonLinear
                } else {
                    ReportLinearFlag::Linear
                },
                preferred_state: if u8_bit(d[0], 2) {
                    ReportPreferredStateFlag::NoPreferred
                } else {
                    ReportPreferredStateFlag::PreferredState
                },
                null_state: if u8_bit(d[0], 1) {
                    ReportNullStateFlag::NullState
                } else {
                    ReportNullStateFlag::NoNullPosition
                },
                buffered_bytes: if u8_bit(d[1], 7) {
                    ReportBufferedBytesFlag::BufferedBytes
                } else {
                    ReportBufferedBytesFlag::BitField
                },
            },
        )
    } else if code == 0b1001_00 || code == 0b1011_00 {
        let constant = if u8_bit(d[0], 7) {
            ReportConstantFlag::Constant
        } else {
            ReportConstantFlag::Data
        };
        let layout = if u8_bit(d[0], 6) {
            ReportLayoutFlag::Variable
        } else {
            ReportLayoutFlag::Array
        };
        let relative = if u8_bit(d[0], 5) {
            ReportRelativeFlag::Relative
        } else {
            ReportRelativeFlag::Absolute
        };
        let wrap = if u8_bit(d[0], 4) {
            ReportWrapFlag::Wrap
        } else {
            ReportWrapFlag::NoWrap
        };
        let linear = if u8_bit(d[0], 3) {
            ReportLinearFlag::NonLinear
        } else {
            ReportLinearFlag::Linear
        };
        let preferred_state = if u8_bit(d[0], 2) {
            ReportPreferredStateFlag::NoPreferred
        } else {
            ReportPreferredStateFlag::PreferredState
        };
        let null_state = if u8_bit(d[0], 1) {
            ReportNullStateFlag::NullState
        } else {
            ReportNullStateFlag::NoNullPosition
        };
        let volatile = if u8_bit(d[0], 0) {
            ReportVolatileFlag::Volatile
        } else {
            ReportVolatileFlag::NonVolatile
        };
        let buffered_bytes = if u8_bit(d[1], 7) {
            ReportBufferedBytesFlag::BufferedBytes
        } else {
            ReportBufferedBytesFlag::BitField
        };
        if code == 0b1001_00 {
            Some(
                DescriptorItem::Output {
                    constant,
                    layout,
                    relative,
                    wrap,
                    linear,
                    preferred_state,
                    null_state,
                    volatile,
                    buffered_bytes,
                },
            )
        } else {
            Some(
                DescriptorItem::Feature {
                    constant,
                    layout,
                    relative,
                    wrap,
                    linear,
                    preferred_state,
                    null_state,
                    volatile,
                    buffered_bytes,
                },
            )
        }
    } else if code == 0b1010_00 {
        let n = u32_from_le(d);
        if n == 0 {
            Some(DescriptorItem::Collection { ty: CollectionType::Physical })
        } else if n == 1 {
            Some(DescriptorItem::Collection { ty: CollectionType::Application })
        } else if n == 2 {
            Some(DescriptorItem::Collection { ty: CollectionType::Logical })
        } else if n == 3 {
            Some(DescriptorItem::Collection { ty: CollectionType::Report })
        } else if n == 4 {
            Some(DescriptorItem::Collection { ty: CollectionType::NamedArray })
        } else if n == 5 {
            Some(DescriptorItem::Collection { ty: CollectionType::UsageSwitch })
        } else if n == 6 {
            Some(DescriptorItem::Collection { ty: CollectionType::UsageModifier })
        } else if 128 <= n && n <= 255 {
            Some(DescriptorItem::Collection { ty: CollectionType::VendorDefined(n as u8) })
        } else {
            None
        }
    } else if code == 0b1100_00 {
        Some(DescriptorItem::EndCollection)
    } else {
        None
    }
}

/// The global items: state that persists until overridden.
pub open spec fn decode_global_payload(code: u8, d: Seq<u8>) -> Option<DescriptorItem> {
    if code == 0b0000_01 {
        Some(DescriptorItem::UsagePage(u16_from_le(d)))
    } else if code == 0b0001_01 {
        Some(DescriptorItem::LogicalMinimum(u32_from_le(d) as i32))
    } else if code == 0b0010_01 {
        Some(DescriptorItem::LogicalMaximum(u32_from_le(d) as i32))
    } else if code == 0b0011_01 {
        Some(DescriptorItem::PhysicalMinimum(u32_from_le(d) as i32))
    } else if code == 0b0100_01 {
        Some(DescriptorItem::PhysicalMaximum(u32_from_le(d) as i32))
    } else if code == 0b0101_01 {
        Some(DescriptorItem::UnitExponent(d[0] as i8))
    } else if code == 0b0110_01 {
        Some(DescriptorItem::Unit(u32_from_le(d)))
    } else if code == 0b0111_01 {
        Some(DescriptorItem::ReportSize(u32_from_le(d)))
    } else if code == 0b1000_01 {
        Some(DescriptorItem::ReportId(d[0]))
    } else if code == 0b1001_01 {
        Some(DescriptorItem::ReportCount(u32_from_le(d)))
    } else if code == 0b1010_01 {
        Some(DescriptorItem::Push)
    } else if code == 0b1011_01 {
        Some(DescriptorItem::Pop)
    } else {
        None
    }
}

/// The local items: state that applies only to the next main item.
pub open spec fn decode_local_payload(code: u8, size: u8, d: Seq<u8>) -> Option<DescriptorItem> {
    if code == 0b0000_10 {
        Some(DescriptorItem::Usage(decode_usage(size, d)))
    } else if code == 0b0001_10 {
        Some(DescriptorItem::UsageMinimum(decode_usage(size, d)))
    } else if code == 0b0010_10 {
        Some(DescriptorItem::UsageMaximum(decode_usage(size, d)))
    } else if code == 0b0011_10 {
        Some(DescriptorItem::DesignatorIndex(u32_from_le(d)))
    } else if code == 0b0100_10 {
        Some(DescriptorItem::DesignatorMinimum(u32_from_le(d)))
    } else if code == 0b0101_10 {
        Some(DescriptorItem::DesignatorMaximum(u32_from_le(d)))
    } else if code == 0b0111_10 {
        Some(DescriptorItem::StringIndex(u32_from_le(d)))
    } else if code == 0b1000_10 {
        Some(DescriptorItem::StringMinimum(u32_from_le(d)))
    } else if code == 0b1001_10 {
        Some(DescriptorItem::StringMaximum(u32_from_le(d)))
    } else if code == 0b1010_10 {
        Some(
            DescriptorItem::Delimiter(
                if u8_bit(d[0], 7) {
                    DelimiterFlag::Open
                } else {
                    DelimiterFlag::Close
                },
            ),
        )
    } else {
        None
    }
}

/// A decoded usage payload: one or two data bytes give the 16-bit form, any
/// other count the extended form.
pub open spec fn decode_usage(size: u8, d: Seq<u8>) -> Usage {
    if size == 1 || size == 2 {
        Usage::Usage(u16_from_le(d))
    } else {
        Usage::ExtendedUsage(u32_from_le(d))
    }
}

/// The structured item a byte sequence stands for, if any: the prefix byte's
/// size code must match the data length, and the tag must be known.
pub open spec fn decode_item_bytes(s: Seq<u8>) -> Option<DescriptorItem> {
    if s.len() < 1 {
        None
    } else {
        let prefix = s[0];
        let size = size_of_code(prefix & 3);
        if s.len() != 1 + size {
            None
        } else {
            decode_payload(prefix >> 2, size, pad4(s.skip(1)))
        }
    }
}

/// The byte count a two-bit size code stands for.
pub open spec fn size_of_code(code: u8) -> u8 {
    if code == 3 {
        4u8
    } else {
        code
    }
}

/// The structured item a bit sequence stands for: the sequence must be at
/// least one byte long and a whole number of bytes.
pub open spec fn decode_item_bits(bits: Seq<bool>) -> Option<DescriptorItem> {
    if bits.len() < 8 || bits.len() % 8 != 0 {
        None
    } else {
        decode_item_bytes(bits_to_bytes(bits))
    }
}

// ---------------------------------------------------------------------------
// Executable codec.
// ---------------------------------------------------------------------------

/// The four bytes of a 32-bit payload, least significant first.
fn u32_le_vec(v: u32) -> (r: Vec<u8>)
    ensures
        r@ == u32_le_bytes(v),
{
    let mut r: Vec<u8> = Vec::new();
    r.push((v & 0xff) as u8);
    r.push(((v >> 8) & 0xff) as u8);
    r.push(((v >> 16) & 0xff) as u8);
    r.push(((v >> 24) & 0xff) as u8);
    proof {
        assert(r@ =~= u32_le_bytes(v));
    }
    r
}

/// A 16-bit payload in the four-byte buffer, least significant byte first.
fn u16_pad_vec(v: u16) -> (r: Vec<u8>)
    ensures
        r@ == u16_le_bytes(v) + seq![0u8, 0u8],
{
    let mut r: Vec<u8> = Vec::new();
    r.push((v & 0xff) as u8);
    r.push(((v >> 8) & 0xff) as u8);
    r.push(0);
    r.push(0);
    proof {
        assert(r@ =~= u16_le_bytes(v) + seq![0u8, 0u8]);
    }
    r
}

/// A one-byte payload in the four-byte buffer.
fn byte_pad_vec(b: u8) -> (r: Vec<u8>)
    ensures
        r@ == seq![b, 0u8, 0u8, 0u8],
{
    let mut r: Vec<u8> = Vec::new();
    r.push(b);
    r.push(0);
    r.push(0);
    r.push(0);
    proof {
        assert(r@ =~= seq![b, 0u8, 0u8, 0u8]);
    }
    r
}

/// A two-byte payload in the four-byte buffer.
fn flags_data(f0: u8, f1: u8) -> (r: Vec<u8>)
    ensures
        r@ == seq![f0, f1, 0u8, 0u8],
{
    let mut r: Vec<u8> = Vec::new();
    r.push(f0);
    r.push(f1);
    r.push(0);
    r.push(0);
    proof {
        assert(r@ =~= seq![f0, f1, 0u8, 0u8]);
    }
    r
}

impl DescriptorItem {
    /// The six tag-and-type bits of this item's prefix byte.
    fn tag_code(&self) -> (r: u8)
        ensures
            r == item_tag_code(*self),
            r < 64,
    {
        match *self {
            DescriptorItem::Input { .. } => 0b1000_00,
            DescriptorItem::Output { .. } => 0b1001_00,
            DescriptorItem::Feature { .. } => 0b1011_00,
            DescriptorItem::Collection { .. } => 0b1010_00,
            DescriptorItem::EndCollection => 0b1100_00,
            DescriptorItem::UsagePage(_) => 0b0000_01,
            DescriptorItem::LogicalMinimum(_) => 0b0001_01,
            DescriptorItem::LogicalMaximum(_) => 0b0010_01,
            DescriptorItem::PhysicalMinimum(_) => 0b0011_01,
            DescriptorItem::PhysicalMaximum(_) => 0b0100_01,
            DescriptorItem::UnitExponent(_) => 0b0101_01,
            DescriptorItem::Unit(_) => 0b0110_01,
            DescriptorItem::ReportSize(_) => 0b0111_01,
            DescriptorItem::ReportId(_) => 0b1000_01,
            DescriptorItem::ReportCount(_) => 0b1001_01,
            DescriptorItem::Push => 0b1010_01,
            DescriptorItem::Pop => 0b1011_01,
            DescriptorItem::Usage(_) => 0b0000_10,
            DescriptorItem::UsageMinimum(_) => 0b0001_10,
            DescriptorItem::UsageMaximum(_) => 0b0010_10,
            DescriptorItem::DesignatorIndex(_) => 0b0011_10,
            DescriptorItem::DesignatorMinimum(_) => 0b0100_10,
            DescriptorItem::DesignatorMaximum(_) => 0b0101_10,
            DescriptorItem::StringIndex(_) => 0b0111_10,
            DescriptorItem::StringMinimum(_) => 0b1000_10,
            DescriptorItem::StringMaximum(_) => 0b1001_10,
            DescriptorItem::Delimiter(_) => 0b1010_10,
        }
    }

    /// This item's payload laid into the four-byte buffer.
    #[verifier::rlimit(100)]
    #[verifier::spinoff_prover]
    fn data_bytes(&self) -> (r: Vec<u8>)
        ensures
            r@ == item_data_bytes(*self),
            r@.len() == 4,
    {
        match *self {
            DescriptorItem::Input {
                constant,
                layout,
                relative,
                wrap,
                linear,
                preferred_state,
                null_state,
                buffered_bytes,
            } => {
                let f0: u8 = (if constant == ReportConstantFlag::Constant {
                    0x80u8
                } else {
                    0u8
                }) | (if layout == ReportLayoutFlag::Variable {
                    0x40u8
                } else {
                    0u8
                }) | (if relative == ReportRelativeFlag::Relative {
                    0x20u8
                } else {
                    0u8
                }) | (if wrap == ReportWrapFlag::Wrap {
                    0x10u8
                } else {
                    0u8
                }) | (if linear == ReportLinearFlag::NonLinear {
                    0x08u8
                } else {
                    0u8
                }) | (if preferred_state == ReportPreferredStateFlag::NoPreferred {
                    0x04u8
                } else {
                    0u8
                }) | (if null_state == ReportNullStateFlag::NullState {
                    0x02u8
                } else {
                    0u8
                }) | 0u8;
                let f1: u8 = if buffered_bytes == ReportBufferedBytesFlag::BufferedBytes {
                    0x80
                } else {
                    0
                };
                flags_data(f0, f1)
            },
            DescriptorItem::Output {
                constant,
                layout,
                relative,
                wrap,
                linear,
                preferred_state,
                null_state,
                volatile,
                buffered_bytes,
            } => {
                let f0: u8 = (if constant == ReportConstantFlag::Constant {
                    0x80u8
                } else {
                    0u8
                }) | (if layout == ReportLayoutFlag::Variable {
                    0x40u8
                } else {
                    0u8
                }) | (if relative == ReportRelativeFlag::Relative {
                    0x20u8
                } else {
                    0u8
                }) | (if wrap == ReportWrapFlag::Wrap {
                    0x10u8
                } else {
                    0u8
                }) | (if linear == ReportLinearFlag::NonLinear {
                    0x08u8
                } else {
                    0u8
                }) | (if preferred_state == ReportPreferredStateFlag::NoPreferred {
                    0x04u8
                } else {
                    0u8
                }) | (if null_state == ReportNullStateFlag::NullState {
                    0x02u8
                } else {
                    0u8
                }) | (if volatile == ReportVolatileFlag::Volatile {
                    0x01u8
                } else {
                    0u8
                });
                let f1: u8 = if buffered_bytes == ReportBufferedBytesFlag::BufferedBytes {
                    0x80
                } else {
                    0
                };
                flags_data(f0, f1)
            },
            DescriptorItem::Feature {
                constant,
                layout,
                relative,
                wrap,
                linear,
                preferred_state,
                null_state,
                volatile,
                buffered_bytes,
            } => {
                let f0: u8 = (if constant == ReportConstantFlag::Constant {
                    0x80u8
                } else {
                    0u8
                }) | (if layout == ReportLayoutFlag::Variable {
                    0x40u8
                } else {
                    0u8
                }) | (if relative == ReportRelativeFlag::Relative {
                    0x20u8
                } else {
                    0u8
                }) | (if wrap == ReportWrapFlag::Wrap {
                    0x10u8
                } else {
                    0u8
                }) | (if linear == ReportLinearFlag::NonLinear {
                    0x08u8
                } else {
                    0u8
                }) | (if preferred_state == ReportPreferredStateFlag::NoPreferred {
                    0x04u8
                } else {
                    0u8
                }) | (if null_state == ReportNullStateFlag::NullState {
                    0x02u8
                } else {
                    0u8
                }) | (if volatile == ReportVolatileFlag::Volatile {
                    0x01u8
                } else {
                    0u8
                });
                let f1: u8 = if buffered_bytes == ReportBufferedBytesFlag::BufferedBytes {
                    0x80
                } else {
                    0
                };
                flags_data(f0, f1)
            },
            DescriptorItem::Collection { ty } => {
                let b: u8 = match ty {
                    CollectionType::Physical => 0,
                    CollectionType::Application => 1,
                    CollectionType::Logical => 2,
                    CollectionType::Report => 3,
                    CollectionType::NamedArray => 4,
                    CollectionType::UsageSwitch => 5,
                    CollectionType::UsageModifier => 6,
                    CollectionType::VendorDefined(n) => n,
                };
                byte_pad_vec(b)
            },
            DescriptorItem::EndCollection => byte_pad_vec(0),
            DescriptorItem::UsagePage(page) => u16_pad_vec(page),
            DescriptorItem::LogicalMinimum(v) => u32_le_vec(v as u32),
            DescriptorItem::LogicalMaximum(v) => u32_le_vec(v as u32),
            DescriptorItem::PhysicalMinimum(v) => u32_le_vec(v as u32),
            DescriptorItem::PhysicalMaximum(v) => u32_le_vec(v as u32),
            DescriptorItem::UnitExponent(e) => byte_pad_vec(e as u8),
            DescriptorItem::Unit(v) => u32_le_vec(v),
            DescriptorItem::ReportSize(v) => u32_le_vec(v),
            DescriptorItem::ReportId(id) => byte_pad_vec(id),
            DescriptorItem::ReportCount(v) => u32_le_vec(v),
            DescriptorItem::Push => byte_pad_vec(0),
            DescriptorItem::Pop => byte_pad_vec(0),
            DescriptorItem::Usage(u) => match u {
                Usage::Usage(x) => u16_pad_vec(x),
                Usage::ExtendedUsage(x) => u32_le_vec(x),
            },
            DescriptorItem::UsageMinimum(u) => match u {
                Usage::Usage(x) => u16_pad_vec(x),
                Usage::ExtendedUsage(x) => u32_le_vec(x),
            },
            DescriptorItem::UsageMaximum(u) => match u {
                Usage::Usage(x) => u16_pad_vec(x),
                Usage::ExtendedUsage(x) => u32_le_vec(x),
            },
            DescriptorItem::DesignatorIndex(v) => u32_le_vec(v),
            DescriptorItem::DesignatorMinimum(v) => u32_le_vec(v),
            DescriptorItem::DesignatorMaximum(v) => u32_le_vec(v),
            DescriptorItem::StringIndex(v) => u32_le_vec(v),
            DescriptorItem::StringMinimum(v) => u32_le_vec(v),
            DescriptorItem::StringMaximum(v) => u32_le_vec(v),
            DescriptorItem::Delimiter(flag) => byte_pad_vec(
                if flag == DelimiterFlag::Open {
                    0x80
                } else {
                    0
                },
            ),
        }
    }

    /// This item's canonical bytes: the prefix byte, then the number of
    /// payload bytes the fixed size lookup selects.
    pub fn to_bytes(&self) -> (r: Vec<u8>)
        ensures
            r@ == item_encoded_bytes(*self),
    {
        let d = self.data_bytes();
        let code = self.tag_code();
        let size: u8 = if d[0] != 0 && d[1] != 0 && d[2] != 0 && d[3] != 0 {
            0
        } else if d[0] == 0 && d[1] != 0 && d[2] != 0 && d[3] != 0 {
            1
        } else if d[0] == 0 && d[1] == 0 && d[2] != 0 && d[3] != 0 {
            2
        } else {
            4
        };
        let size_code: u8 = if size == 4 {
            3
        } else {
            size
        };
        let mut r: Vec<u8> = Vec::new();
        r.push((code << 2) | size_code);
        let mut i: usize = 0;
        while i < size as usize
            invariant
                size as int <= d@.len(),
                i <= size as usize,
                r@ == seq![((code << 2) | size_code) as u8] + d@.take(i as int),
            decreases size as usize - i,
        {
            r.push(d[i]);
            proof {
                assert(d@.take(i + 1) =~= d@.take(i as int).push(d@[i as int]));
            }
            i = i + 1;
        }
        proof {
            assert(size == size_selection(item_data_bytes(*self)));
            assert(r@ =~= item_encoded_bytes(*self));
        }
        r
    }

    /// The structured item the given bytes stand for; malformed bytes — a
    /// size code that disagrees with the length, or an unknown tag — fail.
    #[verifier::rlimit(100)]
    #[verifier::spinoff_prover]
    pub fn from_bytes(bytes: &Vec<u8>) -> (r: Result<DescriptorItem, HidError>)
        ensures
            match r {
                Ok(item) => decode_item_bytes(bytes@) == Some(item),
                Err(e) => decode_item_bytes(bytes@) is None && e == HidError::MalformedItem,
            },
    {
        if bytes.len() < 1 {
            return Err(HidError::MalformedItem);
        }
        let prefix = bytes[0];
        let sc = prefix & 3;
        let size: u8 = if sc == 3 {
            4
        } else {
            sc
        };
        proof {
            assert(prefix & 3 < 4) by (bit_vector);
        }
        if bytes.len() != 1 + (size as usize) {
            return Err(HidError::MalformedItem);
        }
        let d0: u8 = if size >= 1 {
            bytes[1]
        } else {
            0
        };
        let d1: u8 = if size >= 2 {
            bytes[2]
        } else {
            0
        };
        let d2: u8 = if size >= 3 {
            bytes[3]
        } else {
            0
        };
        let d3: u8 = if size >= 4 {
            bytes[4]
        } else {
            0
        };
        proof {
            assert(pad4(bytes@.skip(1)) =~= seq![d0, d1, d2, d3]);
        }
        let code = prefix >> 2;
        let d = [d0, d1, d2, d3];
        if code & 3 == 0 {
            Self::from_main_payload(code, &d)
        } else if code & 3 == 1 {
            Self::from_global_payload(code, &d)
        } else if code & 3 == 2 {
            Self::from_local_payload(code, size, &d)
        } else {
            Err(HidError::MalformedItem)
        }
    }

    /// One main item from its tag code and zero-extended payload buffer.
    #[verifier::rlimit(100)]
    #[verifier::spinoff_prover]
    fn from_main_payload(code: u8, dd: &[u8; 4]) -> (r: Result<DescriptorItem, HidError>)
        ensures
            match r {
                Ok(item) => decode_main_payload(code, dd@) == Some(item),
                Err(e) => decode_main_payload(code, dd@) is None && e == HidError::MalformedItem,
            },
    {
        let d0 = dd[0];
        let d1 = dd[1];
        let d2 = dd[2];
        let d3 = dd[3];
        match code {
            0b1000_00 => Ok(
                DescriptorItem::Input {
                    constant: if (d0 >> 7) & 1 == 1 {
                        ReportConstantFlag::Constant
                    } else {
                        ReportConstantFlag::Data
                    },
                    layout: if (d0 >> 6) & 1 == 1 {
                        ReportLayoutFlag::Variable
                    } else {
                        ReportLayoutFlag::Array
                    },
                    relative: if (d0 >> 5) & 1 == 1 {
                        ReportRelativeFlag::Relative
                    } else {
                        ReportRelativeFlag::Absolute
                    },
                    wrap: if (d0 >> 4) & 1 == 1 {
                        ReportWrapFlag::Wrap
                    } else {
                        ReportWrapFlag::NoWrap
                    },
                    linear: if (d0 >> 3) & 1 == 1 {
                        ReportLinearFlag::NonLinear
                    } else {
                        ReportLinearFlag::Linear
                    },
                    preferred_state: if (d0 >> 2) & 1 == 1 {
                        ReportPreferredStateFlag::NoPreferred
                    } else {
                        ReportPreferredStateFlag::PreferredState
                    },
                    null_state: if (d0 >> 1) & 1 == 1 {
                        ReportNullStateFlag::NullState
                    } else {
                        ReportNullStateFlag::NoNullPosition
                    },
                    buffered_bytes: if (d1 >> 7) & 1 == 1 {
                        ReportBufferedBytesFlag::BufferedBytes
                    } else {
                        ReportBufferedBytesFlag::BitField
                    },
                },
            ),
            0b1001_00 => Ok(
                DescriptorItem::Output {
                    constant: if (d0 >> 7) & 1 == 1 {
                        ReportConstantFlag::Constant
                    } else {
                        ReportConstantFlag::Data
                    },
                    layout: if (d0 >> 6) & 1 == 1 {
                        ReportLayoutFlag::Variable
                    } else {
                        ReportLayoutFlag::Array
                    },
                    relative: if (d0 >> 5) & 1 == 1 {
                        ReportRelativeFlag::Relative
                    } else {
                        ReportRelativeFlag::Absolute
                    },
                    wrap: if (d0 >> 4) & 1 == 1 {
                        ReportWrapFlag::Wrap
                    } else {
                        ReportWrapFlag::NoWrap
                    },
                    linear: if (d0 >> 3) & 1 == 1 {
                        ReportLinearFlag::NonLinear
                    } else {
                        ReportLinearFlag::Linear
                    },
                    preferred_state: if (d0 >> 2) & 1 == 1 {
                        ReportPreferredStateFlag::NoPreferred
                    } else {
                        ReportPreferredStateFlag::PreferredState
                    },
                    null_state: if (d0 >> 1) & 1 == 1 {
                        ReportNullStateFlag::NullState
                    } else {
                        ReportNullStateFlag::NoNullPosition
                    },
                    volatile: if (d0 >> 0) & 1 == 1 {
                        ReportVolatileFlag::Volatile
                    } else {
                        ReportVolatileFlag::NonVolatile
                    },
                    buffered_bytes: if (d1 >> 7) & 1 == 1 {
                        ReportBufferedBytesFlag::BufferedBytes
                    } else {
                        ReportBufferedBytesFlag::BitField
                    },
                },
            ),
            0b1011_00 => Ok(
                DescriptorItem::Feature {
                    constant: if (d0 >> 7) & 1 == 1 {
                        ReportConstantFlag::Constant
                    } else {
                        ReportConstantFlag::Data
                    },
                    layout: if (d0 >> 6) & 1 == 1 {
                        ReportLayoutFlag::Variable
                    } else {
                        ReportLayoutFlag::Array
                    },
                    relative: if (d0 >> 5) & 1 == 1 {
                        ReportRelativeFlag::Relative
                    } else {
                        ReportRelativeFlag::Absolute
                    },
                    wrap: if (d0 >> 4) & 1 == 1 {
                        ReportWrapFlag::Wrap
                    } else {
                        ReportWrapFlag::NoWrap
                    },
                    linear: if (d0 >> 3) & 1 == 1 {
                        ReportLinearFlag::NonLinear
                    } else {
                        ReportLinearFlag::Linear
                    },
                    preferred_state: if (d0 >> 2) & 1 == 1 {
                        ReportPreferredStateFlag::NoPreferred
                    } else {
                        ReportPreferredStateFlag::PreferredState
                    },
                    null_state: if (d0 >> 1) & 1 == 1 {
                        ReportNullStateFlag::NullState
                    } else {
                        ReportNullStateFlag::NoNullPosition
                    },
                    volatile: if (d0 >> 0) & 1 == 1 {
                        ReportVolatileFlag::Volatile
                    } else {
                        ReportVolatileFlag::NonVolatile
                    },
                    buffered_bytes: if (d1 >> 7) & 1 == 1 {
                        ReportBufferedBytesFlag::BufferedBytes
                    } else {
                        ReportBufferedBytesFlag::BitField
                    },
                },
            ),
            0b1010_00 => {
                let n: u32 = (d0 as u32) | (d1 as u32) << 8 | (d2 as u32) << 16 | (d3 as u32)
                    << 24;
                if n == 0 {
                    Ok(DescriptorItem::Collection { ty: CollectionType::Physical })
                } else if n == 1 {
                    Ok(DescriptorItem::Collection { ty: CollectionType::Application })
                } else if n == 2 {
                    Ok(DescriptorItem::Collection { ty: CollectionType::Logical })
                } else if n == 3 {
                    Ok(DescriptorItem::Collection { ty: CollectionType::Report })
                } else if n == 4 {
                    Ok(DescriptorItem::Collection { ty: CollectionType::NamedArray })
                } else if n == 5 {
                    Ok(DescriptorItem::Collection { ty: CollectionType::UsageSwitch })
                } else if n == 6 {
                    Ok(DescriptorItem::Collection { ty: CollectionType::UsageModifier })
                } else if 128 <= n && n <= 255 {
                    Ok(DescriptorItem::Collection { ty: CollectionType::VendorDefined(n as u8) })
                } else {
                    Err(HidError::MalformedItem)
                }
            },
            0b1100_00 => Ok(DescriptorItem::EndCollection),
            _ => Err(HidError::MalformedItem),
        }
    }

    /// One global item from its tag code and zero-extended payload buffer.
    #[verifier::rlimit(100)]
    #[verifier::spinoff_prover]
    fn from_global_payload(code: u8, dd: &[u8; 4]) -> (r: Result<DescriptorItem, HidError>)
        ensures
            match r {
                Ok(item) => decode_global_payload(code, dd@) == Some(item),
                Err(e) => decode_global_payload(code, dd@) is None && e == HidError::MalformedItem,
            },
    {
        let d0 = dd[0];
        let d1 = dd[1];
        let d2 = dd[2];
        let d3 = dd[3];
        match code {
            0b0000_01 => Ok(DescriptorItem::UsagePage((d0 as u16) | (d1 as u16) << 8)),
            0b0001_01 => Ok(
                DescriptorItem::LogicalMinimum(
                    ((d0 as u32) | (d1 as u32) << 8 | (d2 as u32) << 16 | (d3 as u32) << 24) as i32,
                ),
            ),
            0b0010_01 => Ok(
                DescriptorItem::LogicalMaximum(
                    ((d0 as u32) | (d1 as u32) << 8 | (d2 as u32) << 16 | (d3 as u32) << 24) as i32,
                ),
            ),
            0b0011_01 => Ok(
                DescriptorItem::PhysicalMinimum(
                    ((d0 as u32) | (d1 as u32) << 8 | (d2 as u32) << 16 | (d3 as u32) << 24) as i32,
                ),
            ),
            0b0100_01 => Ok(
                DescriptorItem::PhysicalMaximum(
                    ((d0 as u32) | (d1 as u32) << 8 | (d2 as u32) << 16 | (d3 as u32) << 24) as i32,
                ),
            ),
            0b0101_01 => Ok(DescriptorItem::UnitExponent(d0 as i8)),
            0b0110_01 => Ok(
                DescriptorItem::Unit(
                    (d0 as u32) | (d1 as u32) << 8 | (d2 as u32) << 16 | (d3 as u32) << 24,
                ),
            ),
            0b0111_01 => Ok(
                DescriptorItem::ReportSize(
                    (d0 as u32) | (d1 as u32) << 8 | (d2 as u32) << 16 | (d3 as u32) << 24,
                ),
            ),
            0b1000_01 => Ok(DescriptorItem::ReportId(d0)),
            0b1001_01 => Ok(
                DescriptorItem::ReportCount(
                    (d0 as u32) | (d1 as u32) << 8 | (d2 as u32) << 16 | (d3 as u32) << 24,
                ),
            ),
            0b1010_01 => Ok(DescriptorItem::Push),
            0b1011_01 => Ok(DescriptorItem::Pop),
            _ => Err(HidError::MalformedItem),
        }
    }

    /// One local item from its tag code, data byte count and zero-extended
    /// payload buffer.
    #[verifier::rlimit(100)]
    #[verifier::spinoff_prover]
    fn from_local_payload(code: u8, size: u8, dd: &[u8; 4]) -> (r: Result<DescriptorItem, HidError>)
        ensures
            match r {
                Ok(item) => decode_local_payload(code, size, dd@) == Some(item),
                Err(e) => decode_local_payload(code, size, dd@) is None && e
                    == HidError::MalformedItem,
            },
    {
        let d0 = dd[0];
        let d1 = dd[1];
        let d2 = dd[2];
        let d3 = dd[3];
        match code {
            0b0000_10 => Ok(DescriptorItem::Usage(Self::decode_usage_exec(size, dd))),
            0b0001_10 => Ok(DescriptorItem::UsageMinimum(Self::decode_usage_exec(size, dd))),
            0b0010_10 => Ok(DescriptorItem::UsageMaximum(Self::decode_usage_exec(size, dd))),
            0b0011_10 => Ok(
                DescriptorItem::DesignatorIndex(
                    (d0 as u32) | (d1 as u32) << 8 | (d2 as u32) << 16 | (d3 as u32) << 24,
                ),
            ),
            0b0100_10 => Ok(
                DescriptorItem::DesignatorMinimum(
                    (d0 as u32) | (d1 as u32) << 8 | (d2 as u32) << 16 | (d3 as u32) << 24,
                ),
            ),
            0b0101_10 => Ok(
                DescriptorItem::DesignatorMaximum(
                    (d0 as u32) | (d1 as u32) << 8 | (d2 as u32) << 16 | (d3 as u32) << 24,
                ),
            ),
            0b0111_10 => Ok(
                DescriptorItem::StringIndex(
                    (d0 as u32) | (d1 as u32) << 8 | (d2 as u32) << 16 | (d3 as u32) << 24,
                ),
            ),
            0b1000_10 => Ok(
                DescriptorItem::StringMinimum(
                    (d0 as u32) | (d1 as u32) << 8 | (d2 as u32) << 16 | (d3 as u32) << 24,
                ),
            ),
            0b1001_10 => Ok(
                DescriptorItem::StringMaximum(
                    (d0 as u32) | (d1 as u32) << 8 | (d2 as u32) << 16 | (d3 as u32) << 24,
                ),
            ),
            0b1010_10 => Ok(
                DescriptorItem::Delimiter(
                    if (d0 >> 7) & 1 == 1 {
                        DelimiterFlag::Open
                    } else {
                        DelimiterFlag::Close
                    },
                ),
            ),
            _ => Err(HidError::MalformedItem),
        }
    }


    /// A usage payload read back from the buffer: one or two data bytes give
    /// the 16-bit form, any other count the extended form.
    fn decode_usage_exec(size: u8, d: &[u8; 4]) -> (r: Usage)
        ensures
            r == decode_usage(size, d@),
    {
        if size == 1 || size == 2 {
            Usage::Usage((d[0] as u16) | (d[1] as u16) << 8)
        } else {
            Usage::ExtendedUsage(
                (d[0] as u32) | (d[1] as u32) << 8 | (d[2] as u32) << 16 | (d[3] as u32) << 24,
            )
        }
    }

    /// This item's canonical bit-vector form.
    pub fn into_bitvec(self) -> (r: MsbBitVec)
        ensures
            msb0_bits(r) == item_encoded_bits(self),
    {
        let bytes = self.to_bytes();
        let bits = bytes_to_bool_vec(&bytes);
        MsbBitVec::from_bools(&bits)
    }

    /// The structured item a bit-vector stands for; misaligned or too-short
    /// input, a size code that disagrees with the length, or an unknown tag
    /// fail as a malformed item.
    pub fn from_bitvec(item: MsbBitVec) -> (r: Result<DescriptorItem, HidError>)
        ensures
            match r {
                Ok(it) => decode_item_bits(msb0_bits(item)) == Some(it),
                Err(e) => decode_item_bits(msb0_bits(item)) is None && e
                    == HidError::MalformedItem,
            },
    {
        let bits = item.to_bools();
        if bits.len() < 8 || bits.len() % 8 != 0 {
            return Err(HidError::MalformedItem);
        }
        let bytes = bool_vec_to_bytes(&bits);
        Self::from_bytes(&bytes)
    }
}

/// Whether an item's payload survives the fixed size-selection table: the
/// lookup must keep all four payload bytes, a usage must be in extended form,
/// and a vendor collection byte must lie in the vendor range.
pub open spec fn item_round_trippable(item: DescriptorItem) -> bool {
    &&& size_selection(item_data_bytes(item)) == 4
    &&& match item {
        DescriptorItem::Usage(u) => u is ExtendedUsage,
        DescriptorItem::UsageMinimum(u) => u is ExtendedUsage,
        DescriptorItem::UsageMaximum(u) => u is ExtendedUsage,
        DescriptorItem::Collection { ty } => match ty {
            CollectionType::VendorDefined(n) => n >= 128,
            _ => true,
        },
        _ => true,
    }
}

proof fn lemma_flag_byte0_bits(
    c: bool,
    var: bool,
    rel: bool,
    wrap: bool,
    nonlin: bool,
    nopref: bool,
    nul: bool,
    vol: bool,
)
    ensures
        u8_bit(flag_byte0(c, var, rel, wrap, nonlin, nopref, nul, vol), 7) == c,
        u8_bit(flag_byte0(c, var, rel, wrap, nonlin, nopref, nul, vol), 6) == var,
        u8_bit(flag_byte0(c, var, rel, wrap, nonlin, nopref, nul, vol), 5) == rel,
        u8_bit(flag_byte0(c, var, rel, wrap, nonlin, nopref, nul, vol), 4) == wrap,
        u8_bit(flag_byte0(c, var, rel, wrap, nonlin, nopref, nul, vol), 3) == nonlin,
        u8_bit(flag_byte0(c, var, rel, wrap, nonlin, nopref, nul, vol), 2) == nopref,
        u8_bit(flag_byte0(c, var, rel, wrap, nonlin, nopref, nul, vol), 1) == nul,
        u8_bit(flag_byte0(c, var, rel, wrap, nonlin, nopref, nul, vol), 0) == vol,
{
    let f = flag_byte0(c, var, rel, wrap, nonlin, nopref, nul, vol);
    assert({
        let b = (if c {
            0x80u8
        } else {
            0u8
        }) | (if var {
            0x40u8
        } else {
            0u8
        }) | (if rel {
            0x20u8
        } else {
            0u8
        }) | (if wrap {
            0x10u8
        } else {
            0u8
        }) | (if nonlin {
            0x08u8
        } else {
            0u8
        }) | (if nopref {
            0x04u8
        } else {
            0u8
        }) | (if nul {
            0x02u8
        } else {
            0u8
        }) | (if vol {
            0x01u8
        } else {
            0u8
        });
        ((b >> 7) & 1 == 1) == c && ((b >> 6) & 1 == 1) == var && ((b >> 5) & 1 == 1) == rel && ((b
            >> 4) & 1 == 1) == wrap && ((b >> 3) & 1 == 1) == nonlin && ((b >> 2) & 1 == 1)
            == nopref && ((b >> 1) & 1 == 1) == nul && ((b >> 0) & 1 == 1) == vol
    }) by (bit_vector);
}

proof fn lemma_low_byte_payload(b: u8)
    ensures
        u32_from_le(seq![b, 0u8, 0u8, 0u8]) == b as u32,
        u8_bit(b, 7) == (b >= 0x80),
{
    assert(((b as u32) | ((0u8 as u32) << 8) | ((0u8 as u32) << 16) | ((0u8 as u32) << 24)) == b
        as u32) by (bit_vector);
    assert(((b >> 7) & 1 == 1) == (b >= 0x80)) by (bit_vector);
}

proof fn lemma_u16_payload(v: u16)
    ensures
        u16_from_le(u16_le_bytes(v) + seq![0u8, 0u8]) == v,
{
    let d = u16_le_bytes(v) + seq![0u8, 0u8];
    assert(d[0] == (v & 0xff) as u8 && d[1] == ((v >> 8) & 0xff) as u8);
    lemma_u16_le_round_trip(v);
}

/// Round trip of the item codec: decoding an encoded item yields the item
/// back, for every item whose payload the fixed size-selection table treats
/// losslessly.
#[verifier::rlimit(100)]
#[verifier::spinoff_prover]
pub proof fn lemma_item_round_trip(item: DescriptorItem)
    requires
        item_round_trippable(item),
    ensures
        decode_item_bits(item_encoded_bits(item)) == Some(item),
{
    let d = item_data_bytes(item);
    let code = item_tag_code(item);
    let enc = item_encoded_bytes(item);
    assert(d.take(4) =~= d);
    assert(enc.len() == 5);
    lemma_bytes_to_bits_len(enc);
    lemma_bits_to_bytes_inverse(enc);
    let prefix = enc[0];
    assert(code < 64);
    assert((((code << 2) | 3) & 3) == 3 && (((code << 2) | 3) >> 2) == code) by (bit_vector)
        requires
            code < 64,
    ;
    assert(code & 3 == code % 4) by (bit_vector);
    assert(pad4(enc.skip(1)) =~= d);
    assert(decode_item_bits(item_encoded_bits(item)) == decode_payload(code, 4, d));
    match item {
        DescriptorItem::Input {
            constant,
            layout,
            relative,
            wrap,
            linear,
            preferred_state,
            null_state,
            buffered_bytes,
        } => {
            lemma_flag_byte0_bits(
                constant is Constant,
                layout is Variable,
                relative is Relative,
                wrap is Wrap,
                linear is NonLinear,
                preferred_state is NoPreferred,
                null_state is NullState,
                false,
            );
            assert(u8_bit(flag_byte1(buffered_bytes is BufferedBytes), 7) == (
            buffered_bytes is BufferedBytes)) by {
                lemma_low_byte_payload(flag_byte1(buffered_bytes is BufferedBytes));
            }
        },
        DescriptorItem::Output {
            constant,
            layout,
            relative,
            wrap,
            linear,
            preferred_state,
            null_state,
            volatile,
            buffered_bytes,
        } => {
            lemma_flag_byte0_bits(
                constant is Constant,
                layout is Variable,
                relative is Relative,
                wrap is Wrap,
                linear is NonLinear,
                preferred_state is NoPreferred,
                null_state is NullState,
                volatile is Volatile,
            );
            assert(u8_bit(flag_byte1(buffered_bytes is BufferedBytes), 7) == (
            buffered_bytes is BufferedBytes)) by {
                lemma_low_byte_payload(flag_byte1(buffered_bytes is BufferedBytes));
            }
        },
        DescriptorItem::Feature {
            constant,
            layout,
            relative,
            wrap,
            linear,
            preferred_state,
            null_state,
            volatile,
            buffered_bytes,
        } => {
            lemma_flag_byte0_bits(
                constant is Constant,
                layout is Variable,
                relative is Relative,
                wrap is Wrap,
                linear is NonLinear,
                preferred_state is NoPreferred,
                null_state is NullState,
                volatile is Volatile,
            );
            assert(u8_bit(flag_byte1(buffered_bytes is BufferedBytes), 7) == (
            buffered_bytes is BufferedBytes)) by {
                lemma_low_byte_payload(flag_byte1(buffered_bytes is BufferedBytes));
            }
        },
        DescriptorItem::Collection { ty } => {
            let tb = collection_type_byte(ty);
            lemma_low_byte_payload(tb);
            if let CollectionType::VendorDefined(n) = ty {
                assert((n as u32) as u8 == n) by (bit_vector);
            }
        },
        DescriptorItem::EndCollection => {},
        DescriptorItem::UsagePage(page) => {
            lemma_u16_payload(page);
        },
        DescriptorItem::LogicalMinimum(v) => {
            lemma_u32_le_round_trip(v as u32);
            assert((v as u32) as i32 == v) by (bit_vector);
        },
        DescriptorItem::LogicalMaximum(v) => {
            lemma_u32_le_round_trip(v as u32);
            assert((v as u32) as i32 == v) by (bit_vector);
        },
        DescriptorItem::PhysicalMinimum(v) => {
            lemma_u32_le_round_trip(v as u32);
            assert((v as u32) as i32 == v) by (bit_vector);
        },
        DescriptorItem::PhysicalMaximum(v) => {
            lemma_u32_le_round_trip(v as u32);
            assert((v as u32) as i32 == v) by (bit_vector);
        },
        DescriptorItem::UnitExponent(e) => {
            assert((e as u8) as i8 == e) by (bit_vector);
        },
        DescriptorItem::Unit(v) => {
            lemma_u32_le_round_trip(v);
        },
        DescriptorItem::ReportSize(v) => {
            lemma_u32_le_round_trip(v);
        },
        DescriptorItem::ReportId(id) => {},
        DescriptorItem::ReportCount(v) => {
            lemma_u32_le_round_trip(v);
        },
        DescriptorItem::Push => {},
        DescriptorItem::Pop => {},
        DescriptorItem::Usage(u) => {
            if let Usage::ExtendedUsage(x) = u {
                lemma_u32_le_round_trip(x);
            }
        },
        DescriptorItem::UsageMinimum(u) => {
            if let Usage::ExtendedUsage(x) = u {
                lemma_u32_le_round_trip(x);
            }
        },
        DescriptorItem::UsageMaximum(u) => {
            if let Usage::ExtendedUsage(x) = u {
                lemma_u32_le_round_trip(x);
            }
        },
        DescriptorItem::DesignatorIndex(v) => {
            lemma_u32_le_round_trip(v);
        },
        DescriptorItem::DesignatorMinimum(v) => {
            lemma_u32_le_round_trip(v);
        },
        DescriptorItem::DesignatorMaximum(v) => {
            lemma_u32_le_round_trip(v);
        },
        DescriptorItem::StringIndex(v) => {
            lemma_u32_le_round_trip(v);
        },
        DescriptorItem::StringMinimum(v) => {
            lemma_u32_le_round_trip(v);
        },
        DescriptorItem::StringMaximum(v) => {
            lemma_u32_le_round_trip(v);
        },
        DescriptorItem::Delimiter(flag) => {
            lemma_low_byte_payload(
                if flag is Open {
                    0x80u8
                } else {
                    0u8
                },
            );
        },
    }
}

} // verus!
