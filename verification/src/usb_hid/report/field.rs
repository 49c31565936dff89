//! The fields of a HID report, and reading their values out of report bytes.
//!
//! Bits are numbered from the least significant bit of the first byte: bit `i`
//! of a buffer is bit `i % 8` of byte `i / 8`.

use std::ops::Range;
use vstd::prelude::*;
use vstd::arithmetic::power2::{pow2, lemma2_to64, lemma_pow2_strictly_increases};
use vstd::bits::{lemma_u64_shl_is_mul, lemma_u64_pow2_no_overflow};
use crate::usb_hid::report::error::UsbHidReportError;
use crate::usb_hid::usage::HidUsage;
use crate::text::copy_vec;

verus! {

/// Bit `i` of a byte buffer.
pub open spec fn bit_at(buf: Seq<u8>, i: int) -> bool {
    (buf[i / 8] >> ((i % 8) as u8)) & 1u8 == 1u8
}

/// The number of bits in a bit range; an empty or reversed range holds none.
pub open spec fn range_len(bits: Range<u32>) -> nat {
    if bits.start < bits.end {
        (bits.end - bits.start) as nat
    } else {
        0
    }
}

/// The number of bytes needed to hold `n` bits.
pub open spec fn bytes_for_bits(n: int) -> int {
    (n + 7) / 8
}

/// The error, if any, that reading a field's bits out of a report meets: the
/// report starts with a different report ID, or is too short to hold the bits.
pub open spec fn extract_value_error(report_id: Option<u8>, bits: Range<u32>, buf: Seq<u8>) -> Option<
    UsbHidReportError,
> {
    if report_id is Some && report_id->0 != buf[0] {
        Some(UsbHidReportError::InvalidReportId)
    } else if buf.len() < bytes_for_bits(bits.end as int) {
        Some(UsbHidReportError::InvalidBufferSize)
    } else {
        None
    }
}

/// `value` holds the `len` bits of `buf` that start at bit `start`, as the low
/// bits of its first bytes, just as many bytes as needed, and zeros above.
pub open spec fn holds_bits(value: Seq<u8>, buf: Seq<u8>, start: int, len: nat) -> bool {
    &&& value.len() == bytes_for_bits(len as int)
    &&& forall|j: int|
        0 <= j < 8 * value.len() ==> #[trigger] bit_at(value, j) == (j < len && bit_at(
            buf,
            start + j,
        ))
}

proof fn lemma_set_bit(x: u8, bit: u8, b: u8, t: u8)
    requires
        bit <= 1,
        b < 8,
        t < 8,
    ensures
        ((x | (bit << b)) >> t) & 1u8 == (if t == b {
            ((x >> t) & 1u8) | bit
        } else {
            (x >> t) & 1u8
        }),
{
    assert(bit <= 1 && b < 8 && t < 8 ==> ((x | (bit << b)) >> t) & 1u8 == (if t == b {
        ((x >> t) & 1u8) | bit
    } else {
        (x >> t) & 1u8
    })) by (bit_vector);
}

proof fn lemma_low_bit(x: u8, s: u8)
    ensures
        (x >> s) & 1u8 <= 1,
        ((x >> s) & 1u8 == 1u8) || ((x >> s) & 1u8 == 0u8),
{
    assert((x >> s) & 1u8 <= 1) by (bit_vector);
    assert(((x >> s) & 1u8 == 1u8) || ((x >> s) & 1u8 == 0u8)) by (bit_vector);
}

proof fn lemma_zero_bits(t: u8)
    ensures
        (0u8 >> t) & 1u8 == 0u8,
{
    assert((0u8 >> t) & 1u8 == 0u8) by (bit_vector);
}

/// Reads the bits of a field out of a report, as `holds_bits` describes.
///
/// Fails with `InvalidReportId` when the field belongs to a numbered report and
/// the report's first byte is another number, else with `InvalidBufferSize` when
/// the report is too short to hold the field's last bit.
pub fn extract_value(report_id: Option<u8>, bits: &Range<u32>, buffer: &[u8]) -> (res: Result<
    Vec<u8>,
    UsbHidReportError,
>)
    requires
        report_id is Some ==> buffer@.len() > 0,
    ensures
        match res {
            Ok(value) => extract_value_error(report_id, *bits, buffer@) is None && holds_bits(
                value@,
                buffer@,
                bits.start as int,
                range_len(*bits),
            ),
            Err(e) => extract_value_error(report_id, *bits, buffer@) == Some(e),
        },
{
    if let Some(report_id) = report_id {
        if report_id != buffer[0] {
            return Err(UsbHidReportError::InvalidReportId);
        }
    }
    let needed_bytes: u32 = bits.end / 8 + if bits.end % 8 == 0 { 0 } else { 1 };
    if (buffer.len() as u64) < (needed_bytes as u64) {
        return Err(UsbHidReportError::InvalidBufferSize);
    }
    let len: u32 = if bits.start < bits.end { bits.end - bits.start } else { 0 };
    let value_bytes: usize = (len / 8 + if len % 8 == 0 { 0 } else { 1 }) as usize;
    let mut value: Vec<u8> = vec![0u8; value_bytes];
    proof {
        assert forall|j: int| 0 <= j < 8 * value@.len() implies #[trigger] bit_at(value@, j) == (j
            < 0 && bit_at(buffer@, bits.start + j)) by {
            lemma_zero_bits((j % 8) as u8);
        }
    }
    let mut i: u32 = 0;
    while i < len
        invariant
            len == range_len(*bits),
            i <= len,
            bits.start + len <= bits.end || len == 0,
            value@.len() == bytes_for_bits(len as int),
            buffer@.len() >= bytes_for_bits(bits.end as int),
            forall|j: int|
                0 <= j < 8 * value@.len() ==> #[trigger] bit_at(value@, j) == (j < i && bit_at(
                    buffer@,
                    bits.start + j,
                )),
        decreases len - i,
    {
        let buffer_bit_index: u32 = bits.start + i;
        let buffer_byte_index: usize = (buffer_bit_index / 8) as usize;
        let value_byte_index: usize = (i / 8) as usize;
        let buffer_bit: u8 = (buffer[buffer_byte_index] >> ((buffer_bit_index % 8) as u8)) & 1;
        let value_mask: u8 = buffer_bit << ((i % 8) as u8);
        let old_byte: u8 = value[value_byte_index];
        let ghost old_value = value@;
        value.set(value_byte_index, old_byte | value_mask);
        proof {
            lemma_low_bit(buffer[buffer_byte_index as int], (buffer_bit_index % 8) as u8);
            assert(bit_at(buffer@, bits.start + i) == (buffer_bit == 1u8));
            assert forall|j: int| 0 <= j < 8 * value@.len() implies #[trigger] bit_at(value@, j) == (j
                < i + 1 && bit_at(buffer@, bits.start + j)) by {
                assert(bit_at(old_value, j) == (j < i && bit_at(buffer@, bits.start + j)));
                if j / 8 == i / 8 {
                    let t = (j % 8) as u8;
                    lemma_set_bit(old_byte, buffer_bit, (i % 8) as u8, t);
                    assert(value@[j / 8] == old_byte | value_mask);
                    assert(old_value[j / 8] == old_byte);
                    if j % 8 == i % 8 {
                        assert(j == i);
                        lemma_low_bit(old_byte, t);
                        assert((old_byte >> t) & 1u8 == 0u8);
                        assert(0u8 | buffer_bit == buffer_bit) by (bit_vector);
                    } else {
                        assert(j != i);
                    }
                } else {
                    assert(value@[j / 8] == old_value[j / 8]);
                }
            }
        }
        i = i + 1;
    }
    Ok(value)
}

} // verus!

verus! {

/// The unsigned number formed by the `len` bits of `buf` from bit `start` on,
/// the first of them the least significant.
pub open spec fn bits_value(buf: Seq<u8>, start: int, len: nat) -> nat
    decreases len,
{
    if len == 0 {
        0
    } else {
        bits_value(buf, start, (len - 1) as nat) + if bit_at(buf, start + len - 1) {
            pow2((len - 1) as nat)
        } else {
            0
        }
    }
}

/// The logical value stored in a field of `width` bits: the bits read as an
/// unsigned number, or as a two's-complement number when the logical minimum
/// is negative.
pub open spec fn logical_value_of(buf: Seq<u8>, start: int, width: nat, logical_minimum: i32) -> int {
    let raw = bits_value(buf, start, width) as int;
    if logical_minimum < 0 && width > 0 && bit_at(buf, start + width - 1) {
        raw - pow2(width)
    } else {
        raw
    }
}

/// The largest logical value a field accepts: the logical maximum, read as an
/// unsigned 32-bit number when the logical minimum is not negative.
pub open spec fn logical_upper_bound(logical_minimum: i32, logical_maximum: i32) -> int {
    if logical_minimum < 0 {
        logical_maximum as int
    } else {
        (logical_maximum as u32) as int
    }
}

/// Whether reading the logical value of a field looks at the report bytes:
/// not for a field wider than 32 bits, nor for a logical range whose maximum
/// is not above its minimum.
pub open spec fn logical_value_reads_buffer(bits: Range<u32>, logical_minimum: Option<i32>, logical_maximum: Option<i32>) -> bool {
    range_len(bits) <= 32 && !(logical_minimum is Some && logical_maximum is Some && logical_maximum->0
        <= logical_minimum->0)
}

/// What reading the logical value of a field gives.
///
/// Fields wider than 32 bits have none. A logical range whose maximum is not
/// above its minimum is an error, then come the errors of reading the bits.
/// Without both logical bounds there is no value. A value outside the bounds
/// is an error when `validate_value_range` holds, and no value otherwise.
pub open spec fn spec_extract_logical_value(
    report_id: Option<u8>,
    bits: Range<u32>,
    logical_minimum: Option<i32>,
    logical_maximum: Option<i32>,
    buf: Seq<u8>,
    validate_value_range: bool,
) -> Result<Option<i64>, UsbHidReportError> {
    let width = range_len(bits);
    if width > 32 {
        Ok(None)
    } else if logical_minimum is Some && logical_maximum is Some && logical_maximum->0
        <= logical_minimum->0 {
        Err(UsbHidReportError::InvalidLogicalValueRange)
    } else if extract_value_error(report_id, bits, buf) is Some {
        Err(extract_value_error(report_id, bits, buf)->0)
    } else if logical_minimum is None || logical_maximum is None {
        Ok(None)
    } else {
        let value = logical_value_of(buf, bits.start as int, width, logical_minimum->0);
        if logical_minimum->0 <= value <= logical_upper_bound(
            logical_minimum->0,
            logical_maximum->0,
        ) {
            Ok(Some(value as i64))
        } else if validate_value_range {
            Err(UsbHidReportError::LogicalValueOutOfRange)
        } else {
            Ok(None)
        }
    }
}

proof fn lemma_accumulate_bit(raw: u64, bit: u64, j: u64, next: u64)
    requires
        j < 32,
        next == j + 1,
        bit <= 1,
        raw < (1u64 << j),
    ensures
        raw | (bit << j) == raw + bit * (1u64 << j),
        raw | (bit << j) < (1u64 << next),
{
    assert(j < 32 && bit <= 1 && raw < (1u64 << j) ==> raw | (bit << j) == raw + bit * (1u64
        << j)) by (bit_vector);
    assert(j < 32 && next == j + 1 && bit <= 1 && raw < (1u64 << j) ==> raw | (bit << j) < (1u64
        << next)) by (bit_vector);
}

proof fn lemma_one_shl(j: u64)
    requires
        j < 64,
    ensures
        (1u64 << j) == pow2(j as nat),
{
    lemma_u64_pow2_no_overflow(j as nat);
    lemma_u64_shl_is_mul(1u64, j);
}

/// The number formed by the low `width` bits of a value that `holds_bits`.
fn value_bits_as_number(value: &Vec<u8>, width: u32, Ghost(buf): Ghost<Seq<u8>>, Ghost(start): Ghost<int>) -> (raw: u64)
    requires
        width <= 32,
        holds_bits(value@, buf, start, width as nat),
    ensures
        raw == bits_value(buf, start, width as nat),
        raw < pow2(width as nat),
{
    let mut raw: u64 = 0;
    let mut j: u32 = 0;
    proof {
        lemma_one_shl(0);
        lemma2_to64();
    }
    while j < width
        invariant
            j <= width <= 32,
            holds_bits(value@, buf, start, width as nat),
            raw == bits_value(buf, start, j as nat),
            raw < (1u64 << (j as u64)),
        decreases width - j,
    {
        let bit: u8 = (value[(j / 8) as usize] >> ((j % 8) as u8)) & 1;
        proof {
            lemma_low_bit(value@[(j / 8) as int], (j % 8) as u8);
            assert(bit_at(value@, j as int) == bit_at(buf, start + j));
            lemma_accumulate_bit(raw, bit as u64, j as u64, (j + 1) as u64);
            lemma_one_shl(j as u64);
            assert(bits_value(buf, start, (j + 1) as nat) == bits_value(buf, start, j as nat) + if bit_at(buf, start + j) {
                pow2(j as nat)
            } else {
                0
            });
        }
        raw = raw | ((bit as u64) << (j as u64));
        j = j + 1;
    }
    proof {
        lemma_one_shl(width as u64);
    }
    raw
}

/// Reads the logical value of a field, as `spec_extract_logical_value` says.
pub fn extract_logical_value(
    report_id: Option<u8>,
    bits: &Range<u32>,
    logical_minimum: Option<i32>,
    logical_maximum: Option<i32>,
    buffer: &[u8],
    validate_value_range: bool,
) -> (res: Result<Option<i64>, UsbHidReportError>)
    requires
        report_id is Some && logical_value_reads_buffer(*bits, logical_minimum, logical_maximum) ==> buffer@.len() > 0,
    ensures
        res == spec_extract_logical_value(
            report_id,
            *bits,
            logical_minimum,
            logical_maximum,
            buffer@,
            validate_value_range,
        ),
{
    let value_width: u32 = if bits.start < bits.end { bits.end - bits.start } else { 0 };
    if value_width > 32 {
        return Ok(None);
    }
    if let (Some(minimum), Some(maximum)) = (logical_minimum, logical_maximum) {
        if maximum <= minimum {
            return Err(UsbHidReportError::InvalidLogicalValueRange);
        }
    }
    let value = match extract_value(report_id, bits, buffer) {
        Ok(value) => value,
        Err(e) => return Err(e),
    };
    let logical_minimum: i32 = match logical_minimum {
        Some(minimum) => minimum,
        None => return Ok(None),
    };
    let logical_maximum: i64 = match logical_maximum {
        Some(maximum) => if logical_minimum < 0 {
            maximum as i64
        } else {
            (maximum as u32) as i64
        },
        None => return Ok(None),
    };
    let raw: u64 = value_bits_as_number(&value, value_width, Ghost(buffer@), Ghost(bits.start as int));
    proof {
        lemma2_to64();
        if value_width < 32 {
            lemma_pow2_strictly_increases(value_width as nat, 32);
        }
        assert(pow2(value_width as nat) <= 0x1_0000_0000);
    }
    let value_negative: bool = if value_width > 0 {
        let msb: u32 = value_width - 1;
        let bit: u8 = (value[(msb / 8) as usize] >> ((msb % 8) as u8)) & 1;
        proof {
            lemma_low_bit(value@[(msb / 8) as int], (msb % 8) as u8);
            assert(bit_at(value@, msb as int) == bit_at(buffer@, bits.start + msb));
        }
        bit == 1
    } else {
        false
    };
    let logical_value: i64 = if logical_minimum < 0 && value_negative {
        proof {
            lemma_one_shl(value_width as u64);
        }
        (raw as i64) - ((1u64 << (value_width as u64)) as i64)
    } else {
        raw as i64
    };
    if logical_value < logical_minimum as i64 || logical_value > logical_maximum {
        if validate_value_range {
            Err(UsbHidReportError::LogicalValueOutOfRange)
        } else {
            Ok(None)
        }
    } else {
        Ok(Some(logical_value))
    }
}

} // verus!

verus! {

/// A field of a HID report.
pub enum UsbHidReportField {
    Variable(UsbHidReportVariableField),
    Array(UsbHidReportArrayField),
    Padding(UsbHidReportPaddingField),
}

/// A field that holds one value of one usage.
pub struct UsbHidReportVariableField {
    pub is_constant: bool,
    pub report_id: Option<u8>,
    pub usage: HidUsage,
    pub designator_index: Option<u32>,
    pub string_index: Option<u32>,
    pub bits: Range<u32>,
    pub logical_minimum: Option<i32>,
    pub logical_maximum: Option<i32>,
    pub physical_minimum: Option<i32>,
    pub physical_maximum: Option<i32>,
    /// The raw value of the Unit Exponent item.
    pub unit_exponent: Option<i32>,
    /// The 32-bit value of the Unit item.
    pub unit: Option<u32>,
}

/// A field that holds the index of one of several usages.
pub struct UsbHidReportArrayField {
    pub is_constant: bool,
    pub report_id: Option<u8>,
    pub usages: Vec<HidUsage>,
    pub designator_indices: Vec<u32>,
    pub string_indices: Vec<u32>,
    pub bits: Range<u32>,
    pub logical_minimum: Option<i32>,
    pub logical_maximum: Option<i32>,
}

/// Bits that carry no value.
pub struct UsbHidReportPaddingField {
    pub bits: Range<u32>,
}

impl UsbHidReportField {
    /// The bit range of the field within its report.
    pub open spec fn spec_bits(&self) -> Range<u32> {
        match self {
            UsbHidReportField::Variable(variable_field) => variable_field.bits,
            UsbHidReportField::Array(array_field) => array_field.bits,
            UsbHidReportField::Padding(padding_field) => padding_field.bits,
        }
    }

    /// The number of bits in the field.
    pub fn size_in_bits(&self) -> (size: usize)
        ensures
            size == range_len(self.spec_bits()),
    {
        let bits = self.bits();
        if bits.start < bits.end {
            (bits.end - bits.start) as usize
        } else {
            0
        }
    }

    pub fn bits(&self) -> (bits: &Range<u32>)
        ensures
            *bits == self.spec_bits(),
    {
        match self {
            UsbHidReportField::Variable(variable_field) => &variable_field.bits,
            UsbHidReportField::Array(array_field) => &array_field.bits,
            UsbHidReportField::Padding(padding_field) => &padding_field.bits,
        }
    }
}

/// A Unit Exponent value read as a 4-bit signed number where its upper bits
/// are all zero: 8 to 15 stand for -8 to -1, every other value for itself.
pub open spec fn remapped_as_i4(raw: i32) -> i32 {
    if 8 <= raw <= 15 {
        (raw - 16) as i32
    } else {
        raw
    }
}

/// `hid_types::id::UnitExponent::remap_as_i4`, which the crate documents and
/// implements as `remapped_as_i4` states.
#[verifier::external_body]
fn unit_exponent_remap_as_i4(raw: i32) -> (exponent: i32)
    ensures
        exponent == remapped_as_i4(raw),
{
    hid_types::id::UnitExponent(raw).remap_as_i4()
}

/// The integers from which the physical value of a variable field follows:
/// `physical_minimum + (logical_value - logical_minimum) / (logical_maximum -
/// logical_minimum) * (physical_maximum - physical_minimum)`, times ten to the
/// power `unit_exponent`.
#[derive(Debug, Clone, Copy, PartialEq, Eq, Structural)]
pub struct UsbHidPhysicalScaling {
    pub logical_value: i64,
    pub logical_minimum: i64,
    pub logical_maximum: i64,
    pub physical_minimum: i64,
    pub physical_maximum: i64,
    pub unit_exponent: i32,
}

/// What reading the physical scaling of a variable field gives.
///
/// The logical value is read with its range checked; without it, or without
/// both logical bounds, there is no scaling. The physical range is the one the
/// field declares unless either bound is missing or both are zero, and then it
/// is the logical range. A logical range whose maximum is not above its
/// minimum is an error, then a physical range of that kind. The exponent is the
/// field's Unit Exponent read as `remapped_as_i4` says, or zero.
pub open spec fn spec_extract_physical_scaling(field: UsbHidReportVariableField, buf: Seq<u8>) -> Result<
    Option<UsbHidPhysicalScaling>,
    UsbHidReportError,
> {
    match spec_extract_logical_value(
        field.report_id,
        field.bits,
        field.logical_minimum,
        field.logical_maximum,
        buf,
        true,
    ) {
        Err(e) => Err(e),
        Ok(None) => Ok(None),
        Ok(Some(logical_value)) => {
            if field.logical_minimum is None || field.logical_maximum is None {
                Ok(None)
            } else {
                let logical_minimum = field.logical_minimum->0 as i64;
                let logical_maximum = field.logical_maximum->0 as i64;
                let declared = field.physical_minimum is Some && field.physical_maximum is Some && (
                field.physical_minimum->0 != 0 || field.physical_maximum->0 != 0);
                let physical_minimum = if declared {
                    field.physical_minimum->0 as i64
                } else {
                    logical_minimum
                };
                let physical_maximum = if declared {
                    field.physical_maximum->0 as i64
                } else {
                    logical_maximum
                };
                if logical_maximum <= logical_minimum {
                    Err(UsbHidReportError::InvalidLogicalValueRange)
                } else if physical_maximum <= physical_minimum {
                    Err(UsbHidReportError::InvalidPhysicalValueRange)
                } else {
                    Ok(
                        Some(
                            UsbHidPhysicalScaling {
                                logical_value,
                                logical_minimum,
                                logical_maximum,
                                physical_minimum,
                                physical_maximum,
                                unit_exponent: match field.unit_exponent {
                                    Some(raw) => remapped_as_i4(raw),
                                    None => 0,
                                },
                            },
                        ),
                    )
                }
            }
        },
    }
}

impl UsbHidReportVariableField {
    pub fn extract_value(&self, buffer: &[u8]) -> (res: Result<Vec<u8>, UsbHidReportError>)
        requires
            self.report_id is Some ==> buffer@.len() > 0,
        ensures
            match res {
                Ok(value) => extract_value_error(self.report_id, self.bits, buffer@) is None
                    && holds_bits(value@, buffer@, self.bits.start as int, range_len(self.bits)),
                Err(e) => extract_value_error(self.report_id, self.bits, buffer@) == Some(e),
            },
    {
        extract_value(self.report_id, &self.bits, buffer)
    }

    /// The logical value, with its range checked.
    pub fn extract_logical_value(&self, buffer: &[u8]) -> (res: Result<Option<i64>, UsbHidReportError>)
        requires
            self.report_id is Some && logical_value_reads_buffer(self.bits, self.logical_minimum, self.logical_maximum)
                ==> buffer@.len() > 0,
        ensures
            res == spec_extract_logical_value(
                self.report_id,
                self.bits,
                self.logical_minimum,
                self.logical_maximum,
                buffer@,
                true,
            ),
    {
        extract_logical_value(
            self.report_id,
            &self.bits,
            self.logical_minimum,
            self.logical_maximum,
            buffer,
            true,
        )
    }

    /// The integers that the physical value is computed from.
    pub fn extract_physical_scaling(&self, buffer: &[u8]) -> (res: Result<
        Option<UsbHidPhysicalScaling>,
        UsbHidReportError,
    >)
        requires
            self.report_id is Some && logical_value_reads_buffer(self.bits, self.logical_minimum, self.logical_maximum)
                ==> buffer@.len() > 0,
        ensures
            res == spec_extract_physical_scaling(*self, buffer@),
    {
        let logical_value = match self.extract_logical_value(buffer) {
            Err(e) => return Err(e),
            Ok(None) => return Ok(None),
            Ok(Some(logical_value)) => logical_value,
        };
        let logical_minimum: i64 = match self.logical_minimum {
            Some(minimum) => minimum as i64,
            None => return Ok(None),
        };
        let logical_maximum: i64 = match self.logical_maximum {
            Some(maximum) => maximum as i64,
            None => return Ok(None),
        };
        let (physical_minimum, physical_maximum): (i64, i64) = match (
            self.physical_minimum,
            self.physical_maximum,
        ) {
            (Some(physical_minimum), Some(physical_maximum)) => {
                if physical_minimum != 0 || physical_maximum != 0 {
                    (physical_minimum as i64, physical_maximum as i64)
                } else {
                    (logical_minimum, logical_maximum)
                }
            },
            _ => (logical_minimum, logical_maximum),
        };
        if logical_maximum <= logical_minimum {
            return Err(UsbHidReportError::InvalidLogicalValueRange);
        }
        if physical_maximum <= physical_minimum {
            return Err(UsbHidReportError::InvalidPhysicalValueRange);
        }
        let unit_exponent: i32 = match self.unit_exponent {
            Some(raw) => unit_exponent_remap_as_i4(raw),
            None => 0,
        };
        Ok(
            Some(
                UsbHidPhysicalScaling {
                    logical_value,
                    logical_minimum,
                    logical_maximum,
                    physical_minimum,
                    physical_maximum,
                    unit_exponent,
                },
            ),
        )
    }
}

impl UsbHidReportArrayField {
    pub fn extract_value(&self, buffer: &[u8]) -> (res: Result<Vec<u8>, UsbHidReportError>)
        requires
            self.report_id is Some ==> buffer@.len() > 0,
        ensures
            match res {
                Ok(value) => extract_value_error(self.report_id, self.bits, buffer@) is None
                    && holds_bits(value@, buffer@, self.bits.start as int, range_len(self.bits)),
                Err(e) => extract_value_error(self.report_id, self.bits, buffer@) == Some(e),
            },
    {
        extract_value(self.report_id, &self.bits, buffer)
    }

    /// The logical value; one outside the logical range is no value.
    pub fn extract_logical_value(&self, buffer: &[u8]) -> (res: Result<Option<i64>, UsbHidReportError>)
        requires
            self.report_id is Some && logical_value_reads_buffer(self.bits, self.logical_minimum, self.logical_maximum)
                ==> buffer@.len() > 0,
        ensures
            res == spec_extract_logical_value(
                self.report_id,
                self.bits,
                self.logical_minimum,
                self.logical_maximum,
                buffer@,
                false,
            ),
    {
        extract_logical_value(
            self.report_id,
            &self.bits,
            self.logical_minimum,
            self.logical_maximum,
            buffer,
            false,
        )
    }
}

} // verus!

verus! {

/// What an array field holds, with its lists as sequences.
pub struct UsbHidReportArrayFieldView {
    pub is_constant: bool,
    pub report_id: Option<u8>,
    pub usages: Seq<HidUsage>,
    pub designator_indices: Seq<u32>,
    pub string_indices: Seq<u32>,
    pub bits: Range<u32>,
    pub logical_minimum: Option<i32>,
    pub logical_maximum: Option<i32>,
}

/// What a report field holds.
pub enum UsbHidReportFieldView {
    Variable(UsbHidReportVariableField),
    Array(UsbHidReportArrayFieldView),
    Padding(UsbHidReportPaddingField),
}

impl UsbHidReportFieldView {
    pub open spec fn bits(self) -> Range<u32> {
        match self {
            UsbHidReportFieldView::Variable(f) => f.bits,
            UsbHidReportFieldView::Array(f) => f.bits,
            UsbHidReportFieldView::Padding(f) => f.bits,
        }
    }
}

impl View for UsbHidReportArrayField {
    type V = UsbHidReportArrayFieldView;

    open spec fn view(&self) -> UsbHidReportArrayFieldView {
        UsbHidReportArrayFieldView {
            is_constant: self.is_constant,
            report_id: self.report_id,
            usages: self.usages@,
            designator_indices: self.designator_indices@,
            string_indices: self.string_indices@,
            bits: self.bits,
            logical_minimum: self.logical_minimum,
            logical_maximum: self.logical_maximum,
        }
    }
}

impl View for UsbHidReportField {
    type V = UsbHidReportFieldView;

    open spec fn view(&self) -> UsbHidReportFieldView {
        match self {
            UsbHidReportField::Variable(f) => UsbHidReportFieldView::Variable(*f),
            UsbHidReportField::Array(f) => UsbHidReportFieldView::Array(f@),
            UsbHidReportField::Padding(f) => UsbHidReportFieldView::Padding(*f),
        }
    }
}

impl UsbHidReportVariableField {
    pub fn duplicate(&self) -> (r: Self)
        ensures
            r == *self,
    {
        UsbHidReportVariableField {
            is_constant: self.is_constant,
            report_id: self.report_id,
            usage: self.usage,
            designator_index: self.designator_index,
            string_index: self.string_index,
            bits: self.bits.start..self.bits.end,
            logical_minimum: self.logical_minimum,
            logical_maximum: self.logical_maximum,
            physical_minimum: self.physical_minimum,
            physical_maximum: self.physical_maximum,
            unit_exponent: self.unit_exponent,
            unit: self.unit,
        }
    }
}

impl UsbHidReportArrayField {
    pub fn duplicate(&self) -> (r: Self)
        ensures
            r@ == self@,
    {
        UsbHidReportArrayField {
            is_constant: self.is_constant,
            report_id: self.report_id,
            usages: copy_vec(&self.usages),
            designator_indices: copy_vec(&self.designator_indices),
            string_indices: copy_vec(&self.string_indices),
            bits: self.bits.start..self.bits.end,
            logical_minimum: self.logical_minimum,
            logical_maximum: self.logical_maximum,
        }
    }
}

impl UsbHidReportField {
    pub fn duplicate(&self) -> (r: Self)
        ensures
            r@ == self@,
    {
        match self {
            UsbHidReportField::Variable(f) => UsbHidReportField::Variable(f.duplicate()),
            UsbHidReportField::Array(f) => UsbHidReportField::Array(f.duplicate()),
            UsbHidReportField::Padding(f) => UsbHidReportField::Padding(
                UsbHidReportPaddingField { bits: f.bits.start..f.bits.end },
            ),
        }
    }
}

} // verus!

verus! {

/// A logical value read from a field lies within the field's logical bounds:
/// at least the logical minimum, at most the logical maximum (read as an
/// unsigned number where the minimum is not negative).
pub proof fn lemma_logical_value_within_bounds(
    report_id: Option<u8>,
    bits: Range<u32>,
    logical_minimum: Option<i32>,
    logical_maximum: Option<i32>,
    buf: Seq<u8>,
    validate_value_range: bool,
    value: i64,
)
    requires
        spec_extract_logical_value(report_id, bits, logical_minimum, logical_maximum, buf, validate_value_range)
            == Ok::<Option<i64>, UsbHidReportError>(Some(value)),
    ensures
        logical_minimum is Some,
        logical_maximum is Some,
        logical_minimum->0 <= value <= logical_upper_bound(logical_minimum->0, logical_maximum->0),
{
}

} // verus!

verus! {

/// The physical scaling of a variable field scales over the physical range
/// that the field declares whenever it declares both bounds and they are not
/// both zero, and over its logical range otherwise; its logical value is the
/// field's logical value, its logical range the field's, and its exponent the
/// field's Unit Exponent read as a 4-bit signed number (zero without one).
pub proof fn lemma_physical_scaling_uses_declared_range(field: UsbHidReportVariableField, buf: Seq<u8>)
    requires
        spec_extract_physical_scaling(field, buf) is Ok,
        spec_extract_physical_scaling(field, buf)->Ok_0 is Some,
    ensures
        ({
            let scaling = spec_extract_physical_scaling(field, buf)->Ok_0->Some_0;
            &&& field.logical_minimum == Some(scaling.logical_minimum as i32)
            &&& field.logical_maximum == Some(scaling.logical_maximum as i32)
            &&& spec_extract_logical_value(field.report_id, field.bits, field.logical_minimum, field.logical_maximum, buf, true)
                == Ok::<Option<i64>, UsbHidReportError>(Some(scaling.logical_value))
            &&& field.physical_minimum is Some && field.physical_maximum is Some && (field.physical_minimum->0 != 0
                || field.physical_maximum->0 != 0) ==> scaling.physical_minimum == field.physical_minimum->0
                && scaling.physical_maximum == field.physical_maximum->0
            &&& !(field.physical_minimum is Some && field.physical_maximum is Some && (field.physical_minimum->0 != 0
                || field.physical_maximum->0 != 0)) ==> scaling.physical_minimum == scaling.logical_minimum
                && scaling.physical_maximum == scaling.logical_maximum
            &&& scaling.logical_minimum < scaling.logical_maximum
            &&& scaling.physical_minimum < scaling.physical_maximum
            &&& scaling.unit_exponent == match field.unit_exponent {
                Some(raw) => if 8 <= raw <= 15 { raw - 16 } else { raw as int },
                None => 0,
            }
        }),
{
}

} // verus!
