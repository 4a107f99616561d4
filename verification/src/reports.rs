use vstd::prelude::*;

use crate::bit_buffers::{lsb0_bits, LsbBitVec};
use crate::bits::{
    lemma_unreverse_chunks_len, reverse_chunk_vec, reverse_chunks, unreverse_chunk_vec,
    unreverse_chunks,
};
use crate::descriptors::{Report, ReportField};
use crate::HidError;

verus! {

// ---------------------------------------------------------------------------
// The report codec: runtime values packed against the bit layout a report
// declares. Fields pack consecutively in field order, least significant bit
// first, after an optional eight-bit report id; the finished buffer's
// byte-chunk order is reversed relative to fill order on both sides.
// ---------------------------------------------------------------------------

/// A runtime value paired with one report field; an absent value is the null
/// state.
#[derive(Debug, PartialEq, Eq, Clone, Copy)]
pub enum ReportFieldValue {
    UnsignedVariable(Option<u32>),
    SignedVariable(Option<i32>),
    Array(Option<u32>),
}

/// Two to the given power.
pub open spec fn pow2(n: nat) -> int
    decreases n,
{
    if n == 0 {
        1
    } else {
        2 * pow2((n - 1) as nat)
    }
}

pub proof fn lemma_pow2_pos(n: nat)
    ensures
        pow2(n) >= 1,
    decreases n,
{
    if n > 0 {
        lemma_pow2_pos((n - 1) as nat);
    }
}

pub proof fn lemma_pow2_mono(a: nat, b: nat)
    requires
        a <= b,
    ensures
        pow2(a) <= pow2(b),
    decreases b,
{
    if a < b {
        lemma_pow2_mono(a, (b - 1) as nat);
        lemma_pow2_pos((b - 1) as nat);
    }
}

pub proof fn lemma_pow2_32()
    ensures
        pow2(32) == 0x1_0000_0000,
{
    reveal_with_fuel(pow2, 33);
}

/// The low `w` bits of a nonnegative number, least significant first.
pub open spec fn int_to_bits(x: int, w: nat) -> Seq<bool>
    decreases w,
{
    if w == 0 {
        Seq::<bool>::empty()
    } else {
        seq![x % 2 == 1] + int_to_bits(x / 2, (w - 1) as nat)
    }
}

/// The number a bit sequence stands for, least significant bit first.
pub open spec fn le_bits_val(s: Seq<bool>) -> int
    decreases s.len(),
{
    if s.len() == 0 {
        0
    } else {
        (if s[0] {
            1int
        } else {
            0int
        }) + 2 * le_bits_val(s.skip(1))
    }
}

pub proof fn lemma_le_bits_val_bound(s: Seq<bool>)
    ensures
        0 <= le_bits_val(s) < pow2(s.len()),
    decreases s.len(),
{
    if s.len() > 0 {
        lemma_le_bits_val_bound(s.skip(1));
    }
}

/// Reading back the low bits of a number within range yields the number.
pub proof fn lemma_le_bits_of_int(x: int, w: nat)
    requires
        0 <= x < pow2(w),
    ensures
        le_bits_val(int_to_bits(x, w)) == x,
    decreases w,
{
    if w > 0 {
        let t = int_to_bits(x, w);
        assert(t.skip(1) =~= int_to_bits(x / 2, (w - 1) as nat));
        lemma_le_bits_of_int(x / 2, (w - 1) as nat);
    }
}

pub proof fn lemma_int_to_bits_len(x: int, w: nat)
    ensures
        int_to_bits(x, w).len() == w,
    decreases w,
{
    if w > 0 {
        lemma_int_to_bits_len(x / 2, (w - 1) as nat);
    }
}

// ---------------------------------------------------------------------------
// What is stored for one field.
// ---------------------------------------------------------------------------

/// A field's declared width in bits.
pub open spec fn field_size(f: ReportField) -> u32 {
    match f {
        ReportField::Variable { size, .. } => size,
        ReportField::Array { size, .. } => size,
    }
}

/// Whether every field's width is at least one bit and fits a 32-bit value.
pub open spec fn fields_sized(fields: Seq<ReportField>) -> bool {
    forall|k: int| 0 <= k < fields.len() ==> 1 <= #[trigger] field_size(fields[k]) <= 32
}

/// The position of the first occurrence of a usage in a range list, or -1.
pub open spec fn first_index(us: Seq<u32>, x: u32, i: int) -> int
    decreases us.len() - i,
{
    if i < 0 || i >= us.len() {
        -1
    } else if us[i] == x {
        i
    } else {
        first_index(us, x, i + 1)
    }
}

/// The unsigned null sentinel: 0 when the range starts above it, else one
/// past the maximum — fatal when the range spans the whole width.
pub open spec fn unsigned_sentinel(lmin: i32, lmax: i32, w: u32) -> Result<int, HidError> {
    if lmin != 0 {
        Ok(0)
    } else if ((lmax as u32) as int) >= pow2(w as nat) - 1 {
        Err(HidError::DegenerateRange)
    } else {
        Ok(((lmax as u32) as int) + 1)
    }
}

/// The raw number stored for one field and value pair. A signed value is
/// stored as its 32-bit two's-complement image; the width truncation happens
/// when the bits are laid down.
pub open spec fn write_field_raw(f: ReportField, v: ReportFieldValue) -> Result<int, HidError> {
    match (f, v) {
        (
            ReportField::Variable { size, logical_minimum, logical_maximum, .. },
            ReportFieldValue::UnsignedVariable(val),
        ) => {
            if !(logical_minimum >= 0 && logical_maximum >= 0) {
                Err(HidError::ShapeMismatch)
            } else {
                match val {
                    Some(x) => if x < logical_minimum as u32 || x > logical_maximum as u32 {
                        Err(HidError::RangeViolation)
                    } else {
                        Ok(x as int)
                    },
                    None => unsigned_sentinel(logical_minimum, logical_maximum, size),
                }
            }
        },
        (
            ReportField::Variable { size, logical_minimum, logical_maximum, .. },
            ReportFieldValue::SignedVariable(val),
        ) => {
            if !(logical_minimum < 0 || logical_maximum < 0) {
                Err(HidError::ShapeMismatch)
            } else {
                match val {
                    Some(x) => if x < logical_minimum || x > logical_maximum {
                        Err(HidError::RangeViolation)
                    } else {
                        Ok(((x as u32) as int)
                    )},
                    None => if (logical_minimum as int) >= -pow2(size as nat) + 1 {
                        Ok(((((logical_minimum as i64) - 1) as u32) as int))
                    } else if (logical_maximum as int) >= pow2(size as nat) - 1 {
                        Err(HidError::DegenerateRange)
                    } else {
                        Ok(((((logical_maximum as i64) + 1) as u32) as int))
                    },
                }
            }
        },
        (
            ReportField::Array { size, logical_minimum, logical_maximum, usage_range, .. },
            ReportFieldValue::Array(val),
        ) => {
            match val {
                Some(u) => {
                    let idx = first_index(usage_range@, u, 0);
                    if idx < 0 {
                        Err(HidError::UnresolvedUsage)
                    } else if idx + ((logical_minimum as u32) as int) > ((logical_maximum
                        as u32) as int) {
                        Err(HidError::RangeViolation)
                    } else {
                        Ok(idx + ((logical_minimum as u32) as int))
                    }
                },
                None => unsigned_sentinel(logical_minimum, logical_maximum, size),
            }
        },
        _ => Err(HidError::ShapeMismatch),
    }
}

/// The fill-order bit stream of the fields from position `i` on.
pub open spec fn fill_bits(
    fields: Seq<ReportField>,
    values: Seq<ReportFieldValue>,
    i: int,
) -> Result<Seq<bool>, HidError>
    decreases fields.len() - i,
{
    if i < 0 || i >= fields.len() {
        Ok(Seq::<bool>::empty())
    } else {
        match write_field_raw(fields[i], values[i]) {
            Err(e) => Err(e),
            Ok(raw) => match fill_bits(fields, values, i + 1) {
                Err(e) => Err(e),
                Ok(rest) => Ok(int_to_bits(raw, field_size(fields[i]) as nat) + rest),
            },
        }
    }
}

/// The buffer a report and its values produce: the id byte when the report
/// has one, every field's bits in order, then the byte-chunk reversal. A
/// value list of the wrong length is fatal.
pub open spec fn write_report_spec(r: Report, values: Seq<ReportFieldValue>) -> Result<
    Seq<bool>,
    HidError,
> {
    if r.fields@.len() != values.len() {
        Err(HidError::ShapeMismatch)
    } else {
        let id_bits = match r.id {
            Some(i) => int_to_bits(i as int, 8),
            None => Seq::<bool>::empty(),
        };
        match fill_bits(r.fields@, values, 0) {
            Err(e) => Err(e),
            Ok(body) => Ok(reverse_chunks(id_bits + body)),
        }
    }
}

// ---------------------------------------------------------------------------
// Reading.
// ---------------------------------------------------------------------------

/// The total bit count a report's fields declare.
pub open spec fn total_field_bits(fields: Seq<ReportField>, i: int) -> int
    decreases fields.len() - i,
{
    if i < 0 || i >= fields.len() {
        0
    } else {
        field_size(fields[i]) + total_field_bits(fields, i + 1)
    }
}

pub proof fn lemma_total_field_bits_nonneg(fields: Seq<ReportField>, i: int)
    ensures
        total_field_bits(fields, i) >= 0,
    decreases fields.len() - i,
{
    if 0 <= i < fields.len() {
        lemma_total_field_bits_nonneg(fields, i + 1);
    }
}

/// A stored number reinterpreted as a signed value of the given width.
pub open spec fn sign_val(seg: Seq<bool>) -> int {
    if le_bits_val(seg) >= pow2((seg.len() - 1) as nat) {
        le_bits_val(seg) - pow2(seg.len())
    } else {
        le_bits_val(seg)
    }
}

/// The value one field reads from its bit segment. An out-of-range stored
/// number is the null state, never an error; an in-range array index must
/// name a live usage-range entry.
pub open spec fn read_field(f: ReportField, seg: Seq<bool>) -> Result<ReportFieldValue, HidError> {
    match f {
        ReportField::Variable { logical_minimum, logical_maximum, .. } => {
            if logical_minimum < 0 || logical_maximum < 0 {
                let v = sign_val(seg);
                if v < logical_minimum || v > logical_maximum {
                    Ok(ReportFieldValue::SignedVariable(None))
                } else {
                    Ok(ReportFieldValue::SignedVariable(Some(v as i32)))
                }
            } else {
                let u = le_bits_val(seg);
                if u < ((logical_minimum as u32) as int) || u > ((logical_maximum as u32) as int) {
                    Ok(ReportFieldValue::UnsignedVariable(None))
                } else {
                    Ok(ReportFieldValue::UnsignedVariable(Some(u as u32)))
                }
            }
        },
        ReportField::Array { logical_minimum, logical_maximum, usage_range, .. } => {
            let u = le_bits_val(seg);
            if u < ((logical_minimum as u32) as int) || u > ((logical_maximum as u32) as int) {
                Ok(ReportFieldValue::Array(None))
            } else {
                let idx = u - ((logical_minimum as u32) as int);
                if idx >= usage_range@.len() {
                    Err(HidError::UnresolvedUsage)
                } else {
                    Ok(ReportFieldValue::Array(Some(usage_range@[idx])))
                }
            }
        },
    }
}

/// The values of the fields from position `i` on, read at the cursor.
pub open spec fn read_fields(
    fields: Seq<ReportField>,
    f: Seq<bool>,
    cursor: int,
    i: int,
) -> Result<Seq<ReportFieldValue>, HidError>
    decreases fields.len() - i,
{
    if i < 0 || i >= fields.len() {
        Ok(Seq::<ReportFieldValue>::empty())
    } else {
        let w = field_size(fields[i]) as int;
        match read_field(fields[i], f.subrange(cursor, cursor + w)) {
            Err(e) => Err(e),
            Ok(v) => match read_fields(fields, f, cursor + w, i + 1) {
                Err(e) => Err(e),
                Ok(rest) => Ok(seq![v] + rest),
            },
        }
    }
}

/// The bits a report's layout declares: an eight-bit id when it has one,
/// then every field at its width.
pub open spec fn report_declared_bits(r: Report) -> int {
    (if r.id is Some {
        8int
    } else {
        0int
    }) + total_field_bits(r.fields@, 0)
}

/// The values a report reads from a buffer: the byte-chunk order is undone,
/// then each field reads its segment in order after the id byte, one value
/// per field; bits beyond the declared layout are ignored.
pub open spec fn read_report_spec(r: Report, data: Seq<bool>) -> Result<
    Seq<ReportFieldValue>,
    HidError,
> {
    let f = unreverse_chunks(data);
    let id_bits: int = if r.id is Some {
        8int
    } else {
        0int
    };
    read_fields(r.fields@, f, id_bits, 0)
}

/// Whether a value's shape is the one its field expects: unsigned for a
/// nonnegative range, signed for a range with a negative bound, an array
/// value for an array field.
pub open spec fn value_matches_field(f: ReportField, v: ReportFieldValue) -> bool {
    match (f, v) {
        (
            ReportField::Variable { logical_minimum, logical_maximum, .. },
            ReportFieldValue::SignedVariable(_),
        ) => logical_minimum < 0 || logical_maximum < 0,
        (
            ReportField::Variable { logical_minimum, logical_maximum, .. },
            ReportFieldValue::UnsignedVariable(_),
        ) => logical_minimum >= 0 && logical_maximum >= 0,
        (ReportField::Array { .. }, ReportFieldValue::Array(_)) => true,
        _ => false,
    }
}

/// A successful read yields one value per remaining field, each of the shape
/// its field expects.
pub proof fn lemma_read_fields_shape(fields: Seq<ReportField>, f: Seq<bool>, cursor: int, i: int)
    requires
        0 <= i <= fields.len(),
        (read_fields(fields, f, cursor, i) is Ok),
    ensures
        read_fields(fields, f, cursor, i)->Ok_0.len() == fields.len() - i,
        forall|k: int|
            0 <= k < fields.len() - i ==> value_matches_field(
                fields[i + k],
                #[trigger] read_fields(fields, f, cursor, i)->Ok_0[k],
            ),
    decreases fields.len() - i,
{
    if i < fields.len() {
        let w = field_size(fields[i]) as int;
        lemma_read_fields_shape(fields, f, cursor + w, i + 1);
    }
}

} // verus!

verus! {

// ---------------------------------------------------------------------------
// Executable codec.
// ---------------------------------------------------------------------------

/// Two to the given power, as a machine word.
fn pow2_u64(w: u32) -> (r: u64)
    requires
        w <= 32,
    ensures
        r as int == pow2(w as nat),
{
    proof {
        lemma_pow2_32();
    }
    let mut acc: u64 = 1;
    let mut k: u32 = 0;
    while k < w
        invariant
            k <= w <= 32,
            acc as int == pow2(k as nat),
            pow2(32) == 0x1_0000_0000,
        decreases w - k,
    {
        proof {
            lemma_pow2_mono((k + 1) as nat, 32);
        }
        acc = acc * 2;
        k = k + 1;
    }
    acc
}

/// The low `w` bits of a number appended to the stream, least significant
/// first.
fn push_int_bits(out: &mut Vec<bool>, raw: u64, w: u32) -> (nothing: ())
    requires
        w <= 32,
    ensures
        final(out)@ == old(out)@ + int_to_bits(raw as int, w as nat),
{
    let ghost base = out@;
    let mut x: u64 = raw;
    let mut k: u32 = 0;
    while k < w
        invariant
            k <= w <= 32,
            int_to_bits(raw as int, w as nat) == out@.skip(base.len() as int) + int_to_bits(
                x as int,
                (w - k) as nat,
            ),
            out@.len() == base.len() + k,
            base == out@.take(base.len() as int),
        decreases w - k,
    {
        let ghost pre = out@;
        let ghost xpre = x;
        out.push(x % 2 == 1);
        x = x / 2;
        proof {
            assert(int_to_bits(xpre as int, (w - k) as nat) == seq![xpre as int % 2 == 1]
                + int_to_bits(xpre as int / 2, (w - k - 1) as nat));
            assert(out@.skip(base.len() as int) =~= pre.skip(base.len() as int) + seq![
                xpre as int % 2 == 1,
            ]);
            assert(out@.skip(base.len() as int) + int_to_bits(x as int, (w - k - 1) as nat) =~= (
            pre.skip(base.len() as int) + seq![xpre as int % 2 == 1]) + int_to_bits(
                x as int,
                (w - k - 1) as nat,
            ));
            assert((pre.skip(base.len() as int) + seq![xpre as int % 2 == 1]) + int_to_bits(
                x as int,
                (w - k - 1) as nat,
            ) =~= pre.skip(base.len() as int) + (seq![xpre as int % 2 == 1] + int_to_bits(
                x as int,
                (w - k - 1) as nat,
            )));
            assert(out@.take(base.len() as int) =~= base);
        }
        k = k + 1;
    }
    proof {
        assert(int_to_bits(x as int, 0) =~= Seq::<bool>::empty());
        assert(out@.skip(base.len() as int) + Seq::<bool>::empty() =~= out@.skip(
            base.len() as int,
        ));
        assert(out@ =~= base + out@.skip(base.len() as int));
    }
}

/// The number a bit segment stands for, least significant bit first.
fn seg_val(f: &Vec<bool>, lo: usize, w: usize) -> (r: u64)
    requires
        lo + w <= f@.len(),
        w <= 32,
    ensures
        r as int == le_bits_val(f@.subrange(lo as int, lo + w)),
        (r as int) < pow2(w as nat),
{
    let n = f.len();
    let ghost seg = f@.subrange(lo as int, lo + w);
    proof {
        assert(lo + w <= n);
        lemma_pow2_32();
    }
    let mut acc: u64 = 0;
    let mut k: usize = w;
    while k > 0
        invariant
            k <= w <= 32,
            lo + w <= n,
            n == f@.len(),
            seg == f@.subrange(lo as int, lo + w),
            acc as int == le_bits_val(seg.skip(k as int)),
            (acc as int) < pow2((w - k) as nat),
            pow2(32) == 0x1_0000_0000,
        decreases k,
    {
        k = k - 1;
        proof {
            lemma_pow2_mono((w - k) as nat, 32);
            assert(seg.skip(k as int).skip(1) =~= seg.skip(k + 1));
            assert(seg.skip(k as int)[0] == f@[lo + k]);
        }
        acc = 2 * acc + (if f[lo + k] {
            1
        } else {
            0
        });
    }
    proof {
        assert(seg.skip(0) =~= seg);
    }
    acc
}

/// The position of the first occurrence of a usage in a range list.
fn first_index_exec(us: &Vec<u32>, x: u32, i: usize) -> (r: Option<usize>)
    ensures
        (match r {
            Some(idx) => first_index(us@, x, i as int) == idx,
            None => first_index(us@, x, i as int) == -1,
        }),
    decreases us@.len() - i,
{
    if i >= us.len() {
        None
    } else if us[i] == x {
        Some(i)
    } else {
        first_index_exec(us, x, i + 1)
    }
}

/// The raw number stored for one field and value pair.
fn write_field_raw_exec(f: &ReportField, v: &ReportFieldValue) -> (r: Result<u64, HidError>)
    requires
        1 <= field_size(*f) <= 32,
    ensures
        (match r {
            Ok(raw) => write_field_raw(*f, *v) == Ok::<int, HidError>(raw as int),
            Err(e) => write_field_raw(*f, *v) == Err::<int, HidError>(e),
        }),
{
    match (f, v) {
        (
            ReportField::Variable { size, logical_minimum, logical_maximum, .. },
            ReportFieldValue::UnsignedVariable(val),
        ) => {
            if !(*logical_minimum >= 0 && *logical_maximum >= 0) {
                return Err(HidError::ShapeMismatch);
            }
            match val {
                Some(x) => {
                    if *x < (*logical_minimum) as u32 || *x > (*logical_maximum) as u32 {
                        Err(HidError::RangeViolation)
                    } else {
                        Ok(*x as u64)
                    }
                },
                None => {
                    proof {
                        lemma_pow2_pos(*size as nat);
                    }
                    if *logical_minimum != 0 {
                        Ok(0)
                    } else if ((*logical_maximum) as u32) as u64 >= pow2_u64(*size) - 1 {
                        Err(HidError::DegenerateRange)
                    } else {
                        Ok((((*logical_maximum) as u32) as u64) + 1)
                    }
                },
            }
        },
        (
            ReportField::Variable { size, logical_minimum, logical_maximum, .. },
            ReportFieldValue::SignedVariable(val),
        ) => {
            if !(*logical_minimum < 0 || *logical_maximum < 0) {
                return Err(HidError::ShapeMismatch);
            }
            match val {
                Some(x) => {
                    if *x < *logical_minimum || *x > *logical_maximum {
                        Err(HidError::RangeViolation)
                    } else {
                        Ok(((*x as u32) as u64))
                    }
                },
                None => {
                    proof {
                        lemma_pow2_pos(*size as nat);
                        lemma_pow2_mono(*size as nat, 32);
                        lemma_pow2_32();
                    }
                    let m = pow2_u64(*size) as i64;
                    if (*logical_minimum) as i64 >= -m + 1 {
                        Ok(((((*logical_minimum) as i64) - 1) as u32) as u64)
                    } else if (*logical_maximum) as i64 >= m - 1 {
                        Err(HidError::DegenerateRange)
                    } else {
                        Ok(((((*logical_maximum) as i64) + 1) as u32) as u64)
                    }
                },
            }
        },
        (
            ReportField::Array { size, logical_minimum, logical_maximum, usage_range, .. },
            ReportFieldValue::Array(val),
        ) => {
            match val {
                Some(u) => {
                    match first_index_exec(usage_range, *u, 0) {
                        None => Err(HidError::UnresolvedUsage),
                        Some(idx) => {
                            if idx as u64 > 0xffff_ffff {
                                proof {
                                    assert(first_index(usage_range@, *u, 0) + ((
                                    *logical_minimum as u32) as int) > (((*logical_maximum)
                                        as u32) as int));
                                }
                                Err(HidError::RangeViolation)
                            } else {
                                let value: u64 = idx as u64 + ((*logical_minimum) as u32) as u64;
                                if value > ((*logical_maximum) as u32) as u64 {
                                    Err(HidError::RangeViolation)
                                } else {
                                    Ok(value)
                                }
                            }
                        },
                    }
                },
                None => {
                    proof {
                        lemma_pow2_pos(*size as nat);
                    }
                    if *logical_minimum != 0 {
                        Ok(0)
                    } else if ((*logical_maximum) as u32) as u64 >= pow2_u64(*size) - 1 {
                        Err(HidError::DegenerateRange)
                    } else {
                        Ok((((*logical_maximum) as u32) as u64) + 1)
                    }
                },
            }
        },
        _ => Err(HidError::ShapeMismatch),
    }
}

/// The fill-order bit stream of the fields from position `i` on.
fn fill_exec(fields: &Vec<ReportField>, values: &Vec<ReportFieldValue>, i: usize) -> (r: Result<
    Vec<bool>,
    HidError,
>)
    requires
        fields@.len() == values@.len(),
        fields_sized(fields@),
    ensures
        (match r {
            Ok(v) => fill_bits(fields@, values@, i as int) == Ok::<Seq<bool>, HidError>(v@),
            Err(e) => fill_bits(fields@, values@, i as int) == Err::<Seq<bool>, HidError>(e),
        }),
    decreases fields@.len() - i,
{
    if i >= fields.len() {
        return Ok(Vec::new());
    }
    let w = match &fields[i] {
        ReportField::Variable { size, .. } => *size,
        ReportField::Array { size, .. } => *size,
    };
    match write_field_raw_exec(&fields[i], &values[i]) {
        Err(e) => Err(e),
        Ok(raw) => {
            let mut out: Vec<bool> = Vec::new();
            push_int_bits(&mut out, raw, w);
            match fill_exec(fields, values, i + 1) {
                Err(e) => Err(e),
                Ok(mut rest) => {
                    let ghost head = out@;
                    out.append(&mut rest);
                    proof {
                        assert(head =~= int_to_bits(
                            raw as int,
                            field_size(fields@[i as int]) as nat,
                        ));
                    }
                    Ok(out)
                },
            }
        },
    }
}

/// The buffer a report and its values produce; a value list of the wrong
/// length, a value out of its field's range, a usage outside an array's
/// range list, and a range with no room for a null sentinel are fatal.
pub fn write_report(report: &Report, values: &Vec<ReportFieldValue>) -> (r: Result<
    LsbBitVec,
    HidError,
>)
    requires
        fields_sized(report.fields@),
    ensures
        (match r {
            Ok(b) => write_report_spec(*report, values@) == Ok::<Seq<bool>, HidError>(
                lsb0_bits(b),
            ),
            Err(e) => write_report_spec(*report, values@) == Err::<Seq<bool>, HidError>(e),
        }),
{
    if report.fields.len() != values.len() {
        return Err(HidError::ShapeMismatch);
    }
    let mut fill: Vec<bool> = Vec::new();
    match report.id {
        Some(i) => {
            push_int_bits(&mut fill, i as u64, 8);
        },
        None => {},
    }
    let ghost id_bits = fill@;
    match fill_exec(&report.fields, values, 0) {
        Err(e) => Err(e),
        Ok(mut body) => {
            fill.append(&mut body);
            let rev = reverse_chunk_vec(&fill);
            proof {
                assert(fill@ == id_bits + fill_bits(report.fields@, values@, 0)->Ok_0);
            }
            Ok(LsbBitVec::from_bools(&rev))
        },
    }
}

/// The values of the fields from position `i` on, read at the cursor.
fn read_fields_exec(fields: &Vec<ReportField>, f: &Vec<bool>, cursor: usize, i: usize) -> (r:
    Result<Vec<ReportFieldValue>, HidError>)
    requires
        fields_sized(fields@),
        cursor + total_field_bits(fields@, i as int) <= f@.len(),
    ensures
        (match r {
            Ok(v) => read_fields(fields@, f@, cursor as int, i as int) == Ok::<
                Seq<ReportFieldValue>,
                HidError,
            >(v@),
            Err(e) => read_fields(fields@, f@, cursor as int, i as int) == Err::<
                Seq<ReportFieldValue>,
                HidError,
            >(e),
        }),
    decreases fields@.len() - i,
{
    if i >= fields.len() {
        return Ok(Vec::new());
    }
    let flen = f.len();
    proof {
        lemma_total_field_bits_nonneg(fields@, i + 1);
        lemma_pow2_32();
    }
    let value: Result<ReportFieldValue, HidError> = match &fields[i] {
        ReportField::Variable { size, logical_minimum, logical_maximum, .. } => {
            let w = *size as usize;
            if *logical_minimum < 0 || *logical_maximum < 0 {
                let acc = seg_val(f, cursor, w);
                proof {
                    lemma_pow2_mono(*size as nat, 32);
                    lemma_pow2_pos((*size - 1) as nat);
                }
                let half = pow2_u64(*size - 1);
                let v: i64 = if acc >= half {
                    acc as i64 - pow2_u64(*size) as i64
                } else {
                    acc as i64
                };
                proof {
                    lemma_pow2_mono((*size - 1) as nat, 31);
                    assert(pow2(31) * 2 == pow2(32));
                }
                if v < (*logical_minimum) as i64 || v > (*logical_maximum) as i64 {
                    Ok(ReportFieldValue::SignedVariable(None))
                } else {
                    Ok(ReportFieldValue::SignedVariable(Some(v as i32)))
                }
            } else {
                let acc = seg_val(f, cursor, w);
                proof {
                    lemma_pow2_mono(*size as nat, 32);
                }
                if acc < ((*logical_minimum) as u32) as u64 || acc > ((*logical_maximum)
                    as u32) as u64 {
                    Ok(ReportFieldValue::UnsignedVariable(None))
                } else {
                    Ok(ReportFieldValue::UnsignedVariable(Some(acc as u32)))
                }
            }
        },
        ReportField::Array { logical_minimum, logical_maximum, usage_range, size, .. } => {
            let w = *size as usize;
            let acc = seg_val(f, cursor, w);
            proof {
                lemma_pow2_mono(*size as nat, 32);
            }
            if acc < ((*logical_minimum) as u32) as u64 || acc > ((*logical_maximum)
                as u32) as u64 {
                Ok(ReportFieldValue::Array(None))
            } else {
                let idx = acc - ((*logical_minimum) as u32) as u64;
                if idx >= usage_range.len() as u64 {
                    Err(HidError::UnresolvedUsage)
                } else {
                    Ok(ReportFieldValue::Array(Some(usage_range[idx as usize])))
                }
            }
        },
    };
    let w = match &fields[i] {
        ReportField::Variable { size, .. } => *size as usize,
        ReportField::Array { size, .. } => *size as usize,
    };
    match value {
        Err(e) => Err(e),
        Ok(v) => {
            match read_fields_exec(fields, f, cursor + w, i + 1) {
                Err(e) => Err(e),
                Ok(rest) => {
                    let mut out: Vec<ReportFieldValue> = Vec::new();
                    out.push(v);
                    let mut rest2 = rest;
                    out.append(&mut rest2);
                    proof {
                        assert(out@ =~= seq![v] + read_fields(
                            fields@,
                            f@,
                            cursor + w,
                            i + 1,
                        )->Ok_0);
                    }
                    Ok(out)
                },
            }
        },
    }
}

/// The values a report reads from a buffer holding at least the declared
/// bits under a matching id byte: one value per field, bits beyond the layout
/// ignored. An out-of-range stored number reads back as absent; an in-range
/// array index naming no live usage-range entry is fatal.
pub fn read_report(report: &Report, data: &LsbBitVec) -> (r: Result<
    Vec<ReportFieldValue>,
    HidError,
>)
    requires
        fields_sized(report.fields@),
        lsb0_bits(*data).len() >= report_declared_bits(*report),
        (match report.id {
            Some(i) => le_bits_val(unreverse_chunks(lsb0_bits(*data)).take(8)) == i as int,
            None => true,
        }),
    ensures
        (match r {
            Ok(v) => read_report_spec(*report, lsb0_bits(*data)) == Ok::<
                Seq<ReportFieldValue>,
                HidError,
            >(v@) && v@.len() == report.fields@.len() && (forall|k: int|
                0 <= k < v@.len() ==> value_matches_field(report.fields@[k], #[trigger] v@[k])),
            Err(e) => read_report_spec(*report, lsb0_bits(*data)) == Err::<
                Seq<ReportFieldValue>,
                HidError,
            >(e),
        }),
{
    let bits = data.to_bools();
    let f = unreverse_chunk_vec(&bits);
    let idb: usize = match report.id {
        Some(_) => 8,
        None => 0,
    };
    proof {
        lemma_unreverse_chunks_len(lsb0_bits(*data));
        lemma_total_field_bits_nonneg(report.fields@, 0);
    }
    let r = read_fields_exec(&report.fields, &f, idb, 0);
    proof {
        if r is Ok {
            lemma_read_fields_shape(report.fields@, f@, idb as int, 0);
        }
    }
    r
}

} // verus!
