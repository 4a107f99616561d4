use vstd::prelude::*;

use crate::descriptor_items::{
    CollectionType, DelimiterFlag, DescriptorItem, ReportBufferedBytesFlag, ReportConstantFlag,
    ReportLayoutFlag, ReportLinearFlag, ReportNullStateFlag, ReportPreferredStateFlag,
    ReportRelativeFlag, ReportVolatileFlag, ReportWrapFlag, Usage,
};
use crate::usage_table::{
    resolve_usage, resolve_usage_spec, usage_id_of, usage_page_of, usage_table_has,
};
use crate::HidError;

verus! {

// ---------------------------------------------------------------------------
// The declarative model a descriptor is compiled from.
// ---------------------------------------------------------------------------

#[derive(Debug, PartialEq, Eq, Clone, Copy, Structural)]
pub enum ReportType {
    Input,
    Output,
    Feature,
}

/// One field of a report: a bit-packed scalar, or a bit-packed index into a
/// list of usages.
#[derive(Debug, PartialEq, Eq, Clone)]
pub enum ReportField {
    Variable {
        size: u32,
        logical_minimum: i32,
        logical_maximum: i32,
        physical_minimum: Option<i32>,
        physical_maximum: Option<i32>,
        unit_exponent: Option<i8>,
        unit: Option<u32>,
        usages: Option<Vec<u32>>,
        constant: bool,
        relative: bool,
        wrap: bool,
        linear: bool,
        preferred_state: bool,
        null_state: bool,
        volatile: Option<bool>,
        buffered_bytes: bool,
    },
    Array {
        size: u32,
        logical_minimum: i32,
        logical_maximum: i32,
        usage_range: Vec<u32>,
        constant: bool,
        relative: bool,
    },
}

/// The eleven global values in force while compiling; an item is emitted only
/// when it would change one of them.
#[derive(Debug, PartialEq, Eq, Clone, Copy)]
pub struct GlobalState {
    pub usage_page: Option<u16>,
    pub logical_minimum: Option<i32>,
    pub logical_maximum: Option<i32>,
    pub physical_minimum: Option<i32>,
    pub physical_maximum: Option<i32>,
    pub unit_exponent: Option<i8>,
    pub unit: Option<u32>,
    pub report_size: Option<u32>,
    pub report_id: Option<u8>,
    pub report_count: Option<u32>,
}

/// The state with nothing in force.
pub open spec fn initial_global_state() -> GlobalState {
    GlobalState {
        usage_page: None,
        logical_minimum: None,
        logical_maximum: None,
        physical_minimum: None,
        physical_maximum: None,
        unit_exponent: None,
        unit: None,
        report_size: None,
        report_id: None,
        report_count: None,
    }
}

impl Default for GlobalState {
    /// The state with nothing in force.
    fn default() -> (r: Self)
        ensures
            r == initial_global_state(),
    {
        GlobalState {
            usage_page: None,
            logical_minimum: None,
            logical_maximum: None,
            physical_minimum: None,
            physical_maximum: None,
            unit_exponent: None,
            unit: None,
            report_size: None,
            report_id: None,
            report_count: None,
        }
    }
}

/// An ordered list of fields sharing a type tag and an optional report id.
#[derive(Debug, PartialEq, Eq, Clone)]
pub struct Report {
    pub ty: ReportType,
    pub id: Option<u8>,
    pub fields: Vec<ReportField>,
}

/// A collection: a type tag, an optional usage of its own, and ordered
/// children.
#[derive(Debug, PartialEq, Eq)]
pub struct Collection {
    pub ty: CollectionType,
    pub usage: Option<u32>,
    pub items: Vec<MainItem>,
}

#[derive(Debug, PartialEq, Eq)]
pub enum MainItem {
    Report(Report),
    Collection(Collection),
}

/// The root of the declarative model: an ordered list of top-level items.
#[derive(Debug, PartialEq, Eq)]
pub struct Descriptor {
    pub items: Vec<MainItem>,
}

// ---------------------------------------------------------------------------
// Grouping: fields are partitioned into maximal contiguous runs sharing
// identical attributes. Variable runs may differ in their per-field usage
// lists; array runs must be identical throughout; a variable/array boundary
// always breaks a run.
// ---------------------------------------------------------------------------

/// Whether two adjacent fields belong to the same run.
pub open spec fn same_group_spec(a: ReportField, b: ReportField) -> bool {
    match (a, b) {
        (
            ReportField::Variable {
                size: s1,
                logical_minimum: lmin1,
                logical_maximum: lmax1,
                physical_minimum: pmin1,
                physical_maximum: pmax1,
                unit_exponent: ue1,
                unit: u1,
                usages: _,
                constant: c1,
                relative: r1,
                wrap: w1,
                linear: li1,
                preferred_state: ps1,
                null_state: ns1,
                volatile: v1,
                buffered_bytes: bb1,
            },
            ReportField::Variable {
                size: s2,
                logical_minimum: lmin2,
                logical_maximum: lmax2,
                physical_minimum: pmin2,
                physical_maximum: pmax2,
                unit_exponent: ue2,
                unit: u2,
                usages: _,
                constant: c2,
                relative: r2,
                wrap: w2,
                linear: li2,
                preferred_state: ps2,
                null_state: ns2,
                volatile: v2,
                buffered_bytes: bb2,
            },
        ) => s1 == s2 && lmin1 == lmin2 && lmax1 == lmax2 && pmin1 == pmin2 && pmax1 == pmax2
            && ue1 == ue2 && u1 == u2 && c1 == c2 && r1 == r2 && w1 == w2 && li1 == li2 && ps1
            == ps2 && ns1 == ns2 && v1 == v2 && bb1 == bb2,
        (
            ReportField::Array {
                size: s1,
                logical_minimum: lmin1,
                logical_maximum: lmax1,
                usage_range: ur1,
                constant: c1,
                relative: r1,
            },
            ReportField::Array {
                size: s2,
                logical_minimum: lmin2,
                logical_maximum: lmax2,
                usage_range: ur2,
                constant: c2,
                relative: r2,
            },
        ) => s1 == s2 && lmin1 == lmin2 && lmax1 == lmax2 && ur1@ == ur2@ && c1 == c2 && r1 == r2,
        _ => false,
    }
}

/// The end of the run that starts before position `j`: the first position at
/// or after `j` that opens a new run, or the end of the list.
pub open spec fn run_end(fields: Seq<ReportField>, j: int) -> int
    decreases fields.len() - j,
{
    if j < 0 || j >= fields.len() || !same_group_spec(fields[j - 1], fields[j]) {
        j
    } else {
        run_end(fields, j + 1)
    }
}

pub proof fn lemma_run_end_bounds(fields: Seq<ReportField>, j: int)
    requires
        0 <= j <= fields.len(),
    ensures
        j <= run_end(fields, j) <= fields.len(),
    decreases fields.len() - j,
{
    if !(j >= fields.len() || !same_group_spec(fields[j - 1], fields[j])) {
        lemma_run_end_bounds(fields, j + 1);
    }
}

// ---------------------------------------------------------------------------
// Executable comparisons.
// ---------------------------------------------------------------------------

fn opt_i32_eq(a: &Option<i32>, b: &Option<i32>) -> (r: bool)
    ensures
        r == (*a == *b),
{
    match (a, b) {
        (Some(x), Some(y)) => *x == *y,
        (None, None) => true,
        _ => false,
    }
}

fn opt_i8_eq(a: &Option<i8>, b: &Option<i8>) -> (r: bool)
    ensures
        r == (*a == *b),
{
    match (a, b) {
        (Some(x), Some(y)) => *x == *y,
        (None, None) => true,
        _ => false,
    }
}

fn opt_u32_eq(a: &Option<u32>, b: &Option<u32>) -> (r: bool)
    ensures
        r == (*a == *b),
{
    match (a, b) {
        (Some(x), Some(y)) => *x == *y,
        (None, None) => true,
        _ => false,
    }
}

fn opt_bool_eq(a: &Option<bool>, b: &Option<bool>) -> (r: bool)
    ensures
        r == (*a == *b),
{
    match (a, b) {
        (Some(x), Some(y)) => *x == *y,
        (None, None) => true,
        _ => false,
    }
}

fn vec_u32_eq(a: &Vec<u32>, b: &Vec<u32>) -> (r: bool)
    ensures
        r == (a@ == b@),
{
    if a.len() != b.len() {
        return false;
    }
    let mut i: usize = 0;
    while i < a.len()
        invariant
            i <= a.len(),
            a@.len() == b@.len(),
            forall|k: int| 0 <= k < i ==> a@[k] == b@[k],
        decreases a.len() - i,
    {
        if a[i] != b[i] {
            return false;
        }
        i = i + 1;
    }
    proof {
        assert(a@ =~= b@);
    }
    true
}

/// Whether two adjacent fields belong to the same run.
fn same_group(a: &ReportField, b: &ReportField) -> (r: bool)
    ensures
        r == same_group_spec(*a, *b),
{
    match (a, b) {
        (
            ReportField::Variable {
                size: s1,
                logical_minimum: lmin1,
                logical_maximum: lmax1,
                physical_minimum: pmin1,
                physical_maximum: pmax1,
                unit_exponent: ue1,
                unit: u1,
                usages: _,
                constant: c1,
                relative: r1,
                wrap: w1,
                linear: li1,
                preferred_state: ps1,
                null_state: ns1,
                volatile: v1,
                buffered_bytes: bb1,
            },
            ReportField::Variable {
                size: s2,
                logical_minimum: lmin2,
                logical_maximum: lmax2,
                physical_minimum: pmin2,
                physical_maximum: pmax2,
                unit_exponent: ue2,
                unit: u2,
                usages: _,
                constant: c2,
                relative: r2,
                wrap: w2,
                linear: li2,
                preferred_state: ps2,
                null_state: ns2,
                volatile: v2,
                buffered_bytes: bb2,
            },
        ) => *s1 == *s2 && *lmin1 == *lmin2 && *lmax1 == *lmax2 && opt_i32_eq(pmin1, pmin2)
            && opt_i32_eq(pmax1, pmax2) && opt_i8_eq(ue1, ue2) && opt_u32_eq(u1, u2) && *c1 == *c2
            && *r1 == *r2 && *w1 == *w2 && *li1 == *li2 && *ps1 == *ps2 && *ns1 == *ns2
            && opt_bool_eq(v1, v2) && *bb1 == *bb2,
        (
            ReportField::Array {
                size: s1,
                logical_minimum: lmin1,
                logical_maximum: lmax1,
                usage_range: ur1,
                constant: c1,
                relative: r1,
            },
            ReportField::Array {
                size: s2,
                logical_minimum: lmin2,
                logical_maximum: lmax2,
                usage_range: ur2,
                constant: c2,
                relative: r2,
            },
        ) => *s1 == *s2 && *lmin1 == *lmin2 && *lmax1 == *lmax2 && vec_u32_eq(ur1, ur2) && *c1
            == *c2 && *r1 == *r2,
        _ => false,
    }
}

} // verus!

verus! {

// ---------------------------------------------------------------------------
// Emission model. Compilation is a fold: every step takes the global state in
// force and yields the items it emits together with the new state. A global
// item is emitted only when its value differs from the one in force; local
// usage items are always emitted.
// ---------------------------------------------------------------------------

/// The usage-page item, emitted only when the page is not already in force.
pub open spec fn emit_usage_page(st: GlobalState, page: u16) -> (Seq<DescriptorItem>, GlobalState) {
    if st.usage_page != Some(page) {
        (
            seq![DescriptorItem::UsagePage(page)],
            GlobalState { usage_page: Some(page), ..st },
        )
    } else {
        (Seq::<DescriptorItem>::empty(), st)
    }
}

/// One usage emitted on its own: its page when changed, then its id.
pub open spec fn emit_one_usage(st: GlobalState, raw: u32) -> Result<
    (Seq<DescriptorItem>, GlobalState),
    HidError,
> {
    if !usage_table_has(raw) {
        Err(HidError::UnresolvedUsage)
    } else {
        let (s, st1) = emit_usage_page(st, usage_page_of(raw));
        Ok((s.push(DescriptorItem::Usage(Usage::Usage(usage_id_of(raw)))), st1))
    }
}

/// A list of usages emitted one by one, from position `i` on.
pub open spec fn emit_usage_list(us: Seq<u32>, i: int, st: GlobalState) -> Result<
    (Seq<DescriptorItem>, GlobalState),
    HidError,
>
    decreases us.len() - i,
{
    if i < 0 || i >= us.len() {
        Ok((Seq::<DescriptorItem>::empty(), st))
    } else {
        match emit_one_usage(st, us[i]) {
            Err(e) => Err(e),
            Ok((s1, st1)) => match emit_usage_list(us, i + 1, st1) {
                Err(e) => Err(e),
                Ok((s2, st2)) => Ok((s1 + s2, st2)),
            },
        }
    }
}

/// Whether the usages continue one page-contiguous ascending sequence from
/// position `i` on; resolution stops at the first break, and an unresolvable
/// usage reached before it is fatal.
pub open spec fn contiguous_from(us: Seq<u32>, i: int) -> Result<bool, HidError>
    decreases us.len() - i,
{
    if i < 1 || i >= us.len() {
        Ok(true)
    } else if !usage_table_has(us[i - 1]) || !usage_table_has(us[i]) {
        Err(HidError::UnresolvedUsage)
    } else if usage_id_of(us[i - 1]) + 1 != usage_id_of(us[i]) || usage_page_of(us[i - 1])
        != usage_page_of(us[i]) {
        Ok(false)
    } else {
        contiguous_from(us, i + 1)
    }
}

/// All the usages a contiguous run promises are known to the table.
pub proof fn lemma_contiguous_resolves(us: Seq<u32>, i: int)
    requires
        1 <= i,
        contiguous_from(us, i) == Result::<bool, HidError>::Ok(true),
    ensures
        i < us.len() ==> forall|k: int| i - 1 <= k < us.len() ==> usage_table_has(us[k]),
    decreases us.len() - i,
{
    if i < us.len() {
        lemma_contiguous_resolves(us, i + 1);
    }
}

/// Whether a field is a variable field declaring a usage list.
pub open spec fn field_has_usage_list(f: ReportField) -> bool {
    match f {
        ReportField::Variable { usages, .. } => usages is Some,
        _ => false,
    }
}

/// The usage list a variable field declares.
pub open spec fn usage_set_at(fields: Seq<ReportField>, k: int) -> Seq<u32> {
    match fields[k] {
        ReportField::Variable { usages: Some(us), .. } => us@,
        _ => Seq::<u32>::empty(),
    }
}

/// The per-field usage lists of the run `[lo, hi)`.
pub open spec fn usage_sets_view(fields: Seq<ReportField>, lo: int, hi: int) -> Seq<Seq<u32>> {
    Seq::new((hi - lo) as nat, |k: int| usage_set_at(fields, lo + k))
}

/// All the lists joined in order.
pub open spec fn concat_all(sets: Seq<Seq<u32>>) -> Seq<u32>
    decreases sets.len(),
{
    if sets.len() == 0 {
        Seq::<u32>::empty()
    } else {
        sets[0] + concat_all(sets.skip(1))
    }
}

/// Usage sets emitted one by one: a set of several candidates is wrapped in
/// delimiters, and emission stops early once every remaining set repeats the
/// one just emitted.
pub open spec fn emit_usage_sets(sets: Seq<Seq<u32>>, i: int, st: GlobalState) -> Result<
    (Seq<DescriptorItem>, GlobalState),
    HidError,
>
    decreases sets.len() - i,
{
    if i < 0 || i >= sets.len() {
        Ok((Seq::<DescriptorItem>::empty(), st))
    } else {
        let set = sets[i];
        match emit_usage_list(set, 0, st) {
            Err(e) => Err(e),
            Ok((s1, st1)) => {
                let wrapped = if set.len() != 1 {
                    seq![DescriptorItem::Delimiter(DelimiterFlag::Open)] + s1 + seq![
                        DescriptorItem::Delimiter(DelimiterFlag::Close),
                    ]
                } else {
                    s1
                };
                if forall|j: int| i <= j < sets.len() ==> #[trigger] sets[j] == set {
                    Ok((wrapped, st1))
                } else {
                    match emit_usage_sets(sets, i + 1, st1) {
                        Err(e) => Err(e),
                        Ok((s2, st2)) => Ok((wrapped + s2, st2)),
                    }
                }
            },
        }
    }
}

/// The usage emission of a variable run: nothing when the first field
/// declares no usages; a page-contiguous ascending sequence covering a run of
/// more than one field becomes a usage range; anything else is emitted set by
/// set. A field without a list, or with an empty one, in a run that declares
/// usages is fatal.
pub open spec fn emit_variable_usages(
    fields: Seq<ReportField>,
    lo: int,
    hi: int,
    st: GlobalState,
) -> Result<(Seq<DescriptorItem>, GlobalState), HidError> {
    if !field_has_usage_list(fields[lo]) {
        Ok((Seq::<DescriptorItem>::empty(), st))
    } else if exists|k: int| lo <= k < hi && !field_has_usage_list(fields[k]) {
        Err(HidError::ShapeMismatch)
    } else if exists|k: int| lo <= k < hi && usage_set_at(fields, k).len() == 0 {
        Err(HidError::ShapeMismatch)
    } else {
        let sets = usage_sets_view(fields, lo, hi);
        let all = concat_all(sets);
        let cont = if hi - lo == all.len() {
            contiguous_from(all, 1)
        } else {
            Ok(false)
        };
        match cont {
            Err(e) => Err(e),
            Ok(c) => if c && hi - lo > 1 {
                let (s0, st0) = emit_usage_page(st, usage_page_of(all[0]));
                Ok(
                    (
                        s0 + seq![
                            DescriptorItem::UsageMinimum(Usage::Usage(usage_id_of(all[0]))),
                            DescriptorItem::UsageMaximum(
                                Usage::Usage(usage_id_of(all[all.len() - 1])),
                            ),
                        ],
                        st0,
                    ),
                )
            } else {
                emit_usage_sets(sets, 0, st)
            },
        }
    }
}

/// The report-count item, emitted only when the count changes.
pub open spec fn emit_count(st: GlobalState, n: u32) -> (Seq<DescriptorItem>, GlobalState) {
    if st.report_count != Some(n) {
        (
            seq![DescriptorItem::ReportCount(n)],
            GlobalState { report_count: Some(n), ..st },
        )
    } else {
        (Seq::<DescriptorItem>::empty(), st)
    }
}

/// The global items of a variable run, each emitted only where its value
/// differs from the one in force; an absent optional value is written as 0
/// whenever the state is not already exactly absent.
pub open spec fn emit_variable_globals(st: GlobalState, f: ReportField) -> (
    Seq<DescriptorItem>,
    GlobalState,
) {
    match f {
        ReportField::Variable {
            size,
            logical_minimum,
            logical_maximum,
            physical_minimum,
            physical_maximum,
            unit_exponent,
            unit,
            ..
        } => {
            let (s1, st1) = if st.report_size != Some(size) {
                (
                    seq![DescriptorItem::ReportSize(size)],
                    GlobalState { report_size: Some(size), ..st },
                )
            } else {
                (Seq::<DescriptorItem>::empty(), st)
            };
            let (s2, st2) = if st1.logical_minimum != Some(logical_minimum) {
                (
                    seq![DescriptorItem::LogicalMinimum(logical_minimum)],
                    GlobalState { logical_minimum: Some(logical_minimum), ..st1 },
                )
            } else {
                (Seq::<DescriptorItem>::empty(), st1)
            };
            let (s3, st3) = if st2.logical_maximum != Some(logical_maximum) {
                (
                    seq![DescriptorItem::LogicalMaximum(logical_maximum)],
                    GlobalState { logical_maximum: Some(logical_maximum), ..st2 },
                )
            } else {
                (Seq::<DescriptorItem>::empty(), st2)
            };
            let (s4, st4) = if st3.physical_minimum != physical_minimum {
                (
                    seq![
                        DescriptorItem::PhysicalMinimum(
                            match physical_minimum {
                                Some(v) => v,
                                None => 0,
                            },
                        ),
                    ],
                    GlobalState { physical_minimum: physical_minimum, ..st3 },
                )
            } else {
                (Seq::<DescriptorItem>::empty(), st3)
            };
            let (s5, st5) = if st4.physical_maximum != physical_maximum {
                (
                    seq![
                        DescriptorItem::PhysicalMaximum(
                            match physical_maximum {
                                Some(v) => v,
                                None => 0,
                            },
                        ),
                    ],
                    GlobalState { physical_maximum: physical_maximum, ..st4 },
                )
            } else {
                (Seq::<DescriptorItem>::empty(), st4)
            };
            let (s6, st6) = if st5.unit_exponent != unit_exponent {
                (
                    seq![
                        DescriptorItem::UnitExponent(
                            match unit_exponent {
                                Some(v) => v,
                                None => 0,
                            },
                        ),
                    ],
                    GlobalState { unit_exponent: unit_exponent, ..st5 },
                )
            } else {
                (Seq::<DescriptorItem>::empty(), st5)
            };
            let (s7, st7) = if st6.unit != unit {
                (
                    seq![
                        DescriptorItem::Unit(
                            match unit {
                                Some(v) => v,
                                None => 0,
                            },
                        ),
                    ],
                    GlobalState { unit: unit, ..st6 },
                )
            } else {
                (Seq::<DescriptorItem>::empty(), st6)
            };
            (s1 + s2 + s3 + s4 + s5 + s6 + s7, st7)
        },
        _ => (Seq::<DescriptorItem>::empty(), st),
    }
}

/// The global items of an array run: size and logical range only.
pub open spec fn emit_array_globals(st: GlobalState, f: ReportField) -> (
    Seq<DescriptorItem>,
    GlobalState,
) {
    match f {
        ReportField::Array { size, logical_minimum, logical_maximum, .. } => {
            let (s1, st1) = if st.report_size != Some(size) {
                (
                    seq![DescriptorItem::ReportSize(size)],
                    GlobalState { report_size: Some(size), ..st },
                )
            } else {
                (Seq::<DescriptorItem>::empty(), st)
            };
            let (s2, st2) = if st1.logical_minimum != Some(logical_minimum) {
                (
                    seq![DescriptorItem::LogicalMinimum(logical_minimum)],
                    GlobalState { logical_minimum: Some(logical_minimum), ..st1 },
                )
            } else {
                (Seq::<DescriptorItem>::empty(), st1)
            };
            let (s3, st3) = if st2.logical_maximum != Some(logical_maximum) {
                (
                    seq![DescriptorItem::LogicalMaximum(logical_maximum)],
                    GlobalState { logical_maximum: Some(logical_maximum), ..st2 },
                )
            } else {
                (Seq::<DescriptorItem>::empty(), st2)
            };
            (s1 + s2 + s3, st3)
        },
        _ => (Seq::<DescriptorItem>::empty(), st),
    }
}

/// The usage emission of an array run: an empty usage range is fatal; a
/// page-contiguous ascending range becomes a usage range, anything else is
/// emitted usage by usage.
pub open spec fn emit_array_usages(st: GlobalState, f: ReportField) -> Result<
    (Seq<DescriptorItem>, GlobalState),
    HidError,
> {
    match f {
        ReportField::Array { usage_range, .. } => {
            let ur = usage_range@;
            if ur.len() == 0 {
                Err(HidError::ShapeMismatch)
            } else {
                match contiguous_from(ur, 1) {
                    Err(e) => Err(e),
                    Ok(c) => if c {
                        if !usage_table_has(ur[0]) || !usage_table_has(ur[ur.len() - 1]) {
                            Err(HidError::UnresolvedUsage)
                        } else {
                        let (s0, st0) = emit_usage_page(st, usage_page_of(ur[0]));
                        Ok(
                            (
                                s0 + seq![
                                    DescriptorItem::UsageMinimum(Usage::Usage(usage_id_of(ur[0]))),
                                    DescriptorItem::UsageMaximum(
                                        Usage::Usage(usage_id_of(ur[ur.len() - 1])),
                                    ),
                                ],
                                st0,
                            ),
                        )
                        }
                    } else {
                        emit_usage_list(ur, 0, st)
                    },
                }
            }
        },
        _ => Err(HidError::ShapeMismatch),
    }
}

/// The main item of a variable run; an output or feature field must say
/// whether it is volatile.
pub open spec fn variable_main_item(ty: ReportType, f: ReportField) -> Result<
    DescriptorItem,
    HidError,
> {
    match f {
        ReportField::Variable {
            constant,
            relative,
            wrap,
            linear,
            preferred_state,
            null_state,
            volatile,
            buffered_bytes,
            ..
        } => {
            let c = if constant {
                ReportConstantFlag::Constant
            } else {
                ReportConstantFlag::Data
            };
            let rel = if relative {
                ReportRelativeFlag::Relative
            } else {
                ReportRelativeFlag::Absolute
            };
            let w = if wrap {
                ReportWrapFlag::Wrap
            } else {
                ReportWrapFlag::NoWrap
            };
            let lin = if linear {
                ReportLinearFlag::Linear
            } else {
                ReportLinearFlag::NonLinear
            };
            let ps = if preferred_state {
                ReportPreferredStateFlag::PreferredState
            } else {
                ReportPreferredStateFlag::NoPreferred
            };
            let ns = if null_state {
                ReportNullStateFlag::NullState
            } else {
                ReportNullStateFlag::NoNullPosition
            };
            let bb = if buffered_bytes {
                ReportBufferedBytesFlag::BufferedBytes
            } else {
                ReportBufferedBytesFlag::BitField
            };
            match ty {
                ReportType::Input => Ok(
                    DescriptorItem::Input {
                        constant: c,
                        layout: ReportLayoutFlag::Variable,
                        relative: rel,
                        wrap: w,
                        linear: lin,
                        preferred_state: ps,
                        null_state: ns,
                        buffered_bytes: bb,
                    },
                ),
                ReportType::Output => match volatile {
                    None => Err(HidError::ShapeMismatch),
                    Some(v) => Ok(
                        DescriptorItem::Output {
                            constant: c,
                            layout: ReportLayoutFlag::Variable,
                            relative: rel,
                            wrap: w,
                            linear: lin,
                            preferred_state: ps,
                            null_state: ns,
                            volatile: if v {
                                ReportVolatileFlag::Volatile
                            } else {
                                ReportVolatileFlag::NonVolatile
                            },
                            buffered_bytes: bb,
                        },
                    ),
                },
                ReportType::Feature => match volatile {
                    None => Err(HidError::ShapeMismatch),
                    Some(v) => Ok(
                        DescriptorItem::Feature {
                            constant: c,
                            layout: ReportLayoutFlag::Variable,
                            relative: rel,
                            wrap: w,
                            linear: lin,
                            preferred_state: ps,
                            null_state: ns,
                            volatile: if v {
                                ReportVolatileFlag::Volatile
                            } else {
                                ReportVolatileFlag::NonVolatile
                            },
                            buffered_bytes: bb,
                        },
                    ),
                },
            }
        },
        _ => Err(HidError::ShapeMismatch),
    }
}

/// The main item of an array run: its wrap, linearity, preferred-state,
/// null-state, volatility and buffering flags are forced, whatever the field
/// declares.
pub open spec fn array_main_item(ty: ReportType, f: ReportField) -> DescriptorItem {
    let c = match f {
        ReportField::Array { constant, .. } => if constant {
            ReportConstantFlag::Constant
        } else {
            ReportConstantFlag::Data
        },
        _ => ReportConstantFlag::Data,
    };
    let rel = match f {
        ReportField::Array { relative, .. } => if relative {
            ReportRelativeFlag::Relative
        } else {
            ReportRelativeFlag::Absolute
        },
        _ => ReportRelativeFlag::Absolute,
    };
    match ty {
        ReportType::Input => DescriptorItem::Input {
            constant: c,
            layout: ReportLayoutFlag::Array,
            relative: rel,
            wrap: ReportWrapFlag::NoWrap,
            linear: ReportLinearFlag::Linear,
            preferred_state: ReportPreferredStateFlag::PreferredState,
            null_state: ReportNullStateFlag::NoNullPosition,
            buffered_bytes: ReportBufferedBytesFlag::BitField,
        },
        ReportType::Output => DescriptorItem::Output {
            constant: c,
            layout: ReportLayoutFlag::Array,
            relative: rel,
            wrap: ReportWrapFlag::NoWrap,
            linear: ReportLinearFlag::Linear,
            preferred_state: ReportPreferredStateFlag::PreferredState,
            null_state: ReportNullStateFlag::NoNullPosition,
            volatile: ReportVolatileFlag::NonVolatile,
            buffered_bytes: ReportBufferedBytesFlag::BitField,
        },
        ReportType::Feature => DescriptorItem::Feature {
            constant: c,
            layout: ReportLayoutFlag::Array,
            relative: rel,
            wrap: ReportWrapFlag::NoWrap,
            linear: ReportLinearFlag::Linear,
            preferred_state: ReportPreferredStateFlag::PreferredState,
            null_state: ReportNullStateFlag::NoNullPosition,
            volatile: ReportVolatileFlag::NonVolatile,
            buffered_bytes: ReportBufferedBytesFlag::BitField,
        },
    }
}

/// One run compiled: the count when changed, the run's globals, its usages,
/// then the main item.
pub open spec fn emit_group(
    ty: ReportType,
    fields: Seq<ReportField>,
    lo: int,
    hi: int,
    st: GlobalState,
) -> Result<(Seq<DescriptorItem>, GlobalState), HidError> {
    let (sc, st1) = emit_count(st, (hi - lo) as u32);
    match fields[lo] {
        ReportField::Variable { .. } => {
            let (sg, st2) = emit_variable_globals(st1, fields[lo]);
            match emit_variable_usages(fields, lo, hi, st2) {
                Err(e) => Err(e),
                Ok((su, st3)) => match variable_main_item(ty, fields[lo]) {
                    Err(e) => Err(e),
                    Ok(mi) => Ok((sc + sg + su.push(mi), st3)),
                },
            }
        },
        ReportField::Array { .. } => {
            let (sg, st2) = emit_array_globals(st1, fields[lo]);
            match emit_array_usages(st2, fields[lo]) {
                Err(e) => Err(e),
                Ok((su, st3)) => Ok((sc + sg + su.push(array_main_item(ty, fields[lo])), st3)),
            }
        },
    }
}

/// The fields from position `lo` on, compiled run by run.
pub open spec fn compile_fields(
    ty: ReportType,
    fields: Seq<ReportField>,
    lo: int,
    st: GlobalState,
) -> Result<(Seq<DescriptorItem>, GlobalState), HidError>
    decreases fields.len() - lo,
    via compile_fields_decreases
{
    if lo < 0 || lo >= fields.len() {
        Ok((Seq::<DescriptorItem>::empty(), st))
    } else {
        let hi = run_end(fields, lo + 1);
        match emit_group(ty, fields, lo, hi, st) {
            Err(e) => Err(e),
            Ok((s1, st1)) => match compile_fields(ty, fields, hi, st1) {
                Err(e) => Err(e),
                Ok((s2, st2)) => Ok((s1 + s2, st2)),
            },
        }
    }
}

#[via_fn]
proof fn compile_fields_decreases(
    ty: ReportType,
    fields: Seq<ReportField>,
    lo: int,
    st: GlobalState,
) {
    if 0 <= lo && lo < fields.len() {
        lemma_run_end_bounds(fields, lo + 1);
    }
}

/// One report compiled against the state in force: its id when changed, then
/// its runs. An empty field list is fatal.
pub open spec fn compile_report_spec(
    ty: ReportType,
    id: Option<u8>,
    fields: Seq<ReportField>,
    st: GlobalState,
) -> Result<(Seq<DescriptorItem>, GlobalState), HidError> {
    if fields.len() == 0 {
        Err(HidError::ShapeMismatch)
    } else {
        let (s0, st0) = match id {
            Some(i) => if st.report_id != Some(i) {
                (
                    seq![DescriptorItem::ReportId(i)],
                    GlobalState { report_id: Some(i), ..st },
                )
            } else {
                (Seq::<DescriptorItem>::empty(), st)
            },
            None => (Seq::<DescriptorItem>::empty(), st),
        };
        match compile_fields(ty, fields, 0, st0) {
            Err(e) => Err(e),
            Ok((s1, st1)) => Ok((s0 + s1, st1)),
        }
    }
}

} // verus!

// SPLIT_MARKER

verus! {

// ---------------------------------------------------------------------------
// Executable compiler.
// ---------------------------------------------------------------------------

/// An item vector and state, as the emission model speaks of them.
pub open spec fn items_result_view(r: Result<(Vec<DescriptorItem>, GlobalState), HidError>) -> Result<
    (Seq<DescriptorItem>, GlobalState),
    HidError,
> {
    match r {
        Ok((v, st)) => Ok((v@, st)),
        Err(e) => Err(e),
    }
}

fn page_differs(cur: &Option<u16>, page: u16) -> (r: bool)
    ensures
        r == (*cur != Some(page)),
{
    match cur {
        Some(p) => *p != page,
        None => true,
    }
}

/// The usages of the run's fields joined in order; a field without a list,
/// or with an empty one, is fatal.
fn flatten_usages(fields: &Vec<ReportField>, lo: usize, hi: usize) -> (r: Result<
    Vec<u32>,
    HidError,
>)
    requires
        lo <= hi <= fields@.len(),
    ensures
        (match r {
            Ok(v) => v@ == concat_all(usage_sets_view(fields@, lo as int, hi as int)) && (forall|
                k: int,
            |
                lo <= k < hi ==> field_has_usage_list(fields@[k]) && usage_set_at(
                    fields@,
                    k,
                ).len() != 0),
            Err(e) => e == HidError::ShapeMismatch && (exists|k: int|
                lo <= k < hi && (!field_has_usage_list(fields@[k]) || usage_set_at(
                    fields@,
                    k,
                ).len() == 0)),
        }),
    decreases hi - lo,
{
    if lo >= hi {
        proof {
            assert(usage_sets_view(fields@, lo as int, hi as int).len() == 0);
        }
        return Ok(Vec::new());
    }
    match &fields[lo] {
        ReportField::Variable { usages: Some(us), .. } => {
            if us.len() == 0 {
                return Err(HidError::ShapeMismatch);
            }
            let mut out: Vec<u32> = Vec::new();
            let mut j: usize = 0;
            while j < us.len()
                invariant
                    j <= us@.len(),
                    out@ == us@.take(j as int),
                decreases us@.len() - j,
            {
                out.push(us[j]);
                proof {
                    assert(out@ =~= us@.take(j + 1));
                }
                j = j + 1;
            }
            proof {
                assert(out@ =~= us@);
            }
            match flatten_usages(fields, lo + 1, hi) {
                Err(e) => Err(e),
                Ok(mut rest) => {
                    let ghost sets = usage_sets_view(fields@, lo as int, hi as int);
                    out.append(&mut rest);
                    proof {
                        assert(sets.skip(1) =~= usage_sets_view(fields@, lo + 1, hi as int));
                        assert(sets[0] == us@);
                        assert(out@ =~= concat_all(sets));
                    }
                    Ok(out)
                },
            }
        },
        _ => Err(HidError::ShapeMismatch),
    }
}

/// Whether the usages continue one page-contiguous ascending sequence.
fn contiguous_check(us: &Vec<u32>, i: usize) -> (r: Result<bool, HidError>)
    requires
        1 <= i,
    ensures
        r == contiguous_from(us@, i as int),
    decreases us@.len() - i,
{
    if i >= us.len() {
        return Ok(true);
    }
    match resolve_usage(us[i - 1]) {
        Err(e) => Err(e),
        Ok((p1, id1)) => match resolve_usage(us[i]) {
            Err(e) => Err(e),
            Ok((p2, id2)) => {
                if (id1 as u32) + 1 != (id2 as u32) || p1 != p2 {
                    Ok(false)
                } else {
                    contiguous_check(us, i + 1)
                }
            },
        },
    }
}

/// A list of usages emitted one by one, from position `i` on.
fn emit_usage_list_exec(us: &Vec<u32>, i: usize, st: GlobalState) -> (r: Result<
    (Vec<DescriptorItem>, GlobalState),
    HidError,
>)
    ensures
        items_result_view(r) == emit_usage_list(us@, i as int, st),
    decreases us@.len() - i,
{
    if i >= us.len() {
        return Ok((Vec::new(), st));
    }
    match resolve_usage(us[i]) {
        Err(e) => Err(e),
        Ok((page, id)) => {
            let mut items: Vec<DescriptorItem> = Vec::new();
            let mut st1 = st;
            if page_differs(&st1.usage_page, page) {
                items.push(DescriptorItem::UsagePage(page));
                st1.usage_page = Some(page);
            }
            items.push(DescriptorItem::Usage(Usage::Usage(id)));
            match emit_usage_list_exec(us, i + 1, st1) {
                Err(e) => Err(e),
                Ok((mut rest, st2)) => {
                    let ghost head = items@;
                    items.append(&mut rest);
                    proof {
                        let (s1, stx) = emit_one_usage(st, us@[i as int])->Ok_0;
                        assert(head =~= s1);
                        assert(items@ =~= s1 + emit_usage_list(us@, i + 1, st1)->Ok_0.0);
                    }
                    Ok((items, st2))
                },
            }
        },
    }
}

/// Whether every set from position `k` on repeats the set at `k`.
fn all_sets_equal(fields: &Vec<ReportField>, k: usize, hi: usize) -> (r: bool)
    requires
        k < hi <= fields@.len(),
        forall|j: int| k <= j < hi ==> field_has_usage_list(fields@[j]),
    ensures
        r == (forall|j: int| k <= j < hi ==> usage_set_at(fields@, j) == usage_set_at(
            fields@,
            k as int,
        )),
{
    let us_k: &Vec<u32> = match &fields[k] {
        ReportField::Variable { usages: Some(us), .. } => us,
        _ => {
            proof {
                assert(false);
            }
            return false;
        },
    };
    let mut j: usize = k + 1;
    while j < hi
        invariant
            k < j <= hi <= fields@.len(),
            us_k@ == usage_set_at(fields@, k as int),
            forall|m: int| k <= m < hi ==> field_has_usage_list(fields@[m]),
            forall|m: int| k <= m < j ==> usage_set_at(fields@, m) == usage_set_at(
                fields@,
                k as int,
            ),
        decreases hi - j,
    {
        match &fields[j] {
            ReportField::Variable { usages: Some(us), .. } => {
                if !vec_u32_eq(us, us_k) {
                    proof {
                        assert(usage_set_at(fields@, j as int) == us@);
                        assert(usage_set_at(fields@, j as int) != usage_set_at(
                            fields@,
                            k as int,
                        ));
                    }
                    return false;
                }
            },
            _ => {
                proof {
                    assert(false);
                }
                return false;
            },
        }
        j = j + 1;
    }
    true
}

/// Usage sets emitted one by one with delimiters and the early stop.
fn emit_sets_exec(fields: &Vec<ReportField>, lo: usize, hi: usize, k: usize, st: GlobalState) -> (r:
    Result<(Vec<DescriptorItem>, GlobalState), HidError>)
    requires
        lo <= k <= hi <= fields@.len(),
        forall|j: int| lo <= j < hi ==> field_has_usage_list(fields@[j]),
    ensures
        items_result_view(r) == emit_usage_sets(
            usage_sets_view(fields@, lo as int, hi as int),
            k - lo,
            st,
        ),
    decreases hi - k,
{
    let ghost sets = usage_sets_view(fields@, lo as int, hi as int);
    if k >= hi {
        return Ok((Vec::new(), st));
    }
    let us: &Vec<u32> = match &fields[k] {
        ReportField::Variable { usages: Some(us), .. } => us,
        _ => {
            proof {
                assert(false);
            }
            return Err(HidError::ShapeMismatch);
        },
    };
    proof {
        assert(sets[k - lo] == us@);
    }
    match emit_usage_list_exec(us, 0, st) {
        Err(e) => Err(e),
        Ok((mut inner, st1)) => {
            let mut items: Vec<DescriptorItem> = Vec::new();
            if us.len() != 1 {
                items.push(DescriptorItem::Delimiter(DelimiterFlag::Open));
            }
            items.append(&mut inner);
            if us.len() != 1 {
                items.push(DescriptorItem::Delimiter(DelimiterFlag::Close));
            }
            proof {
                let s1 = emit_usage_list(us@, 0, st)->Ok_0.0;
                if us@.len() != 1 {
                    assert(items@ =~= seq![DescriptorItem::Delimiter(DelimiterFlag::Open)] + s1
                        + seq![DescriptorItem::Delimiter(DelimiterFlag::Close)]);
                } else {
                    assert(items@ =~= s1);
                }
            }
            if all_sets_equal(fields, k, hi) {
                proof {
                    assert(forall|j: int|
                        k - lo <= j < sets.len() ==> #[trigger] sets[j] == sets[k - lo]);
                }
                Ok((items, st1))
            } else {
                proof {
                    assert(exists|j: int|
                        k <= j < hi && #[trigger] usage_set_at(fields@, j) != usage_set_at(
                            fields@,
                            k as int,
                        ));
                    let jw = choose|j: int|
                        k <= j < hi && #[trigger] usage_set_at(fields@, j) != usage_set_at(
                            fields@,
                            k as int,
                        );
                    assert(sets[jw - lo] == usage_set_at(fields@, jw));
                    assert(!(forall|j: int|
                        k - lo <= j < sets.len() ==> #[trigger] sets[j] == sets[k - lo]));
                }
                match emit_sets_exec(fields, lo, hi, k + 1, st1) {
                    Err(e) => Err(e),
                    Ok((mut rest, st2)) => {
                        let ghost head = items@;
                        items.append(&mut rest);
                        proof {
                            assert(items@ =~= head + emit_usage_sets(
                                sets,
                                k + 1 - lo,
                                st1,
                            )->Ok_0.0);
                        }
                        Ok((items, st2))
                    },
                }
            }
        },
    }
}

/// The usage emission of a variable run.
fn emit_variable_usages_exec(
    fields: &Vec<ReportField>,
    lo: usize,
    hi: usize,
    st: GlobalState,
) -> (r: Result<(Vec<DescriptorItem>, GlobalState), HidError>)
    requires
        lo < hi <= fields@.len(),
        fields@[lo as int] is Variable,
    ensures
        items_result_view(r) == emit_variable_usages(fields@, lo as int, hi as int, st),
{
    let declared = match &fields[lo] {
        ReportField::Variable { usages, .. } => usages.is_some(),
        _ => false,
    };
    if !declared {
        return Ok((Vec::new(), st));
    }
    let all = match flatten_usages(fields, lo, hi) {
        Err(e) => {
            return Err(e);
        },
        Ok(v) => v,
    };
    let cont = if hi - lo == all.len() {
        match contiguous_check(&all, 1) {
            Err(e) => {
                return Err(e);
            },
            Ok(c) => c,
        }
    } else {
        false
    };
    if cont && hi - lo > 1 {
        proof {
            lemma_contiguous_resolves(all@, 1);
        }
        let first = all[0];
        let last = all[all.len() - 1];
        match resolve_usage(first) {
            Err(e) => {
                proof {
                    assert(false);
                }
                Err(e)
            },
            Ok((page, idf)) => match resolve_usage(last) {
                Err(e) => {
                    proof {
                        assert(false);
                    }
                    Err(e)
                },
                Ok((_pl, idl)) => {
                    let mut items: Vec<DescriptorItem> = Vec::new();
                    let mut st1 = st;
                    if page_differs(&st1.usage_page, page) {
                        items.push(DescriptorItem::UsagePage(page));
                        st1.usage_page = Some(page);
                    }
                    items.push(DescriptorItem::UsageMinimum(Usage::Usage(idf)));
                    items.push(DescriptorItem::UsageMaximum(Usage::Usage(idl)));
                    proof {
                        let (s0, st0) = emit_usage_page(st, usage_page_of(all@[0]));
                        assert(items@ =~= s0 + seq![
                            DescriptorItem::UsageMinimum(Usage::Usage(usage_id_of(all@[0]))),
                            DescriptorItem::UsageMaximum(
                                Usage::Usage(usage_id_of(all@[all@.len() - 1])),
                            ),
                        ]);
                    }
                    Ok((items, st1))
                },
            },
        }
    } else {
        emit_sets_exec(fields, lo, hi, lo, st)
    }
}

} // verus!

// SPLIT_MARKER

verus! {

/// The global items of a variable run.
#[verifier::rlimit(100)]
fn emit_variable_globals_exec(st: GlobalState, f: &ReportField) -> (r: (
    Vec<DescriptorItem>,
    GlobalState,
))
    requires
        *f is Variable,
    ensures
        (r.0@, r.1) == emit_variable_globals(st, *f),
{
    match f {
        ReportField::Variable {
            size,
            logical_minimum,
            logical_maximum,
            physical_minimum,
            physical_maximum,
            unit_exponent,
            unit,
            ..
        } => {
            let mut items: Vec<DescriptorItem> = Vec::new();
            let mut cur = st;
            match cur.report_size {
                Some(v) if v == *size => {},
                _ => {
                    items.push(DescriptorItem::ReportSize(*size));
                    cur.report_size = Some(*size);
                },
            }
            match cur.logical_minimum {
                Some(v) if v == *logical_minimum => {},
                _ => {
                    items.push(DescriptorItem::LogicalMinimum(*logical_minimum));
                    cur.logical_minimum = Some(*logical_minimum);
                },
            }
            match cur.logical_maximum {
                Some(v) if v == *logical_maximum => {},
                _ => {
                    items.push(DescriptorItem::LogicalMaximum(*logical_maximum));
                    cur.logical_maximum = Some(*logical_maximum);
                },
            }
            if !opt_i32_eq(&cur.physical_minimum, physical_minimum) {
                items.push(
                    DescriptorItem::PhysicalMinimum(
                        match physical_minimum {
                            Some(v) => *v,
                            None => 0,
                        },
                    ),
                );
                cur.physical_minimum = *physical_minimum;
            }
            if !opt_i32_eq(&cur.physical_maximum, physical_maximum) {
                items.push(
                    DescriptorItem::PhysicalMaximum(
                        match physical_maximum {
                            Some(v) => *v,
                            None => 0,
                        },
                    ),
                );
                cur.physical_maximum = *physical_maximum;
            }
            if !opt_i8_eq(&cur.unit_exponent, unit_exponent) {
                items.push(
                    DescriptorItem::UnitExponent(
                        match unit_exponent {
                            Some(v) => *v,
                            None => 0,
                        },
                    ),
                );
                cur.unit_exponent = *unit_exponent;
            }
            if !opt_u32_eq(&cur.unit, unit) {
                items.push(
                    DescriptorItem::Unit(
                        match unit {
                            Some(v) => *v,
                            None => 0,
                        },
                    ),
                );
                cur.unit = *unit;
            }
            proof {
                assert(items@ =~= emit_variable_globals(st, *f).0);
            }
            (items, cur)
        },
        _ => (Vec::new(), st),
    }
}

/// The global items of an array run.
fn emit_array_globals_exec(st: GlobalState, f: &ReportField) -> (r: (
    Vec<DescriptorItem>,
    GlobalState,
))
    requires
        *f is Array,
    ensures
        (r.0@, r.1) == emit_array_globals(st, *f),
{
    match f {
        ReportField::Array { size, logical_minimum, logical_maximum, .. } => {
            let mut items: Vec<DescriptorItem> = Vec::new();
            let mut cur = st;
            match cur.report_size {
                Some(v) if v == *size => {},
                _ => {
                    items.push(DescriptorItem::ReportSize(*size));
                    cur.report_size = Some(*size);
                },
            }
            match cur.logical_minimum {
                Some(v) if v == *logical_minimum => {},
                _ => {
                    items.push(DescriptorItem::LogicalMinimum(*logical_minimum));
                    cur.logical_minimum = Some(*logical_minimum);
                },
            }
            match cur.logical_maximum {
                Some(v) if v == *logical_maximum => {},
                _ => {
                    items.push(DescriptorItem::LogicalMaximum(*logical_maximum));
                    cur.logical_maximum = Some(*logical_maximum);
                },
            }
            proof {
                assert(items@ =~= emit_array_globals(st, *f).0);
            }
            (items, cur)
        },
        _ => (Vec::new(), st),
    }
}

/// The usage emission of an array run.
fn emit_array_usages_exec(st: GlobalState, f: &ReportField) -> (r: Result<
    (Vec<DescriptorItem>, GlobalState),
    HidError,
>)
    requires
        *f is Array,
    ensures
        items_result_view(r) == emit_array_usages(st, *f),
{
    match f {
        ReportField::Array { usage_range, .. } => {
            if usage_range.len() == 0 {
                return Err(HidError::ShapeMismatch);
            }
            let cont = match contiguous_check(usage_range, 1) {
                Err(e) => {
                    return Err(e);
                },
                Ok(c) => c,
            };
            if cont {
                let first = usage_range[0];
                let last = usage_range[usage_range.len() - 1];
                match resolve_usage(first) {
                    Err(e) => Err(e),
                    Ok((page, idf)) => match resolve_usage(last) {
                        Err(e) => Err(e),
                        Ok((_pl, idl)) => {
                            let mut items: Vec<DescriptorItem> = Vec::new();
                            let mut st1 = st;
                            if page_differs(&st1.usage_page, page) {
                                items.push(DescriptorItem::UsagePage(page));
                                st1.usage_page = Some(page);
                            }
                            items.push(DescriptorItem::UsageMinimum(Usage::Usage(idf)));
                            items.push(DescriptorItem::UsageMaximum(Usage::Usage(idl)));
                            proof {
                                let ur = usage_range@;
                                let (s0, st0) = emit_usage_page(st, usage_page_of(ur[0]));
                                assert(items@ =~= s0 + seq![
                                    DescriptorItem::UsageMinimum(
                                        Usage::Usage(usage_id_of(ur[0])),
                                    ),
                                    DescriptorItem::UsageMaximum(
                                        Usage::Usage(usage_id_of(ur[ur.len() - 1])),
                                    ),
                                ]);
                            }
                            Ok((items, st1))
                        },
                    },
                }
            } else {
                emit_usage_list_exec(usage_range, 0, st)
            }
        },
        _ => Err(HidError::ShapeMismatch),
    }
}

/// The main item of a variable run.
fn variable_main_item_exec(ty: ReportType, f: &ReportField) -> (r: Result<
    DescriptorItem,
    HidError,
>)
    ensures
        r == variable_main_item(ty, *f),
{
    match f {
        ReportField::Variable {
            constant,
            relative,
            wrap,
            linear,
            preferred_state,
            null_state,
            volatile,
            buffered_bytes,
            ..
        } => {
            let c = if *constant {
                ReportConstantFlag::Constant
            } else {
                ReportConstantFlag::Data
            };
            let rel = if *relative {
                ReportRelativeFlag::Relative
            } else {
                ReportRelativeFlag::Absolute
            };
            let w = if *wrap {
                ReportWrapFlag::Wrap
            } else {
                ReportWrapFlag::NoWrap
            };
            let lin = if *linear {
                ReportLinearFlag::Linear
            } else {
                ReportLinearFlag::NonLinear
            };
            let ps = if *preferred_state {
                ReportPreferredStateFlag::PreferredState
            } else {
                ReportPreferredStateFlag::NoPreferred
            };
            let ns = if *null_state {
                ReportNullStateFlag::NullState
            } else {
                ReportNullStateFlag::NoNullPosition
            };
            let bb = if *buffered_bytes {
                ReportBufferedBytesFlag::BufferedBytes
            } else {
                ReportBufferedBytesFlag::BitField
            };
            match ty {
                ReportType::Input => Ok(
                    DescriptorItem::Input {
                        constant: c,
                        layout: ReportLayoutFlag::Variable,
                        relative: rel,
                        wrap: w,
                        linear: lin,
                        preferred_state: ps,
                        null_state: ns,
                        buffered_bytes: bb,
                    },
                ),
                ReportType::Output => match volatile {
                    None => Err(HidError::ShapeMismatch),
                    Some(v) => Ok(
                        DescriptorItem::Output {
                            constant: c,
                            layout: ReportLayoutFlag::Variable,
                            relative: rel,
                            wrap: w,
                            linear: lin,
                            preferred_state: ps,
                            null_state: ns,
                            volatile: if *v {
                                ReportVolatileFlag::Volatile
                            } else {
                                ReportVolatileFlag::NonVolatile
                            },
                            buffered_bytes: bb,
                        },
                    ),
                },
                ReportType::Feature => match volatile {
                    None => Err(HidError::ShapeMismatch),
                    Some(v) => Ok(
                        DescriptorItem::Feature {
                            constant: c,
                            layout: ReportLayoutFlag::Variable,
                            relative: rel,
                            wrap: w,
                            linear: lin,
                            preferred_state: ps,
                            null_state: ns,
                            volatile: if *v {
                                ReportVolatileFlag::Volatile
                            } else {
                                ReportVolatileFlag::NonVolatile
                            },
                            buffered_bytes: bb,
                        },
                    ),
                },
            }
        },
        _ => Err(HidError::ShapeMismatch),
    }
}

/// The main item of an array run.
fn array_main_item_exec(ty: ReportType, f: &ReportField) -> (r: DescriptorItem)
    requires
        *f is Array,
    ensures
        r == array_main_item(ty, *f),
{
    match f {
        ReportField::Array { constant, relative, .. } => {
            let c = if *constant {
                ReportConstantFlag::Constant
            } else {
                ReportConstantFlag::Data
            };
            let rel = if *relative {
                ReportRelativeFlag::Relative
            } else {
                ReportRelativeFlag::Absolute
            };
            match ty {
                ReportType::Input => DescriptorItem::Input {
                    constant: c,
                    layout: ReportLayoutFlag::Array,
                    relative: rel,
                    wrap: ReportWrapFlag::NoWrap,
                    linear: ReportLinearFlag::Linear,
                    preferred_state: ReportPreferredStateFlag::PreferredState,
                    null_state: ReportNullStateFlag::NoNullPosition,
                    buffered_bytes: ReportBufferedBytesFlag::BitField,
                },
                ReportType::Output => DescriptorItem::Output {
                    constant: c,
                    layout: ReportLayoutFlag::Array,
                    relative: rel,
                    wrap: ReportWrapFlag::NoWrap,
                    linear: ReportLinearFlag::Linear,
                    preferred_state: ReportPreferredStateFlag::PreferredState,
                    null_state: ReportNullStateFlag::NoNullPosition,
                    volatile: ReportVolatileFlag::NonVolatile,
                    buffered_bytes: ReportBufferedBytesFlag::BitField,
                },
                ReportType::Feature => DescriptorItem::Feature {
                    constant: c,
                    layout: ReportLayoutFlag::Array,
                    relative: rel,
                    wrap: ReportWrapFlag::NoWrap,
                    linear: ReportLinearFlag::Linear,
                    preferred_state: ReportPreferredStateFlag::PreferredState,
                    null_state: ReportNullStateFlag::NoNullPosition,
                    volatile: ReportVolatileFlag::NonVolatile,
                    buffered_bytes: ReportBufferedBytesFlag::BitField,
                },
            }
        },
        _ => {
            proof {
                assert(false);
            }
            DescriptorItem::EndCollection
        },
    }
}

/// One run compiled.
fn emit_group_exec(
    ty: ReportType,
    fields: &Vec<ReportField>,
    lo: usize,
    hi: usize,
    st: GlobalState,
) -> (r: Result<(Vec<DescriptorItem>, GlobalState), HidError>)
    requires
        lo < hi <= fields@.len(),
    ensures
        items_result_view(r) == emit_group(ty, fields@, lo as int, hi as int, st),
{
    let mut items: Vec<DescriptorItem> = Vec::new();
    let mut st1 = st;
    let n: u32 = (hi - lo) as u32;
    match st1.report_count {
        Some(v) if v == n => {},
        _ => {
            items.push(DescriptorItem::ReportCount(n));
            st1.report_count = Some(n);
        },
    }
    let is_variable = match &fields[lo] {
        ReportField::Variable { .. } => true,
        ReportField::Array { .. } => false,
    };
    if is_variable {
        let (mut sg, st2) = emit_variable_globals_exec(st1, &fields[lo]);
        items.append(&mut sg);
        match emit_variable_usages_exec(fields, lo, hi, st2) {
            Err(e) => Err(e),
            Ok((mut su, st3)) => match variable_main_item_exec(ty, &fields[lo]) {
                Err(e) => Err(e),
                Ok(mi) => {
                    items.append(&mut su);
                    items.push(mi);
                    proof {
                        let (sc, sst1) = emit_count(st, (hi - lo) as u32);
                        let (sg2, sst2) = emit_variable_globals(sst1, fields@[lo as int]);
                        let su2 = emit_variable_usages(
                            fields@,
                            lo as int,
                            hi as int,
                            sst2,
                        )->Ok_0.0;
                        assert(items@ =~= sc + sg2 + su2.push(mi));
                    }
                    Ok((items, st3))
                },
            },
        }
    } else {
        let (mut sg, st2) = emit_array_globals_exec(st1, &fields[lo]);
        items.append(&mut sg);
        match emit_array_usages_exec(st2, &fields[lo]) {
            Err(e) => Err(e),
            Ok((mut su, st3)) => {
                let mi = array_main_item_exec(ty, &fields[lo]);
                items.append(&mut su);
                items.push(mi);
                proof {
                    let (sc, sst1) = emit_count(st, (hi - lo) as u32);
                    let (sg2, sst2) = emit_array_globals(sst1, fields@[lo as int]);
                    let su2 = emit_array_usages(sst2, fields@[lo as int])->Ok_0.0;
                    assert(items@ =~= sc + sg2 + su2.push(mi));
                }
                Ok((items, st3))
            },
        }
    }
}

/// The fields from position `lo` on, compiled run by run.
fn compile_fields_exec(
    ty: ReportType,
    fields: &Vec<ReportField>,
    lo: usize,
    st: GlobalState,
) -> (r: Result<(Vec<DescriptorItem>, GlobalState), HidError>)
    ensures
        items_result_view(r) == compile_fields(ty, fields@, lo as int, st),
    decreases fields@.len() - lo,
{
    if lo >= fields.len() {
        return Ok((Vec::new(), st));
    }
    let mut hi: usize = lo + 1;
    while hi < fields.len() && same_group(&fields[hi - 1], &fields[hi])
        invariant
            lo + 1 <= hi <= fields@.len(),
            run_end(fields@, lo + 1) == run_end(fields@, hi as int),
        decreases fields@.len() - hi,
    {
        hi = hi + 1;
    }
    proof {
        assert(run_end(fields@, lo + 1) == hi);
    }
    match emit_group_exec(ty, fields, lo, hi, st) {
        Err(e) => Err(e),
        Ok((mut items, st1)) => match compile_fields_exec(ty, fields, hi, st1) {
            Err(e) => Err(e),
            Ok((mut rest, st2)) => {
                let ghost head = items@;
                items.append(&mut rest);
                proof {
                    assert(items@ =~= head + compile_fields(
                        ty,
                        fields@,
                        hi as int,
                        st1,
                    )->Ok_0.0);
                }
                Ok((items, st2))
            },
        },
    }
}

impl Report {
    /// This report compiled against the state in force: its id when changed,
    /// then its fields run by run. An empty field list is fatal, as is an
    /// unresolvable usage.
    pub fn into_descriptor_items(&self, st: GlobalState) -> (r: Result<
        (Vec<DescriptorItem>, GlobalState),
        HidError,
    >)
        ensures
            items_result_view(r) == compile_report_spec(self.ty, self.id, self.fields@, st),
    {
        if self.fields.len() == 0 {
            return Err(HidError::ShapeMismatch);
        }
        let mut items: Vec<DescriptorItem> = Vec::new();
        let mut st0 = st;
        match self.id {
            Some(i) => {
                match st0.report_id {
                    Some(v) if v == i => {},
                    _ => {
                        items.push(DescriptorItem::ReportId(i));
                        st0.report_id = Some(i);
                    },
                }
            },
            None => {},
        }
        match compile_fields_exec(self.ty, &self.fields, 0, st0) {
            Err(e) => Err(e),
            Ok((mut rest, st1)) => {
                let ghost head = items@;
                items.append(&mut rest);
                proof {
                    assert(items@ =~= head + compile_fields(
                        self.ty,
                        self.fields@,
                        0,
                        st0,
                    )->Ok_0.0);
                }
                Ok((items, st1))
            },
        }
    }
}

} // verus!

verus! {

// ---------------------------------------------------------------------------
// Collections and the descriptor root.
// ---------------------------------------------------------------------------

/// One collection compiled: its own usage when declared, the collection
/// item, its children in order, then the end-collection item.
pub open spec fn compile_collection_spec(c: Collection, st: GlobalState) -> Result<
    (Seq<DescriptorItem>, GlobalState),
    HidError,
>
    decreases c, 0int,
{
    let pre = match c.usage {
        Some(raw) => emit_one_usage(st, raw),
        None => Ok((Seq::<DescriptorItem>::empty(), st)),
    };
    match pre {
        Err(e) => Err(e),
        Ok((s0, st0)) => match compile_items_spec(c.items@, 0, st0) {
            Err(e) => Err(e),
            Ok((s1, st1)) => Ok(
                (
                    s0.push(DescriptorItem::Collection { ty: c.ty }) + s1 + seq![
                        DescriptorItem::EndCollection,
                    ],
                    st1,
                ),
            ),
        },
    }
}

/// The children from position `i` on, compiled in order.
pub open spec fn compile_items_spec(items: Seq<MainItem>, i: int, st: GlobalState) -> Result<
    (Seq<DescriptorItem>, GlobalState),
    HidError,
>
    decreases items, items.len() - i,
{
    if i < 0 || i >= items.len() {
        Ok((Seq::<DescriptorItem>::empty(), st))
    } else {
        match compile_main_item_spec(items[i], st) {
            Err(e) => Err(e),
            Ok((s1, st1)) => match compile_items_spec(items, i + 1, st1) {
                Err(e) => Err(e),
                Ok((s2, st2)) => Ok((s1 + s2, st2)),
            },
        }
    }
}

/// One child compiled: a report or a nested collection.
pub open spec fn compile_main_item_spec(m: MainItem, st: GlobalState) -> Result<
    (Seq<DescriptorItem>, GlobalState),
    HidError,
>
    decreases m, 1int,
{
    match m {
        MainItem::Report(r) => compile_report_spec(r.ty, r.id, r.fields@, st),
        MainItem::Collection(c) => compile_collection_spec(c, st),
    }
}

/// A whole descriptor compiled from the state with nothing in force.
pub open spec fn compile_descriptor_spec(d: Descriptor) -> Result<Seq<DescriptorItem>, HidError> {
    match compile_items_spec(d.items@, 0, initial_global_state()) {
        Err(e) => Err(e),
        Ok((s, _)) => Ok(s),
    }
}

/// One child compiled: a report or a nested collection.
pub fn write_main_item(item: &MainItem, st: GlobalState) -> (r: Result<
    (Vec<DescriptorItem>, GlobalState),
    HidError,
>)
    ensures
        items_result_view(r) == compile_main_item_spec(*item, st),
    decreases *item, 1int,
{
    match item {
        MainItem::Report(report) => report.into_descriptor_items(st),
        MainItem::Collection(collection) => collection.into_descriptor_items(st),
    }
}

/// The children from position `i` on, compiled in order.
fn compile_items_exec(items: &Vec<MainItem>, i: usize, st: GlobalState) -> (r: Result<
    (Vec<DescriptorItem>, GlobalState),
    HidError,
>)
    ensures
        items_result_view(r) == compile_items_spec(items@, i as int, st),
    decreases items@, items@.len() - i,
{
    if i >= items.len() {
        return Ok((Vec::new(), st));
    }
    proof {
        assert(decreases_to!(items@ => items@[i as int]));
    }
    match write_main_item(&items[i], st) {
        Err(e) => Err(e),
        Ok((mut out, st1)) => match compile_items_exec(items, i + 1, st1) {
            Err(e) => Err(e),
            Ok((mut rest, st2)) => {
                let ghost head = out@;
                out.append(&mut rest);
                proof {
                    assert(out@ =~= head + compile_items_spec(items@, i + 1, st1)->Ok_0.0);
                }
                Ok((out, st2))
            },
        },
    }
}

impl Collection {
    /// This collection compiled against the state in force.
    pub fn into_descriptor_items(&self, st: GlobalState) -> (r: Result<
        (Vec<DescriptorItem>, GlobalState),
        HidError,
    >)
        ensures
            items_result_view(r) == compile_collection_spec(*self, st),
        decreases *self, 0int,
    {
        let mut items: Vec<DescriptorItem> = Vec::new();
        let mut st0 = st;
        match self.usage {
            Some(raw) => match resolve_usage(raw) {
                Err(e) => {
                    return Err(e);
                },
                Ok((page, id)) => {
                    if page_differs(&st0.usage_page, page) {
                        items.push(DescriptorItem::UsagePage(page));
                        st0.usage_page = Some(page);
                    }
                    items.push(DescriptorItem::Usage(Usage::Usage(id)));
                },
            },
            None => {},
        }
        items.push(DescriptorItem::Collection { ty: self.ty });
        proof {
            assert(decreases_to!(*self => self.items));
        }
        match compile_items_exec(&self.items, 0, st0) {
            Err(e) => Err(e),
            Ok((mut children, st1)) => {
                let ghost head = items@;
                items.append(&mut children);
                items.push(DescriptorItem::EndCollection);
                proof {
                    let pre = match self.usage {
                        Some(raw) => emit_one_usage(st, raw),
                        None => Ok::<_, HidError>((Seq::<DescriptorItem>::empty(), st)),
                    };
                    let (s0, sst0) = pre->Ok_0;
                    assert(head =~= s0.push(DescriptorItem::Collection { ty: self.ty }));
                    assert(items@ =~= s0.push(DescriptorItem::Collection { ty: self.ty })
                        + compile_items_spec(self.items@, 0, st0)->Ok_0.0 + seq![
                        DescriptorItem::EndCollection,
                    ]);
                }
                Ok((items, st1))
            },
        }
    }
}

impl Descriptor {
    /// This descriptor compiled to its flat item sequence, starting from the
    /// state with nothing in force.
    pub fn into_descriptor_items(&self) -> (r: Result<Vec<DescriptorItem>, HidError>)
        ensures
            (match r {
                Ok(v) => compile_descriptor_spec(*self) == Ok::<_, HidError>(v@),
                Err(e) => compile_descriptor_spec(*self) == Err::<Seq<DescriptorItem>, _>(e),
            }),
    {
        let st = GlobalState::default();
        match compile_items_exec(&self.items, 0, st) {
            Err(e) => Err(e),
            Ok((items, _)) => Ok(items),
        }
    }
}

// ---------------------------------------------------------------------------
// Redundancy suppression.
// ---------------------------------------------------------------------------

/// The global values a one-run variable report with mandatory values alone
/// would leave in force.
pub open spec fn variable_state_after(f: ReportField, n: u32, id: Option<u8>) -> GlobalState {
    match f {
        ReportField::Variable {
            size,
            logical_minimum,
            logical_maximum,
            physical_minimum,
            physical_maximum,
            unit_exponent,
            unit,
            ..
        } => GlobalState {
            usage_page: None,
            logical_minimum: Some(logical_minimum),
            logical_maximum: Some(logical_maximum),
            physical_minimum: physical_minimum,
            physical_maximum: physical_maximum,
            unit_exponent: unit_exponent,
            unit: unit,
            report_size: Some(size),
            report_id: id,
            report_count: Some(n),
        },
        _ => initial_global_state(),
    }
}

/// Whether an item is a global setter.
pub open spec fn is_global_item(it: DescriptorItem) -> bool {
    match it {
        DescriptorItem::UsagePage(_) => true,
        DescriptorItem::LogicalMinimum(_) => true,
        DescriptorItem::LogicalMaximum(_) => true,
        DescriptorItem::PhysicalMinimum(_) => true,
        DescriptorItem::PhysicalMaximum(_) => true,
        DescriptorItem::UnitExponent(_) => true,
        DescriptorItem::Unit(_) => true,
        DescriptorItem::ReportSize(_) => true,
        DescriptorItem::ReportId(_) => true,
        DescriptorItem::ReportCount(_) => true,
        _ => false,
    }
}

} // verus!

verus! {

/// Redundancy suppression: a report whose global attributes — id, count,
/// size, logical and physical ranges, unit and exponent — are already the
/// values in force compiles without emitting a single global item; only its
/// main item comes out, and the state is left untouched. Two reports sharing
/// identical global attributes therefore emit the shared items once: the
/// first leaves them in force and the second adds none.
pub proof fn lemma_redundancy_suppression(
    ty: ReportType,
    id: Option<u8>,
    f: ReportField,
    st: GlobalState,
)
    requires
        (f is Variable),
        !field_has_usage_list(f),
        (variable_main_item(ty, f) is Ok),
        (id is Some ==> st.report_id == id),
        (GlobalState { usage_page: None, report_id: None, ..st } == GlobalState {
            usage_page: None,
            report_id: None,
            ..variable_state_after(f, 1, id)
        }),
    ensures
        compile_report_spec(ty, id, seq![f], st) == Ok::<_, HidError>(
            (seq![variable_main_item(ty, f)->Ok_0], st),
        ),
        forall|k: int|
            0 <= k < compile_report_spec(ty, id, seq![f], st)->Ok_0.0.len()
                ==> !is_global_item(#[trigger] compile_report_spec(ty, id, seq![f], st)->Ok_0.0[k]),
{
    let fields = seq![f];
    assert(run_end(fields, 1) == 1);
    let (sc, st1) = emit_count(st, 1u32);
    assert(st.report_count == Some(1u32));
    assert(sc =~= Seq::<DescriptorItem>::empty());
    let (sg, st2) = emit_variable_globals(st1, f);
    assert(sg =~= Seq::<DescriptorItem>::empty());
    assert(st2 == st);
    let eu = emit_variable_usages(fields, 0, 1, st2);
    assert(eu == Ok::<_, HidError>((Seq::<DescriptorItem>::empty(), st)));
    let mi = variable_main_item(ty, f)->Ok_0;
    assert(emit_group(ty, fields, 0, 1, st) == Ok::<_, HidError>((
        sc + sg + Seq::<DescriptorItem>::empty().push(mi),
        st,
    )));
    assert(sc + sg + Seq::<DescriptorItem>::empty().push(mi) =~= seq![mi]);
    assert(compile_fields(ty, fields, 1, st) == Ok::<_, HidError>((
        Seq::<DescriptorItem>::empty(),
        st,
    )));
    assert(compile_fields(ty, fields, 0, st) == Ok::<_, HidError>((seq![mi] + Seq::<
        DescriptorItem,
    >::empty(), st)));
    assert(seq![mi] + Seq::<DescriptorItem>::empty() =~= seq![mi]);
    let (s0, st0) = (Seq::<DescriptorItem>::empty(), st);
    assert(compile_report_spec(ty, id, fields, st) == Ok::<_, HidError>((s0 + seq![mi], st)));
    assert(s0 + seq![mi] =~= seq![mi]);
    assert(!is_global_item(mi));
}

} // verus!

verus! {

proof fn lemma_concat_singletons(sets: Seq<Seq<u32>>)
    requires
        forall|j: int| 0 <= j < sets.len() ==> (#[trigger] sets[j]).len() == 1,
    ensures
        concat_all(sets).len() == sets.len(),
        forall|j: int| 0 <= j < sets.len() ==> #[trigger] concat_all(sets)[j] == sets[j][0],
    decreases sets.len(),
{
    if sets.len() > 0 {
        lemma_concat_singletons(sets.skip(1));
        assert forall|j: int| 0 <= j < sets.len() implies #[trigger] concat_all(sets)[j] == sets[j][0] by {
            if j >= 1 {
                assert(concat_all(sets)[j] == concat_all(sets.skip(1))[j - 1]);
                assert(sets.skip(1)[j - 1] == sets[j]);
            }
        }
    }
}

proof fn lemma_contiguous_of_consecutive(us: Seq<u32>, i: int, p: u16, a: u16)
    requires
        1 <= i,
        forall|k: int| 0 <= k < us.len() ==> usage_table_has(#[trigger] us[k]),
        forall|k: int| 0 <= k < us.len() ==> usage_page_of(#[trigger] us[k]) == p,
        forall|k: int| 0 <= k < us.len() ==> usage_id_of(#[trigger] us[k]) == a + k,
    ensures
        contiguous_from(us, i) == Result::<bool, HidError>::Ok(true),
    decreases us.len() - i,
{
    if i < us.len() {
        lemma_contiguous_of_consecutive(us, i + 1, p, a);
    }
}

/// Contiguous usages collapse: a variable run of more than one field, each
/// field declaring exactly one usage, all on one page with consecutive
/// ascending ids, emits exactly the usage page — and that only when it is not
/// already in force — followed by the usage range bounds. No per-field usage
/// items and no delimiters come out.
pub proof fn lemma_contiguous_run_collapses(
    fields: Seq<ReportField>,
    lo: int,
    hi: int,
    st: GlobalState,
    p: u16,
    a: u16,
)
    requires
        0 <= lo,
        hi <= fields.len(),
        hi - lo > 1,
        forall|k: int| lo <= k < hi ==> field_has_usage_list(#[trigger] fields[k]),
        forall|k: int| lo <= k < hi ==> (#[trigger] usage_set_at(fields, k)).len() == 1,
        forall|k: int| lo <= k < hi ==> usage_table_has(#[trigger] usage_set_at(fields, k)[0]),
        forall|k: int| lo <= k < hi ==> usage_page_of(#[trigger] usage_set_at(fields, k)[0]) == p,
        forall|k: int|
            lo <= k < hi ==> usage_id_of(#[trigger] usage_set_at(fields, k)[0]) == a + (k - lo),
    ensures
        emit_variable_usages(fields, lo, hi, st) == Ok::<_, HidError>(
            (
                emit_usage_page(st, p).0 + seq![
                    DescriptorItem::UsageMinimum(Usage::Usage(a)),
                    DescriptorItem::UsageMaximum(Usage::Usage((a + (hi - lo) - 1) as u16)),
                ],
                emit_usage_page(st, p).1,
            ),
        ),
{
    let sets = usage_sets_view(fields, lo, hi);
    assert(forall|j: int| 0 <= j < sets.len() ==> (#[trigger] sets[j]).len() == 1);
    lemma_concat_singletons(sets);
    let all = concat_all(sets);
    assert(all.len() == hi - lo);
    assert forall|k: int| 0 <= k < all.len() implies usage_table_has(#[trigger] all[k])
        && usage_page_of(all[k]) == p && usage_id_of(all[k]) == a + k by {
        assert(all[k] == sets[k][0]);
        assert(sets[k] == usage_set_at(fields, lo + k));
    }
    lemma_contiguous_of_consecutive(all, 1, p, a);
    assert(field_has_usage_list(fields[lo]));
    assert(!(exists|k: int| lo <= k < hi && !field_has_usage_list(fields[k])));
    assert(!(exists|k: int| lo <= k < hi && usage_set_at(fields, k).len() == 0));
    assert(usage_page_of(all[0]) == p);
    assert(usage_id_of(all[0]) == a);
    assert(usage_id_of(all[all.len() - 1]) == a + (hi - lo) - 1);
    assert(usage_id_of(all[all.len() - 1]) == (a + (hi - lo) - 1) as u16);
}

} // verus!
