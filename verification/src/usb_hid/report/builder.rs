//! Building a report descriptor from its items.
//!
//! The builder walks the items in order, keeping the current global items, a
//! stack of pushed global states, the local items since the last main item,
//! the fields of every report so far, and the collections opened and closed.
//! `step` states what each item does to that state, `spec_build` what the whole
//! walk gives.

use std::ops::Range;
use vstd::prelude::*;
use crate::usb_hid::report::error::UsbHidReportError;
use crate::usb_hid::report::field::{
    range_len, UsbHidReportArrayField, UsbHidReportArrayFieldView, UsbHidReportField, UsbHidReportFieldView,
    UsbHidReportPaddingField, UsbHidReportVariableField,
};
use crate::usb_hid::report::items::{
    GlobalItem, LocalItem, MainItem, ReportDescriptorItem, is_constant, is_variable,
};
use crate::usb_hid::report::{
    UsbHidReport, UsbHidReportCollection, UsbHidReportCollectionView, UsbHidReportDescriptor,
    UsbHidReportDescriptorView, UsbHidReportKind, UsbHidReportView, all_collections_of, descendant_parts,
    descendants, fields_size, fields_view, report_view, reports_of_kind, reports_of_kind_in, reports_view,
    subtree,
};
use crate::usb_hid::usage::{HidUsage, usage_from_u32};
use crate::text::copy_vec;

verus! {

/// The values of the global items of reserved types, by tag: the four tags,
/// 12 to 15, that the item encoding leaves after the known global items. No
/// field reads them; they are kept, pushed and popped with the others.
#[derive(Debug, Clone, Copy, PartialEq, Eq, Structural)]
pub struct ReservedGlobals {
    pub tag_12: Option<Option<i32>>,
    pub tag_13: Option<Option<i32>>,
    pub tag_14: Option<Option<i32>>,
    pub tag_15: Option<Option<i32>>,
}

/// The reserved global items with the item of `tag` set to `data`. A tag that
/// is not a reserved one (the item encoding gives reserved items no other) is
/// not kept.
pub open spec fn with_reserved(r: ReservedGlobals, tag: u8, data: Option<i32>) -> ReservedGlobals {
    if tag == 12 {
        ReservedGlobals { tag_12: Some(data), ..r }
    } else if tag == 13 {
        ReservedGlobals { tag_13: Some(data), ..r }
    } else if tag == 14 {
        ReservedGlobals { tag_14: Some(data), ..r }
    } else if tag == 15 {
        ReservedGlobals { tag_15: Some(data), ..r }
    } else {
        r
    }
}

/// The current values of the global items.
#[derive(Debug, Clone, Copy, PartialEq, Eq, Structural)]
pub struct GlobalState {
    pub usage_page: Option<u16>,
    pub logical_minimum: Option<i32>,
    pub logical_maximum: Option<i32>,
    pub physical_minimum: Option<i32>,
    pub physical_maximum: Option<i32>,
    pub unit_exponent: Option<i32>,
    pub unit: Option<u32>,
    pub report_size: Option<u32>,
    pub report_id: Option<u8>,
    pub report_count: Option<u32>,
    pub reserved: ReservedGlobals,
}

/// The state before any global item.
pub open spec fn no_globals() -> GlobalState {
    GlobalState {
        usage_page: None,
        logical_minimum: None,
        logical_maximum: None,
        physical_minimum: None,
        physical_maximum: None,
        unit_exponent: None,
        unit: None,
        report_size: None,
        report_id: None,
        report_count: None,
        reserved: ReservedGlobals { tag_12: None, tag_13: None, tag_14: None, tag_15: None },
    }
}

/// The fields gathered so far for one report.
pub struct ReportFieldsView {
    pub report_id: Option<u8>,
    pub fields: Seq<UsbHidReportFieldView>,
}

/// A collection as the builder holds it: the IDs of the reports it carries,
/// each list ordered and without repeats, and its closed nested collections.
pub struct CollectionBuilderView {
    pub usage: HidUsage,
    pub collection_type: u8,
    pub input_report_ids: Seq<Option<u8>>,
    pub output_report_ids: Seq<Option<u8>>,
    pub feature_report_ids: Seq<Option<u8>>,
    pub child_collections: Seq<CollectionBuilderView>,
}

/// The state of the builder.
pub struct BuilderState {
    pub global_state: GlobalState,
    pub global_state_stack: Seq<GlobalState>,
    pub local_state: Seq<LocalItem>,
    /// The fields of each Input report, in the order the report IDs first appear.
    pub input_reports: Seq<ReportFieldsView>,
    pub output_reports: Seq<ReportFieldsView>,
    pub feature_reports: Seq<ReportFieldsView>,
    /// The top-level collections closed so far.
    pub root_collections: Seq<CollectionBuilderView>,
    /// The collections opened and not closed yet, the innermost last.
    pub open_collections: Seq<CollectionBuilderView>,
}

/// Why building stopped: an error of the descriptor, or arithmetic that does
/// not fit the integer type it is done in (a field offset beyond `u32`, a
/// report size beyond `usize`).
pub enum BuildFailure {
    Error(UsbHidReportError),
    ArithmeticOverflow,
}

pub open spec fn initial_state() -> BuilderState {
    BuilderState {
        global_state: no_globals(),
        global_state_stack: Seq::empty(),
        local_state: Seq::empty(),
        input_reports: Seq::empty(),
        output_reports: Seq::empty(),
        feature_reports: Seq::empty(),
        root_collections: Seq::empty(),
        open_collections: Seq::empty(),
    }
}

// ---------------------------------------------------------------------------
// Global and local items
// ---------------------------------------------------------------------------

/// What a global item does to the builder state.
pub open spec fn global_step(s: BuilderState, item: GlobalItem) -> Result<BuilderState, UsbHidReportError> {
    let g = s.global_state;
    match item {
        GlobalItem::UsagePage(v) => Ok(BuilderState { global_state: GlobalState { usage_page: Some(v), ..g }, ..s }),
        GlobalItem::LogicalMinimum(v) => Ok(BuilderState { global_state: GlobalState { logical_minimum: Some(v), ..g }, ..s }),
        GlobalItem::LogicalMaximum(v) => Ok(BuilderState { global_state: GlobalState { logical_maximum: Some(v), ..g }, ..s }),
        GlobalItem::PhysicalMinimum(v) => Ok(BuilderState { global_state: GlobalState { physical_minimum: Some(v), ..g }, ..s }),
        GlobalItem::PhysicalMaximum(v) => Ok(BuilderState { global_state: GlobalState { physical_maximum: Some(v), ..g }, ..s }),
        GlobalItem::UnitExponent(v) => Ok(BuilderState { global_state: GlobalState { unit_exponent: Some(v), ..g }, ..s }),
        GlobalItem::Unit(v) => Ok(BuilderState { global_state: GlobalState { unit: Some(v), ..g }, ..s }),
        GlobalItem::ReportSize(v) => Ok(BuilderState { global_state: GlobalState { report_size: Some(v), ..g }, ..s }),
        GlobalItem::ReportId(v) => Ok(BuilderState { global_state: GlobalState { report_id: Some(v), ..g }, ..s }),
        GlobalItem::ReportCount(v) => Ok(BuilderState { global_state: GlobalState { report_count: Some(v), ..g }, ..s }),
        GlobalItem::Push => Ok(BuilderState { global_state_stack: s.global_state_stack.push(g), ..s }),
        GlobalItem::Pop => if s.global_state_stack.len() == 0 {
            Err(UsbHidReportError::PopBeforePush)
        } else {
            Ok(BuilderState {
                global_state: s.global_state_stack.last(),
                global_state_stack: s.global_state_stack.drop_last(),
                ..s
            })
        },
        GlobalItem::Reserved(tag, data) => Ok(
            BuilderState { global_state: GlobalState { reserved: with_reserved(g.reserved, tag, data), ..g }, ..s },
        ),
    }
}

// ---------------------------------------------------------------------------
// Usages, designator indices and string indices of the local items
// ---------------------------------------------------------------------------

/// The usage with ID `id` on `page`; IDs above 16 bits carry their own page.
pub open spec fn usage_with_id(page: Option<u16>, id: int) -> HidUsage {
    if id > 0xFFFF {
        usage_from_u32(id as u32)
    } else {
        HidUsage { page: page->0, id: id as u16 }
    }
}

/// The number of values from `minimum` to `maximum`, both included.
pub open spec fn range_count(minimum: u32, maximum: u32) -> nat {
    if minimum <= maximum {
        (maximum - minimum + 1) as nat
    } else {
        0
    }
}

/// The usages from `minimum` to `maximum`; one below 16 bits needs a usage page.
pub open spec fn usage_range(page: Option<u16>, minimum: u32, maximum: u32) -> Result<Seq<HidUsage>, UsbHidReportError> {
    if minimum <= maximum && minimum <= 0xFFFF && page is None {
        Err(UsbHidReportError::UsagePageMissing)
    } else {
        Ok(Seq::new(range_count(minimum, maximum), |k: int| usage_with_id(page, minimum + k)))
    }
}

/// The usages that the local items `locals` declare, after `usages` and with a
/// pending Usage Minimum `minimum`.
pub open spec fn collect_usages(page: Option<u16>, locals: Seq<LocalItem>, usages: Seq<HidUsage>, minimum: Option<u32>) -> Result<Seq<HidUsage>, UsbHidReportError>
    decreases locals.len(),
{
    if locals.len() == 0 {
        Ok(usages)
    } else {
        let rest = locals.drop_first();
        match locals[0] {
            LocalItem::Usage(id) => if page is Some {
                collect_usages(page, rest, usages.push(HidUsage { page: page->0, id }), minimum)
            } else {
                Err(UsbHidReportError::UsagePageMissing)
            },
            LocalItem::ExtendedUsage(value) => collect_usages(page, rest, usages.push(usage_from_u32(value)), minimum),
            LocalItem::UsageMinimum(v) => if minimum is Some {
                Err(UsbHidReportError::InvalidUsageRange)
            } else {
                collect_usages(page, rest, usages, Some(v))
            },
            LocalItem::UsageMaximum(v) => if minimum is None {
                Err(UsbHidReportError::InvalidUsageRange)
            } else {
                match usage_range(page, minimum->0, v) {
                    Ok(range) => collect_usages(page, rest, usages + range, None),
                    Err(e) => Err(e),
                }
            },
            _ => collect_usages(page, rest, usages, minimum),
        }
    }
}

} // verus!

verus! {

/// Which of the two index lists of the local items.
#[derive(Debug, Clone, Copy, PartialEq, Eq, Structural)]
pub enum IndexKind {
    Designator,
    String,
}

/// How a local item bears on one index list.
pub enum IndexItem {
    Index(u32),
    Minimum(u32),
    Maximum(u32),
    Unrelated,
}

pub open spec fn index_item(kind: IndexKind, item: LocalItem) -> IndexItem {
    match (kind, item) {
        (IndexKind::Designator, LocalItem::DesignatorIndex(v)) => IndexItem::Index(v),
        (IndexKind::Designator, LocalItem::DesignatorMinimum(v)) => IndexItem::Minimum(v),
        (IndexKind::Designator, LocalItem::DesignatorMaximum(v)) => IndexItem::Maximum(v),
        (IndexKind::String, LocalItem::StringIndex(v)) => IndexItem::Index(v),
        (IndexKind::String, LocalItem::StringMinimum(v)) => IndexItem::Minimum(v),
        (IndexKind::String, LocalItem::StringMaximum(v)) => IndexItem::Maximum(v),
        _ => IndexItem::Unrelated,
    }
}

pub open spec fn index_range_error(kind: IndexKind) -> UsbHidReportError {
    match kind {
        IndexKind::Designator => UsbHidReportError::InvalidDesignatorIndexRange,
        IndexKind::String => UsbHidReportError::InvalidStringIndexRange,
    }
}

/// The values from `minimum` to `maximum`, both included.
pub open spec fn index_range(minimum: u32, maximum: u32) -> Seq<u32> {
    Seq::new(range_count(minimum, maximum), |k: int| (minimum + k) as u32)
}

/// The indices of one kind that the local items `locals` declare, after
/// `indices` and with a pending minimum `minimum`.
pub open spec fn collect_indices(kind: IndexKind, locals: Seq<LocalItem>, indices: Seq<u32>, minimum: Option<u32>) -> Result<Seq<u32>, UsbHidReportError>
    decreases locals.len(),
{
    if locals.len() == 0 {
        Ok(indices)
    } else {
        let rest = locals.drop_first();
        match index_item(kind, locals[0]) {
            IndexItem::Index(v) => collect_indices(kind, rest, indices.push(v), minimum),
            IndexItem::Minimum(v) => if minimum is Some {
                Err(index_range_error(kind))
            } else {
                collect_indices(kind, rest, indices, Some(v))
            },
            IndexItem::Maximum(v) => if minimum is None {
                Err(index_range_error(kind))
            } else {
                collect_indices(kind, rest, indices + index_range(minimum->0, v), None)
            },
            IndexItem::Unrelated => collect_indices(kind, rest, indices, minimum),
        }
    }
}

// ---------------------------------------------------------------------------
// Fields
// ---------------------------------------------------------------------------

/// The element at `i`, or the last one where there are fewer.
pub open spec fn pick<T>(s: Seq<T>, i: int) -> T {
    if 0 <= i < s.len() {
        s[i]
    } else {
        s.last()
    }
}

/// The element at `i`, or the last one where there are fewer, or none.
pub open spec fn pick_option<T>(s: Seq<T>, i: int) -> Option<T> {
    if 0 <= i < s.len() {
        Some(s[i])
    } else if s.len() > 0 {
        Some(s.last())
    } else {
        None
    }
}

/// The `index`-th field that an Input, Output or Feature item makes: padding
/// where no usage is declared, else a variable or an array field as the flags
/// say, with the current global items.
pub open spec fn new_field(
    flags: u32,
    g: GlobalState,
    usages: Seq<HidUsage>,
    designators: Seq<u32>,
    strings: Seq<u32>,
    start: u32,
    end: u32,
    index: int,
) -> UsbHidReportFieldView {
    let bits = Range { start, end };
    if usages.len() == 0 {
        UsbHidReportFieldView::Padding(UsbHidReportPaddingField { bits })
    } else if is_variable(flags) {
        UsbHidReportFieldView::Variable(
            UsbHidReportVariableField {
                is_constant: is_constant(flags),
                report_id: g.report_id,
                usage: pick(usages, index),
                designator_index: pick_option(designators, index),
                string_index: pick_option(strings, index),
                bits,
                logical_minimum: g.logical_minimum,
                logical_maximum: g.logical_maximum,
                physical_minimum: g.physical_minimum,
                physical_maximum: g.physical_maximum,
                unit_exponent: g.unit_exponent,
                unit: g.unit,
            },
        )
    } else {
        UsbHidReportFieldView::Array(
            UsbHidReportArrayFieldView {
                is_constant: is_constant(flags),
                report_id: g.report_id,
                usages,
                designator_indices: designators,
                string_indices: strings,
                bits,
                logical_minimum: g.logical_minimum,
                logical_maximum: g.logical_maximum,
            },
        )
    }
}

/// The `count` fields of `size` bits each that an item makes, laid out one
/// after the other from bit `offset` on.
pub open spec fn new_fields(
    flags: u32,
    g: GlobalState,
    usages: Seq<HidUsage>,
    designators: Seq<u32>,
    strings: Seq<u32>,
    offset: int,
    size: int,
    count: int,
) -> Seq<UsbHidReportFieldView> {
    Seq::new(
        count as nat,
        |k: int|
            new_field(
                flags,
                g,
                usages,
                designators,
                strings,
                (offset + size * k) as u32,
                (offset + size * (k + 1)) as u32,
                k,
            ),
    )
}

pub open spec fn max_int(a: int, b: int) -> int {
    if a < b {
        b
    } else {
        a
    }
}

/// Where the next field of a report starts: after the field that ends last,
/// or at bit 8, after the report ID byte, when there is none.
pub open spec fn fields_end(fields: Seq<UsbHidReportFieldView>) -> int
    decreases fields.len(),
{
    if fields.len() == 0 {
        8
    } else if fields.len() == 1 {
        fields[0].bits().end as int
    } else {
        max_int(fields_end(fields.drop_last()), fields.last().bits().end as int)
    }
}

// ---------------------------------------------------------------------------
// Reports and collections
// ---------------------------------------------------------------------------

/// The position of the report with ID `id`, or the number of reports when
/// there is none.
pub open spec fn report_index(reports: Seq<ReportFieldsView>, id: Option<u8>) -> int
    decreases reports.len(),
{
    if reports.len() == 0 {
        0
    } else if reports[0].report_id == id {
        0
    } else {
        1 + report_index(reports.drop_first(), id)
    }
}

/// The reports with one for `id` added at the end where there is none.
pub open spec fn with_entry(reports: Seq<ReportFieldsView>, id: Option<u8>) -> Seq<ReportFieldsView> {
    if report_index(reports, id) < reports.len() {
        reports
    } else {
        reports.push(ReportFieldsView { report_id: id, fields: Seq::empty() })
    }
}

/// The order of report IDs: no ID first, then by number.
pub open spec fn id_key(id: Option<u8>) -> int {
    match id {
        None => 0,
        Some(v) => v as int + 1,
    }
}

/// An ordered list of report IDs with `id` put in its place, unless there.
pub open spec fn insert_id(ids: Seq<Option<u8>>, id: Option<u8>) -> Seq<Option<u8>>
    decreases ids.len(),
{
    if ids.len() == 0 {
        seq![id]
    } else if id_key(ids[0]) == id_key(id) {
        ids
    } else if id_key(id) < id_key(ids[0]) {
        seq![id] + ids
    } else {
        seq![ids[0]] + insert_id(ids.drop_first(), id)
    }
}

pub open spec fn new_collection(usage: HidUsage, collection_type: u8) -> CollectionBuilderView {
    CollectionBuilderView {
        usage,
        collection_type,
        input_report_ids: Seq::empty(),
        output_report_ids: Seq::empty(),
        feature_report_ids: Seq::empty(),
        child_collections: Seq::empty(),
    }
}

pub open spec fn add_report_id(c: CollectionBuilderView, kind: UsbHidReportKind, id: Option<u8>) -> CollectionBuilderView {
    match kind {
        UsbHidReportKind::Input => CollectionBuilderView { input_report_ids: insert_id(c.input_report_ids, id), ..c },
        UsbHidReportKind::Output => CollectionBuilderView { output_report_ids: insert_id(c.output_report_ids, id), ..c },
        UsbHidReportKind::Feature => CollectionBuilderView { feature_report_ids: insert_id(c.feature_report_ids, id), ..c },
    }
}

/// The collection with `child` added as its last nested collection.
pub open spec fn add_child(c: CollectionBuilderView, child: CollectionBuilderView) -> CollectionBuilderView {
    CollectionBuilderView { child_collections: c.child_collections.push(child), ..c }
}

pub open spec fn reports_of(s: BuilderState, kind: UsbHidReportKind) -> Seq<ReportFieldsView> {
    match kind {
        UsbHidReportKind::Input => s.input_reports,
        UsbHidReportKind::Output => s.output_reports,
        UsbHidReportKind::Feature => s.feature_reports,
    }
}

pub open spec fn with_reports(s: BuilderState, kind: UsbHidReportKind, reports: Seq<ReportFieldsView>) -> BuilderState {
    match kind {
        UsbHidReportKind::Input => BuilderState { input_reports: reports, ..s },
        UsbHidReportKind::Output => BuilderState { output_reports: reports, ..s },
        UsbHidReportKind::Feature => BuilderState { feature_reports: reports, ..s },
    }
}

// ---------------------------------------------------------------------------
// Main items
// ---------------------------------------------------------------------------

/// What an Input, Output or Feature item does: it gives its report (the one
/// of the current report ID, made if new) `count` fields after its last one,
/// records that report in the innermost open collection, and clears the local
/// items. It needs a report size and a report count; the usages and the two
/// index lists must be well formed; there must be an open collection.
pub open spec fn report_item_step(s: BuilderState, kind: UsbHidReportKind, flags: u32) -> Result<BuilderState, BuildFailure> {
    let g = s.global_state;
    let id = g.report_id;
    let reports = with_entry(reports_of(s, kind), id);
    let index = report_index(reports, id);
    let offset = fields_end(reports[index].fields);
    match collect_usages(g.usage_page, s.local_state, Seq::empty(), None) {
        Err(e) => Err(BuildFailure::Error(e)),
        Ok(usages) => if g.report_size is None {
            Err(BuildFailure::Error(UsbHidReportError::ReportSizeMissing))
        } else if g.report_count is None {
            Err(BuildFailure::Error(UsbHidReportError::ReportCountMissing))
        } else {
            match collect_indices(IndexKind::Designator, s.local_state, Seq::empty(), None) {
                Err(e) => Err(BuildFailure::Error(e)),
                Ok(designators) => match collect_indices(IndexKind::String, s.local_state, Seq::empty(), None) {
                    Err(e) => Err(BuildFailure::Error(e)),
                    Ok(strings) => {
                        let size = g.report_size->0 as int;
                        let count = g.report_count->0 as int;
                        if count > 0 && offset + size * count > u32::MAX {
                            Err(BuildFailure::ArithmeticOverflow)
                        } else if s.open_collections.len() == 0 {
                            Err(BuildFailure::Error(UsbHidReportError::ReportOutsideCollection))
                        } else {
                            let fields = new_fields(flags, g, usages, designators, strings, offset, size, count);
                            let last = s.open_collections.len() - 1;
                            let updated = reports.update(index, ReportFieldsView { report_id: id, fields: reports[index].fields + fields });
                            Ok(BuilderState {
                                local_state: Seq::empty(),
                                open_collections: s.open_collections.update(last, add_report_id(s.open_collections[last], kind, id)),
                                ..with_reports(s, kind, updated)
                            })
                        }
                    },
                },
            }
        },
    }
}

/// The builder after an Input, Output or Feature item that fails: the report
/// of the current report ID is made (with no field) if new, and nothing else
/// changes; no field is added, no report ID recorded in a collection, and the
/// local items are kept.
pub open spec fn report_item_failed(s: BuilderState, kind: UsbHidReportKind) -> BuilderState {
    with_reports(s, kind, with_entry(reports_of(s, kind), s.global_state.report_id))
}

/// What a main item does to the builder state. A Collection item opens a
/// collection; an End Collection item closes the innermost open one and adds
/// it, complete, to the collection that encloses it, or to the top-level
/// collections where none does. Collections are held by value, so a child is
/// added to its parent once closed rather than when opened; a descriptor only
/// holds closed top-level collections, so what it holds is the same either way.
pub open spec fn main_step(s: BuilderState, item: MainItem) -> Result<BuilderState, BuildFailure> {
    match item {
        MainItem::Input(flags) => report_item_step(s, UsbHidReportKind::Input, flags),
        MainItem::Output(flags) => report_item_step(s, UsbHidReportKind::Output, flags),
        MainItem::Feature(flags) => report_item_step(s, UsbHidReportKind::Feature, flags),
        MainItem::Collection(collection_type) => match collect_usages(s.global_state.usage_page, s.local_state, Seq::empty(), None) {
            Err(e) => Err(BuildFailure::Error(e)),
            Ok(usages) => if usages.len() == 0 {
                Err(BuildFailure::Error(UsbHidReportError::UsageMissing))
            } else {
                Ok(BuilderState {
                    local_state: Seq::empty(),
                    open_collections: s.open_collections.push(new_collection(usages[0], collection_type)),
                    ..s
                })
            },
        },
        MainItem::EndCollection => if s.open_collections.len() == 0 {
            Err(BuildFailure::Error(UsbHidReportError::UnexpectedEndCollection))
        } else {
            let top = s.open_collections.last();
            let rest = s.open_collections.drop_last();
            if rest.len() == 0 {
                Ok(BuilderState {
                    local_state: Seq::empty(),
                    open_collections: rest,
                    root_collections: s.root_collections.push(top),
                    ..s
                })
            } else {
                Ok(BuilderState {
                    local_state: Seq::empty(),
                    open_collections: rest.update(rest.len() - 1, add_child(rest.last(), top)),
                    ..s
                })
            }
        },
        MainItem::Reserved => Ok(BuilderState { local_state: Seq::empty(), ..s }),
    }
}

/// What one item does to the builder state.
pub open spec fn step(s: BuilderState, item: ReportDescriptorItem) -> Result<BuilderState, BuildFailure> {
    match item {
        ReportDescriptorItem::Main(main) => main_step(s, main),
        ReportDescriptorItem::Global(global) => match global_step(s, global) {
            Ok(t) => Ok(t),
            Err(e) => Err(BuildFailure::Error(e)),
        },
        ReportDescriptorItem::Local(local) => Ok(BuilderState { local_state: s.local_state.push(local), ..s }),
        ReportDescriptorItem::Other => Ok(s),
    }
}

/// The state after all of `items`, or the first failure.
pub open spec fn run(s: BuilderState, items: Seq<ReportDescriptorItem>) -> Result<BuilderState, BuildFailure>
    decreases items.len(),
{
    if items.len() == 0 {
        Ok(s)
    } else {
        match step(s, items[0]) {
            Ok(t) => run(t, items.drop_first()),
            Err(f) => Err(f),
        }
    }
}

// ---------------------------------------------------------------------------
// The descriptor
// ---------------------------------------------------------------------------

pub open spec fn reports_from(rfs: Seq<ReportFieldsView>) -> Seq<UsbHidReportView> {
    rfs.map_values(|rf: ReportFieldsView| report_view(rf.report_id, rf.fields))
}

/// Every report's size in bits fits in `usize`.
pub open spec fn sizes_fit(rfs: Seq<ReportFieldsView>) -> bool {
    forall|i: int| 0 <= i < rfs.len() ==> 8 + fields_size(#[trigger] rfs[i].fields) <= usize::MAX
}

/// The first report with ID `id`.
pub open spec fn report_with_id(reports: Seq<UsbHidReportView>, id: Option<u8>) -> Option<UsbHidReportView>
    decreases reports.len(),
{
    if reports.len() == 0 {
        None
    } else if reports[0].report_id == id {
        Some(reports[0])
    } else {
        report_with_id(reports.drop_first(), id)
    }
}

/// The reports with the given IDs, in the order of the IDs.
pub open spec fn reports_for_ids(ids: Seq<Option<u8>>, reports: Seq<UsbHidReportView>) -> Seq<UsbHidReportView>
    decreases ids.len(),
{
    if ids.len() == 0 {
        Seq::empty()
    } else {
        match report_with_id(reports, ids[0]) {
            Some(r) => seq![r] + reports_for_ids(ids.drop_first(), reports),
            None => reports_for_ids(ids.drop_first(), reports),
        }
    }
}

/// The collection that a builder collection becomes, given all reports.
pub open spec fn built_collection(
    c: CollectionBuilderView,
    inputs: Seq<UsbHidReportView>,
    outputs: Seq<UsbHidReportView>,
    features: Seq<UsbHidReportView>,
) -> UsbHidReportCollectionView
    decreases c,
{
    UsbHidReportCollectionView {
        usage: c.usage,
        collection_type: c.collection_type,
        input_reports: reports_for_ids(c.input_report_ids, inputs),
        output_reports: reports_for_ids(c.output_report_ids, outputs),
        feature_reports: reports_for_ids(c.feature_report_ids, features),
        child_collections: Seq::new(
            c.child_collections.len(),
            |i: int|
                if 0 <= i < c.child_collections.len() {
                    built_collection(c.child_collections[i], inputs, outputs, features)
                } else {
                    UsbHidReportCollectionView {
                        usage: c.usage,
                        collection_type: c.collection_type,
                        input_reports: Seq::empty(),
                        output_reports: Seq::empty(),
                        feature_reports: Seq::empty(),
                        child_collections: Seq::empty(),
                    }
                },
        ),
    }
}

/// Several reports of one kind where one of them has no report ID.
pub open spec fn report_id_missing(reports: Seq<UsbHidReportView>) -> bool {
    reports.len() > 1 && exists|i: int| 0 <= i < reports.len() && (#[trigger] reports[i]).report_id is None
}

/// The descriptor that the final builder state gives: its reports, then its
/// closed top-level collections. Where there are several reports of one kind,
/// each must have a report ID.
pub open spec fn finish(s: BuilderState) -> Result<UsbHidReportDescriptorView, BuildFailure> {
    if !sizes_fit(s.input_reports) || !sizes_fit(s.output_reports) || !sizes_fit(s.feature_reports) {
        Err(BuildFailure::ArithmeticOverflow)
    } else {
        let inputs = reports_from(s.input_reports);
        let outputs = reports_from(s.output_reports);
        let features = reports_from(s.feature_reports);
        if report_id_missing(inputs) || report_id_missing(outputs) || report_id_missing(features) {
            Err(BuildFailure::Error(UsbHidReportError::ReportIdMissing))
        } else {
            Ok(UsbHidReportDescriptorView {
                input_reports: inputs,
                output_reports: outputs,
                feature_reports: features,
                root_collections: s.root_collections.map_values(
                    |c: CollectionBuilderView| built_collection(c, inputs, outputs, features),
                ),
            })
        }
    }
}

/// What building from state `s` with `items` gives.
pub open spec fn spec_build_from(s: BuilderState, items: Seq<ReportDescriptorItem>) -> Result<UsbHidReportDescriptorView, BuildFailure> {
    match run(s, items) {
        Ok(t) => finish(t),
        Err(f) => Err(f),
    }
}

/// What building a descriptor from `items` gives.
pub open spec fn spec_build(items: Seq<ReportDescriptorItem>) -> Result<UsbHidReportDescriptorView, BuildFailure> {
    spec_build_from(initial_state(), items)
}

} // verus!

verus! {

// ---------------------------------------------------------------------------
// Collection builders
// ---------------------------------------------------------------------------

fn id_order(id: Option<u8>) -> (key: u16)
    ensures
        key == id_key(id),
{
    match id {
        None => 0,
        Some(v) => v as u16 + 1,
    }
}

/// Puts a report ID into an ordered list of IDs, as `insert_id` says.
fn insert_report_id(ids: &mut Vec<Option<u8>>, id: Option<u8>)
    ensures
        final(ids)@ == insert_id(old(ids)@, id),
{
    let ghost orig = ids@;
    let mut i: usize = 0;
    assert(orig.skip(0) =~= orig);
    while i < ids.len()
        invariant
            i <= ids.len(),
            ids@ == orig,
            old(ids)@ == orig,
            insert_id(orig, id) == orig.take(i as int) + insert_id(orig.skip(i as int), id),
        decreases ids.len() - i,
    {
        let key = id_order(ids[i]);
        let ghost rest = orig.skip(i as int);
        assert(rest[0] == orig[i as int]);
        if key == id_order(id) {
            assert(orig.take(i as int) + rest =~= orig);
            return;
        }
        if id_order(id) < key {
            ids.insert(i, id);
            assert(ids@ =~= orig.take(i as int) + (seq![id] + rest));
            return;
        }
        assert(rest.drop_first() =~= orig.skip(i + 1));
        assert(orig.take(i as int) + (seq![rest[0]] + insert_id(orig.skip(i + 1), id)) =~= orig.take(i + 1) + insert_id(orig.skip(i + 1), id));
        i = i + 1;
    }
    assert(orig.skip(i as int) =~= Seq::<Option<u8>>::empty());
    ids.push(id);
    assert(ids@ =~= orig.take(i as int) + seq![id]);
}

/// A collection while its descriptor is being built.
pub struct UsbHidReportCollectionBuilder {
    usage: HidUsage,
    collection_type: u8,
    input_report_ids: Vec<Option<u8>>,
    output_report_ids: Vec<Option<u8>>,
    feature_report_ids: Vec<Option<u8>>,
    child_collections: Vec<UsbHidReportCollectionBuilder>,
}

pub closed spec fn collection_builder_view(c: UsbHidReportCollectionBuilder) -> CollectionBuilderView
    decreases c,
{
    CollectionBuilderView {
        usage: c.usage,
        collection_type: c.collection_type,
        input_report_ids: c.input_report_ids@,
        output_report_ids: c.output_report_ids@,
        feature_report_ids: c.feature_report_ids@,
        child_collections: Seq::new(
            c.child_collections@.len(),
            |i: int|
                if 0 <= i < c.child_collections@.len() {
                    collection_builder_view(c.child_collections@[i])
                } else {
                    new_collection(c.usage, c.collection_type)
                },
        ),
    }
}

impl View for UsbHidReportCollectionBuilder {
    type V = CollectionBuilderView;

    open spec fn view(&self) -> CollectionBuilderView {
        collection_builder_view(*self)
    }
}

impl UsbHidReportCollectionBuilder {
    pub fn new(usage: HidUsage, collection_type: u8) -> (c: Self)
        ensures
            c@ == new_collection(usage, collection_type),
    {
        let c = UsbHidReportCollectionBuilder {
            usage,
            collection_type,
            input_report_ids: Vec::new(),
            output_report_ids: Vec::new(),
            feature_report_ids: Vec::new(),
            child_collections: Vec::new(),
        };
        assert(c@.child_collections =~= Seq::<CollectionBuilderView>::empty());
        c
    }

    pub fn add_report_id(&mut self, kind: UsbHidReportKind, report_id: Option<u8>)
        ensures
            final(self)@ == add_report_id(old(self)@, kind, report_id),
    {
        match kind {
            UsbHidReportKind::Input => insert_report_id(&mut self.input_report_ids, report_id),
            UsbHidReportKind::Output => insert_report_id(&mut self.output_report_ids, report_id),
            UsbHidReportKind::Feature => insert_report_id(&mut self.feature_report_ids, report_id),
        }
        assert(final(self)@.child_collections =~= old(self)@.child_collections);
    }

    pub fn add_input_report_id(&mut self, report_id: Option<u8>)
        ensures
            final(self)@ == add_report_id(old(self)@, UsbHidReportKind::Input, report_id),
    {
        self.add_report_id(UsbHidReportKind::Input, report_id)
    }

    pub fn add_output_report_id(&mut self, report_id: Option<u8>)
        ensures
            final(self)@ == add_report_id(old(self)@, UsbHidReportKind::Output, report_id),
    {
        self.add_report_id(UsbHidReportKind::Output, report_id)
    }

    pub fn add_feature_report_id(&mut self, report_id: Option<u8>)
        ensures
            final(self)@ == add_report_id(old(self)@, UsbHidReportKind::Feature, report_id),
    {
        self.add_report_id(UsbHidReportKind::Feature, report_id)
    }

    /// Adds `collection` as the last child. The child is moved in and held by
    /// value: later changes to another builder do not reach it, so a child is
    /// added once it is complete (the descriptor builder adds a collection to
    /// its parent when the collection is closed).
    pub fn add_child_collection(&mut self, collection: UsbHidReportCollectionBuilder)
        ensures
            final(self)@ == add_child(old(self)@, collection@),
    {
        self.child_collections.push(collection);
        assert(final(self)@.child_collections =~= old(self)@.child_collections.push(collection@));
    }
}

} // verus!

verus! {

/// The position of the first report with ID `id`, if any.
fn find_report(reports: &Vec<UsbHidReport>, id: Option<u8>) -> (found: Option<usize>)
    ensures
        match found {
            Some(k) => k < reports@.len() && report_with_id(reports_view(reports@), id) == Some(
                reports@[k as int]@,
            ),
            None => report_with_id(reports_view(reports@), id) is None,
        },
{
    let ghost all = reports_view(reports@);
    let mut i: usize = 0;
    assert(all.skip(0) =~= all);
    while i < reports.len()
        invariant
            i <= reports.len(),
            all == reports_view(reports@),
            report_with_id(all, id) == report_with_id(all.skip(i as int), id),
        decreases reports.len() - i,
    {
        let ghost rest = all.skip(i as int);
        assert(rest[0] == reports@[i as int]@);
        if reports[i].report_id() == id {
            return Some(i);
        }
        assert(rest.drop_first() =~= all.skip(i + 1));
        i = i + 1;
    }
    assert(all.skip(i as int) =~= Seq::<UsbHidReportView>::empty());
    None
}

/// Copies of the reports with the given IDs, as `reports_for_ids` says.
fn reports_with_ids(ids: &Vec<Option<u8>>, reports: &Vec<UsbHidReport>) -> (found: Vec<UsbHidReport>)
    ensures
        reports_view(found@) == reports_for_ids(ids@, reports_view(reports@)),
{
    let ghost all = reports_view(reports@);
    let mut found: Vec<UsbHidReport> = Vec::new();
    let mut i: usize = 0;
    assert(ids@.skip(0) =~= ids@);
    assert(reports_view(found@) + reports_for_ids(ids@, all) =~= reports_for_ids(ids@, all));
    while i < ids.len()
        invariant
            i <= ids.len(),
            all == reports_view(reports@),
            reports_for_ids(ids@, all) == reports_view(found@) + reports_for_ids(ids@.skip(i as int), all),
        decreases ids.len() - i,
    {
        let ghost rest = ids@.skip(i as int);
        assert(rest[0] == ids@[i as int]);
        assert(rest.drop_first() =~= ids@.skip(i + 1));
        let ghost before = reports_view(found@);
        match find_report(reports, ids[i]) {
            Some(k) => {
                found.push(reports[k].duplicate());
                assert(reports_view(found@) =~= before.push(reports@[k as int]@));
                assert(before + (seq![reports@[k as int]@] + reports_for_ids(ids@.skip(i + 1), all))
                    =~= reports_view(found@) + reports_for_ids(ids@.skip(i + 1), all));
            },
            None => {},
        }
        i = i + 1;
    }
    assert(ids@.skip(i as int) =~= Seq::<Option<u8>>::empty());
    assert(reports_view(found@) + Seq::<UsbHidReportView>::empty() =~= reports_view(found@));
    found
}

proof fn lemma_builder_child_view(c: UsbHidReportCollectionBuilder, i: int)
    requires
        0 <= i < c.child_collections@.len(),
    ensures
        c@.child_collections[i] == c.child_collections@[i]@,
        c@.child_collections.len() == c.child_collections@.len(),
{
}

impl UsbHidReportCollectionBuilder {
    /// The collection this builder stands for, given all the reports of the
    /// descriptor: the reports whose IDs it holds, and its built children.
    pub fn build(
        &self,
        all_input_reports: &Vec<UsbHidReport>,
        all_output_reports: &Vec<UsbHidReport>,
        all_feature_reports: &Vec<UsbHidReport>,
    ) -> (collection: UsbHidReportCollection)
        ensures
            collection@ == built_collection(
                self@,
                reports_view(all_input_reports@),
                reports_view(all_output_reports@),
                reports_view(all_feature_reports@),
            ),
        decreases self,
    {
        let ghost inputs = reports_view(all_input_reports@);
        let ghost outputs = reports_view(all_output_reports@);
        let ghost features = reports_view(all_feature_reports@);
        let mut child_collections: Vec<UsbHidReportCollection> = Vec::new();
        let mut i: usize = 0;
        while i < self.child_collections.len()
            invariant
                i <= self.child_collections.len(),
                inputs == reports_view(all_input_reports@),
                outputs == reports_view(all_output_reports@),
                features == reports_view(all_feature_reports@),
                child_collections@.len() == i,
                forall|k: int| 0 <= k < i ==> (#[trigger] child_collections@[k])@ == built_collection(
                    self@.child_collections[k],
                    inputs,
                    outputs,
                    features,
                ),
            decreases self.child_collections.len() - i,
        {
            proof {
                lemma_builder_child_view(*self, i as int);
            }
            let child = self.child_collections[i].build(
                all_input_reports,
                all_output_reports,
                all_feature_reports,
            );
            child_collections.push(child);
            i = i + 1;
        }
        let collection = UsbHidReportCollection::new(
            self.usage,
            self.collection_type,
            reports_with_ids(&self.input_report_ids, all_input_reports),
            reports_with_ids(&self.output_report_ids, all_output_reports),
            reports_with_ids(&self.feature_report_ids, all_feature_reports),
            child_collections,
        );
        assert(collection@.child_collections =~= built_collection(self@, inputs, outputs, features).child_collections);
        collection
    }
}

} // verus!

verus! {

// ---------------------------------------------------------------------------
// The descriptor builder
// ---------------------------------------------------------------------------

/// The fields gathered so far for one report.
pub struct ReportFields {
    report_id: Option<u8>,
    fields: Vec<UsbHidReportField>,
}

impl View for ReportFields {
    type V = ReportFieldsView;

    closed spec fn view(&self) -> ReportFieldsView {
        ReportFieldsView { report_id: self.report_id, fields: fields_view(self.fields@) }
    }
}

pub open spec fn report_fields_view(rfs: Seq<ReportFields>) -> Seq<ReportFieldsView> {
    rfs.map_values(|rf: ReportFields| rf@)
}

pub open spec fn collection_builders_view(cs: Seq<UsbHidReportCollectionBuilder>) -> Seq<CollectionBuilderView> {
    cs.map_values(|c: UsbHidReportCollectionBuilder| c@)
}

/// Builds a report descriptor from its items; `spec_build` states the result.
pub struct UsbHidReportDescriptorBuilder {
    global_state: GlobalState,
    global_state_stack: Vec<GlobalState>,
    local_state: Vec<LocalItem>,
    input_report_fields: Vec<ReportFields>,
    output_report_fields: Vec<ReportFields>,
    feature_report_fields: Vec<ReportFields>,
    root_collections: Vec<UsbHidReportCollectionBuilder>,
    open_collections: Vec<UsbHidReportCollectionBuilder>,
}

impl View for UsbHidReportDescriptorBuilder {
    type V = BuilderState;

    closed spec fn view(&self) -> BuilderState {
        BuilderState {
            global_state: self.global_state,
            global_state_stack: self.global_state_stack@,
            local_state: self.local_state@,
            input_reports: report_fields_view(self.input_report_fields@),
            output_reports: report_fields_view(self.output_report_fields@),
            feature_reports: report_fields_view(self.feature_report_fields@),
            root_collections: collection_builders_view(self.root_collections@),
            open_collections: collection_builders_view(self.open_collections@),
        }
    }
}

/// The usage with ID `id` on `page`, as `usage_with_id` says.
fn usage_with_id_exec(page: Option<u16>, id: u32) -> (usage: HidUsage)
    requires
        id <= 0xFFFF ==> page is Some,
    ensures
        usage == usage_with_id(page, id as int),
{
    if id > 0xFFFF {
        HidUsage::from_u32(id)
    } else {
        HidUsage::new(page.unwrap(), id as u16)
    }
}

/// Appends the usages from `minimum` to `maximum`, as `usage_range` says.
fn push_usage_range(usages: &mut Vec<HidUsage>, page: Option<u16>, minimum: u32, maximum: u32)
    requires
        usage_range(page, minimum, maximum) is Ok,
    ensures
        final(usages)@ == old(usages)@ + usage_range(page, minimum, maximum)->Ok_0,
{
    let ghost before = usages@;
    let ghost range = usage_range(page, minimum, maximum)->Ok_0;
    if minimum > maximum {
        assert(range =~= Seq::<HidUsage>::empty());
        assert(usages@ =~= before + range);
        return;
    }
    let mut id: u64 = minimum as u64;
    while id <= maximum as u64
        invariant
            minimum <= id <= maximum as u64 + 1,
            usage_range(page, minimum, maximum) is Ok,
            range == usage_range(page, minimum, maximum)->Ok_0,
            usages@ =~= before + range.take(id - minimum),
        decreases maximum as u64 + 1 - id,
    {
        assert(range[id - minimum] == usage_with_id(page, id as int));
        usages.push(usage_with_id_exec(page, id as u32));
        assert(range.take(id - minimum + 1) =~= range.take(id - minimum).push(range[id - minimum]));
        id = id + 1;
    }
    assert(range.take(id - minimum) =~= range);
}

/// Appends the values from `minimum` to `maximum`, as `index_range` says.
fn push_index_range(indices: &mut Vec<u32>, minimum: u32, maximum: u32)
    ensures
        final(indices)@ == old(indices)@ + index_range(minimum, maximum),
{
    let ghost before = indices@;
    let ghost range = index_range(minimum, maximum);
    if minimum > maximum {
        assert(range =~= Seq::<u32>::empty());
        assert(indices@ =~= before + range);
        return;
    }
    let mut id: u64 = minimum as u64;
    while id <= maximum as u64
        invariant
            minimum <= maximum,
            minimum <= id <= maximum as u64 + 1,
            range == index_range(minimum, maximum),
            indices@ =~= before + range.take(id - minimum),
        decreases maximum as u64 + 1 - id,
    {
        assert(range[id - minimum] == id as u32);
        indices.push(id as u32);
        assert(range.take(id - minimum + 1) =~= range.take(id - minimum).push(range[id - minimum]));
        id = id + 1;
    }
    assert(range.take(id - minimum) =~= range);
}

impl UsbHidReportDescriptorBuilder {
    pub fn new() -> (builder: Self)
        ensures
            builder@ == initial_state(),
    {
        let builder = UsbHidReportDescriptorBuilder {
            global_state: GlobalState {
                usage_page: None,
                logical_minimum: None,
                logical_maximum: None,
                physical_minimum: None,
                physical_maximum: None,
                unit_exponent: None,
                unit: None,
                report_size: None,
                report_id: None,
                report_count: None,
                reserved: ReservedGlobals { tag_12: None, tag_13: None, tag_14: None, tag_15: None },
            },
            global_state_stack: Vec::new(),
            local_state: Vec::new(),
            input_report_fields: Vec::new(),
            output_report_fields: Vec::new(),
            feature_report_fields: Vec::new(),
            root_collections: Vec::new(),
            open_collections: Vec::new(),
        };
        assert(builder@.input_reports =~= Seq::<ReportFieldsView>::empty());
        assert(builder@.output_reports =~= Seq::<ReportFieldsView>::empty());
        assert(builder@.feature_reports =~= Seq::<ReportFieldsView>::empty());
        assert(builder@.root_collections =~= Seq::<CollectionBuilderView>::empty());
        assert(builder@.open_collections =~= Seq::<CollectionBuilderView>::empty());
        builder
    }

    /// The usages that the local items declare, as `collect_usages` says.
    fn current_usages(&self) -> (usages: Result<Vec<HidUsage>, UsbHidReportError>)
        ensures
            match usages {
                Ok(u) => collect_usages(self@.global_state.usage_page, self@.local_state, Seq::empty(), None) == Ok::<Seq<HidUsage>, UsbHidReportError>(u@),
                Err(e) => collect_usages(self@.global_state.usage_page, self@.local_state, Seq::empty(), None) == Err::<Seq<HidUsage>, UsbHidReportError>(e),
            },
    {
        let page = self.global_state.usage_page;
        let ghost locals = self@.local_state;
        let mut usages: Vec<HidUsage> = Vec::new();
        let mut minimum: Option<u32> = None;
        let mut i: usize = 0;
        assert(locals.skip(0) =~= locals);
        while i < self.local_state.len()
            invariant
                i <= self.local_state.len(),
                locals == self@.local_state,
                locals == self.local_state@,
                page == self@.global_state.usage_page,
                collect_usages(page, locals, Seq::empty(), None) == collect_usages(page, locals.skip(i as int), usages@, minimum),
            decreases self.local_state.len() - i,
        {
            let ghost rest = locals.skip(i as int);
            assert(rest[0] == locals[i as int]);
            assert(rest.drop_first() =~= locals.skip(i + 1));
            match self.local_state[i] {
                LocalItem::Usage(id) => {
                    match page {
                        Some(p) => usages.push(HidUsage::new(p, id)),
                        None => return Err(UsbHidReportError::UsagePageMissing),
                    }
                },
                LocalItem::ExtendedUsage(value) => usages.push(HidUsage::from_u32(value)),
                LocalItem::UsageMinimum(v) => {
                    if minimum.is_some() {
                        return Err(UsbHidReportError::InvalidUsageRange);
                    }
                    minimum = Some(v);
                },
                LocalItem::UsageMaximum(v) => {
                    match minimum {
                        Some(m) => {
                            if m <= v && m <= 0xFFFF && page.is_none() {
                                return Err(UsbHidReportError::UsagePageMissing);
                            }
                            push_usage_range(&mut usages, page, m, v);
                            minimum = None;
                        },
                        None => return Err(UsbHidReportError::InvalidUsageRange),
                    }
                },
                _ => {},
            }
            i = i + 1;
        }
        assert(locals.skip(i as int) =~= Seq::<LocalItem>::empty());
        Ok(usages)
    }

    /// The indices of one kind that the local items declare, as
    /// `collect_indices` says.
    fn current_indices(&self, kind: IndexKind) -> (indices: Result<Vec<u32>, UsbHidReportError>)
        ensures
            match indices {
                Ok(v) => collect_indices(kind, self@.local_state, Seq::empty(), None) == Ok::<Seq<u32>, UsbHidReportError>(v@),
                Err(e) => collect_indices(kind, self@.local_state, Seq::empty(), None) == Err::<Seq<u32>, UsbHidReportError>(e),
            },
    {
        let ghost locals = self@.local_state;
        let range_error = match kind {
            IndexKind::Designator => UsbHidReportError::InvalidDesignatorIndexRange,
            IndexKind::String => UsbHidReportError::InvalidStringIndexRange,
        };
        let mut indices: Vec<u32> = Vec::new();
        let mut minimum: Option<u32> = None;
        let mut i: usize = 0;
        assert(locals.skip(0) =~= locals);
        while i < self.local_state.len()
            invariant
                i <= self.local_state.len(),
                locals == self@.local_state,
                locals == self.local_state@,
                range_error == index_range_error(kind),
                collect_indices(kind, locals, Seq::empty(), None) == collect_indices(kind, locals.skip(i as int), indices@, minimum),
            decreases self.local_state.len() - i,
        {
            let ghost rest = locals.skip(i as int);
            assert(rest[0] == locals[i as int]);
            assert(rest.drop_first() =~= locals.skip(i + 1));
            let item = self.local_state[i];
            let classified = match (kind, item) {
                (IndexKind::Designator, LocalItem::DesignatorIndex(v)) => IndexItem::Index(v),
                (IndexKind::Designator, LocalItem::DesignatorMinimum(v)) => IndexItem::Minimum(v),
                (IndexKind::Designator, LocalItem::DesignatorMaximum(v)) => IndexItem::Maximum(v),
                (IndexKind::String, LocalItem::StringIndex(v)) => IndexItem::Index(v),
                (IndexKind::String, LocalItem::StringMinimum(v)) => IndexItem::Minimum(v),
                (IndexKind::String, LocalItem::StringMaximum(v)) => IndexItem::Maximum(v),
                _ => IndexItem::Unrelated,
            };
            assert(classified == index_item(kind, item));
            match classified {
                IndexItem::Index(v) => indices.push(v),
                IndexItem::Minimum(v) => {
                    if minimum.is_some() {
                        return Err(range_error);
                    }
                    minimum = Some(v);
                },
                IndexItem::Maximum(v) => {
                    match minimum {
                        Some(m) => {
                            push_index_range(&mut indices, m, v);
                            minimum = None;
                        },
                        None => return Err(range_error),
                    }
                },
                IndexItem::Unrelated => {},
            }
            i = i + 1;
        }
        assert(locals.skip(i as int) =~= Seq::<LocalItem>::empty());
        Ok(indices)
    }

    /// A global item, as `global_step` says; a failed one (a Pop with nothing
    /// pushed) leaves the builder unchanged.
    fn parse_global_item(&mut self, global_item: GlobalItem) -> (res: Result<(), UsbHidReportError>)
        ensures
            match res {
                Ok(()) => global_step(old(self)@, global_item) == Ok::<BuilderState, UsbHidReportError>(final(self)@),
                Err(e) => {
                    &&& global_step(old(self)@, global_item) == Err::<BuilderState, UsbHidReportError>(e)
                    &&& final(self)@ == old(self)@
                },
            },
    {
        match global_item {
            GlobalItem::UsagePage(v) => self.global_state.usage_page = Some(v),
            GlobalItem::LogicalMinimum(v) => self.global_state.logical_minimum = Some(v),
            GlobalItem::LogicalMaximum(v) => self.global_state.logical_maximum = Some(v),
            GlobalItem::PhysicalMinimum(v) => self.global_state.physical_minimum = Some(v),
            GlobalItem::PhysicalMaximum(v) => self.global_state.physical_maximum = Some(v),
            GlobalItem::UnitExponent(v) => self.global_state.unit_exponent = Some(v),
            GlobalItem::Unit(v) => self.global_state.unit = Some(v),
            GlobalItem::ReportSize(v) => self.global_state.report_size = Some(v),
            GlobalItem::ReportId(v) => self.global_state.report_id = Some(v),
            GlobalItem::ReportCount(v) => self.global_state.report_count = Some(v),
            GlobalItem::Push => self.global_state_stack.push(self.global_state),
            GlobalItem::Pop => {
                match self.global_state_stack.pop() {
                    Some(global_state) => self.global_state = global_state,
                    None => return Err(UsbHidReportError::PopBeforePush),
                }
            },
            GlobalItem::Reserved(tag, data) => {
                if tag == 12 {
                    self.global_state.reserved.tag_12 = Some(data);
                } else if tag == 13 {
                    self.global_state.reserved.tag_13 = Some(data);
                } else if tag == 14 {
                    self.global_state.reserved.tag_14 = Some(data);
                } else if tag == 15 {
                    self.global_state.reserved.tag_15 = Some(data);
                }
            },
        }
        Ok(())
    }

    fn parse_local_item(&mut self, local_item: LocalItem)
        ensures
            final(self)@ == (BuilderState { local_state: old(self)@.local_state.push(local_item), ..old(self)@ }),
    {
        self.local_state.push(local_item);
    }
}

} // verus!

verus! {

/// The position of the report with ID `id`, as `report_index` says.
fn report_position(reports: &Vec<ReportFields>, id: Option<u8>) -> (position: usize)
    ensures
        position == report_index(report_fields_view(reports@), id),
        position <= reports@.len(),
{
    let ghost all = report_fields_view(reports@);
    let mut i: usize = 0;
    assert(all.skip(0) =~= all);
    while i < reports.len()
        invariant
            i <= reports.len(),
            all == report_fields_view(reports@),
            report_index(all, id) == i + report_index(all.skip(i as int), id),
        decreases reports.len() - i,
    {
        let ghost rest = all.skip(i as int);
        assert(rest[0] == reports@[i as int]@);
        if reports[i].report_id == id {
            return i;
        }
        assert(rest.drop_first() =~= all.skip(i + 1));
        i = i + 1;
    }
    assert(all.skip(i as int) =~= Seq::<ReportFieldsView>::empty());
    i
}

/// Where the next field of a report starts, as `fields_end` says.
fn next_field_offset(fields: &Vec<UsbHidReportField>) -> (offset: u32)
    ensures
        offset == fields_end(fields_view(fields@)),
{
    let ghost all = fields_view(fields@);
    if fields.len() == 0 {
        return 8;
    }
    let mut end: u32 = fields[0].bits().end;
    assert(all.take(1).drop_last() =~= Seq::<UsbHidReportFieldView>::empty());
    assert(all.take(1)[0] == all[0]);
    let mut i: usize = 1;
    while i < fields.len()
        invariant
            1 <= i <= fields.len(),
            all == fields_view(fields@),
            end == fields_end(all.take(i as int)),
        decreases fields.len() - i,
    {
        let e = fields[i].bits().end;
        assert(all.take(i + 1).drop_last() =~= all.take(i as int));
        assert(all.take(i + 1).last() == all[i as int]);
        if e > end {
            end = e;
        }
        i = i + 1;
    }
    assert(all.take(i as int) =~= all);
    end
}

/// The `index`-th field that an Input, Output or Feature item makes, as
/// `new_field` says.
fn make_field(
    flags: u32,
    g: &GlobalState,
    usages: &Vec<HidUsage>,
    designators: &Vec<u32>,
    strings: &Vec<u32>,
    start: u32,
    end: u32,
    index: u32,
) -> (field: UsbHidReportField)
    ensures
        field@ == new_field(flags, *g, usages@, designators@, strings@, start, end, index as int),
{
    let position = index as usize;
    if usages.len() == 0 {
        UsbHidReportField::Padding(UsbHidReportPaddingField { bits: start..end })
    } else if flags & 2 != 0 {
        let usage = if position < usages.len() {
            usages[position]
        } else {
            usages[usages.len() - 1]
        };
        let designator_index = if position < designators.len() {
            Some(designators[position])
        } else if designators.len() > 0 {
            Some(designators[designators.len() - 1])
        } else {
            None
        };
        let string_index = if position < strings.len() {
            Some(strings[position])
        } else if strings.len() > 0 {
            Some(strings[strings.len() - 1])
        } else {
            None
        };
        UsbHidReportField::Variable(
            UsbHidReportVariableField {
                is_constant: flags & 1 != 0,
                report_id: g.report_id,
                usage,
                designator_index,
                string_index,
                bits: start..end,
                logical_minimum: g.logical_minimum,
                logical_maximum: g.logical_maximum,
                physical_minimum: g.physical_minimum,
                physical_maximum: g.physical_maximum,
                unit_exponent: g.unit_exponent,
                unit: g.unit,
            },
        )
    } else {
        UsbHidReportField::Array(
            UsbHidReportArrayField {
                is_constant: flags & 1 != 0,
                report_id: g.report_id,
                usages: copy_vec(usages),
                designator_indices: copy_vec(designators),
                string_indices: copy_vec(strings),
                bits: start..end,
                logical_minimum: g.logical_minimum,
                logical_maximum: g.logical_maximum,
            },
        )
    }
}

/// The fields that an Input, Output or Feature item makes, as `new_fields` says.
fn make_fields(
    flags: u32,
    g: &GlobalState,
    usages: &Vec<HidUsage>,
    designators: &Vec<u32>,
    strings: &Vec<u32>,
    offset: u32,
    size: u32,
    count: u32,
) -> (fields: Vec<UsbHidReportField>)
    requires
        count > 0 ==> offset + size * count <= u32::MAX,
    ensures
        fields_view(fields@) == new_fields(flags, *g, usages@, designators@, strings@, offset as int, size as int, count as int),
{
    let ghost expected = new_fields(flags, *g, usages@, designators@, strings@, offset as int, size as int, count as int);
    let mut fields: Vec<UsbHidReportField> = Vec::new();
    let mut k: u32 = 0;
    let mut start: u32 = offset;
    while k < count
        invariant
            k <= count,
            count > 0 ==> offset + size * count <= u32::MAX,
            start == offset + size * k,
            expected == new_fields(flags, *g, usages@, designators@, strings@, offset as int, size as int, count as int),
            fields_view(fields@) =~= expected.take(k as int),
        decreases count - k,
    {
        assert(size * (k + 1) == size * k + size) by (nonlinear_arith);
        assert(size * (k + 1) <= size * count) by (nonlinear_arith)
            requires
                k + 1 <= count,
        ;
        let end: u32 = start + size;
        let ghost before = fields_view(fields@);
        fields.push(make_field(flags, g, usages, designators, strings, start, end, k));
        assert(expected[k as int] == new_field(flags, *g, usages@, designators@, strings@, start, end, k as int));
        assert(fields_view(fields@) =~= before.push(expected[k as int]));
        assert(expected.take(k + 1) =~= expected.take(k as int).push(expected[k as int]));
        start = end;
        k = k + 1;
    }
    assert(expected.take(k as int) =~= expected);
    fields
}

} // verus!

verus! {

impl UsbHidReportDescriptorBuilder {
    fn take_reports(&mut self, kind: UsbHidReportKind) -> (reports: Vec<ReportFields>)
        ensures
            report_fields_view(reports@) == reports_of(old(self)@, kind),
            final(self)@ == with_reports(old(self)@, kind, Seq::empty()),
    {
        let mut reports: Vec<ReportFields> = Vec::new();
        match kind {
            UsbHidReportKind::Input => std::mem::swap(&mut reports, &mut self.input_report_fields),
            UsbHidReportKind::Output => std::mem::swap(&mut reports, &mut self.output_report_fields),
            UsbHidReportKind::Feature => std::mem::swap(&mut reports, &mut self.feature_report_fields),
        }
        assert(report_fields_view(Seq::<ReportFields>::empty()) =~= Seq::<ReportFieldsView>::empty());
        reports
    }

    fn put_reports(&mut self, kind: UsbHidReportKind, reports: Vec<ReportFields>)
        ensures
            final(self)@ == with_reports(old(self)@, kind, report_fields_view(reports@)),
    {
        match kind {
            UsbHidReportKind::Input => self.input_report_fields = reports,
            UsbHidReportKind::Output => self.output_report_fields = reports,
            UsbHidReportKind::Feature => self.feature_report_fields = reports,
        }
    }

    /// An Input, Output or Feature item, as `report_item_step` says.
    fn parse_report_item(&mut self, kind: UsbHidReportKind, flags: u32) -> (res: Result<(), BuildFailure>)
        ensures
            match res {
                Ok(()) => report_item_step(old(self)@, kind, flags) == Ok::<BuilderState, BuildFailure>(final(self)@),
                Err(f) => {
                    &&& report_item_step(old(self)@, kind, flags) == Err::<BuilderState, BuildFailure>(f)
                    &&& final(self)@ == report_item_failed(old(self)@, kind)
                },
            },
    {
        let ghost s = self@;
        let g = self.global_state;
        let id = g.report_id;
        let mut reports = self.take_reports(kind);
        let ghost initial = report_fields_view(reports@);
        let index = report_position(&reports, id);
        if index == reports.len() {
            reports.push(ReportFields { report_id: id, fields: Vec::new() });
            proof {
                assert(report_fields_view(reports@) =~= initial.push(
                    ReportFieldsView { report_id: id, fields: fields_view(Seq::empty()) },
                ));
                assert(fields_view(Seq::<UsbHidReportField>::empty()) =~= Seq::<UsbHidReportFieldView>::empty());
                lemma_report_index_push(initial, id);
            }
        }
        let ghost entries = report_fields_view(reports@);
        assert(entries == with_entry(reports_of(s, kind), id));
        assert(index == report_index(entries, id));
        assert(entries[index as int] == reports@[index as int]@);
        let offset = next_field_offset(&reports[index].fields);
        let usages = match self.current_usages() {
            Ok(usages) => usages,
            Err(e) => {
                self.put_reports(kind, reports);
                return Err(BuildFailure::Error(e));
            },
        };
        let size = match g.report_size {
            Some(size) => size,
            None => {
                self.put_reports(kind, reports);
                return Err(BuildFailure::Error(UsbHidReportError::ReportSizeMissing));
            },
        };
        let count = match g.report_count {
            Some(count) => count,
            None => {
                self.put_reports(kind, reports);
                return Err(BuildFailure::Error(UsbHidReportError::ReportCountMissing));
            },
        };
        let designators = match self.current_indices(IndexKind::Designator) {
            Ok(indices) => indices,
            Err(e) => {
                self.put_reports(kind, reports);
                return Err(BuildFailure::Error(e));
            },
        };
        let strings = match self.current_indices(IndexKind::String) {
            Ok(indices) => indices,
            Err(e) => {
                self.put_reports(kind, reports);
                return Err(BuildFailure::Error(e));
            },
        };
        assert((size as u64) * (count as u64) <= 0xFFFF_FFFF * 0xFFFF_FFFF) by (nonlinear_arith)
            requires
                size <= 0xFFFF_FFFF,
                count <= 0xFFFF_FFFF,
        ;
        if count > 0 && (offset as u64) + (size as u64) * (count as u64) > 0xFFFF_FFFF {
            self.put_reports(kind, reports);
            return Err(BuildFailure::ArithmeticOverflow);
        }
        if self.open_collections.len() == 0 {
            self.put_reports(kind, reports);
            return Err(BuildFailure::Error(UsbHidReportError::ReportOutsideCollection));
        }
        let mut fields = make_fields(flags, &g, &usages, &designators, &strings, offset, size, count);
        let ghost added = fields_view(fields@);
        let ghost opens = self@.open_collections;
        let mut collection = self.open_collections.pop().unwrap();
        collection.add_report_id(kind, id);
        self.open_collections.push(collection);
        proof {
            assert(collection_builders_view(self.open_collections@) =~= opens.update(
                opens.len() - 1,
                add_report_id(opens[opens.len() - 1], kind, id),
            ));
        }
        proof {
            lemma_report_index_found(entries, id);
        }
        let mut entry = reports.remove(index);
        let ghost old_fields = fields_view(entry.fields@);
        entry.fields.append(&mut fields);
        assert(fields_view(entry.fields@) =~= old_fields + added);
        reports.insert(index, entry);
        proof {
            assert(report_fields_view(reports@) =~= entries.update(
                index as int,
                ReportFieldsView { report_id: id, fields: entries[index as int].fields + added },
            ));
        }
        self.put_reports(kind, reports);
        self.local_state.clear();
        proof {
            let expected = report_item_step(s, kind, flags);
            assert(self@.local_state =~= Seq::<LocalItem>::empty());
            assert(expected == Ok::<BuilderState, BuildFailure>(self@));
        }
        Ok(())
    }
}

proof fn lemma_report_index_push(reports: Seq<ReportFieldsView>, id: Option<u8>)
    requires
        report_index(reports, id) == reports.len(),
    ensures
        report_index(reports.push(ReportFieldsView { report_id: id, fields: Seq::empty() }), id)
            == reports.len(),
    decreases reports.len(),
{
    let pushed = reports.push(ReportFieldsView { report_id: id, fields: Seq::empty() });
    if reports.len() > 0 {
        assert(pushed.drop_first() =~= reports.drop_first().push(
            ReportFieldsView { report_id: id, fields: Seq::empty() },
        ));
        lemma_report_index_push(reports.drop_first(), id);
    }
}

} // verus!

verus! {

proof fn lemma_report_index_found(reports: Seq<ReportFieldsView>, id: Option<u8>)
    ensures
        0 <= report_index(reports, id) <= reports.len(),
        report_index(reports, id) < reports.len() ==> reports[report_index(reports, id)].report_id == id,
    decreases reports.len(),
{
    if reports.len() > 0 && reports[0].report_id != id {
        lemma_report_index_found(reports.drop_first(), id);
    }
}

} // verus!

verus! {

impl UsbHidReportDescriptorBuilder {
    /// A main item, as `main_step` says. A failed Input, Output or Feature item
    /// leaves the builder as `report_item_failed` says, any other failed main
    /// item leaves it unchanged.
    fn parse_main_item(&mut self, main_item: MainItem) -> (res: Result<(), BuildFailure>)
        ensures
            match res {
                Ok(()) => main_step(old(self)@, main_item) == Ok::<BuilderState, BuildFailure>(final(self)@),
                Err(f) => {
                    &&& main_step(old(self)@, main_item) == Err::<BuilderState, BuildFailure>(f)
                    &&& final(self)@ == match main_item {
                        MainItem::Input(_) => report_item_failed(old(self)@, UsbHidReportKind::Input),
                        MainItem::Output(_) => report_item_failed(old(self)@, UsbHidReportKind::Output),
                        MainItem::Feature(_) => report_item_failed(old(self)@, UsbHidReportKind::Feature),
                        _ => old(self)@,
                    }
                },
            },
    {
        let ghost s = self@;
        match main_item {
            MainItem::Input(flags) => self.parse_report_item(UsbHidReportKind::Input, flags),
            MainItem::Output(flags) => self.parse_report_item(UsbHidReportKind::Output, flags),
            MainItem::Feature(flags) => self.parse_report_item(UsbHidReportKind::Feature, flags),
            MainItem::Collection(collection_type) => {
                let usages = match self.current_usages() {
                    Ok(usages) => usages,
                    Err(e) => return Err(BuildFailure::Error(e)),
                };
                if usages.len() == 0 {
                    return Err(BuildFailure::Error(UsbHidReportError::UsageMissing));
                }
                let collection = UsbHidReportCollectionBuilder::new(usages[0], collection_type);
                self.open_collections.push(collection);
                self.local_state.clear();
                proof {
                    assert(self@.open_collections =~= s.open_collections.push(collection@));
                    assert(self@.local_state =~= Seq::<LocalItem>::empty());
                }
                Ok(())
            },
            MainItem::EndCollection => {
                let top = match self.open_collections.pop() {
                    Some(top) => top,
                    None => return Err(BuildFailure::Error(UsbHidReportError::UnexpectedEndCollection)),
                };
                let ghost rest = s.open_collections.drop_last();
                assert(collection_builders_view(self.open_collections@) =~= rest);
                if self.open_collections.len() == 0 {
                    self.root_collections.push(top);
                    assert(self@.root_collections =~= s.root_collections.push(top@));
                } else {
                    let mut parent = self.open_collections.pop().unwrap();
                    parent.add_child_collection(top);
                    self.open_collections.push(parent);
                    assert(self@.open_collections =~= rest.update(rest.len() - 1, add_child(rest.last(), top@)));
                }
                self.local_state.clear();
                assert(self@.local_state =~= Seq::<LocalItem>::empty());
                Ok(())
            },
            MainItem::Reserved => {
                self.local_state.clear();
                assert(self@.local_state =~= Seq::<LocalItem>::empty());
                Ok(())
            },
        }
    }

    /// One item, as `step` says.
    fn parse_item(&mut self, item: ReportDescriptorItem) -> (res: Result<(), BuildFailure>)
        ensures
            match res {
                Ok(()) => step(old(self)@, item) == Ok::<BuilderState, BuildFailure>(final(self)@),
                Err(f) => step(old(self)@, item) == Err::<BuilderState, BuildFailure>(f),
            },
    {
        match item {
            ReportDescriptorItem::Main(main_item) => self.parse_main_item(main_item),
            ReportDescriptorItem::Global(global_item) => match self.parse_global_item(global_item) {
                Ok(()) => Ok(()),
                Err(e) => Err(BuildFailure::Error(e)),
            },
            ReportDescriptorItem::Local(local_item) => {
                self.parse_local_item(local_item);
                Ok(())
            },
            ReportDescriptorItem::Other => Ok(()),
        }
    }
}

} // verus!

verus! {

/// Building stopped because arithmetic did not fit its integer type.
pub open spec fn overflows<T>(outcome: Result<T, BuildFailure>) -> bool {
    outcome matches Err(BuildFailure::ArithmeticOverflow)
}

proof fn lemma_fields_size_take(fields: Seq<UsbHidReportFieldView>, n: int)
    requires
        0 <= n <= fields.len(),
    ensures
        fields_size(fields.take(n)) <= fields_size(fields),
    decreases fields.len(),
{
    if n < fields.len() {
        assert(fields.drop_last().take(n) =~= fields.take(n));
        lemma_fields_size_take(fields.drop_last(), n);
    } else {
        assert(fields.take(n) =~= fields);
    }
}

/// The report that gathered fields make, or none where its size in bits does
/// not fit in `usize`.
fn report_from_fields(rf: ReportFields) -> (report: Option<UsbHidReport>)
    ensures
        match report {
            Some(r) => 8 + fields_size(rf@.fields) <= usize::MAX && r@ == report_view(rf@.report_id, rf@.fields),
            None => 8 + fields_size(rf@.fields) > usize::MAX,
        },
{
    let ghost all = fields_view(rf.fields@);
    let mut size: usize = 8;
    let mut i: usize = 0;
    while i < rf.fields.len()
        invariant
            i <= rf.fields.len(),
            all == fields_view(rf.fields@),
            size == 8 + fields_size(all.take(i as int)),
        decreases rf.fields.len() - i,
    {
        assert(all.take(i + 1).drop_last() =~= all.take(i as int));
        match size.checked_add(rf.fields[i].size_in_bits()) {
            Some(next) => size = next,
            None => {
                proof {
                    lemma_fields_size_take(all, i + 1);
                }
                return None;
            },
        }
        i = i + 1;
    }
    assert(all.take(i as int) =~= all);
    Some(UsbHidReport::new(rf.report_id, rf.fields))
}

/// The reports that gathered fields make, or none where a size does not fit.
fn reports_from_fields(rfs: Vec<ReportFields>) -> (reports: Option<Vec<UsbHidReport>>)
    ensures
        match reports {
            Some(v) => sizes_fit(report_fields_view(rfs@)) && reports_view(v@) == reports_from(report_fields_view(rfs@)),
            None => !sizes_fit(report_fields_view(rfs@)),
        },
{
    let ghost all = report_fields_view(rfs@);
    let mut rest = rfs;
    let mut reports: Vec<UsbHidReport> = Vec::new();
    let mut i: usize = 0;
    let ghost initial = rest@;
    let total = rest.len();
    assert(initial.len() == total);
    assert(initial.skip(0) =~= initial);
    while rest.len() > 0
        invariant
            initial.len() <= usize::MAX,
            initial == rfs@,
            i + rest@.len() == initial.len(),
            rest@ =~= initial.skip(i as int),
            all == report_fields_view(initial),
            forall|k: int| 0 <= k < i ==> 8 + fields_size(#[trigger] all[k].fields) <= usize::MAX,
            reports_view(reports@) =~= reports_from(all.take(i as int)),
        decreases rest@.len(),
    {
        let rf = rest.remove(0);
        assert(rf == initial[i as int]);
        assert(rf@ == all[i as int]);
        match report_from_fields(rf) {
            Some(report) => {
                let ghost before = reports_view(reports@);
                reports.push(report);
                assert(reports_view(reports@) =~= before.push(report@));
                assert(reports_from(all.take(i + 1)) =~= reports_from(all.take(i as int)).push(report_view(all[i as int].report_id, all[i as int].fields)));
            },
            None => {
                assert(!(8 + fields_size(all[i as int].fields) <= usize::MAX));
                return None;
            },
        }
        assert(initial.skip(i + 1) =~= initial.skip(i as int).drop_first());
        i = i + 1;
    }
    assert(all.take(i as int) =~= all);
    Some(reports)
}

/// Several reports where one has no report ID, as `report_id_missing` says.
fn has_missing_report_id(reports: &Vec<UsbHidReport>) -> (missing: bool)
    ensures
        missing == report_id_missing(reports_view(reports@)),
{
    if reports.len() <= 1 {
        return false;
    }
    let ghost all = reports_view(reports@);
    let mut i: usize = 0;
    while i < reports.len()
        invariant
            i <= reports.len(),
            reports.len() > 1,
            all == reports_view(reports@),
            forall|k: int| 0 <= k < i ==> (#[trigger] all[k]).report_id is Some,
        decreases reports.len() - i,
    {
        if reports[i].report_id().is_none() {
            assert(reports@[i as int]@ == all[i as int]);
            assert(all[i as int].report_id is None);
            assert(report_id_missing(all));
            return true;
        }
        i = i + 1;
    }
    false
}

impl UsbHidReportDescriptorBuilder {
    /// The descriptor that the gathered state gives, as `finish` says.
    fn finish(self) -> (res: Result<UsbHidReportDescriptor, BuildFailure>)
        ensures
            match res {
                Ok(d) => finish(self@) == Ok::<UsbHidReportDescriptorView, BuildFailure>(d@),
                Err(f) => finish(self@) == Err::<UsbHidReportDescriptorView, BuildFailure>(f),
            },
    {
        let ghost s = self@;
        let input_reports = match reports_from_fields(self.input_report_fields) {
            Some(reports) => reports,
            None => return Err(BuildFailure::ArithmeticOverflow),
        };
        let output_reports = match reports_from_fields(self.output_report_fields) {
            Some(reports) => reports,
            None => return Err(BuildFailure::ArithmeticOverflow),
        };
        let feature_reports = match reports_from_fields(self.feature_report_fields) {
            Some(reports) => reports,
            None => return Err(BuildFailure::ArithmeticOverflow),
        };
        let ghost inputs = reports_view(input_reports@);
        let ghost outputs = reports_view(output_reports@);
        let ghost features = reports_view(feature_reports@);
        let mut root_collections: Vec<UsbHidReportCollection> = Vec::new();
        let mut i: usize = 0;
        while i < self.root_collections.len()
            invariant
                i <= self.root_collections.len(),
                s.root_collections == collection_builders_view(self.root_collections@),
                inputs == reports_view(input_reports@),
                outputs == reports_view(output_reports@),
                features == reports_view(feature_reports@),
                root_collections@.len() == i,
                forall|k: int| 0 <= k < i ==> (#[trigger] root_collections@[k])@ == built_collection(
                    s.root_collections[k],
                    inputs,
                    outputs,
                    features,
                ),
            decreases self.root_collections.len() - i,
        {
            let collection = self.root_collections[i].build(&input_reports, &output_reports, &feature_reports);
            root_collections.push(collection);
            i = i + 1;
        }
        if has_missing_report_id(&input_reports) || has_missing_report_id(&output_reports)
            || has_missing_report_id(&feature_reports) {
            return Err(BuildFailure::Error(UsbHidReportError::ReportIdMissing));
        }
        let descriptor = UsbHidReportDescriptor::new(input_reports, output_reports, feature_reports, root_collections);
        proof {
            assert(descriptor@.root_collections =~= s.root_collections.map_values(
                |c: CollectionBuilderView| built_collection(c, inputs, outputs, features),
            ));
        }
        Ok(descriptor)
    }

    /// Walks all items, then makes the descriptor: `spec_build_from` states
    /// the outcome, arithmetic that does not fit its type included.
    fn build_outcome(self, items: Vec<ReportDescriptorItem>) -> (res: Result<UsbHidReportDescriptor, BuildFailure>)
        ensures
            match res {
                Ok(d) => spec_build_from(self@, items@) == Ok::<UsbHidReportDescriptorView, BuildFailure>(d@),
                Err(f) => spec_build_from(self@, items@) == Err::<UsbHidReportDescriptorView, BuildFailure>(f),
            },
    {
        let ghost s = self@;
        let mut builder = self;
        let mut i: usize = 0;
        assert(items@.skip(0) =~= items@);
        while i < items.len()
            invariant
                i <= items.len(),
                s == self@,
                run(s, items@) == run(builder@, items@.skip(i as int)),
            decreases items.len() - i,
        {
            let ghost rest = items@.skip(i as int);
            assert(rest[0] == items@[i as int]);
            assert(rest.drop_first() =~= items@.skip(i + 1));
            let ghost before = builder@;
            match builder.parse_item(items[i]) {
                Ok(()) => {},
                Err(f) => {
                    assert(run(before, rest) == Err::<BuilderState, BuildFailure>(f));
                    return Err(f);
                },
            }
            i = i + 1;
        }
        assert(items@.skip(i as int) =~= Seq::<ReportDescriptorItem>::empty());
        builder.finish()
    }

    /// Builds the descriptor that `items` describe, as `spec_build_from` says.
    /// Items whose field offsets or report sizes would not fit their integer
    /// types are left out by `requires`; `try_build` takes them too.
    pub fn build(self, items: Vec<ReportDescriptorItem>) -> (res: Result<UsbHidReportDescriptor, UsbHidReportError>)
        requires
            !overflows(spec_build_from(self@, items@)),
        ensures
            match res {
                Ok(d) => spec_build_from(self@, items@) == Ok::<UsbHidReportDescriptorView, BuildFailure>(d@),
                Err(e) => spec_build_from(self@, items@) == Err::<UsbHidReportDescriptorView, BuildFailure>(BuildFailure::Error(e)),
            },
    {
        match self.build_outcome(items) {
            Ok(descriptor) => Ok(descriptor),
            Err(BuildFailure::Error(e)) => Err(e),
            Err(BuildFailure::ArithmeticOverflow) => vstd::pervasive::unreached(),
        }
    }

    /// Builds the descriptor that `items` describe, or returns `None` where a
    /// field offset or report size would not fit its integer type.
    pub fn try_build(self, items: Vec<ReportDescriptorItem>) -> (res: Option<Result<UsbHidReportDescriptor, UsbHidReportError>>)
        ensures
            match res {
                None => overflows(spec_build_from(self@, items@)),
                Some(Ok(d)) => spec_build_from(self@, items@) == Ok::<UsbHidReportDescriptorView, BuildFailure>(d@),
                Some(Err(e)) => spec_build_from(self@, items@) == Err::<UsbHidReportDescriptorView, BuildFailure>(BuildFailure::Error(e)),
            },
    {
        match self.build_outcome(items) {
            Ok(descriptor) => Some(Ok(descriptor)),
            Err(BuildFailure::Error(e)) => Some(Err(e)),
            Err(BuildFailure::ArithmeticOverflow) => None,
        }
    }
}

} // verus!

verus! {

// ---------------------------------------------------------------------------
// What every build keeps
// ---------------------------------------------------------------------------

/// No two of the reports share a report ID.
pub open spec fn distinct_report_ids(reports: Seq<UsbHidReportView>) -> bool {
    forall|i: int, j: int| 0 <= i < j < reports.len() ==> (#[trigger] reports[i]).report_id != (#[trigger] reports[j]).report_id
}

/// No two of the reports being gathered share a report ID.
pub open spec fn distinct_ids(reports: Seq<ReportFieldsView>) -> bool {
    forall|i: int, j: int| 0 <= i < j < reports.len() ==> (#[trigger] reports[i]).report_id != (#[trigger] reports[j]).report_id
}

/// No two reports of one kind being gathered share a report ID.
pub open spec fn state_ids_distinct(s: BuilderState) -> bool {
    &&& distinct_ids(s.input_reports)
    &&& distinct_ids(s.output_reports)
    &&& distinct_ids(s.feature_reports)
}

proof fn lemma_report_index(reports: Seq<ReportFieldsView>, id: Option<u8>)
    ensures
        0 <= report_index(reports, id) <= reports.len(),
        report_index(reports, id) < reports.len() ==> reports[report_index(reports, id)].report_id == id,
        report_index(reports, id) == reports.len() ==> forall|k: int| 0 <= k < reports.len() ==> (#[trigger] reports[k]).report_id != id,
    decreases reports.len(),
{
    if reports.len() > 0 && reports[0].report_id != id {
        lemma_report_index(reports.drop_first(), id);
        assert forall|k: int| 0 <= k < reports.len() && report_index(reports, id) == reports.len() implies (#[trigger] reports[k]).report_id != id by {
            if k > 0 {
                assert(reports[k] == reports.drop_first()[k - 1]);
            }
        }
    }
}

proof fn lemma_with_entry(reports: Seq<ReportFieldsView>, id: Option<u8>)
    requires
        distinct_ids(reports),
    ensures
        distinct_ids(with_entry(reports, id)),
        report_index(with_entry(reports, id), id) < with_entry(reports, id).len(),
        with_entry(reports, id)[report_index(with_entry(reports, id), id)].report_id == id,
{
    lemma_report_index(reports, id);
    let w = with_entry(reports, id);
    if report_index(reports, id) == reports.len() {
        assert forall|i: int, j: int| 0 <= i < j < w.len() implies (#[trigger] w[i]).report_id != (#[trigger] w[j]).report_id by {
            if j == reports.len() {
                assert(w[i] == reports[i]);
            } else {
                assert(w[i] == reports[i] && w[j] == reports[j]);
            }
        }
    }
    lemma_report_index(w, id);
    if report_index(w, id) == w.len() {
        assert(w[w.len() - 1].report_id == id);
    }
}

proof fn lemma_report_item_step_keeps_ids(s: BuilderState, kind: UsbHidReportKind, flags: u32)
    requires
        state_ids_distinct(s),
        report_item_step(s, kind, flags) is Ok,
    ensures
        state_ids_distinct(report_item_step(s, kind, flags)->Ok_0),
{
    let id = s.global_state.report_id;
    let reports = with_entry(reports_of(s, kind), id);
    lemma_with_entry(reports_of(s, kind), id);
    let index = report_index(reports, id);
    let g = s.global_state;
    let usages = collect_usages(g.usage_page, s.local_state, Seq::empty(), None)->Ok_0;
    let designators = collect_indices(IndexKind::Designator, s.local_state, Seq::empty(), None)->Ok_0;
    let strings = collect_indices(IndexKind::String, s.local_state, Seq::empty(), None)->Ok_0;
    let fields = new_fields(flags, g, usages, designators, strings, fields_end(reports[index].fields), g.report_size->0 as int, g.report_count->0 as int);
    let updated = reports.update(index, ReportFieldsView { report_id: id, fields: reports[index].fields + fields });
    let last = s.open_collections.len() - 1;
    let t = report_item_step(s, kind, flags)->Ok_0;
    assert(t == BuilderState {
        local_state: Seq::empty(),
        open_collections: s.open_collections.update(last, add_report_id(s.open_collections[last], kind, id)),
        ..with_reports(s, kind, updated)
    });
    lemma_report_index(reports, id);
    assert(0 <= index < reports.len() && reports[index].report_id == id);
    assert forall|k: int| 0 <= k < updated.len() implies (#[trigger] updated[k]).report_id == reports[k].report_id by {
        if k == index {
            assert(updated[k].report_id == id);
        } else {
            assert(updated[k] == reports[k]);
        }
    }
    assert forall|i: int, j: int| 0 <= i < j < updated.len() implies (#[trigger] updated[i]).report_id != (#[trigger] updated[j]).report_id by {
        assert(updated[i].report_id == reports[i].report_id);
        assert(updated[j].report_id == reports[j].report_id);
    }
    assert(distinct_ids(updated));
}

proof fn lemma_step_keeps_ids(s: BuilderState, item: ReportDescriptorItem)
    requires
        state_ids_distinct(s),
        step(s, item) is Ok,
    ensures
        state_ids_distinct(step(s, item)->Ok_0),
{
    match item {
        ReportDescriptorItem::Main(main) => match main {
            MainItem::Input(flags) => lemma_report_item_step_keeps_ids(s, UsbHidReportKind::Input, flags),
            MainItem::Output(flags) => lemma_report_item_step_keeps_ids(s, UsbHidReportKind::Output, flags),
            MainItem::Feature(flags) => lemma_report_item_step_keeps_ids(s, UsbHidReportKind::Feature, flags),
            _ => {},
        },
        _ => {},
    }
}

proof fn lemma_run_keeps_ids(s: BuilderState, items: Seq<ReportDescriptorItem>)
    requires
        state_ids_distinct(s),
        run(s, items) is Ok,
    ensures
        state_ids_distinct(run(s, items)->Ok_0),
    decreases items.len(),
{
    if items.len() > 0 {
        lemma_step_keeps_ids(s, items[0]);
        lemma_run_keeps_ids(step(s, items[0])->Ok_0, items.drop_first());
    }
}

proof fn lemma_reports_from_ids(rfs: Seq<ReportFieldsView>)
    requires
        distinct_ids(rfs),
    ensures
        distinct_report_ids(reports_from(rfs)),
{
    let r = reports_from(rfs);
    assert forall|i: int, j: int| 0 <= i < j < r.len() implies (#[trigger] r[i]).report_id != (#[trigger] r[j]).report_id by {
        assert(r[i].report_id == rfs[i].report_id);
        assert(r[j].report_id == rfs[j].report_id);
    }
}

/// In a descriptor built from any items, no two reports of one kind share a
/// report ID: the fields of one report ID all go to one report.
pub proof fn lemma_built_report_ids_distinct(items: Seq<ReportDescriptorItem>)
    requires
        spec_build(items) is Ok,
    ensures
        distinct_report_ids(spec_build(items)->Ok_0.input_reports),
        distinct_report_ids(spec_build(items)->Ok_0.output_reports),
        distinct_report_ids(spec_build(items)->Ok_0.feature_reports),
{
    lemma_run_keeps_ids(initial_state(), items);
    let t = run(initial_state(), items)->Ok_0;
    lemma_reports_from_ids(t.input_reports);
    lemma_reports_from_ids(t.output_reports);
    lemma_reports_from_ids(t.feature_reports);
}

} // verus!

verus! {

/// The fields lie one after another from bit 8 on: the first right after the
/// report ID byte, each of the others where the one before it ends.
pub open spec fn fields_laid_out(fields: Seq<UsbHidReportFieldView>) -> bool {
    forall|k: int|
        0 <= k < fields.len() ==> (#[trigger] fields[k]).bits().start == 8 + fields_size(fields.take(k))
            && fields[k].bits().start <= fields[k].bits().end
}

/// A report whose fields are laid out one after another and whose size is
/// that of its report ID byte and its fields, so that every field ends within
/// the report.
pub open spec fn report_laid_out(r: UsbHidReportView) -> bool {
    &&& fields_laid_out(r.fields)
    &&& r.size_in_bits == 8 + fields_size(r.fields)
    &&& forall|k: int| 0 <= k < r.fields.len() ==> (#[trigger] r.fields[k]).bits().end <= r.size_in_bits
}

pub open spec fn gathered_laid_out(reports: Seq<ReportFieldsView>) -> bool {
    forall|i: int| 0 <= i < reports.len() ==> fields_laid_out(#[trigger] reports[i].fields)
}

pub open spec fn state_laid_out(s: BuilderState) -> bool {
    &&& gathered_laid_out(s.input_reports)
    &&& gathered_laid_out(s.output_reports)
    &&& gathered_laid_out(s.feature_reports)
}

proof fn lemma_fields_size_push(fields: Seq<UsbHidReportFieldView>, field: UsbHidReportFieldView)
    ensures
        fields_size(fields.push(field)) == fields_size(fields) + range_len(field.bits()),
{
    assert(fields.push(field).drop_last() =~= fields);
}

proof fn lemma_laid_out_end(fields: Seq<UsbHidReportFieldView>)
    requires
        fields_laid_out(fields),
    ensures
        fields_end(fields) == 8 + fields_size(fields),
    decreases fields.len(),
{
    if fields.len() > 0 {
        let init = fields.drop_last();
        let last = fields.len() - 1;
        assert(fields.take(last) =~= init);
        assert(fields[last].bits().start == 8 + fields_size(init));
        if fields.len() > 1 {
            assert forall|k: int| 0 <= k < init.len() implies (#[trigger] init[k]).bits().start == 8 + fields_size(init.take(k))
                && init[k].bits().start <= init[k].bits().end by {
                assert(init.take(k) =~= fields.take(k));
                assert(init[k] == fields[k]);
            }
            lemma_laid_out_end(init);
        } else {
            assert(init.len() == 0);
        }
    }
}

proof fn lemma_new_fields_size(
    old: Seq<UsbHidReportFieldView>,
    flags: u32,
    g: GlobalState,
    usages: Seq<HidUsage>,
    designators: Seq<u32>,
    strings: Seq<u32>,
    offset: int,
    size: int,
    count: int,
    m: int,
)
    requires
        0 <= offset,
        0 <= size,
        0 <= m <= count,
        count == 0 || offset + size * count <= u32::MAX,
    ensures
        fields_size(old + new_fields(flags, g, usages, designators, strings, offset, size, count).take(m)) == fields_size(old) + size * m,
    decreases m,
{
    let new = new_fields(flags, g, usages, designators, strings, offset, size, count);
    if m == 0 {
        assert(old + new.take(0) =~= old);
    } else {
        lemma_new_fields_size(old, flags, g, usages, designators, strings, offset, size, count, m - 1);
        assert(old + new.take(m) =~= (old + new.take(m - 1)).push(new[m - 1]));
        lemma_fields_size_push(old + new.take(m - 1), new[m - 1]);
        assert(0 <= size * (m - 1) <= size * m <= size * count) by (nonlinear_arith)
            requires
                0 <= size,
                1 <= m <= count,
        ;
        assert(size * m == size * (m - 1) + size) by (nonlinear_arith);
        assert(new[m - 1].bits().start == offset + size * (m - 1));
        assert(new[m - 1].bits().end == offset + size * m);
    }
}

proof fn lemma_append_new_fields(
    old: Seq<UsbHidReportFieldView>,
    flags: u32,
    g: GlobalState,
    usages: Seq<HidUsage>,
    designators: Seq<u32>,
    strings: Seq<u32>,
    size: int,
    count: int,
)
    requires
        fields_laid_out(old),
        0 <= size,
        0 <= count,
        count == 0 || fields_end(old) + size * count <= u32::MAX,
    ensures
        fields_laid_out(old + new_fields(flags, g, usages, designators, strings, fields_end(old), size, count)),
{
    lemma_laid_out_end(old);
    let offset = fields_end(old);
    let new = new_fields(flags, g, usages, designators, strings, offset, size, count);
    let all = old + new;
    assert forall|k: int| 0 <= k < all.len() implies (#[trigger] all[k]).bits().start == 8 + fields_size(all.take(k))
        && all[k].bits().start <= all[k].bits().end by {
        if k < old.len() {
            assert(all.take(k) =~= old.take(k));
            assert(all[k] == old[k]);
        } else {
            let m = k - old.len();
            assert(all.take(k) =~= old + new.take(m));
            lemma_new_fields_size(old, flags, g, usages, designators, strings, offset, size, count, m);
            assert(0 <= size * m <= size * (m + 1) <= size * count) by (nonlinear_arith)
                requires
                    0 <= size,
                    0 <= m < count,
            ;
            assert(all[k] == new[m]);
            assert(new[m].bits().start == offset + size * m);
            assert(new[m].bits().end == offset + size * (m + 1));
        }
    }
}

proof fn lemma_report_item_step_keeps_layout(s: BuilderState, kind: UsbHidReportKind, flags: u32)
    requires
        state_laid_out(s),
        report_item_step(s, kind, flags) is Ok,
    ensures
        state_laid_out(report_item_step(s, kind, flags)->Ok_0),
{
    let id = s.global_state.report_id;
    let before = reports_of(s, kind);
    let reports = with_entry(before, id);
    lemma_report_index(before, id);
    lemma_report_index(reports, id);
    assert(gathered_laid_out(reports)) by {
        assert forall|i: int| 0 <= i < reports.len() implies fields_laid_out(#[trigger] reports[i].fields) by {
            if i < before.len() {
                assert(reports[i] == before[i]);
            } else {
                assert(reports[i].fields.len() == 0);
            }
        }
    }
    let index = report_index(reports, id);
    let g = s.global_state;
    let usages = collect_usages(g.usage_page, s.local_state, Seq::empty(), None)->Ok_0;
    let designators = collect_indices(IndexKind::Designator, s.local_state, Seq::empty(), None)->Ok_0;
    let strings = collect_indices(IndexKind::String, s.local_state, Seq::empty(), None)->Ok_0;
    let size = g.report_size->0 as int;
    let count = g.report_count->0 as int;
    let fields = new_fields(flags, g, usages, designators, strings, fields_end(reports[index].fields), size, count);
    let updated = reports.update(index, ReportFieldsView { report_id: id, fields: reports[index].fields + fields });
    let last = s.open_collections.len() - 1;
    let t = report_item_step(s, kind, flags)->Ok_0;
    assert(t == BuilderState {
        local_state: Seq::empty(),
        open_collections: s.open_collections.update(last, add_report_id(s.open_collections[last], kind, id)),
        ..with_reports(s, kind, updated)
    });
    if index == reports.len() {
        if report_index(before, id) < before.len() {
            assert(reports[report_index(before, id)].report_id == id);
        } else {
            assert(reports[reports.len() - 1].report_id == id);
        }
    }
    lemma_append_new_fields(reports[index].fields, flags, g, usages, designators, strings, size, count);
    assert forall|i: int| 0 <= i < updated.len() implies fields_laid_out(#[trigger] updated[i].fields) by {
        if i != index {
            assert(updated[i] == reports[i]);
        }
    }
}

proof fn lemma_step_keeps_layout(s: BuilderState, item: ReportDescriptorItem)
    requires
        state_laid_out(s),
        step(s, item) is Ok,
    ensures
        state_laid_out(step(s, item)->Ok_0),
{
    match item {
        ReportDescriptorItem::Main(main) => match main {
            MainItem::Input(flags) => lemma_report_item_step_keeps_layout(s, UsbHidReportKind::Input, flags),
            MainItem::Output(flags) => lemma_report_item_step_keeps_layout(s, UsbHidReportKind::Output, flags),
            MainItem::Feature(flags) => lemma_report_item_step_keeps_layout(s, UsbHidReportKind::Feature, flags),
            _ => {},
        },
        _ => {},
    }
}

proof fn lemma_run_keeps_layout(s: BuilderState, items: Seq<ReportDescriptorItem>)
    requires
        state_laid_out(s),
        run(s, items) is Ok,
    ensures
        state_laid_out(run(s, items)->Ok_0),
    decreases items.len(),
{
    if items.len() > 0 {
        lemma_step_keeps_layout(s, items[0]);
        lemma_run_keeps_layout(step(s, items[0])->Ok_0, items.drop_first());
    }
}

proof fn lemma_reports_from_laid_out(rfs: Seq<ReportFieldsView>)
    requires
        gathered_laid_out(rfs),
    ensures
        forall|i: int| 0 <= i < reports_from(rfs).len() ==> report_laid_out(#[trigger] reports_from(rfs)[i]),
{
    assert forall|i: int| 0 <= i < reports_from(rfs).len() implies report_laid_out(#[trigger] reports_from(rfs)[i]) by {
        let r = reports_from(rfs)[i];
        let f = rfs[i].fields;
        assert(r.fields == f);
        assert(fields_laid_out(f));
        assert forall|k: int| 0 <= k < f.len() implies (#[trigger] f[k]).bits().end <= r.size_in_bits by {
            assert(f.take(k + 1).drop_last() =~= f.take(k));
            assert(f.take(k + 1).last() == f[k]);
            lemma_fields_size_take(f, k + 1);
        }
    }
}

/// In a descriptor built from any items, the fields of every report lie one
/// after another from bit 8 on, after the report ID byte, and every field ends
/// within the report's size.
pub proof fn lemma_built_reports_laid_out(items: Seq<ReportDescriptorItem>)
    requires
        spec_build(items) is Ok,
    ensures
        forall|i: int|
            0 <= i < spec_build(items)->Ok_0.input_reports.len() ==> report_laid_out(
                #[trigger] spec_build(items)->Ok_0.input_reports[i],
            ),
        forall|i: int|
            0 <= i < spec_build(items)->Ok_0.output_reports.len() ==> report_laid_out(
                #[trigger] spec_build(items)->Ok_0.output_reports[i],
            ),
        forall|i: int|
            0 <= i < spec_build(items)->Ok_0.feature_reports.len() ==> report_laid_out(
                #[trigger] spec_build(items)->Ok_0.feature_reports[i],
            ),
{
    lemma_run_keeps_layout(initial_state(), items);
    let t = run(initial_state(), items)->Ok_0;
    lemma_reports_from_laid_out(t.input_reports);
    lemma_reports_from_laid_out(t.output_reports);
    lemma_reports_from_laid_out(t.feature_reports);
}

} // verus!

verus! {

/// The report IDs are in strictly ascending order: no ID first, then by number.
pub open spec fn ids_ascending(ids: Seq<Option<u8>>) -> bool {
    forall|i: int, j: int| 0 <= i < j < ids.len() ==> id_key(#[trigger] ids[i]) < id_key(#[trigger] ids[j])
}

/// Putting a report ID into an ascending list of IDs keeps the list ascending
/// (so without repeats) and adds that ID and no other.
pub proof fn lemma_insert_id(ids: Seq<Option<u8>>, id: Option<u8>)
    requires
        ids_ascending(ids),
    ensures
        ids_ascending(insert_id(ids, id)),
        forall|x: Option<u8>| insert_id(ids, id).contains(x) <==> (ids.contains(x) || x == id),
    decreases ids.len(),
{
    let r = insert_id(ids, id);
    if ids.len() == 0 {
        assert(r[0] == id);
    } else if id_key(ids[0]) == id_key(id) {
        assert(ids[0] == id);
    } else if id_key(id) < id_key(ids[0]) {
        assert forall|i: int, j: int| 0 <= i < j < r.len() implies id_key(#[trigger] r[i]) < id_key(#[trigger] r[j]) by {
            if i > 0 {
                assert(r[i] == ids[i - 1] && r[j] == ids[j - 1]);
            } else {
                assert(r[j] == ids[j - 1]);
                if j - 1 > 0 {
                    assert(id_key(ids[0]) < id_key(ids[j - 1]));
                }
            }
        }
        assert(r == seq![id] + ids);
        assert forall|x: Option<u8>| r.contains(x) <==> (ids.contains(x) || x == id) by {
            lemma_contains_cons(id, ids, x);
        }
    } else {
        let rest = ids.drop_first();
        assert(ids_ascending(rest)) by {
            assert forall|i: int, j: int| 0 <= i < j < rest.len() implies id_key(#[trigger] rest[i]) < id_key(#[trigger] rest[j]) by {
                assert(rest[i] == ids[i + 1] && rest[j] == ids[j + 1]);
            }
        }
        lemma_insert_id(rest, id);
        let tail = insert_id(rest, id);
        assert(r == seq![ids[0]] + tail);
        assert forall|k: int| 0 <= k < tail.len() implies id_key(ids[0]) < id_key(#[trigger] tail[k]) by {
            let x = tail[k];
            assert(tail.contains(x));
            if x != id {
                assert(rest.contains(x));
                let m = choose|m: int| 0 <= m < rest.len() && rest[m] == x;
                assert(rest[m] == ids[m + 1]);
                assert(id_key(ids[0]) < id_key(ids[m + 1]));
            }
        }
        assert forall|i: int, j: int| 0 <= i < j < r.len() implies id_key(#[trigger] r[i]) < id_key(#[trigger] r[j]) by {
            if i == 0 {
                assert(r[j] == tail[j - 1]);
            } else {
                assert(r[i] == tail[i - 1] && r[j] == tail[j - 1]);
            }
        }
        assert(ids =~= seq![ids[0]] + rest);
        assert forall|x: Option<u8>| r.contains(x) <==> (ids.contains(x) || x == id) by {
            lemma_contains_cons(ids[0], tail, x);
            lemma_contains_cons(ids[0], rest, x);
        }
    }
}

proof fn lemma_contains_cons(head: Option<u8>, tail: Seq<Option<u8>>, x: Option<u8>)
    ensures
        (seq![head] + tail).contains(x) <==> (x == head || tail.contains(x)),
{
    let s = seq![head] + tail;
    if s.contains(x) {
        let k = choose|k: int| 0 <= k < s.len() && s[k] == x;
        if k > 0 {
            assert(tail[k - 1] == x);
        }
    }
    if x == head {
        assert(s[0] == x);
    }
    if tail.contains(x) {
        let k = choose|k: int| 0 <= k < tail.len() && tail[k] == x;
        assert(s[k + 1] == x);
    }
}

} // verus!

verus! {

/// Every report ID list of the collection, and of each collection nested in
/// it, is in strictly ascending order.
pub open spec fn collection_ids_ascending(c: CollectionBuilderView) -> bool
    decreases c,
{
    &&& ids_ascending(c.input_report_ids)
    &&& ids_ascending(c.output_report_ids)
    &&& ids_ascending(c.feature_report_ids)
    &&& forall|i: int| 0 <= i < c.child_collections.len() ==> collection_ids_ascending(#[trigger] c.child_collections[i])
}

pub open spec fn collections_ids_ascending(cs: Seq<CollectionBuilderView>) -> bool {
    forall|i: int| 0 <= i < cs.len() ==> collection_ids_ascending(#[trigger] cs[i])
}

pub open spec fn state_collections_ascending(s: BuilderState) -> bool {
    &&& collections_ids_ascending(s.root_collections)
    &&& collections_ids_ascending(s.open_collections)
}

proof fn lemma_add_report_id_ascending(c: CollectionBuilderView, kind: UsbHidReportKind, id: Option<u8>)
    requires
        collection_ids_ascending(c),
    ensures
        collection_ids_ascending(add_report_id(c, kind, id)),
{
    lemma_insert_id(c.input_report_ids, id);
    lemma_insert_id(c.output_report_ids, id);
    lemma_insert_id(c.feature_report_ids, id);
    let d = add_report_id(c, kind, id);
    assert(d.child_collections == c.child_collections);
}

proof fn lemma_add_child_ascending(c: CollectionBuilderView, child: CollectionBuilderView)
    requires
        collection_ids_ascending(c),
        collection_ids_ascending(child),
    ensures
        collection_ids_ascending(add_child(c, child)),
{
    let d = add_child(c, child);
    assert forall|i: int| 0 <= i < d.child_collections.len() implies collection_ids_ascending(#[trigger] d.child_collections[i]) by {
        if i < c.child_collections.len() {
            assert(d.child_collections[i] == c.child_collections[i]);
        }
    }
}

proof fn lemma_report_item_step_keeps_collections(s: BuilderState, kind: UsbHidReportKind, flags: u32)
    requires
        state_collections_ascending(s),
        report_item_step(s, kind, flags) is Ok,
    ensures
        state_collections_ascending(report_item_step(s, kind, flags)->Ok_0),
{
    let id = s.global_state.report_id;
    let reports = with_entry(reports_of(s, kind), id);
    let index = report_index(reports, id);
    let g = s.global_state;
    let usages = collect_usages(g.usage_page, s.local_state, Seq::empty(), None)->Ok_0;
    let designators = collect_indices(IndexKind::Designator, s.local_state, Seq::empty(), None)->Ok_0;
    let strings = collect_indices(IndexKind::String, s.local_state, Seq::empty(), None)->Ok_0;
    let fields = new_fields(flags, g, usages, designators, strings, fields_end(reports[index].fields), g.report_size->0 as int, g.report_count->0 as int);
    let updated = reports.update(index, ReportFieldsView { report_id: id, fields: reports[index].fields + fields });
    let last = s.open_collections.len() - 1;
    let opened = s.open_collections.update(last, add_report_id(s.open_collections[last], kind, id));
    let t = report_item_step(s, kind, flags)->Ok_0;
    assert(t == BuilderState { local_state: Seq::empty(), open_collections: opened, ..with_reports(s, kind, updated) });
    lemma_add_report_id_ascending(s.open_collections[last], kind, id);
    assert forall|i: int| 0 <= i < opened.len() implies collection_ids_ascending(#[trigger] opened[i]) by {
        if i != last {
            assert(opened[i] == s.open_collections[i]);
        }
    }
}

proof fn lemma_step_keeps_collections(s: BuilderState, item: ReportDescriptorItem)
    requires
        state_collections_ascending(s),
        step(s, item) is Ok,
    ensures
        state_collections_ascending(step(s, item)->Ok_0),
{
    let t = step(s, item)->Ok_0;
    match item {
        ReportDescriptorItem::Main(main) => match main {
            MainItem::Input(flags) => lemma_report_item_step_keeps_collections(s, UsbHidReportKind::Input, flags),
            MainItem::Output(flags) => lemma_report_item_step_keeps_collections(s, UsbHidReportKind::Output, flags),
            MainItem::Feature(flags) => lemma_report_item_step_keeps_collections(s, UsbHidReportKind::Feature, flags),
            MainItem::Collection(collection_type) => {
                let usages = collect_usages(s.global_state.usage_page, s.local_state, Seq::empty(), None)->Ok_0;
                let c = new_collection(usages[0], collection_type);
                assert(t.open_collections == s.open_collections.push(c));
                assert(collection_ids_ascending(c));
                assert forall|i: int| 0 <= i < t.open_collections.len() implies collection_ids_ascending(#[trigger] t.open_collections[i]) by {
                    if i < s.open_collections.len() {
                        assert(t.open_collections[i] == s.open_collections[i]);
                    }
                }
            },
            MainItem::EndCollection => {
                let top = s.open_collections.last();
                let rest = s.open_collections.drop_last();
                assert(collection_ids_ascending(top));
                if rest.len() == 0 {
                    assert forall|i: int| 0 <= i < t.root_collections.len() implies collection_ids_ascending(#[trigger] t.root_collections[i]) by {
                        if i < s.root_collections.len() {
                            assert(t.root_collections[i] == s.root_collections[i]);
                        }
                    }
                } else {
                    let last = rest.len() - 1;
                    assert(rest[last] == s.open_collections[last]);
                    lemma_add_child_ascending(rest.last(), top);
                    assert forall|i: int| 0 <= i < t.open_collections.len() implies collection_ids_ascending(#[trigger] t.open_collections[i]) by {
                        if i < last {
                            assert(t.open_collections[i] == s.open_collections[i]);
                        }
                    }
                }
            },
            MainItem::Reserved => {},
        },
        _ => {},
    }
}

proof fn lemma_run_keeps_collections(s: BuilderState, items: Seq<ReportDescriptorItem>)
    requires
        state_collections_ascending(s),
        run(s, items) is Ok,
    ensures
        state_collections_ascending(run(s, items)->Ok_0),
    decreases items.len(),
{
    if items.len() > 0 {
        lemma_step_keeps_collections(s, items[0]);
        lemma_run_keeps_collections(step(s, items[0])->Ok_0, items.drop_first());
    }
}

/// The reports are in strictly ascending order of report ID: the report
/// without an ID first, then by number.
pub open spec fn reports_ascending(reports: Seq<UsbHidReportView>) -> bool {
    forall|i: int, j: int| 0 <= i < j < reports.len() ==> id_key((#[trigger] reports[i]).report_id) < id_key((#[trigger] reports[j]).report_id)
}

/// The reports of each kind that the collection carries, and those of each
/// collection nested in it, are in strictly ascending order of report ID.
pub open spec fn collection_reports_ascending(c: UsbHidReportCollectionView) -> bool
    decreases c,
{
    &&& reports_ascending(c.input_reports)
    &&& reports_ascending(c.output_reports)
    &&& reports_ascending(c.feature_reports)
    &&& forall|i: int| 0 <= i < c.child_collections.len() ==> collection_reports_ascending(#[trigger] c.child_collections[i])
}

proof fn lemma_report_with_id(reports: Seq<UsbHidReportView>, id: Option<u8>)
    ensures
        report_with_id(reports, id) matches Some(r) ==> r.report_id == id,
    decreases reports.len(),
{
    if reports.len() > 0 && reports[0].report_id != id {
        lemma_report_with_id(reports.drop_first(), id);
    }
}

proof fn lemma_reports_for_ids_ascending(ids: Seq<Option<u8>>, reports: Seq<UsbHidReportView>)
    requires
        ids_ascending(ids),
    ensures
        reports_ascending(reports_for_ids(ids, reports)),
        forall|k: int| 0 <= k < reports_for_ids(ids, reports).len() ==> exists|m: int| 0 <= m < ids.len() && ids[m] == (#[trigger] reports_for_ids(ids, reports)[k]).report_id,
    decreases ids.len(),
{
    if ids.len() > 0 {
        let rest = ids.drop_first();
        assert(ids_ascending(rest)) by {
            assert forall|i: int, j: int| 0 <= i < j < rest.len() implies id_key(#[trigger] rest[i]) < id_key(#[trigger] rest[j]) by {
                assert(rest[i] == ids[i + 1] && rest[j] == ids[j + 1]);
            }
        }
        lemma_reports_for_ids_ascending(rest, reports);
        lemma_report_with_id(reports, ids[0]);
        let tail = reports_for_ids(rest, reports);
        let all = reports_for_ids(ids, reports);
        assert forall|k: int| 0 <= k < tail.len() implies id_key(ids[0]) < id_key(#[trigger] tail[k].report_id)
            && exists|m: int| 0 <= m < ids.len() && ids[m] == tail[k].report_id by {
            let m = choose|m: int| 0 <= m < rest.len() && rest[m] == tail[k].report_id;
            assert(rest[m] == ids[m + 1]);
            assert(id_key(ids[0]) < id_key(ids[m + 1]));
        }
        match report_with_id(reports, ids[0]) {
            Some(r) => {
                assert(all == seq![r] + tail);
                assert forall|i: int, j: int| 0 <= i < j < all.len() implies id_key((#[trigger] all[i]).report_id) < id_key((#[trigger] all[j]).report_id) by {
                    if i == 0 {
                        assert(all[j] == tail[j - 1]);
                    } else {
                        assert(all[i] == tail[i - 1] && all[j] == tail[j - 1]);
                    }
                }
                assert forall|k: int| 0 <= k < all.len() implies exists|m: int| 0 <= m < ids.len() && ids[m] == (#[trigger] all[k]).report_id by {
                    if k == 0 {
                        assert(ids[0] == all[0].report_id);
                    } else {
                        assert(all[k] == tail[k - 1]);
                    }
                }
            },
            None => {
                assert(all == tail);
            },
        }
    }
}

proof fn lemma_built_collection_ascending(
    c: CollectionBuilderView,
    inputs: Seq<UsbHidReportView>,
    outputs: Seq<UsbHidReportView>,
    features: Seq<UsbHidReportView>,
)
    requires
        collection_ids_ascending(c),
    ensures
        collection_reports_ascending(built_collection(c, inputs, outputs, features)),
    decreases c,
{
    let b = built_collection(c, inputs, outputs, features);
    lemma_reports_for_ids_ascending(c.input_report_ids, inputs);
    lemma_reports_for_ids_ascending(c.output_report_ids, outputs);
    lemma_reports_for_ids_ascending(c.feature_report_ids, features);
    assert forall|i: int| 0 <= i < b.child_collections.len() implies collection_reports_ascending(#[trigger] b.child_collections[i]) by {
        assert(collection_ids_ascending(c.child_collections[i]));
        lemma_built_collection_ascending(c.child_collections[i], inputs, outputs, features);
    }
}

/// In a descriptor built from any items, the reports of each kind that a
/// collection carries, directly or in the collections nested in it, come in
/// strictly ascending order of report ID, each once.
pub proof fn lemma_built_collections_ascending(items: Seq<ReportDescriptorItem>)
    requires
        spec_build(items) is Ok,
    ensures
        forall|i: int|
            0 <= i < spec_build(items)->Ok_0.root_collections.len() ==> collection_reports_ascending(
                #[trigger] spec_build(items)->Ok_0.root_collections[i],
            ),
{
    lemma_run_keeps_collections(initial_state(), items);
    let t = run(initial_state(), items)->Ok_0;
    let d = spec_build(items)->Ok_0;
    assert forall|i: int| 0 <= i < d.root_collections.len() implies collection_reports_ascending(#[trigger] d.root_collections[i]) by {
        assert(collection_ids_ascending(t.root_collections[i]));
        lemma_built_collection_ascending(t.root_collections[i], reports_from(t.input_reports), reports_from(t.output_reports), reports_from(t.feature_reports));
    }
}

} // verus!

verus! {

/// A global item other than Push and Pop.
pub open spec fn is_plain_global(item: ReportDescriptorItem) -> bool {
    item matches ReportDescriptorItem::Global(g) && !(g is Push) && !(g is Pop)
}

proof fn lemma_run_append(s: BuilderState, a: Seq<ReportDescriptorItem>, b: Seq<ReportDescriptorItem>)
    ensures
        run(s, a + b) == match run(s, a) {
            Ok(t) => run(t, b),
            Err(f) => Err(f),
        },
    decreases a.len(),
{
    if a.len() == 0 {
        assert(a + b =~= b);
    } else {
        assert((a + b)[0] == a[0]);
        assert((a + b).drop_first() =~= a.drop_first() + b);
        match step(s, a[0]) {
            Ok(t) => lemma_run_append(t, a.drop_first(), b),
            Err(_) => {},
        }
    }
}

proof fn lemma_run_plain_globals(s: BuilderState, items: Seq<ReportDescriptorItem>)
    requires
        forall|i: int| 0 <= i < items.len() ==> is_plain_global(#[trigger] items[i]),
    ensures
        run(s, items) matches Ok(t) && t == (BuilderState { global_state: t.global_state, ..s }),
    decreases items.len(),
{
    if items.len() > 0 {
        assert(is_plain_global(items[0]));
        let t = step(s, items[0])->Ok_0;
        assert(t == (BuilderState { global_state: t.global_state, ..s }));
        let rest = items.drop_first();
        assert forall|i: int| 0 <= i < rest.len() implies is_plain_global(#[trigger] rest[i]) by {
            assert(rest[i] == items[i + 1]);
        }
        lemma_run_plain_globals(t, rest);
    }
}

/// A Push, then any global items other than Push and Pop, then a Pop leave the
/// builder as it was before the Push: the Pop brings back the global items
/// (and the stack of saved ones) as the Push found them. So building with such
/// a run of items before `rest` gives what building with `rest` alone gives.
pub proof fn lemma_push_pop_restores(s: BuilderState, items: Seq<ReportDescriptorItem>, rest: Seq<ReportDescriptorItem>)
    requires
        forall|i: int| 0 <= i < items.len() ==> is_plain_global(#[trigger] items[i]),
    ensures
        run(
            s,
            seq![ReportDescriptorItem::Global(GlobalItem::Push)] + items + seq![
                ReportDescriptorItem::Global(GlobalItem::Pop),
            ],
        ) == Ok::<BuilderState, BuildFailure>(s),
        spec_build_from(
            s,
            seq![ReportDescriptorItem::Global(GlobalItem::Push)] + items + seq![
                ReportDescriptorItem::Global(GlobalItem::Pop),
            ] + rest,
        ) == spec_build_from(s, rest),
{
    let push = seq![ReportDescriptorItem::Global(GlobalItem::Push)];
    let pop = seq![ReportDescriptorItem::Global(GlobalItem::Pop)];
    let pushed = step(s, ReportDescriptorItem::Global(GlobalItem::Push))->Ok_0;
    assert(run(s, push) == Ok::<BuilderState, BuildFailure>(pushed)) by {
        assert(push[0] == ReportDescriptorItem::Global(GlobalItem::Push));
        assert(push.drop_first() =~= Seq::<ReportDescriptorItem>::empty());
        assert(run(pushed, Seq::<ReportDescriptorItem>::empty()) == Ok::<BuilderState, BuildFailure>(pushed));
    }
    lemma_run_append(s, push, items);
    lemma_run_plain_globals(pushed, items);
    let t = run(pushed, items)->Ok_0;
    lemma_run_append(s, push + items, pop);
    let u = step(t, ReportDescriptorItem::Global(GlobalItem::Pop))->Ok_0;
    assert(run(t, pop) == Ok::<BuilderState, BuildFailure>(u)) by {
        assert(pop[0] == ReportDescriptorItem::Global(GlobalItem::Pop));
        assert(pop.drop_first() =~= Seq::<ReportDescriptorItem>::empty());
        assert(run(u, Seq::<ReportDescriptorItem>::empty()) == Ok::<BuilderState, BuildFailure>(u));
    }
    assert(t.global_state_stack == s.global_state_stack.push(s.global_state));
    assert(u.global_state_stack =~= s.global_state_stack);
    assert(u == s);
    lemma_run_append(s, push + items + pop, rest);
}

} // verus!

verus! {

proof fn lemma_flatten_all<A>(s: Seq<Seq<A>>, p: spec_fn(A) -> bool)
    requires
        forall|i: int, j: int| 0 <= i < s.len() && 0 <= j < s[i].len() ==> p(#[trigger] s[i][j]),
    ensures
        forall|k: int| 0 <= k < s.flatten().len() ==> p(#[trigger] s.flatten()[k]),
    decreases s.len(),
{
    if s.len() > 0 {
        let rest = s.drop_first();
        assert forall|i: int, j: int| 0 <= i < rest.len() && 0 <= j < rest[i].len() implies p(#[trigger] rest[i][j]) by {
            assert(rest[i] == s[i + 1]);
        }
        lemma_flatten_all(rest, p);
        assert forall|k: int| 0 <= k < s.flatten().len() implies p(#[trigger] s.flatten()[k]) by {
            if k < s[0].len() {
                assert(s.flatten()[k] == s[0][k]);
            } else {
                assert(s.flatten()[k] == rest.flatten()[k - s[0].len()]);
            }
        }
    }
}

/// Every report that the collection, or a collection nested in it, carries
/// is laid out.
pub open spec fn tree_laid_out(c: UsbHidReportCollectionView) -> bool
    decreases c,
{
    &&& forall|k: int| 0 <= k < c.input_reports.len() ==> report_laid_out(#[trigger] c.input_reports[k])
    &&& forall|k: int| 0 <= k < c.output_reports.len() ==> report_laid_out(#[trigger] c.output_reports[k])
    &&& forall|k: int| 0 <= k < c.feature_reports.len() ==> report_laid_out(#[trigger] c.feature_reports[k])
    &&& forall|i: int| 0 <= i < c.child_collections.len() ==> tree_laid_out(#[trigger] c.child_collections[i])
}

proof fn lemma_report_with_id_laid_out(reports: Seq<UsbHidReportView>, id: Option<u8>)
    requires
        forall|m: int| 0 <= m < reports.len() ==> report_laid_out(#[trigger] reports[m]),
    ensures
        report_with_id(reports, id) matches Some(r) ==> report_laid_out(r),
    decreases reports.len(),
{
    if reports.len() > 0 && reports[0].report_id != id {
        let rest = reports.drop_first();
        assert forall|m: int| 0 <= m < rest.len() implies report_laid_out(#[trigger] rest[m]) by {
            assert(rest[m] == reports[m + 1]);
        }
        lemma_report_with_id_laid_out(rest, id);
    }
}

proof fn lemma_reports_for_ids_laid_out(ids: Seq<Option<u8>>, reports: Seq<UsbHidReportView>)
    requires
        forall|m: int| 0 <= m < reports.len() ==> report_laid_out(#[trigger] reports[m]),
    ensures
        forall|k: int| 0 <= k < reports_for_ids(ids, reports).len() ==> report_laid_out(#[trigger] reports_for_ids(ids, reports)[k]),
    decreases ids.len(),
{
    if ids.len() > 0 {
        lemma_reports_for_ids_laid_out(ids.drop_first(), reports);
        lemma_report_with_id_laid_out(reports, ids[0]);
        let tail = reports_for_ids(ids.drop_first(), reports);
        let all = reports_for_ids(ids, reports);
        match report_with_id(reports, ids[0]) {
            Some(r) => {
                assert(all == seq![r] + tail);
                assert forall|k: int| 0 <= k < all.len() implies report_laid_out(#[trigger] all[k]) by {
                    if k > 0 {
                        assert(all[k] == tail[k - 1]);
                    }
                }
            },
            None => {},
        }
    }
}

proof fn lemma_built_collection_laid_out(
    c: CollectionBuilderView,
    inputs: Seq<UsbHidReportView>,
    outputs: Seq<UsbHidReportView>,
    features: Seq<UsbHidReportView>,
)
    requires
        forall|m: int| 0 <= m < inputs.len() ==> report_laid_out(#[trigger] inputs[m]),
        forall|m: int| 0 <= m < outputs.len() ==> report_laid_out(#[trigger] outputs[m]),
        forall|m: int| 0 <= m < features.len() ==> report_laid_out(#[trigger] features[m]),
    ensures
        tree_laid_out(built_collection(c, inputs, outputs, features)),
    decreases c,
{
    let b = built_collection(c, inputs, outputs, features);
    lemma_reports_for_ids_laid_out(c.input_report_ids, inputs);
    lemma_reports_for_ids_laid_out(c.output_report_ids, outputs);
    lemma_reports_for_ids_laid_out(c.feature_report_ids, features);
    assert forall|i: int| 0 <= i < b.child_collections.len() implies tree_laid_out(#[trigger] b.child_collections[i]) by {
        lemma_built_collection_laid_out(c.child_collections[i], inputs, outputs, features);
    }
}

proof fn lemma_descendants_laid_out(c: UsbHidReportCollectionView)
    requires
        tree_laid_out(c),
    ensures
        forall|k: int| 0 <= k < descendants(c).len() ==> tree_laid_out(#[trigger] descendants(c)[k]),
    decreases c,
{
    let parts = descendant_parts(c);
    assert forall|i: int, j: int| 0 <= i < parts.len() && 0 <= j < parts[i].len() implies #[trigger] tree_laid_out(parts[i][j]) by {
        let child = c.child_collections[i];
        assert(tree_laid_out(child));
        lemma_descendants_laid_out(child);
        assert(parts[i] == seq![child] + descendants(child));
        if j > 0 {
            assert(parts[i][j] == descendants(child)[j - 1]);
        }
    }
    lemma_flatten_all(parts, |x: UsbHidReportCollectionView| tree_laid_out(x));
}

proof fn lemma_subtree_laid_out(c: UsbHidReportCollectionView)
    requires
        tree_laid_out(c),
    ensures
        forall|k: int| 0 <= k < subtree(c).len() ==> tree_laid_out(#[trigger] subtree(c)[k]),
{
    lemma_descendants_laid_out(c);
    assert forall|k: int| 0 <= k < subtree(c).len() implies tree_laid_out(#[trigger] subtree(c)[k]) by {
        if k > 0 {
            assert(subtree(c)[k] == descendants(c)[k - 1]);
        }
    }
}

proof fn lemma_reports_of_kind_in_laid_out(cs: Seq<UsbHidReportCollectionView>, kind: UsbHidReportKind)
    requires
        forall|i: int| 0 <= i < cs.len() ==> tree_laid_out(#[trigger] cs[i]),
    ensures
        forall|k: int| 0 <= k < reports_of_kind_in(cs, kind).len() ==> report_laid_out(#[trigger] reports_of_kind_in(cs, kind)[k]),
{
    let parts = cs.map_values(|c: UsbHidReportCollectionView| reports_of_kind(c, kind));
    assert forall|i: int, j: int| 0 <= i < parts.len() && 0 <= j < parts[i].len() implies #[trigger] report_laid_out(parts[i][j]) by {
        assert(tree_laid_out(cs[i]));
        assert(parts[i] == reports_of_kind(cs[i], kind));
    }
    lemma_flatten_all(parts, |r: UsbHidReportView| report_laid_out(r));
}

/// In a descriptor built from any items, the reports that any collection
/// gathers from itself and the collections nested in it (and those that the
/// descriptor gathers from all its collections) are laid out: their fields lie
/// one after another from bit 8 on, and every field ends within the report.
pub proof fn lemma_built_collection_reports_laid_out(items: Seq<ReportDescriptorItem>, kind: UsbHidReportKind)
    requires
        spec_build(items) is Ok,
    ensures
        forall|k: int|
            0 <= k < reports_of_kind_in(all_collections_of(spec_build(items)->Ok_0), kind).len() ==> report_laid_out(
                #[trigger] reports_of_kind_in(all_collections_of(spec_build(items)->Ok_0), kind)[k],
            ),
        forall|i: int, k: int|
            0 <= i < all_collections_of(spec_build(items)->Ok_0).len() && 0 <= k < reports_of_kind_in(
                subtree(all_collections_of(spec_build(items)->Ok_0)[i]),
                kind,
            ).len() ==> report_laid_out(
                #[trigger] reports_of_kind_in(subtree(all_collections_of(spec_build(items)->Ok_0)[i]), kind)[k],
            ),
{
    lemma_run_keeps_layout(initial_state(), items);
    let t = run(initial_state(), items)->Ok_0;
    let d = spec_build(items)->Ok_0;
    lemma_reports_from_laid_out(t.input_reports);
    lemma_reports_from_laid_out(t.output_reports);
    lemma_reports_from_laid_out(t.feature_reports);
    let inputs = reports_from(t.input_reports);
    let outputs = reports_from(t.output_reports);
    let features = reports_from(t.feature_reports);
    assert forall|i: int| 0 <= i < d.root_collections.len() implies tree_laid_out(#[trigger] d.root_collections[i]) by {
        lemma_built_collection_laid_out(t.root_collections[i], inputs, outputs, features);
    }
    let parts = d.root_collections.map_values(|c: UsbHidReportCollectionView| subtree(c));
    assert forall|i: int, j: int| 0 <= i < parts.len() && 0 <= j < parts[i].len() implies #[trigger] tree_laid_out(parts[i][j]) by {
        assert(tree_laid_out(d.root_collections[i]));
        lemma_subtree_laid_out(d.root_collections[i]);
    }
    lemma_flatten_all(parts, |x: UsbHidReportCollectionView| tree_laid_out(x));
    let all = all_collections_of(d);
    assert(all == parts.flatten());
    lemma_reports_of_kind_in_laid_out(all, kind);
    assert forall|i: int, k: int|
        0 <= i < all.len() && 0 <= k < reports_of_kind_in(subtree(all[i]), kind).len() implies report_laid_out(
            #[trigger] reports_of_kind_in(subtree(all[i]), kind)[k],
        ) by {
        assert(tree_laid_out(all[i]));
        lemma_subtree_laid_out(all[i]);
        lemma_reports_of_kind_in_laid_out(subtree(all[i]), kind);
    }
}

} // verus!

verus! {

/// Each known global item sets its own value among the current global items,
/// to the item's value, and changes nothing else: no other global item, nor
/// the saved global items, the local items, the reports or the collections.
pub proof fn lemma_global_item_sets_its_value(s: BuilderState, item: GlobalItem)
    requires
        !(item is Push),
        !(item is Pop),
    ensures
        step(s, ReportDescriptorItem::Global(item)) is Ok,
        ({
            let t = step(s, ReportDescriptorItem::Global(item))->Ok_0;
            let g = s.global_state;
            let h = t.global_state;
            &&& t == BuilderState { global_state: h, ..s }
            &&& h.usage_page == if let GlobalItem::UsagePage(v) = item { Some(v) } else { g.usage_page }
            &&& h.logical_minimum == if let GlobalItem::LogicalMinimum(v) = item { Some(v) } else { g.logical_minimum }
            &&& h.logical_maximum == if let GlobalItem::LogicalMaximum(v) = item { Some(v) } else { g.logical_maximum }
            &&& h.physical_minimum == if let GlobalItem::PhysicalMinimum(v) = item { Some(v) } else { g.physical_minimum }
            &&& h.physical_maximum == if let GlobalItem::PhysicalMaximum(v) = item { Some(v) } else { g.physical_maximum }
            &&& h.unit_exponent == if let GlobalItem::UnitExponent(v) = item { Some(v) } else { g.unit_exponent }
            &&& h.unit == if let GlobalItem::Unit(v) = item { Some(v) } else { g.unit }
            &&& h.report_size == if let GlobalItem::ReportSize(v) = item { Some(v) } else { g.report_size }
            &&& h.report_id == if let GlobalItem::ReportId(v) = item { Some(v) } else { g.report_id }
            &&& h.report_count == if let GlobalItem::ReportCount(v) = item { Some(v) } else { g.report_count }
            &&& !(item is Reserved) ==> h.reserved == g.reserved
        }),
{
}

/// The fields that an Input, Output or Feature item makes go after the
/// fields its report already has, `count` of them (the current Report Count),
/// and each carries the global items current when the item is read: a
/// variable field its report ID, logical and physical bounds, Unit Exponent
/// and Unit, an array field its report ID and logical bounds.
pub proof fn lemma_report_item_fields_carry_globals(s: BuilderState, kind: UsbHidReportKind, flags: u32)
    requires
        report_item_step(s, kind, flags) is Ok,
    ensures
        ({
            let t = report_item_step(s, kind, flags)->Ok_0;
            let g = s.global_state;
            let id = g.report_id;
            let before = with_entry(reports_of(s, kind), id);
            let index = report_index(before, id);
            let old_fields = before[index].fields;
            let fields = reports_of(t, kind)[index].fields;
            &&& 0 <= index < before.len() == reports_of(t, kind).len()
            &&& reports_of(t, kind)[index].report_id == id
            &&& g.report_count is Some
            &&& fields.len() == old_fields.len() + g.report_count->0
            &&& fields.take(old_fields.len() as int) == old_fields
            &&& forall|k: int|
                old_fields.len() <= k < fields.len() ==> match #[trigger] fields[k] {
                    UsbHidReportFieldView::Variable(v) => {
                        &&& v.report_id == id
                        &&& v.logical_minimum == g.logical_minimum
                        &&& v.logical_maximum == g.logical_maximum
                        &&& v.physical_minimum == g.physical_minimum
                        &&& v.physical_maximum == g.physical_maximum
                        &&& v.unit_exponent == g.unit_exponent
                        &&& v.unit == g.unit
                    },
                    UsbHidReportFieldView::Array(a) => {
                        &&& a.report_id == id
                        &&& a.logical_minimum == g.logical_minimum
                        &&& a.logical_maximum == g.logical_maximum
                    },
                    UsbHidReportFieldView::Padding(_) => true,
                }
        }),
{
    let g = s.global_state;
    let id = g.report_id;
    let before = with_entry(reports_of(s, kind), id);
    lemma_report_index(reports_of(s, kind), id);
    lemma_report_index(before, id);
    let index = report_index(before, id);
    if index == before.len() {
        if report_index(reports_of(s, kind), id) < reports_of(s, kind).len() {
            assert(before[report_index(reports_of(s, kind), id)].report_id == id);
        } else {
            assert(before[before.len() - 1].report_id == id);
        }
    }
    let usages = collect_usages(g.usage_page, s.local_state, Seq::empty(), None)->Ok_0;
    let designators = collect_indices(IndexKind::Designator, s.local_state, Seq::empty(), None)->Ok_0;
    let strings = collect_indices(IndexKind::String, s.local_state, Seq::empty(), None)->Ok_0;
    let added = new_fields(flags, g, usages, designators, strings, fields_end(before[index].fields), g.report_size->0 as int, g.report_count->0 as int);
    let updated = before.update(index, ReportFieldsView { report_id: id, fields: before[index].fields + added });
    let last = s.open_collections.len() - 1;
    let t = report_item_step(s, kind, flags)->Ok_0;
    assert(t == BuilderState {
        local_state: Seq::empty(),
        open_collections: s.open_collections.update(last, add_report_id(s.open_collections[last], kind, id)),
        ..with_reports(s, kind, updated)
    });
    let old_fields = before[index].fields;
    let fields = old_fields + added;
    assert(reports_of(t, kind) == updated);
    assert(fields.take(old_fields.len() as int) =~= old_fields);
    assert forall|k: int| old_fields.len() <= k < fields.len() implies match #[trigger] fields[k] {
        UsbHidReportFieldView::Variable(v) => {
            &&& v.report_id == id
            &&& v.logical_minimum == g.logical_minimum
            &&& v.logical_maximum == g.logical_maximum
            &&& v.physical_minimum == g.physical_minimum
            &&& v.physical_maximum == g.physical_maximum
            &&& v.unit_exponent == g.unit_exponent
            &&& v.unit == g.unit
        },
        UsbHidReportFieldView::Array(a) => {
            &&& a.report_id == id
            &&& a.logical_minimum == g.logical_minimum
            &&& a.logical_maximum == g.logical_maximum
        },
        UsbHidReportFieldView::Padding(_) => true,
    } by {
        assert(fields[k] == added[k - old_fields.len()]);
    }
}

} // verus!
