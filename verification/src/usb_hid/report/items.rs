//! The items of a report descriptor, as the descriptor builder reads them.
//!
//! `hid-decode` turns descriptor bytes into `hid_types` items; each of those is
//! read here into a plain value of this module's types.

use vstd::prelude::*;
use hid_decode::LengthError;
use hid_types::item::{Global, Item, Local, Main};

verus! {

/// A Main item.
#[derive(Debug, Clone, Copy, PartialEq, Eq, Structural)]
pub enum MainItem {
    /// An Input item with its flag bits.
    Input(u32),
    /// An Output item with its flag bits.
    Output(u32),
    /// A Feature item with its flag bits.
    Feature(u32),
    /// A Collection item with its collection type.
    Collection(u8),
    EndCollection,
    Reserved,
}

/// A Global item.
#[derive(Debug, Clone, Copy, PartialEq, Eq, Structural)]
pub enum GlobalItem {
    UsagePage(u16),
    LogicalMinimum(i32),
    LogicalMaximum(i32),
    PhysicalMinimum(i32),
    PhysicalMaximum(i32),
    /// The raw value of a Unit Exponent item.
    UnitExponent(i32),
    Unit(u32),
    ReportSize(u32),
    ReportId(u8),
    ReportCount(u32),
    Push,
    Pop,
    /// A global item of a reserved type: its tag and its value, if it has data.
    Reserved(u8, Option<i32>),
}

/// A Local item.
#[derive(Debug, Clone, Copy, PartialEq, Eq, Structural)]
pub enum LocalItem {
    /// A usage ID on the current usage page.
    Usage(u16),
    /// A usage that names its own page: the page in the upper 16 bits, the
    /// usage ID in the lower 16 bits.
    ExtendedUsage(u32),
    UsageMinimum(u32),
    UsageMaximum(u32),
    DesignatorIndex(u32),
    DesignatorMinimum(u32),
    DesignatorMaximum(u32),
    StringIndex(u32),
    StringMinimum(u32),
    StringMaximum(u32),
    Delimiter(bool),
    Reserved,
}

/// An item of a report descriptor. Long items and items of the reserved item
/// type are `Other`: the builder passes over them.
#[derive(Debug, Clone, Copy, PartialEq, Eq, Structural)]
pub enum ReportDescriptorItem {
    Main(MainItem),
    Global(GlobalItem),
    Local(LocalItem),
    Other,
}

/// Why descriptor bytes could not be split into items.
#[derive(Debug, Clone, Copy, PartialEq, Eq, Structural)]
pub enum UsbHidDecodeError {
    DataTooBig,
    ZeroLength,
    Truncated,
}

/// Bit 1 of the flags of an Input, Output or Feature item: the field is a variable.
pub open spec fn is_variable(flags: u32) -> bool {
    flags & 2 != 0
}

/// Bit 0 of the flags of an Input, Output or Feature item: the field is constant.
pub open spec fn is_constant(flags: u32) -> bool {
    flags & 1 != 0
}

#[verifier::external_type_specification]
#[verifier::external_body]
pub struct ExHidItem(Item);

#[verifier::external_type_specification]
#[verifier::external_body]
pub struct ExHidMainItem(Main);

#[verifier::external_type_specification]
#[verifier::external_body]
pub struct ExHidGlobalItem(Global);

#[verifier::external_type_specification]
#[verifier::external_body]
pub struct ExHidLocalItem(Local);

#[verifier::external_type_specification]
#[verifier::external_body]
pub struct ExHidLengthError(LengthError);

/// The result of `hid_decode::decode_items` on descriptor bytes.
pub uninterp spec fn decoded_items(bytes: Seq<u8>) -> Result<Seq<Item>, LengthError>;

/// What a `hid_types` item reads as in this module's types.
pub uninterp spec fn item_value(item: Item) -> ReportDescriptorItem;

/// What a `hid_types` Main item reads as.
pub uninterp spec fn main_value(main: Main) -> MainItem;

/// What a `hid_types` Global item reads as.
pub uninterp spec fn global_value(global: Global) -> GlobalItem;

/// What a `hid_types` Local item reads as.
pub uninterp spec fn local_value(local: Local) -> LocalItem;

/// What a `hid_decode` length error reads as.
pub uninterp spec fn length_error_value(error: LengthError) -> UsbHidDecodeError;

/// The items that descriptor bytes decode to, each read into this module's
/// types, or why the bytes could not be decoded.
pub open spec fn descriptor_items(bytes: Seq<u8>) -> Result<Seq<ReportDescriptorItem>, UsbHidDecodeError> {
    match decoded_items(bytes) {
        Ok(items) => Ok(items.map_values(|item: Item| item_value(item))),
        Err(error) => Err(length_error_value(error)),
    }
}

/// `hid_decode::decode_items`: splits report descriptor bytes into items, or
/// fails on an item whose data is truncated or has a length its type does not
/// allow. The result depends on the bytes alone and is named `decoded_items`;
/// the items are values of `hid_types` that Verus cannot look into, read one by
/// one by the functions below.
#[verifier::external_body]
fn decode_items(bytes: &[u8]) -> (items: Result<Vec<Item>, LengthError>)
    ensures
        match items {
            Ok(items) => decoded_items(bytes@) == Ok::<Seq<Item>, LengthError>(items@),
            Err(error) => decoded_items(bytes@) == Err::<Seq<Item>, LengthError>(error),
        },
{
    hid_decode::decode_items(bytes)
}

/// Which kind of item a `hid_types` item is, with a reference to its contents.
enum HidItemRef<'a> {
    Main(&'a Main),
    Global(&'a Global),
    Local(&'a Local),
    Other,
}

/// Tells the variants of `hid_types::item::Item` apart: a Main, Global or Local
/// item reads as its contents read, a long or reserved item as `Other`.
#[verifier::external_body]
fn item_kind(item: &Item) -> (kind: HidItemRef<'_>)
    ensures
        match kind {
            HidItemRef::Main(main) => item_value(*item) == ReportDescriptorItem::Main(main_value(*main)),
            HidItemRef::Global(global) => item_value(*item) == ReportDescriptorItem::Global(global_value(*global)),
            HidItemRef::Local(local) => item_value(*item) == ReportDescriptorItem::Local(local_value(*local)),
            HidItemRef::Other => item_value(*item) == ReportDescriptorItem::Other,
        },
{
    match item {
        Item::Main(main) => HidItemRef::Main(main),
        Item::Global(global) => HidItemRef::Global(global),
        Item::Local(local) => HidItemRef::Local(local),
        Item::Long(_) => HidItemRef::Other,
        Item::Reserved(..) => HidItemRef::Other,
    }
}

/// Reads a `hid_types::item::Main` item: the flags of Input, Output and Feature
/// items through `u32::from(IoFlags)`, the collection type through
/// `Ident::to_integer`. The result depends on the item alone and is named
/// `main_value`.
#[verifier::external_body]
fn main_item(main: &Main) -> (item: MainItem)
    ensures
        item == main_value(*main),
{
    match main {
        Main::Input(flags) => MainItem::Input(u32::from(flags.0)),
        Main::Output(flags) => MainItem::Output(u32::from(flags.0)),
        Main::Feature(flags) => MainItem::Feature(u32::from(flags.0)),
        Main::Collection(collection_type) => MainItem::Collection(collection_type.to_integer()),
        Main::EndCollection => MainItem::EndCollection,
        Main::Reserved(..) => MainItem::Reserved,
    }
}

/// Reads a `hid_types::item::Global` item: the usage page and the unit through
/// `Ident::to_integer`, the unit exponent as its raw value, a reserved item as
/// its tag and its value. The result depends
/// on the item alone and is named `global_value`.
#[verifier::external_body]
fn global_item(global: &Global) -> (item: GlobalItem)
    ensures
        item == global_value(*global),
{
    match global {
        Global::UsagePage(page) => GlobalItem::UsagePage(page.to_integer()),
        Global::LogicalMinimum(v) => GlobalItem::LogicalMinimum(*v),
        Global::LogicalMaximum(v) => GlobalItem::LogicalMaximum(*v),
        Global::PhysicalMinimum(v) => GlobalItem::PhysicalMinimum(*v),
        Global::PhysicalMaximum(v) => GlobalItem::PhysicalMaximum(*v),
        Global::UnitExponent(e) => GlobalItem::UnitExponent(e.0),
        Global::Unit(unit) => GlobalItem::Unit(unit.to_integer()),
        Global::ReportSize(v) => GlobalItem::ReportSize(*v),
        Global::ReportId(v) => GlobalItem::ReportId(*v),
        Global::ReportCount(v) => GlobalItem::ReportCount(*v),
        Global::Push => GlobalItem::Push,
        Global::Pop => GlobalItem::Pop,
        Global::Reserved(tag, data) => GlobalItem::Reserved(*tag, *data),
    }
}

/// Reads a `hid_types::item::Local` item: a usage through `Usage::to_integer`,
/// an extended usage through `ExtendedUsage::to_integer`. The result depends on
/// the item alone and is named `local_value`.
#[verifier::external_body]
fn local_item(local: &Local) -> (item: LocalItem)
    ensures
        item == local_value(*local),
{
    match local {
        Local::Usage(usage) => LocalItem::Usage(usage.to_integer()),
        Local::ExtendedUsage(usage) => LocalItem::ExtendedUsage(usage.to_integer()),
        Local::UsageMinimum(v) => LocalItem::UsageMinimum(*v),
        Local::UsageMaximum(v) => LocalItem::UsageMaximum(*v),
        Local::DesignatorIndex(v) => LocalItem::DesignatorIndex(*v),
        Local::DesignatorMinimum(v) => LocalItem::DesignatorMinimum(*v),
        Local::DesignatorMaximum(v) => LocalItem::DesignatorMaximum(*v),
        Local::StringIndex(v) => LocalItem::StringIndex(*v),
        Local::StringMinimum(v) => LocalItem::StringMinimum(*v),
        Local::StringMaximum(v) => LocalItem::StringMaximum(*v),
        Local::Delimiter(v) => LocalItem::Delimiter(*v),
        Local::Reserved(..) => LocalItem::Reserved,
    }
}

/// Tells the variants of `hid_decode::LengthError` apart; named
/// `length_error_value`.
#[verifier::external_body]
fn decode_error(error: &LengthError) -> (e: UsbHidDecodeError)
    ensures
        e == length_error_value(*error),
{
    match error {
        LengthError::DataTooBig => UsbHidDecodeError::DataTooBig,
        LengthError::ZeroLength => UsbHidDecodeError::ZeroLength,
        LengthError::Truncated => UsbHidDecodeError::Truncated,
    }
}

/// Splits report descriptor bytes into items with `hid-decode`, and reads each
/// of them.
pub fn decode_report_descriptor(bytes: &[u8]) -> (items: Result<Vec<ReportDescriptorItem>, UsbHidDecodeError>)
    ensures
        match items {
            Ok(items) => descriptor_items(bytes@) == Ok::<Seq<ReportDescriptorItem>, UsbHidDecodeError>(items@),
            Err(error) => descriptor_items(bytes@) == Err::<Seq<ReportDescriptorItem>, UsbHidDecodeError>(error),
        },
{
    let decoded = match decode_items(bytes) {
        Ok(decoded) => decoded,
        Err(error) => return Err(decode_error(&error)),
    };
    let ghost read = decoded@.map_values(|item: Item| item_value(item));
    let mut items: Vec<ReportDescriptorItem> = Vec::new();
    let mut i: usize = 0;
    while i < decoded.len()
        invariant
            i <= decoded.len(),
            read == decoded@.map_values(|item: Item| item_value(item)),
            items@ =~= read.take(i as int),
        decreases decoded.len() - i,
    {
        let item = match item_kind(&decoded[i]) {
            HidItemRef::Main(main) => ReportDescriptorItem::Main(main_item(main)),
            HidItemRef::Global(global) => ReportDescriptorItem::Global(global_item(global)),
            HidItemRef::Local(local) => ReportDescriptorItem::Local(local_item(local)),
            HidItemRef::Other => ReportDescriptorItem::Other,
        };
        items.push(item);
        i = i + 1;
    }
    assert(items@ =~= read);
    Ok(items)
}

} // verus!
