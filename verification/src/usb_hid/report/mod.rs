//! HID reports: their fields, the errors met reading them, the collections
//! that group them, and the descriptor that lays them out.

pub mod builder;
pub mod error;
pub mod field;
pub mod items;

use vstd::prelude::*;
use crate::usb_hid::report::field::{range_len, UsbHidReportField, UsbHidReportFieldView};
use crate::usb_hid::usage::HidUsage;

verus! {

broadcast use vstd::seq::Seq::group_seq_flatten;

/// The number of bits in all the given fields together.
pub open spec fn fields_size(fields: Seq<UsbHidReportFieldView>) -> nat
    decreases fields.len(),
{
    if fields.len() == 0 {
        0
    } else {
        fields_size(fields.drop_last()) + range_len(fields.last().bits())
    }
}

/// The views of a list of fields.
pub open spec fn fields_view(fields: Seq<UsbHidReportField>) -> Seq<UsbHidReportFieldView> {
    fields.map_values(|f: UsbHidReportField| f@)
}

/// A report: its ID, its size in bits (the ID byte included) and its fields.
pub struct UsbHidReport {
    report_id: Option<u8>,
    size_in_bits: usize,
    fields: Vec<UsbHidReportField>,
}

pub struct UsbHidReportView {
    pub report_id: Option<u8>,
    pub size_in_bits: nat,
    pub fields: Seq<UsbHidReportFieldView>,
}

/// The report that `UsbHidReport::new` makes: eight bits for the report ID
/// byte, then the fields.
pub open spec fn report_view(report_id: Option<u8>, fields: Seq<UsbHidReportFieldView>) -> UsbHidReportView {
    UsbHidReportView { report_id, size_in_bits: 8 + fields_size(fields), fields }
}

impl View for UsbHidReport {
    type V = UsbHidReportView;

    closed spec fn view(&self) -> UsbHidReportView {
        UsbHidReportView {
            report_id: self.report_id,
            size_in_bits: self.size_in_bits as nat,
            fields: fields_view(self.fields@),
        }
    }
}

impl UsbHidReport {
    pub fn new(report_id: Option<u8>, fields: Vec<UsbHidReportField>) -> (report: Self)
        requires
            8 + fields_size(fields_view(fields@)) <= usize::MAX,
        ensures
            report@ == report_view(report_id, fields_view(fields@)),
    {
        let mut size_in_bits: usize = 8;
        let mut i: usize = 0;
        while i < fields.len()
            invariant
                i <= fields.len(),
                8 + fields_size(fields_view(fields@)) <= usize::MAX,
                size_in_bits == 8 + fields_size(fields_view(fields@.take(i as int))),
            decreases fields.len() - i,
        {
            proof {
                assert(fields_view(fields@.take(i + 1)).drop_last() =~= fields_view(fields@.take(i as int)));
                lemma_fields_size_prefix(fields_view(fields@), i + 1);
                assert(fields_view(fields@.take(i + 1)) =~= fields_view(fields@).take(i + 1));
            }
            size_in_bits = size_in_bits + fields[i].size_in_bits();
            i = i + 1;
        }
        assert(fields@.take(fields.len() as int) =~= fields@);
        UsbHidReport { report_id, size_in_bits, fields }
    }

    pub fn report_id(&self) -> (report_id: Option<u8>)
        ensures
            report_id == self@.report_id,
    {
        self.report_id
    }

    pub fn size_in_bits(&self) -> (size: usize)
        ensures
            size == self@.size_in_bits,
    {
        self.size_in_bits
    }

    /// The size in bytes: the size in bits divided by eight, rounded up.
    pub fn size_in_bytes(&self) -> (size: usize)
        ensures
            size == (self@.size_in_bits + 7) / 8,
    {
        self.size_in_bits / 8 + if self.size_in_bits % 8 == 0 {
            0
        } else {
            1
        }
    }

    pub fn fields(&self) -> (fields: &[UsbHidReportField])
        ensures
            fields@.map_values(|f: UsbHidReportField| f@) == self@.fields,
    {
        self.fields.as_slice()
    }

    pub fn duplicate(&self) -> (r: Self)
        ensures
            r@ == self@,
    {
        let mut fields: Vec<UsbHidReportField> = Vec::new();
        let mut i: usize = 0;
        while i < self.fields.len()
            invariant
                i <= self.fields.len(),
                fields_view(fields@) =~= fields_view(self.fields@.take(i as int)),
            decreases self.fields.len() - i,
        {
            fields.push(self.fields[i].duplicate());
            assert(fields_view(self.fields@.take(i + 1)) =~= fields_view(self.fields@.take(i as int)).push(self.fields@[i as int]@));
            i = i + 1;
        }
        assert(self.fields@.take(self.fields.len() as int) =~= self.fields@);
        UsbHidReport { report_id: self.report_id, size_in_bits: self.size_in_bits, fields }
    }
}

proof fn lemma_fields_size_prefix(fields: Seq<UsbHidReportFieldView>, n: int)
    requires
        0 <= n <= fields.len(),
    ensures
        fields_size(fields.take(n)) <= fields_size(fields),
    decreases fields.len(),
{
    if n < fields.len() {
        assert(fields.drop_last().take(n) =~= fields.take(n));
        lemma_fields_size_prefix(fields.drop_last(), n);
    } else {
        assert(fields.take(n) =~= fields);
    }
}

} // verus!

verus! {

/// A collection: its usage and type, the reports it carries directly, and
/// the collections nested in it.
pub struct UsbHidReportCollection {
    usage: HidUsage,
    collection_type: u8,
    input_reports: Vec<UsbHidReport>,
    output_reports: Vec<UsbHidReport>,
    feature_reports: Vec<UsbHidReport>,
    child_collections: Vec<UsbHidReportCollection>,
}

pub struct UsbHidReportCollectionView {
    pub usage: HidUsage,
    pub collection_type: u8,
    pub input_reports: Seq<UsbHidReportView>,
    pub output_reports: Seq<UsbHidReportView>,
    pub feature_reports: Seq<UsbHidReportView>,
    pub child_collections: Seq<UsbHidReportCollectionView>,
}

/// The views of a list of reports.
pub open spec fn reports_view(reports: Seq<UsbHidReport>) -> Seq<UsbHidReportView> {
    reports.map_values(|r: UsbHidReport| r@)
}

/// The views of a list of borrowed reports.
pub open spec fn report_refs_view(reports: Seq<&UsbHidReport>) -> Seq<UsbHidReportView> {
    reports.map_values(|r: &UsbHidReport| r@)
}

/// The views of a list of borrowed collections.
pub open spec fn collection_refs_view(collections: Seq<&UsbHidReportCollection>) -> Seq<
    UsbHidReportCollectionView,
> {
    collections.map_values(|c: &UsbHidReportCollection| c@)
}

pub closed spec fn collection_view(c: UsbHidReportCollection) -> UsbHidReportCollectionView
    decreases c,
{
    UsbHidReportCollectionView {
        usage: c.usage,
        collection_type: c.collection_type,
        input_reports: reports_view(c.input_reports@),
        output_reports: reports_view(c.output_reports@),
        feature_reports: reports_view(c.feature_reports@),
        child_collections: Seq::new(
            c.child_collections@.len(),
            |i: int|
                if 0 <= i < c.child_collections@.len() {
                    collection_view(c.child_collections@[i])
                } else {
                    UsbHidReportCollectionView {
                        usage: c.usage,
                        collection_type: c.collection_type,
                        input_reports: Seq::empty(),
                        output_reports: Seq::empty(),
                        feature_reports: Seq::empty(),
                        child_collections: Seq::empty(),
                    }
                },
        ),
    }
}

impl View for UsbHidReportCollection {
    type V = UsbHidReportCollectionView;

    open spec fn view(&self) -> UsbHidReportCollectionView {
        collection_view(*self)
    }
}

/// All the collections nested in `c`, at any depth: each child followed by
/// its own nested collections, in order.
pub open spec fn descendants(c: UsbHidReportCollectionView) -> Seq<UsbHidReportCollectionView>
    decreases c, 1int,
{
    descendant_parts(c).flatten()
}

/// For each child of `c`: the child followed by the collections nested in it.
pub open spec fn descendant_parts(c: UsbHidReportCollectionView) -> Seq<Seq<UsbHidReportCollectionView>>
    decreases c, 0int,
{
    Seq::new(
        c.child_collections.len(),
        |i: int|
            if 0 <= i < c.child_collections.len() {
                seq![c.child_collections[i]] + descendants(c.child_collections[i])
            } else {
                Seq::empty()
            },
    )
}

/// A collection followed by all the collections nested in it.
pub open spec fn subtree(c: UsbHidReportCollectionView) -> Seq<UsbHidReportCollectionView> {
    seq![c] + descendants(c)
}

proof fn lemma_child_view(c: UsbHidReportCollection, i: int)
    requires
        0 <= i < c.child_collections@.len(),
    ensures
        c@.child_collections[i] == c.child_collections@[i]@,
        c@.child_collections.len() == c.child_collections@.len(),
{
}

impl UsbHidReportCollection {
    pub fn new(
        usage: HidUsage,
        collection_type: u8,
        input_reports: Vec<UsbHidReport>,
        output_reports: Vec<UsbHidReport>,
        feature_reports: Vec<UsbHidReport>,
        child_collections: Vec<UsbHidReportCollection>,
    ) -> (collection: Self)
        ensures
            collection@.usage == usage,
            collection@.collection_type == collection_type,
            collection@.input_reports == reports_view(input_reports@),
            collection@.output_reports == reports_view(output_reports@),
            collection@.feature_reports == reports_view(feature_reports@),
            collection@.child_collections == child_collections@.map_values(
                |c: UsbHidReportCollection| c@,
            ),
    {
        let collection = UsbHidReportCollection {
            usage,
            collection_type,
            input_reports,
            output_reports,
            feature_reports,
            child_collections,
        };
        assert(collection@.child_collections =~= child_collections@.map_values(
            |c: UsbHidReportCollection| c@,
        ));
        collection
    }

    pub fn usage(&self) -> (usage: HidUsage)
        ensures
            usage == self@.usage,
    {
        self.usage
    }

    /// The collection type, as the number the Collection item carries.
    pub fn collection_type(&self) -> (collection_type: u8)
        ensures
            collection_type == self@.collection_type,
    {
        self.collection_type
    }

    pub fn input_reports(&self) -> (reports: &[UsbHidReport])
        ensures
            reports_view(reports@) == self@.input_reports,
    {
        self.input_reports.as_slice()
    }

    pub fn output_reports(&self) -> (reports: &[UsbHidReport])
        ensures
            reports_view(reports@) == self@.output_reports,
    {
        self.output_reports.as_slice()
    }

    pub fn feature_reports(&self) -> (reports: &[UsbHidReport])
        ensures
            reports_view(reports@) == self@.feature_reports,
    {
        self.feature_reports.as_slice()
    }

    pub fn child_collections(&self) -> (children: &[UsbHidReportCollection])
        ensures
            children@.map_values(|c: UsbHidReportCollection| c@) == self@.child_collections,
    {
        assert(self.child_collections@.map_values(|c: UsbHidReportCollection| c@)
            =~= self@.child_collections);
        self.child_collections.as_slice()
    }

    /// All the collections nested in this one, as `descendants` orders them.
    pub fn all_child_collections(&self) -> (all: Vec<&UsbHidReportCollection>)
        ensures
            collection_refs_view(all@) == descendants(self@),
        decreases self,
    {
        let ghost me = self@;
        let ghost parts = descendant_parts(me);
        let mut all: Vec<&UsbHidReportCollection> = Vec::new();
        let mut i: usize = 0;
        while i < self.child_collections.len()
            invariant
                i <= self.child_collections.len(),
                me == self@,
                me.child_collections.len() == self.child_collections@.len(),
                parts.len() == me.child_collections.len(),
                forall|k: int| 0 <= k < parts.len() ==> #[trigger] parts[k] == seq![me.child_collections[k]] + descendants(me.child_collections[k]),
                collection_refs_view(all@) =~= parts.take(i as int).flatten(),
            decreases self.child_collections.len() - i,
        {
            let child = &self.child_collections[i];
            proof {
                lemma_child_view(*self, i as int);
            }
            let mut nested = child.all_child_collections();
            let ghost before = collection_refs_view(all@);
            all.push(child);
            all.append(&mut nested);
            proof {
                assert(parts.take(i + 1) =~= parts.take(i as int).push(parts[i as int]));
                assert(collection_refs_view(all@) =~= before + (seq![child@] + descendants(child@)));
            }
            i = i + 1;
        }
        assert(parts.take(parts.len() as int) =~= parts);
        assert(descendants(me) == parts.flatten());
        all
    }
}

} // verus!

verus! {

/// The three kinds of report: Input, Output and Feature.
#[derive(Debug, Clone, Copy, PartialEq, Eq, Structural)]
pub enum UsbHidReportKind {
    Input,
    Output,
    Feature,
}

/// The reports of one kind that a collection carries directly.
pub open spec fn reports_of_kind(c: UsbHidReportCollectionView, kind: UsbHidReportKind) -> Seq<
    UsbHidReportView,
> {
    match kind {
        UsbHidReportKind::Input => c.input_reports,
        UsbHidReportKind::Output => c.output_reports,
        UsbHidReportKind::Feature => c.feature_reports,
    }
}

/// The reports of one kind of the given collections, in order.
pub open spec fn reports_of_kind_in(cs: Seq<UsbHidReportCollectionView>, kind: UsbHidReportKind) -> Seq<
    UsbHidReportView,
> {
    cs.map_values(|c: UsbHidReportCollectionView| reports_of_kind(c, kind)).flatten()
}

impl UsbHidReportCollection {
    fn reports_of_kind(&self, kind: UsbHidReportKind) -> (reports: &Vec<UsbHidReport>)
        ensures
            reports_view(reports@) == reports_of_kind(self@, kind),
    {
        match kind {
            UsbHidReportKind::Input => &self.input_reports,
            UsbHidReportKind::Output => &self.output_reports,
            UsbHidReportKind::Feature => &self.feature_reports,
        }
    }

    /// The reports of one kind that this collection and all the collections
    /// nested in it carry, this collection's first.
    pub fn all_reports_of_kind(&self, kind: UsbHidReportKind) -> (all: Vec<&UsbHidReport>)
        ensures
            report_refs_view(all@) == reports_of_kind_in(subtree(self@), kind),
    {
        let collections = self.all_child_collections();
        let mut all: Vec<&UsbHidReport> = Vec::new();
        push_report_refs(&mut all, self.reports_of_kind(kind));
        let ghost subtree_seq = subtree(self@);
        let ghost parts = subtree_seq.map_values(|c: UsbHidReportCollectionView| reports_of_kind(c, kind));
        assert(parts.take(1) =~= seq![reports_of_kind(self@, kind)]);
        let mut i: usize = 0;
        while i < collections.len()
            invariant
                i <= collections.len(),
                collection_refs_view(collections@) == descendants(self@),
                subtree_seq == subtree(self@),
                parts == subtree_seq.map_values(|c: UsbHidReportCollectionView| reports_of_kind(c, kind)),
                report_refs_view(all@) =~= parts.take(i + 1).flatten(),
            decreases collections.len() - i,
        {
            let ghost before = report_refs_view(all@);
            push_report_refs(&mut all, collections[i].reports_of_kind(kind));
            proof {
                assert(subtree_seq[i + 1] == collections@[i as int]@);
                assert(parts.take(i + 2) =~= parts.take(i + 1).push(parts[i + 1]));
            }
            i = i + 1;
        }
        assert(parts.take(i + 1) =~= parts);
        all
    }

    pub fn all_input_reports(&self) -> (all: Vec<&UsbHidReport>)
        ensures
            report_refs_view(all@) == reports_of_kind_in(subtree(self@), UsbHidReportKind::Input),
    {
        self.all_reports_of_kind(UsbHidReportKind::Input)
    }

    pub fn all_output_reports(&self) -> (all: Vec<&UsbHidReport>)
        ensures
            report_refs_view(all@) == reports_of_kind_in(subtree(self@), UsbHidReportKind::Output),
    {
        self.all_reports_of_kind(UsbHidReportKind::Output)
    }

    pub fn all_feature_reports(&self) -> (all: Vec<&UsbHidReport>)
        ensures
            report_refs_view(all@) == reports_of_kind_in(subtree(self@), UsbHidReportKind::Feature),
    {
        self.all_reports_of_kind(UsbHidReportKind::Feature)
    }
}

fn push_report_refs<'a>(all: &mut Vec<&'a UsbHidReport>, reports: &'a Vec<UsbHidReport>)
    ensures
        report_refs_view(final(all)@) == report_refs_view(old(all)@) + reports_view(reports@),
{
    let ghost start = report_refs_view(all@);
    let mut i: usize = 0;
    while i < reports.len()
        invariant
            i <= reports.len(),
            report_refs_view(all@) =~= start + reports_view(reports@.take(i as int)),
        decreases reports.len() - i,
    {
        let ghost before = all@;
        all.push(&reports[i]);
        assert(all@ =~= before.push(&reports@[i as int]));
        assert(report_refs_view(all@) =~= report_refs_view(before).push(reports@[i as int]@));
        assert(reports_view(reports@.take(i + 1)) =~= reports_view(reports@.take(i as int)).push(reports@[i as int]@));
        i = i + 1;
    }
    assert(reports@.take(reports.len() as int) =~= reports@);
}

} // verus!

verus! {

/// A report descriptor: the Input, Output and Feature reports it lays out, and
/// its top-level collections.
pub struct UsbHidReportDescriptor {
    input_reports: Vec<UsbHidReport>,
    output_reports: Vec<UsbHidReport>,
    feature_reports: Vec<UsbHidReport>,
    root_collections: Vec<UsbHidReportCollection>,
}

pub struct UsbHidReportDescriptorView {
    pub input_reports: Seq<UsbHidReportView>,
    pub output_reports: Seq<UsbHidReportView>,
    pub feature_reports: Seq<UsbHidReportView>,
    pub root_collections: Seq<UsbHidReportCollectionView>,
}

impl View for UsbHidReportDescriptor {
    type V = UsbHidReportDescriptorView;

    closed spec fn view(&self) -> UsbHidReportDescriptorView {
        UsbHidReportDescriptorView {
            input_reports: reports_view(self.input_reports@),
            output_reports: reports_view(self.output_reports@),
            feature_reports: reports_view(self.feature_reports@),
            root_collections: self.root_collections@.map_values(|c: UsbHidReportCollection| c@),
        }
    }
}

/// Every collection of a descriptor: each top-level collection followed by the
/// collections nested in it.
pub open spec fn all_collections_of(d: UsbHidReportDescriptorView) -> Seq<UsbHidReportCollectionView> {
    d.root_collections.map_values(|c: UsbHidReportCollectionView| subtree(c)).flatten()
}

impl UsbHidReportDescriptor {
    pub fn new(
        input_reports: Vec<UsbHidReport>,
        output_reports: Vec<UsbHidReport>,
        feature_reports: Vec<UsbHidReport>,
        root_collections: Vec<UsbHidReportCollection>,
    ) -> (descriptor: Self)
        ensures
            descriptor@ == (UsbHidReportDescriptorView {
                input_reports: reports_view(input_reports@),
                output_reports: reports_view(output_reports@),
                feature_reports: reports_view(feature_reports@),
                root_collections: root_collections@.map_values(|c: UsbHidReportCollection| c@),
            }),
    {
        UsbHidReportDescriptor { input_reports, output_reports, feature_reports, root_collections }
    }

    pub fn input_reports(&self) -> (reports: &[UsbHidReport])
        ensures
            reports_view(reports@) == self@.input_reports,
    {
        self.input_reports.as_slice()
    }

    pub fn output_reports(&self) -> (reports: &[UsbHidReport])
        ensures
            reports_view(reports@) == self@.output_reports,
    {
        self.output_reports.as_slice()
    }

    pub fn feature_reports(&self) -> (reports: &[UsbHidReport])
        ensures
            reports_view(reports@) == self@.feature_reports,
    {
        self.feature_reports.as_slice()
    }

    pub fn root_collections(&self) -> (roots: &[UsbHidReportCollection])
        ensures
            roots@.map_values(|c: UsbHidReportCollection| c@) == self@.root_collections,
    {
        self.root_collections.as_slice()
    }

    /// Every collection, as `all_collections_of` orders them.
    pub fn all_collections(&self) -> (all: Vec<&UsbHidReportCollection>)
        ensures
            collection_refs_view(all@) == all_collections_of(self@),
    {
        let ghost parts = self@.root_collections.map_values(|c: UsbHidReportCollectionView| subtree(c));
        let mut all: Vec<&UsbHidReportCollection> = Vec::new();
        let mut i: usize = 0;
        while i < self.root_collections.len()
            invariant
                i <= self.root_collections.len(),
                parts == self@.root_collections.map_values(|c: UsbHidReportCollectionView| subtree(c)),
                self@.root_collections == self.root_collections@.map_values(|c: UsbHidReportCollection| c@),
                collection_refs_view(all@) =~= parts.take(i as int).flatten(),
            decreases self.root_collections.len() - i,
        {
            let root = &self.root_collections[i];
            let mut nested = root.all_child_collections();
            let ghost before = collection_refs_view(all@);
            all.push(root);
            all.append(&mut nested);
            proof {
                assert(parts[i as int] == subtree(root@));
                assert(parts.take(i + 1) =~= parts.take(i as int).push(parts[i as int]));
                assert(collection_refs_view(all@) =~= before + subtree(root@));
            }
            i = i + 1;
        }
        assert(parts.take(i as int) =~= parts);
        all
    }

    /// The reports of one kind that all collections carry, in the order of
    /// `all_collections_of`.
    pub fn all_reports_of_kind(&self, kind: UsbHidReportKind) -> (all: Vec<&UsbHidReport>)
        ensures
            report_refs_view(all@) == reports_of_kind_in(all_collections_of(self@), kind),
    {
        let collections = self.all_collections();
        let ghost parts = all_collections_of(self@).map_values(|c: UsbHidReportCollectionView| reports_of_kind(c, kind));
        let mut all: Vec<&UsbHidReport> = Vec::new();
        let mut i: usize = 0;
        while i < collections.len()
            invariant
                i <= collections.len(),
                collection_refs_view(collections@) == all_collections_of(self@),
                parts == all_collections_of(self@).map_values(|c: UsbHidReportCollectionView| reports_of_kind(c, kind)),
                report_refs_view(all@) =~= parts.take(i as int).flatten(),
            decreases collections.len() - i,
        {
            push_report_refs(&mut all, collections[i].reports_of_kind(kind));
            proof {
                assert(parts.take(i + 1) =~= parts.take(i as int).push(parts[i as int]));
            }
            i = i + 1;
        }
        assert(parts.take(i as int) =~= parts);
        all
    }

    pub fn all_input_reports(&self) -> (all: Vec<&UsbHidReport>)
        ensures
            report_refs_view(all@) == reports_of_kind_in(all_collections_of(self@), UsbHidReportKind::Input),
    {
        self.all_reports_of_kind(UsbHidReportKind::Input)
    }

    pub fn all_output_reports(&self) -> (all: Vec<&UsbHidReport>)
        ensures
            report_refs_view(all@) == reports_of_kind_in(all_collections_of(self@), UsbHidReportKind::Output),
    {
        self.all_reports_of_kind(UsbHidReportKind::Output)
    }

    pub fn all_feature_reports(&self) -> (all: Vec<&UsbHidReport>)
        ensures
            report_refs_view(all@) == reports_of_kind_in(all_collections_of(self@), UsbHidReportKind::Feature),
    {
        self.all_reports_of_kind(UsbHidReportKind::Feature)
    }
}

} // verus!
