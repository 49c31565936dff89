//! Errors met while building a report descriptor or reading report values.

use vstd::prelude::*;

verus! {

/// Why a report descriptor could not be built, or a value could not be read
/// from a report.
#[derive(Debug, Clone, Copy, PartialEq, Eq, Structural)]
pub enum UsbHidReportError {
    PopBeforePush,
    ReportIdMissing,
    ReportSizeMissing,
    ReportCountMissing,
    UsagePageMissing,
    UsageMissing,
    InvalidUsageRange,
    InvalidDesignatorIndexRange,
    InvalidStringIndexRange,
    InvalidReportId,
    InvalidBufferSize,
    InvalidLogicalValueRange,
    InvalidPhysicalValueRange,
    LogicalValueOutOfRange,
    UnexpectedEndCollection,
    ReportOutsideCollection,
}

} // verus!
