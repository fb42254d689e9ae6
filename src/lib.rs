//! Billing reports built from time-tracking entries: yearly retrieval windows,
//! paged retrieval, per-day aggregation of worked minutes, tiered rounding of
//! billable minutes, and the per-day report with its unbilled totals.

pub mod aggregate;
pub mod billing;
pub mod paging;
pub mod summary;
pub mod text;
pub mod window;

pub use billing::{
    build_bill_report, calculate_billable_minutes, Amount, BillReport, BillReportDay, Client, Config,
};
pub use window::{report_windows, ReportYear};
pub use paging::{DetailsResponse, PageFetch, ReportDetails, TimeEntry};
pub use summary::Summary;
pub use aggregate::{build_summary, summarize, SummaryError, TimeField, Timestamp};
