//! Client-side core of a brokerage RPC SDK: lossless conversion between the
//! wire's fixed-point numbers and decimals, between wire timestamps and
//! calendar dates or UTC instants, and the per-call request metadata.
pub mod auth;
pub mod decimal;
pub mod error;
pub mod timestamp;

pub use auth::{Environment, MetadataEntry, TInvestInterceptor};
pub use decimal::{Decimal, MoneyValue, Quotation};
pub use error::{MetadataHeader, SdkError};
pub use timestamp::{
    datetime_utc_to_timestamp, naive_date_to_timestamp, timestamp_to_datetime_utc,
    timestamp_to_naive_date, CalendarDate, Timestamp, UtcInstant,
};
