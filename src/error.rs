//! The failures of the conversions and of request stamping.
use vstd::prelude::*;

verus! {

/// The metadata entry that failed to encode.
#[derive(Clone, Copy, Debug, PartialEq, Eq, Structural)]
pub enum MetadataHeader {
    Authorization,
    TrackingId,
    AppName,
}

/// Failures of the conversions and of request stamping.
#[derive(Clone, Copy, Debug, PartialEq, Eq, Structural)]
pub enum SdkError {
    /// A decimal's whole part does not fit the wire's 64-bit units.
    ConversionOverflow,
    /// A wire timestamp that names no representable instant.
    InvalidTimestamp { seconds: i64, nanos: i32 },
    /// A metadata value holds characters the transport cannot carry.
    InvalidMetadata { header: MetadataHeader },
}


/// Relies on std's `format!`, which writes the literal text and then the two
/// integers in decimal: the result starts with `"Invalid timestamp: "`.
#[verifier::external_body]
fn invalid_timestamp_text(seconds: i64, nanos: i32) -> (r: String)
    ensures
        "Invalid timestamp: "@.is_prefix_of(r@),
{
    format!("Invalid timestamp: {} seconds, {} nanos", seconds, nanos)
}

impl SdkError {
    /// A human-readable description of the failure.
    pub fn message(&self) -> (r: String)
        ensures
            match *self {
                SdkError::ConversionOverflow => r@ == "Can't convert decimal to quotation"@,
                SdkError::InvalidTimestamp { .. } => "Invalid timestamp: "@.is_prefix_of(r@),
                SdkError::InvalidMetadata { header: MetadataHeader::Authorization } => r@
                    == "Invalid authorization header"@,
                SdkError::InvalidMetadata { header: MetadataHeader::TrackingId } => r@
                    == "Invalid x-tracking-id"@,
                SdkError::InvalidMetadata { header: MetadataHeader::AppName } => r@
                    == "Invalid x-app-name"@,
            },
    {
        match *self {
            SdkError::ConversionOverflow => String::from_str("Can't convert decimal to quotation"),
            SdkError::InvalidTimestamp { seconds, nanos } => invalid_timestamp_text(seconds, nanos),
            SdkError::InvalidMetadata { header: MetadataHeader::Authorization } => String::from_str(
                "Invalid authorization header",
            ),
            SdkError::InvalidMetadata { header: MetadataHeader::TrackingId } => String::from_str(
                "Invalid x-tracking-id",
            ),
            SdkError::InvalidMetadata { header: MetadataHeader::AppName } => String::from_str(
                "Invalid x-app-name",
            ),
        }
    }
}

} // verus!
