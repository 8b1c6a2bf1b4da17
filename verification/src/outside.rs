//! The calls into other crates that the verified code makes, and what is taken on trust of them.

use arrow::error::ArrowError;
use arrow::ipc::writer::IpcWriteOptions;
use arrow::ipc::CompressionType;
use datafusion::error::DataFusionError;
use tokio::sync::OnceCell;
use vstd::prelude::*;

verus! {

/// `tokio::sync::OnceCell`, a cell that is filled at most once. It is carried, never looked into.
#[verifier::external_type_specification]
#[verifier::external_body]
#[verifier::reject_recursive_types(T)]
pub struct ExOnceCell<T>(OnceCell<T>);

/// `tokio::sync::OnceCell::new` makes an empty cell. Nothing is claimed of the value: whether the
/// cell is still empty later depends on the tasks that share it.
pub assume_specification<T>[ OnceCell::<T>::new ]() -> (r: OnceCell<T>)
;

/// `tokio::sync::OnceCell::get` returns the value of the cell if it is filled at this moment.
/// Nothing is claimed of the result: another task may fill the cell at any time.
pub assume_specification<T>[ OnceCell::<T>::get ](cell: &OnceCell<T>) -> (r: Option<&T>)
;

/// `arrow::ipc::writer::IpcWriteOptions`, carried to the encoder.
#[verifier::external_type_specification]
#[verifier::external_body]
pub struct ExIpcWriteOptions(IpcWriteOptions);

/// `arrow::error::ArrowError`, turned into text where it occurs.
#[verifier::external_type_specification]
#[verifier::external_body]
pub struct ExArrowError(ArrowError);

/// The default write options with a compression, by the number that the Arrow format gives it.
pub uninterp spec fn compressed_options(compression: i8) -> IpcWriteOptions;

/// `IpcWriteOptions::try_with_compression` on the default options. It refuses a compression only
/// for metadata versions before V5, and the default options are of V5, so this call succeeds. What
/// it gives depends on the compression alone.
#[verifier::external_body]
pub(crate) fn try_with_compression(compression: i8) -> (r: Result<IpcWriteOptions, ArrowError>)
    ensures
        r is Ok,
        r->Ok_0 == compressed_options(compression),
{
    IpcWriteOptions::default().try_with_compression(Some(CompressionType(compression)))
}

/// What DataFusion puts after the description of an internal error.
pub open spec fn internal_error_notice() -> Seq<char> {
    ".\nThis issue was likely caused by a bug in DataFusion's code. Please help us to resolve this by filing a bug report in our issue tracker: https://github.com/apache/datafusion/issues"@
}

/// `DataFusionError::Internal` as text, through its `Display`: a prefix, the description as given,
/// and the notice that DataFusion adds to internal errors.
#[verifier::external_body]
pub(crate) fn internal_error_text(description: String) -> (r: String)
    ensures
        r@ == "Internal error: "@ + description@ + internal_error_notice(),
{
    DataFusionError::Internal(description).to_string()
}

} // verus!
