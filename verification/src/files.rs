//! The three operations of the store as the front end calls them: upload,
//! list and download.

use vstd::prelude::*;
use crate::config::Args;
use crate::error::ErrorKind;
use crate::helpers::rocket::ApiError;
use crate::listing::{DirEntryInfo, entry_views, has_date_times, list_records, listing_of, record_views, records_of, sorted_by_name};
use crate::name::{is_valid_name, resolve, resolve_path, stored_name, valid_name};
use crate::upload::{Phase, Upload, UploadAction, UploadView};

pub use crate::listing::FileListSucessfullyInfo;
pub use crate::name::get_extension;

verus! {

/// What an upload request carries besides its body: the file name that the
/// client declared, if any, and how many bytes of the body the front end
/// has staged already.
#[derive(Debug)]
pub struct FileUploadForm {
    pub file_name: Option<String>,
    pub len: u64,
}

/// The answer to a successful upload: the name under which the file is
/// stored.
#[derive(Debug)]
pub struct FileUploadedSucessfully {
    pub file_name: String,
}

/// Opens the upload that a form asks for.
///
/// A missing, empty or unsafe file name is refused as invalid. A form whose
/// staged bytes exceed the configured maximum is refused as too large.
/// Otherwise the upload is open, under the stored name, with the staged
/// bytes counted.
pub fn file_upload(form: &FileUploadForm, args: &Args) -> (r: Result<Upload, ApiError>)
    ensures
        match r {
            Ok(upload) => {
                &&& form.file_name matches Some(name)
                &&& is_valid_name(name@)
                &&& form.len <= args.max_file_size
                &&& upload@ == (UploadView {
                    stored_name: stored_name(name@),
                    limit: args.max_file_size as nat,
                    overwrite: args.overwrite,
                    phase: Phase::Receiving,
                    staged: form.len as nat,
                })
                &&& upload@.wf()
            },
            Err(e) => if form.file_name matches Some(name) && is_valid_name(name@) {
                e.reports(ErrorKind::PayloadTooLarge) && form.len > args.max_file_size
            } else {
                e.reports(ErrorKind::InvalidName)
            },
        },
{
    let declared = match &form.file_name {
        Some(name) => Some(name.as_str()),
        None => None,
    };
    match Upload::begin(declared, form.len, args) {
        Ok(upload) => Ok(upload),
        Err(kind) => Err(ApiError::new(kind)),
    }
}

/// What the client is told once the action `action` of `upload` has been
/// performed: the stored name after a completed upload, the failure after a
/// discarded one, and nothing yet after any other action.
pub fn upload_response(upload: &Upload, action: UploadAction) -> (r: Option<
    Result<FileUploadedSucessfully, ApiError>,
>)
    ensures
        match action {
            UploadAction::Complete { .. } => r matches Some(Ok(done)) && done.file_name@
                == upload@.stored_name,
            UploadAction::Discard(kind) => r matches Some(Err(e)) && e.reports(kind),
            _ => r is None,
        },
{
    match action {
        UploadAction::Complete { .. } => Some(
            Ok(FileUploadedSucessfully { file_name: upload.stored_name().to_owned() }),
        ),
        UploadAction::Discard(kind) => Some(Err(ApiError::new(kind))),
        _ => None,
    }
}

/// The listing for a snapshot of the storage folder; `None` stands for a
/// folder that could not be opened.
///
/// Such a folder is a storage failure. Any other snapshot is listed: one
/// record for each regular file whose metadata could be read, in the order
/// of the names, each with its times written as dates and times with the
/// offset of UTC.
pub fn file_list(snapshot: Option<Vec<DirEntryInfo>>) -> (r: Result<
    Vec<FileListSucessfullyInfo>,
    ApiError,
>)
    ensures
        match r {
            Ok(records) => {
                &&& snapshot matches Some(entries)
                &&& record_views(records@) == listing_of(entry_views(entries@))
                &&& sorted_by_name(record_views(records@))
                &&& record_views(records@).to_multiset() == records_of(
                    entry_views(entries@),
                ).to_multiset()
                &&& forall|k: int| 0 <= k < records@.len() ==> has_date_times(#[trigger] records@[k]@)
            },
            Err(e) => snapshot is None && e.reports(ErrorKind::StorageIo),
        },
{
    match snapshot {
        Some(entries) => Ok(list_records(&entries)),
        None => Err(ApiError::new(ErrorKind::StorageIo)),
    }
}

/// Where the file of the requested name is to be read from.
///
/// A name that is not a valid single segment is refused as invalid; for any
/// other the path is that name inside the storage folder.
pub fn file_download(requested: &str, args: &Args) -> (r: Result<String, ApiError>)
    ensures
        match r {
            Ok(path) => is_valid_name(requested@) && path@ == resolve(args.folder@, requested@),
            Err(e) => !is_valid_name(requested@) && e.reports(ErrorKind::InvalidName),
        },
{
    if valid_name(requested) {
        Ok(resolve_path(args.folder.as_str(), requested))
    } else {
        Err(ApiError::new(ErrorKind::InvalidName))
    }
}

/// What the client is told when the file at a resolved path could not be
/// opened: that it was not found where it does not exist, and a storage
/// failure otherwise.
pub fn download_failure(missing: bool) -> (e: ApiError)
    ensures
        e.reports(
            if missing {
                ErrorKind::NotFound
            } else {
                ErrorKind::StorageIo
            },
        ),
{
    if missing {
        ApiError::new(ErrorKind::NotFound)
    } else {
        ApiError::new(ErrorKind::StorageIo)
    }
}

} // verus!
