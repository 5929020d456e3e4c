use vstd::prelude::*;

verus! {

/// Everything that can end a download, or one attempt of it.
#[derive(Debug)]
pub enum DownloadError {
    /// The manifest itself could not be retrieved.
    ManifestFetch { cause: String },
    /// The manifest names no segment.
    ManifestEmpty,
    /// One attempt to fetch a segment failed.
    Fetch { cause: String },
    /// Every attempt to fetch the segment at `index` failed.
    FetchExhausted { index: usize, attempts: usize, cause: String },
    /// The assembled stream holds fewer bytes than the sniffer inspects.
    HeaderTooShort { available: usize },
    /// Scratch storage or the final output could not be written or read.
    Storage { cause: String },
}

/// The mathematical value of a [`DownloadError`].
pub enum ErrorView {
    ManifestFetch { cause: Seq<char> },
    ManifestEmpty,
    Fetch { cause: Seq<char> },
    FetchExhausted { index: nat, attempts: nat, cause: Seq<char> },
    HeaderTooShort { available: nat },
    Storage { cause: Seq<char> },
}

impl View for DownloadError {
    type V = ErrorView;

    open spec fn view(&self) -> ErrorView {
        match *self {
            DownloadError::ManifestFetch { cause } => ErrorView::ManifestFetch { cause: cause@ },
            DownloadError::ManifestEmpty => ErrorView::ManifestEmpty,
            DownloadError::Fetch { cause } => ErrorView::Fetch { cause: cause@ },
            DownloadError::FetchExhausted { index, attempts, cause } => ErrorView::FetchExhausted {
                index: index as nat,
                attempts: attempts as nat,
                cause: cause@,
            },
            DownloadError::HeaderTooShort { available } => ErrorView::HeaderTooShort {
                available: available as nat,
            },
            DownloadError::Storage { cause } => ErrorView::Storage { cause: cause@ },
        }
    }
}

impl DownloadError {
    /// Only a single failed attempt is recovered from, by trying again;
    /// every other error ends the run.
    pub fn is_recoverable(&self) -> (r: bool)
        ensures
            r == (self@ is Fetch),
    {
        match self {
            DownloadError::Fetch { .. } => true,
            _ => false,
        }
    }
}

} // verus!
