//! Optional metadata of a file.
use vstd::prelude::*;

verus! {

/// Optional metadata describing the author of the model, the organisation that created it,
/// the save date (a unix timestamp), whether the file adheres fully to the standard or uses
/// extensions, and which minimal version is needed to open it (only breaking changes raise
/// it; 0.0 means any version).
pub struct FileMetadata {
    author: String,
    org: String,
    save_date: u64,
    is_standard: bool,
    min_major: u16,
    min_minor: u16,
}

impl FileMetadata {
    /// The author.
    pub closed spec fn author(&self) -> Seq<char> {
        self.author@
    }

    /// The organisation.
    pub closed spec fn org(&self) -> Seq<char> {
        self.org@
    }

    /// The save date.
    pub closed spec fn save_date(&self) -> u64 {
        self.save_date
    }

    /// Whether the file adheres fully to the standard.
    pub closed spec fn is_standard(&self) -> bool {
        self.is_standard
    }

    /// The minimal version needed to open the file.
    pub closed spec fn min_version(&self) -> (u16, u16) {
        (self.min_major, self.min_minor)
    }

    /// Empty, default metadata: no known author, no organisation, saved at midnight of
    /// 1.1.1970, using no extensions, readable by any version.
    pub fn empty() -> (meta: Self)
        ensures
            meta.author() == Seq::<char>::empty(),
            meta.org() == Seq::<char>::empty(),
            meta.save_date() == 0,
            meta.is_standard(),
            meta.min_version() == (0u16, 0u16),
    {
        Self {
            author: String::new(),
            org: String::new(),
            save_date: 0,
            is_standard: true,
            min_major: 0,
            min_minor: 0,
        }
    }
}

} // verus!
