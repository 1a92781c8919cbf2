//! Size limits that a parser enforces while it scans.

use vstd::prelude::*;

verus! {

/// The default cap on the size of a field's value: 12 KiB.
pub const DEFAULT_MAX_FIELD_VALUE_SIZE: usize = 12288;

/// The default cap on the length of a field's name.
pub const DEFAULT_MAX_FIELD_NAME_LEN: usize = 128;

/// The default cap on the size of a whole entry: 16 KiB.
pub const DEFAULT_MAX_ENTRY_SIZE: usize = 16384;

/// Three independent caps on what a single entry may hold. A parser holds
/// every byte against them as it scans it, so what it buffers of an entry
/// is bounded whatever the input is.
#[derive(Debug)]
pub struct JournalExportLimits {
    /// The most bytes that the value of a field may have.
    pub max_field_value_size: usize,
    /// The most bytes that the name of a field may have.
    pub max_field_name_len: usize,
    /// The most bytes that an entry may have in the stream, from the first
    /// byte of its first name to the blank line that ends it.
    pub max_entry_size: usize,
}

impl JournalExportLimits {
    /// The limits that apply where none were chosen.
    pub open spec fn defaults() -> JournalExportLimits {
        JournalExportLimits {
            max_field_value_size: DEFAULT_MAX_FIELD_VALUE_SIZE,
            max_field_name_len: DEFAULT_MAX_FIELD_NAME_LEN,
            max_entry_size: DEFAULT_MAX_ENTRY_SIZE,
        }
    }

    /// The widest limits that there are.
    pub open spec fn unlimited() -> JournalExportLimits {
        JournalExportLimits {
            max_field_value_size: usize::MAX,
            max_field_name_len: usize::MAX,
            max_entry_size: usize::MAX,
        }
    }
}

impl Default for JournalExportLimits {
    fn default() -> (r: JournalExportLimits)
        ensures
            r == JournalExportLimits::defaults(),
    {
        Self {
            max_field_value_size: DEFAULT_MAX_FIELD_VALUE_SIZE,
            max_field_name_len: DEFAULT_MAX_FIELD_NAME_LEN,
            max_entry_size: DEFAULT_MAX_ENTRY_SIZE,
        }
    }
}

/// Collects the limits that differ from the defaults. Each limit is a
/// positive number.
pub struct JournalExportLimitsBuilder {
    max_field_value_size: Option<usize>,
    max_field_name_len: Option<usize>,
    max_entry_size: Option<usize>,
}

/// What a builder has been told so far: for each limit the chosen value, if any.
pub struct ChosenLimits {
    pub max_field_value_size: Option<usize>,
    pub max_field_name_len: Option<usize>,
    pub max_entry_size: Option<usize>,
}

impl ChosenLimits {
    /// Every limit that was chosen is positive.
    pub open spec fn positive(self) -> bool {
        &&& self.max_field_value_size matches Some(n) ==> n > 0
        &&& self.max_field_name_len matches Some(n) ==> n > 0
        &&& self.max_entry_size matches Some(n) ==> n > 0
    }

    /// The limits that these choices stand for: each chosen value, and the
    /// default where none was chosen.
    pub open spec fn resolved(self) -> JournalExportLimits {
        JournalExportLimits {
            max_field_value_size: match self.max_field_value_size {
                Some(n) => n,
                None => DEFAULT_MAX_FIELD_VALUE_SIZE,
            },
            max_field_name_len: match self.max_field_name_len {
                Some(n) => n,
                None => DEFAULT_MAX_FIELD_NAME_LEN,
            },
            max_entry_size: match self.max_entry_size {
                Some(n) => n,
                None => DEFAULT_MAX_ENTRY_SIZE,
            },
        }
    }
}

impl View for JournalExportLimitsBuilder {
    type V = ChosenLimits;

    closed spec fn view(&self) -> ChosenLimits {
        ChosenLimits {
            max_field_value_size: self.max_field_value_size,
            max_field_name_len: self.max_field_name_len,
            max_entry_size: self.max_entry_size,
        }
    }
}

impl Default for JournalExportLimitsBuilder {
    fn default() -> (r: JournalExportLimitsBuilder)
        ensures
            r@ == (ChosenLimits {
                max_field_value_size: None,
                max_field_name_len: None,
                max_entry_size: None,
            }),
    {
        Self { max_field_value_size: None, max_field_name_len: None, max_entry_size: None }
    }
}

impl JournalExportLimitsBuilder {
    /// A builder with nothing chosen: it builds the default limits.
    pub fn new() -> (r: Self)
        ensures
            r@ == (ChosenLimits {
                max_field_value_size: None,
                max_field_name_len: None,
                max_entry_size: None,
            }),
    {
        Self { max_field_value_size: None, max_field_name_len: None, max_entry_size: None }
    }

    pub fn with_max_field_value_size(self, size: usize) -> (r: Self)
        requires
            size > 0,
        ensures
            r@ == (ChosenLimits { max_field_value_size: Some(size), ..self@ }),
    {
        Self { max_field_value_size: Some(size), ..self }
    }

    pub fn with_max_field_name_len(self, size: usize) -> (r: Self)
        requires
            size > 0,
        ensures
            r@ == (ChosenLimits { max_field_name_len: Some(size), ..self@ }),
    {
        Self { max_field_name_len: Some(size), ..self }
    }

    pub fn with_max_entry_size(self, size: usize) -> (r: Self)
        requires
            size > 0,
        ensures
            r@ == (ChosenLimits { max_entry_size: Some(size), ..self@ }),
    {
        Self { max_entry_size: Some(size), ..self }
    }

    pub fn build(self) -> (r: JournalExportLimits)
        ensures
            r == self@.resolved(),
            self@.positive() ==> r.max_field_value_size > 0 && r.max_field_name_len > 0
                && r.max_entry_size > 0,
    {
        JournalExportLimits {
            max_field_value_size: match self.max_field_value_size {
                Some(n) => n,
                None => DEFAULT_MAX_FIELD_VALUE_SIZE,
            },
            max_field_name_len: match self.max_field_name_len {
                Some(n) => n,
                None => DEFAULT_MAX_FIELD_NAME_LEN,
            },
            max_entry_size: match self.max_entry_size {
                Some(n) => n,
                None => DEFAULT_MAX_ENTRY_SIZE,
            },
        }
    }
}

} // verus!
