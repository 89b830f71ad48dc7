//! The kinds of failure that the store reports.

use vstd::prelude::*;

verus! {

/// Why an operation of the store failed.
#[derive(Clone, Copy, Debug, PartialEq, Eq, Structural)]
pub enum ErrorKind {
    /// The client-supplied name is missing, empty or unsafe.
    InvalidName,
    /// The name is taken and the store was told not to replace files.
    NameConflict,
    /// The payload is larger than the configured maximum.
    PayloadTooLarge,
    /// No artifact is stored under the requested name.
    NotFound,
    /// The file system refused a read, a write or a rename.
    StorageIo,
}

impl ErrorKind {
    /// The HTTP status that reports this kind of failure.
    pub open spec fn status_spec(self) -> u16 {
        match self {
            ErrorKind::InvalidName => 400,
            ErrorKind::NameConflict => 409,
            ErrorKind::PayloadTooLarge => 413,
            ErrorKind::NotFound => 404,
            ErrorKind::StorageIo => 500,
        }
    }

    /// The category string that a structured error carries for this kind.
    pub open spec fn category_spec(self) -> Seq<char> {
        match self {
            ErrorKind::InvalidName => "InvalidNameError"@,
            ErrorKind::NameConflict => "NameConflictError"@,
            ErrorKind::PayloadTooLarge => "PayloadTooLargeError"@,
            ErrorKind::NotFound => "NotFoundError"@,
            ErrorKind::StorageIo => "StorageIOError"@,
        }
    }

    /// The text that tells a person what went wrong.
    pub open spec fn message_spec(self) -> Seq<char> {
        match self {
            ErrorKind::InvalidName => "the file name is missing, empty or unsafe"@,
            ErrorKind::NameConflict => "a file of that name is already stored"@,
            ErrorKind::PayloadTooLarge => "the file is larger than the configured maximum"@,
            ErrorKind::NotFound => "no file of that name is stored"@,
            ErrorKind::StorageIo => "the storage folder could not be read or written"@,
        }
    }

    /// The HTTP status that reports this kind of failure.
    pub fn status(self) -> (code: u16)
        ensures
            code == self.status_spec(),
            400 <= code < 600,
    {
        match self {
            ErrorKind::InvalidName => 400,
            ErrorKind::NameConflict => 409,
            ErrorKind::PayloadTooLarge => 413,
            ErrorKind::NotFound => 404,
            ErrorKind::StorageIo => 500,
        }
    }

    /// The category string that a structured error carries for this kind.
    pub fn category(self) -> (text: &'static str)
        ensures
            text@ == self.category_spec(),
    {
        match self {
            ErrorKind::InvalidName => "InvalidNameError",
            ErrorKind::NameConflict => "NameConflictError",
            ErrorKind::PayloadTooLarge => "PayloadTooLargeError",
            ErrorKind::NotFound => "NotFoundError",
            ErrorKind::StorageIo => "StorageIOError",
        }
    }

    /// The text that tells a person what went wrong.
    pub fn message(self) -> (text: &'static str)
        ensures
            text@ == self.message_spec(),
    {
        match self {
            ErrorKind::InvalidName => "the file name is missing, empty or unsafe",
            ErrorKind::NameConflict => "a file of that name is already stored",
            ErrorKind::PayloadTooLarge => "the file is larger than the configured maximum",
            ErrorKind::NotFound => "no file of that name is stored",
            ErrorKind::StorageIo => "the storage folder could not be read or written",
        }
    }

    /// The kind whose category string is `text`, if there is one.
    pub fn from_category(text: &str) -> (kind: Option<ErrorKind>)
        ensures
            match kind {
                Some(k) => text@ == k.category_spec(),
                None => forall|k: ErrorKind| text@ != #[trigger] k.category_spec(),
            },
    {
        if str_eq(text, "InvalidNameError") {
            Some(ErrorKind::InvalidName)
        } else if str_eq(text, "NameConflictError") {
            Some(ErrorKind::NameConflict)
        } else if str_eq(text, "PayloadTooLargeError") {
            Some(ErrorKind::PayloadTooLarge)
        } else if str_eq(text, "NotFoundError") {
            Some(ErrorKind::NotFound)
        } else if str_eq(text, "StorageIOError") {
            Some(ErrorKind::StorageIo)
        } else {
            None
        }
    }
}

/// Whether two strings hold the same characters.
pub fn str_eq(a: &str, b: &str) -> (same: bool)
    ensures
        same == (a@ == b@),
{
    let n = a.unicode_len();
    if n != b.unicode_len() {
        return false;
    }
    let mut same = true;
    let mut i: usize = 0;
    while i < n
        invariant
            n == a@.len(),
            n == b@.len(),
            i <= n,
            same == forall|j: int| 0 <= j < i ==> a@[j] == b@[j],
        decreases n - i,
    {
        if a.get_char(i) != b.get_char(i) {
            same = false;
        }
        i = i + 1;
    }
    proof {
        if same {
            assert(a@ =~= b@);
        }
    }
    same
}

/// Distinct kinds have distinct category strings.
pub proof fn lemma_categories_distinct(a: ErrorKind, b: ErrorKind)
    requires
        a != b,
    ensures
        a.category_spec() != b.category_spec(),
{
    reveal_strlit("InvalidNameError");
    reveal_strlit("NameConflictError");
    reveal_strlit("PayloadTooLargeError");
    reveal_strlit("NotFoundError");
    reveal_strlit("StorageIOError");
    assert(a.category_spec().len() != b.category_spec().len() || a.category_spec()[1]
        != b.category_spec()[1]);
}

/// Reading a kind back from its own category string gives that kind.
pub proof fn lemma_category_determines_kind(a: ErrorKind, b: ErrorKind)
    requires
        a.category_spec() == b.category_spec(),
    ensures
        a == b,
{
    if a != b {
        lemma_categories_distinct(a, b);
    }
}

} // verus!
