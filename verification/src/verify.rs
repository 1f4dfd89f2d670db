//! Judging a file by what is expected of it.

use crate::text;
use vstd::prelude::*;

verus! {

/// What is wrong with a file.
#[derive(Clone, Copy, PartialEq, Eq, Structural, Debug)]
pub enum IssueKind {
    Missing,
    SizeMismatch,
    Md5Mismatch,
}

impl IssueKind {
    pub open spec fn text(self) -> Seq<char> {
        match self {
            IssueKind::Missing => "Missing"@,
            IssueKind::SizeMismatch => "SizeMismatch"@,
            IssueKind::Md5Mismatch => "Md5Mismatch"@,
        }
    }

    /// The name of the issue.
    pub fn name(self) -> (name: &'static str)
        ensures
            name@ == self.text(),
    {
        match self {
            IssueKind::Missing => "Missing",
            IssueKind::SizeMismatch => "SizeMismatch",
            IssueKind::Md5Mismatch => "Md5Mismatch",
        }
    }
}

/// A file as it was found: its size, and its digest where it was read.
pub struct Observed {
    pub size: u64,
    pub md5: String,
}

/// What is wrong with a file, judged by its size first and then by its digest.
pub open spec fn issue(
    observed: Option<Observed>,
    expected_md5: Seq<char>,
    expected_size: Option<u64>,
) -> Option<IssueKind> {
    match observed {
        None => Some(IssueKind::Missing),
        Some(file) => if expected_size is Some && expected_size->0 != file.size {
            Some(IssueKind::SizeMismatch)
        } else if text::lowered(file.md5@) != text::lowered(expected_md5) {
            Some(IssueKind::Md5Mismatch)
        } else {
            None
        },
    }
}

/// What is wrong with a file, if anything is.
pub fn build_issue(
    observed: &Option<Observed>,
    expected_md5: &str,
    expected_size: Option<u64>,
) -> (found: Option<IssueKind>)
    ensures
        found == issue(*observed, expected_md5@, expected_size),
{
    match observed {
        None => Some(IssueKind::Missing),
        Some(file) => {
            if let Some(size) = expected_size {
                if size != file.size {
                    return Some(IssueKind::SizeMismatch);
                }
            }
            if !text::same_ignoring_case(file.md5.as_str(), expected_md5) {
                return Some(IssueKind::Md5Mismatch);
            }
            None
        },
    }
}

} // verus!
