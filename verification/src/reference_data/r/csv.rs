//! The CSV layout shared by the R fixtures and reference tables.

use vstd::prelude::*;
use vstd::string::StringSliceAdditionalSpecFns;
use crate::text::{first_index_of, lines, split_lines, trim, trimmed, views};

verus! {

/// Header of a one-column fixture file.
pub const FIXTURE_HEADER: &'static str = "value";

/// Comma, the field separator.
pub const COMMA: u8 = 44;

/// Why a fixture file could not be read.
#[derive(Debug, Clone, Copy, PartialEq, Eq, Structural)]
pub enum FixtureError {
    /// The file has no lines.
    MissingHeader,
    /// The first line is not exactly `value`.
    HeaderMismatch,
    /// The file has a header and no observations.
    Empty,
}

/// Why a reference table could not be read.
#[derive(Debug, Clone, Copy, PartialEq, Eq, Structural)]
pub enum ReferenceError {
    /// The table has no lines.
    MissingHeader,
    /// The first line differs from the expected header.
    HeaderMismatch,
    /// No row belongs to the requested case.
    MissingCase,
    /// A row of the case has too few fields.
    MissingField,
    /// A row of the case has too many fields.
    ExtraField,
    /// The observation count is not an unsigned decimal number.
    InvalidCount,
}

/// The observations of a fixture, as written: after the header line `value`,
/// one trimmed value per line.
pub open spec fn fixture_values(ls: Seq<Seq<u8>>) -> Result<Seq<Seq<u8>>, FixtureError> {
    if ls.len() == 0 {
        Err(FixtureError::MissingHeader)
    } else if ls[0] != FIXTURE_HEADER.spec_bytes() {
        Err(FixtureError::HeaderMismatch)
    } else if ls.len() == 1 {
        Err(FixtureError::Empty)
    } else {
        Ok(ls.drop_first().map_values(|l: Seq<u8>| trim(l)))
    }
}

/// Returns whether two byte strings are equal.
pub fn bytes_equal(a: &[u8], b: &[u8]) -> (equal: bool)
    ensures
        equal == (a@ == b@),
{
    if a.len() != b.len() {
        return false;
    }
    let mut k: usize = 0;
    while k < a.len()
        invariant
            k <= a.len() == b.len(),
            forall|j: int| 0 <= j < k ==> a@[j] == b@[j],
        decreases a.len() - k,
    {
        if a[k] != b[k] {
            return false;
        }
        k = k + 1;
    }
    proof {
        assert(a@ =~= b@);
    }
    true
}

/// Reads the observations of a fixture file (see [`fixture_values`]).
pub fn read_fixture(text: &[u8]) -> (values: Result<Vec<Vec<u8>>, FixtureError>)
    ensures
        values matches Ok(v) ==> fixture_values(lines(text@)) == Ok::<Seq<Seq<u8>>, FixtureError>(
            views(v@),
        ),
        values matches Err(e) ==> fixture_values(lines(text@)) == Err::<Seq<Seq<u8>>, FixtureError>(
            e,
        ),
{
    let ls = split_lines(text);
    let ghost lv = views(ls@);
    if ls.len() == 0 {
        return Err(FixtureError::MissingHeader);
    }
    proof {
        assert(lv[0] == ls@[0]@);
    }
    if !bytes_equal(ls[0].as_slice(), FIXTURE_HEADER.as_bytes()) {
        return Err(FixtureError::HeaderMismatch);
    }
    if ls.len() == 1 {
        return Err(FixtureError::Empty);
    }
    let mut values: Vec<Vec<u8>> = Vec::new();
    let mut i: usize = 1;
    proof {
        assert(views(values@) =~= lv.subrange(1, 1).map_values(|l: Seq<u8>| trim(l)));
    }
    while i < ls.len()
        invariant
            1 <= i <= ls.len(),
            lv == views(ls@),
            views(values@) == lv.subrange(1, i as int).map_values(|l: Seq<u8>| trim(l)),
        decreases ls.len() - i,
    {
        let value = trimmed(ls[i].as_slice());
        let ghost before = views(values@);
        values.push(value);
        proof {
            assert(lv[i as int] == ls@[i as int]@);
            assert(views(values@) =~= before.push(value@));
            assert(lv.subrange(1, i + 1).map_values(|l: Seq<u8>| trim(l)) =~= lv.subrange(
                1,
                i as int,
            ).map_values(|l: Seq<u8>| trim(l)).push(trim(lv[i as int])));
        }
        i = i + 1;
    }
    proof {
        assert(lv.subrange(1, lv.len() as int) == lv.drop_first());
    }
    Ok(values)
}

/// Whether a row's first field, up to its first comma, is `case` (as
/// `row.split_once(',')` reads it: a row without a comma matches nothing).
pub open spec fn row_is_case(row: Seq<u8>, case: Seq<u8>) -> bool {
    let i = first_index_of(row, COMMA);
    i >= 0 && row.subrange(0, i) == case
}

/// Returns whether `row` belongs to `case` (see [`row_is_case`]).
pub fn row_belongs_to(row: &[u8], case: &[u8]) -> (belongs: bool)
    ensures
        belongs == row_is_case(row@, case@),
{
    let mut i: usize = 0;
    while i < row.len() && row[i] != COMMA
        invariant
            i <= row.len(),
            forall|k: int| 0 <= k < i ==> #[trigger] row@[k] != COMMA,
        decreases row.len() - i,
    {
        i = i + 1;
    }
    proof {
        crate::text::lemma_first_index_at(row@, COMMA, i as int);
    }
    if i == row.len() {
        return false;
    }
    let first = crate::text::copy_range(row, 0, i);
    bytes_equal(first.as_slice(), case)
}

} // verus!
