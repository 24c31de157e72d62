//! R conformance fixtures and reference values for quantile statistics.
//!
//! Each reference entry holds a probability and its Type 7 quantile computed
//! by R. Observations and reference values must be finite, and reference
//! probabilities must be unique, in ascending order, and lie in `[0, 1]`.

use vstd::prelude::*;
use vstd::string::StringSliceAdditionalSpecFns;
use vstd::utf8::encode_utf8;
use crate::binary64::{is_finite, ordinal};
use crate::quantile::{is_probability, is_valid_probability};
use crate::reference_data::r::csv::{
    bytes_equal, fixture_values, read_fixture, FixtureError, ReferenceError, COMMA,
};
use crate::text::{copy_all, lines, split, split_lines, split_on, views};

verus! {

/// A bundled R quantiles dataset.
#[derive(Debug, Clone, Copy, PartialEq, Eq, Structural)]
pub enum Dataset {
    /// Uneven tails.
    AsymmetricTail,
    /// Ordinary decimal observations.
    Baseline,
    /// Four observations with interpolation between order statistics.
    MinimumShapeSample,
    /// Repeated integer observations and quantile boundaries.
    Ties,
}

/// Path of the reference table, relative to the data directory.
pub const REFERENCES: &'static str = "r/quantiles.csv";

/// Header of the reference table.
pub const REFERENCE_HEADER: &'static str = "case,probability,value";

/// A dataset's case name in the reference table.
pub open spec fn case_name_of(dataset: Dataset) -> Seq<char> {
    match dataset {
        Dataset::AsymmetricTail => "asymmetric-tail"@,
        Dataset::Baseline => "baseline"@,
        Dataset::MinimumShapeSample => "minimum-shape-sample"@,
        Dataset::Ties => "ties"@,
    }
}

/// Path of a dataset's fixture file, relative to the data directory.
pub open spec fn fixture_path(dataset: Dataset) -> Seq<char> {
    match dataset {
        Dataset::AsymmetricTail => "fixtures/r/quantiles/asymmetric-tail.csv"@,
        Dataset::Baseline => "fixtures/r/quantiles/baseline.csv"@,
        Dataset::MinimumShapeSample => "fixtures/r/quantiles/minimum-shape-sample.csv"@,
        Dataset::Ties => "fixtures/r/quantiles/ties.csv"@,
    }
}

impl Dataset {
    /// Returns the dataset's case name in the reference table.
    pub fn case_name(self) -> (name: &'static str)
        ensures
            name@ == case_name_of(self),
    {
        match self {
            Dataset::AsymmetricTail => "asymmetric-tail",
            Dataset::Baseline => "baseline",
            Dataset::MinimumShapeSample => "minimum-shape-sample",
            Dataset::Ties => "ties",
        }
    }

    /// Returns the path of the dataset's fixture file, relative to the data
    /// directory.
    pub fn fixture(self) -> (path: &'static str)
        ensures
            path@ == fixture_path(self),
    {
        match self {
            Dataset::AsymmetricTail => "fixtures/r/quantiles/asymmetric-tail.csv",
            Dataset::Baseline => "fixtures/r/quantiles/baseline.csv",
            Dataset::MinimumShapeSample => "fixtures/r/quantiles/minimum-shape-sample.csv",
            Dataset::Ties => "fixtures/r/quantiles/ties.csv",
        }
    }
}

/// The `(probability, value)` fields of the rows that belong to `case`, in
/// table order. A row belongs to `case` when its first comma-separated field
/// is `case`; such a row must have exactly three fields.
pub open spec fn case_rows(ls: Seq<Seq<u8>>, case: Seq<u8>) -> Result<
    Seq<(Seq<u8>, Seq<u8>)>,
    ReferenceError,
>
    decreases ls.len(),
{
    if ls.len() == 0 {
        Ok(seq![])
    } else {
        let fields = split(ls[0], COMMA);
        if fields[0] != case {
            case_rows(ls.drop_first(), case)
        } else if fields.len() < 3 {
            Err(ReferenceError::MissingField)
        } else if fields.len() > 3 {
            Err(ReferenceError::ExtraField)
        } else {
            match case_rows(ls.drop_first(), case) {
                Ok(rest) => Ok(seq![(fields[1], fields[2])] + rest),
                Err(e) => Err(e),
            }
        }
    }
}

/// The entries of `case` in the reference table, as written: the table must
/// start with its header and hold at least one row of the case.
pub open spec fn reference_entries(ls: Seq<Seq<u8>>, case: Seq<u8>) -> Result<
    Seq<(Seq<u8>, Seq<u8>)>,
    ReferenceError,
> {
    if ls.len() == 0 {
        Err(ReferenceError::MissingHeader)
    } else if ls[0] != REFERENCE_HEADER.spec_bytes() {
        Err(ReferenceError::HeaderMismatch)
    } else {
        match case_rows(ls.drop_first(), case) {
            Err(e) => Err(e),
            Ok(rows) => if rows.len() == 0 {
                Err(ReferenceError::MissingCase)
            } else {
                Ok(rows)
            },
        }
    }
}

/// One reference entry of a case, as the table writes it.
pub struct EntryFields {
    /// The probability, as written.
    pub probability: Vec<u8>,
    /// The reference quantile, as written.
    pub value: Vec<u8>,
}

/// The contents of a sequence of entries.
pub open spec fn entry_views(v: Seq<EntryFields>) -> Seq<(Seq<u8>, Seq<u8>)> {
    v.map_values(|e: EntryFields| (e.probability@, e.value@))
}

/// `rows` put before the rows of `rest`, or the error of `rest`.
pub open spec fn prepend_rows(
    rows: Seq<(Seq<u8>, Seq<u8>)>,
    rest: Result<Seq<(Seq<u8>, Seq<u8>)>, ReferenceError>,
) -> Result<Seq<(Seq<u8>, Seq<u8>)>, ReferenceError> {
    match rest {
        Ok(r) => Ok(rows + r),
        Err(e) => Err(e),
    }
}

/// Why the parsed reference entries of a case are unusable.
#[derive(Debug, Clone, Copy, PartialEq, Eq, Structural)]
pub enum EntryError {
    /// A probability is not finite or lies outside `[0, 1]`.
    ProbabilityOutOfRange,
    /// A reference quantile is not finite.
    NonFiniteValue,
    /// The probabilities are not strictly ascending.
    NotAscending,
}

/// The first entry problem, entry by entry in table order: its probability,
/// then its value.
pub open spec fn row_error(probabilities: Seq<u64>, values: Seq<u64>) -> Option<EntryError>
    decreases probabilities.len(),
{
    if probabilities.len() == 0 || values.len() == 0 {
        None
    } else if !is_probability(probabilities[0]) {
        Some(EntryError::ProbabilityOutOfRange)
    } else if !is_finite(values[0]) {
        Some(EntryError::NonFiniteValue)
    } else {
        row_error(probabilities.drop_first(), values.drop_first())
    }
}

/// The probabilities are strictly ascending.
pub open spec fn strictly_ascending(probabilities: Seq<u64>) -> bool {
    forall|i: int|
        0 <= i < probabilities.len() - 1 ==> ordinal(#[trigger] probabilities[i]) < ordinal(
            probabilities[i + 1],
        )
}

/// The problem of a case's parsed entries, if any: the first bad entry, else
/// probabilities that are not strictly ascending.
pub open spec fn entries_error(probabilities: Seq<u64>, values: Seq<u64>) -> Option<EntryError> {
    match row_error(probabilities, values) {
        Some(e) => Some(e),
        None => if strictly_ascending(probabilities) {
            None
        } else {
            Some(EntryError::NotAscending)
        },
    }
}

/// Checks a case's parsed entries, given as the bit patterns of their
/// probabilities and values (see [`entries_error`]).
pub fn check_entries(probabilities: &[u64], values: &[u64]) -> (checked: Result<(), EntryError>)
    requires
        probabilities.len() == values.len(),
    ensures
        checked matches Ok(_) ==> entries_error(probabilities@, values@) is None,
        checked matches Err(e) ==> entries_error(probabilities@, values@) == Some(e),
{
    let n = probabilities.len();
    let mut i: usize = 0;
    proof {
        assert(probabilities@.subrange(0, n as int) == probabilities@);
        assert(values@.subrange(0, n as int) == values@);
    }
    while i < n
        invariant
            i <= n == probabilities.len() == values.len(),
            row_error(probabilities@, values@) == row_error(
                probabilities@.subrange(i as int, n as int),
                values@.subrange(i as int, n as int),
            ),
            forall|k: int| 0 <= k < i ==> is_probability(#[trigger] probabilities@[k]),
        decreases n - i,
    {
        proof {
            assert(probabilities@.subrange(i as int, n as int).drop_first()
                == probabilities@.subrange(i + 1, n as int));
            assert(values@.subrange(i as int, n as int).drop_first()
                == values@.subrange(i + 1, n as int));
        }
        if !is_valid_probability(probabilities[i]) {
            return Err(EntryError::ProbabilityOutOfRange);
        }
        if !crate::binary64::is_finite_bits(values[i]) {
            return Err(EntryError::NonFiniteValue);
        }
        i = i + 1;
    }
    let mut j: usize = 1;
    while j < n
        invariant
            1 <= j || n == 0,
            n == probabilities.len(),
            row_error(probabilities@, values@) is None,
            forall|k: int| 0 <= k < j - 1 && k < n - 1 ==> ordinal(#[trigger] probabilities@[k])
                < ordinal(probabilities@[k + 1]),
        decreases n - j,
    {
        if crate::binary64::ordinal_of(probabilities[j - 1]) >= crate::binary64::ordinal_of(
            probabilities[j],
        ) {
            proof {
                assert(!(ordinal(probabilities@[j - 1]) < ordinal(probabilities@[(j - 1) + 1])));
            }
            return Err(EntryError::NotAscending);
        }
        j = j + 1;
    }
    Ok(())
}

/// Reads the text of a quantiles fixture and of the reference table.
pub struct Parser {
    /// The dataset the texts belong to.
    pub dataset: Dataset,
    /// The fixture file's text.
    pub fixture: Vec<u8>,
    /// The reference table's text.
    pub references: Vec<u8>,
}

/// A fixture's observations and reference entries as the files write them.
pub struct RawReference {
    /// The dataset the files belong to.
    pub dataset: Dataset,
    /// Observations, one trimmed decimal number each.
    pub observations: Vec<Vec<u8>>,
    /// Reference entries in table order.
    pub statistics: Vec<EntryFields>,
}

/// Why a quantiles dataset could not be read.
#[derive(Debug, Clone, Copy, PartialEq, Eq, Structural)]
pub enum QuantilesError {
    /// The fixture file is malformed.
    Fixture(FixtureError),
    /// The reference table is malformed.
    Reference(ReferenceError),
}

impl Parser {
    /// Creates a parser for `dataset`'s fixture text and the reference table.
    pub fn new(dataset: Dataset, fixture: Vec<u8>, references: Vec<u8>) -> (parser: Parser)
        ensures
            parser.dataset == dataset,
            parser.fixture@ == fixture@,
            parser.references@ == references@,
    {
        Parser { dataset, fixture, references }
    }

    /// Returns the fixture's observations as written (see
    /// [`fixture_values`]).
    pub fn parse_fixture(&self) -> (values: Result<Vec<Vec<u8>>, FixtureError>)
        ensures
            values matches Ok(v) ==> fixture_values(lines(self.fixture@)) == Ok::<
                Seq<Seq<u8>>,
                FixtureError,
            >(views(v@)),
            values matches Err(e) ==> fixture_values(lines(self.fixture@)) == Err::<
                Seq<Seq<u8>>,
                FixtureError,
            >(e),
    {
        read_fixture(self.fixture.as_slice())
    }

    /// Returns the case's reference entries as written, in table order (see
    /// [`reference_entries`]).
    pub fn parse_statistics(&self) -> (entries: Result<Vec<EntryFields>, ReferenceError>)
        ensures
            entries matches Ok(v) ==> reference_entries(
                lines(self.references@),
                encode_utf8(case_name_of(self.dataset)),
            ) == Ok::<Seq<(Seq<u8>, Seq<u8>)>, ReferenceError>(entry_views(v@)),
            entries matches Err(e) ==> reference_entries(
                lines(self.references@),
                encode_utf8(case_name_of(self.dataset)),
            ) == Err::<Seq<(Seq<u8>, Seq<u8>)>, ReferenceError>(e),
    {
        let case = self.dataset.case_name().as_bytes();
        let ls = split_lines(self.references.as_slice());
        let ghost lv = views(ls@);
        if ls.len() == 0 {
            return Err(ReferenceError::MissingHeader);
        }
        proof {
            assert(lv[0] == ls@[0]@);
        }
        if !bytes_equal(ls[0].as_slice(), REFERENCE_HEADER.as_bytes()) {
            return Err(ReferenceError::HeaderMismatch);
        }
        let ghost rows = lv.drop_first();
        let mut entries: Vec<EntryFields> = Vec::new();
        let mut k: usize = 1;
        proof {
            assert(rows.subrange(0, rows.len() as int) == rows);
            assert(entry_views(entries@) =~= seq![]);
            assert(prepend_rows(seq![], case_rows(rows, case@)) == case_rows(rows, case@)) by {
                match case_rows(rows, case@) {
                    Ok(r) => {
                        assert(Seq::<(Seq<u8>, Seq<u8>)>::empty() + r =~= r);
                    },
                    Err(e) => {},
                }
            }
        }
        while k < ls.len()
            invariant
                1 <= k <= ls.len() == lv.len(),
                lv == views(ls@),
                lv == lines(self.references@),
                lv[0] == REFERENCE_HEADER.spec_bytes(),
                case@ == encode_utf8(case_name_of(self.dataset)),
                rows == lv.drop_first(),
                case_rows(rows, case@) == prepend_rows(
                    entry_views(entries@),
                    case_rows(rows.subrange(k - 1, rows.len() as int), case@),
                ),
            decreases ls.len() - k,
        {
            let ghost rest = rows.subrange(k - 1, rows.len() as int);
            let fields = split_on(ls[k].as_slice(), COMMA);
            proof {
                assert(rest[0] == ls@[k as int]@);
                assert(rest.drop_first() == rows.subrange(k as int, rows.len() as int));
                crate::text::lemma_split_nonempty(ls@[k as int]@, COMMA);
                assert(views(fields@)[0] == fields@[0]@);
                assert(split(rest[0], COMMA) == views(fields@));
            }
            if bytes_equal(fields[0].as_slice(), case) {
                if fields.len() < 3 {
                    return Err(ReferenceError::MissingField);
                }
                if fields.len() > 3 {
                    return Err(ReferenceError::ExtraField);
                }
                let entry = EntryFields {
                    probability: copy_all(fields[1].as_slice()),
                    value: copy_all(fields[2].as_slice()),
                };
                let ghost before = entry_views(entries@);
                let ghost item = (entry.probability@, entry.value@);
                entries.push(entry);
                proof {
                    assert(views(fields@)[1] == fields@[1]@);
                    assert(views(fields@)[2] == fields@[2]@);
                    assert(entry_views(entries@) =~= before.push(item));
                    let tail = case_rows(rows.subrange(k as int, rows.len() as int), case@);
                    match tail {
                        Ok(r) => {
                            assert(before + (seq![item] + r) =~= before.push(item) + r);
                        },
                        Err(e) => {},
                    }
                }
            }
            k = k + 1;
        }
        proof {
            assert(rows.subrange(k - 1, rows.len() as int).len() == 0);
            assert(entry_views(entries@) + Seq::<(Seq<u8>, Seq<u8>)>::empty() =~= entry_views(
                entries@,
            ));
        }
        if entries.len() == 0 {
            return Err(ReferenceError::MissingCase);
        }
        Ok(entries)
    }

    /// Reads the fixture and the case's reference entries.
    pub fn parse(self) -> (reference: Result<RawReference, QuantilesError>)
        ensures
            reference matches Ok(raw) ==> {
                &&& raw.dataset == self.dataset
                &&& fixture_values(lines(self.fixture@)) == Ok::<Seq<Seq<u8>>, FixtureError>(
                    views(raw.observations@),
                )
                &&& reference_entries(
                    lines(self.references@),
                    encode_utf8(case_name_of(self.dataset)),
                ) == Ok::<Seq<(Seq<u8>, Seq<u8>)>, ReferenceError>(entry_views(raw.statistics@))
            },
            reference matches Err(e) ==> match e {
                QuantilesError::Fixture(f) => fixture_values(lines(self.fixture@)) == Err::<
                    Seq<Seq<u8>>,
                    FixtureError,
                >(f),
                QuantilesError::Reference(r) => fixture_values(lines(self.fixture@)) is Ok
                    && reference_entries(
                    lines(self.references@),
                    encode_utf8(case_name_of(self.dataset)),
                ) == Err::<Seq<(Seq<u8>, Seq<u8>)>, ReferenceError>(r),
            },
    {
        let observations = match self.parse_fixture() {
            Ok(values) => values,
            Err(e) => return Err(QuantilesError::Fixture(e)),
        };
        let statistics = match self.parse_statistics() {
            Ok(entries) => entries,
            Err(e) => return Err(QuantilesError::Reference(e)),
        };
        Ok(RawReference { dataset: self.dataset, observations, statistics })
    }
}

} // verus!
