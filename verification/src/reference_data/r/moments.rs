//! R conformance fixtures and reference values for moment statistics.
//!
//! References cover the arithmetic mean, the sample variance with denominator
//! `n - 1`, and `e1071` Type-2 skewness and excess kurtosis. Each fixture has
//! exactly one row in the reference table, keyed by its case name.

use vstd::prelude::*;
use vstd::string::StringSliceAdditionalSpecFns;
use crate::reference_data::r::csv::{
    bytes_equal, fixture_values, read_fixture, row_belongs_to, row_is_case, FixtureError,
    ReferenceError, COMMA,
};
use vstd::utf8::encode_utf8;
use crate::text::{copy_all, decimal_count, lines, parse_count, split, split_lines, split_on, views};

verus! {

/// A bundled R moments dataset.
#[derive(Debug, Clone, Copy, PartialEq, Eq, Structural)]
pub enum Dataset {
    /// Uneven tails.
    AsymmetricTail,
    /// Ordinary decimal observations.
    Baseline,
    /// Four observations and small-sample corrections.
    MinimumShapeSample,
    /// Zero skewness.
    Symmetric,
    /// Repeated integer observations and quantile boundaries.
    Ties,
}

/// Path of the reference table, relative to the data directory.
pub const REFERENCES: &'static str = "r/moments.csv";

/// Header of the reference table.
pub const REFERENCE_HEADER: &'static str = "case,n,mean,variance,skewness,excess_kurtosis";

/// A dataset's case name in the reference table.
pub open spec fn case_name_of(dataset: Dataset) -> Seq<char> {
    match dataset {
        Dataset::AsymmetricTail => "asymmetric-tail"@,
        Dataset::Baseline => "baseline"@,
        Dataset::MinimumShapeSample => "minimum-shape-sample"@,
        Dataset::Symmetric => "symmetric"@,
        Dataset::Ties => "ties"@,
    }
}

/// Path of a dataset's fixture file, relative to the data directory.
pub open spec fn fixture_path(dataset: Dataset) -> Seq<char> {
    match dataset {
        Dataset::AsymmetricTail => "fixtures/r/moments/asymmetric-tail.csv"@,
        Dataset::Baseline => "fixtures/r/moments/baseline.csv"@,
        Dataset::MinimumShapeSample => "fixtures/r/moments/minimum-shape-sample.csv"@,
        Dataset::Symmetric => "fixtures/r/moments/symmetric.csv"@,
        Dataset::Ties => "fixtures/r/moments/ties.csv"@,
    }
}

impl Dataset {
    /// Returns the dataset's case name in the reference table.
    pub fn case_name(self) -> (name: &'static str)
        ensures
            name@ == case_name_of(self),
    {
        match self {
            Dataset::AsymmetricTail => "asymmetric-tail",
            Dataset::Baseline => "baseline",
            Dataset::MinimumShapeSample => "minimum-shape-sample",
            Dataset::Symmetric => "symmetric",
            Dataset::Ties => "ties",
        }
    }

    /// Returns the path of the dataset's fixture file, relative to the data
    /// directory.
    pub fn fixture(self) -> (path: &'static str)
        ensures
            path@ == fixture_path(self),
    {
        match self {
            Dataset::AsymmetricTail => "fixtures/r/moments/asymmetric-tail.csv",
            Dataset::Baseline => "fixtures/r/moments/baseline.csv",
            Dataset::MinimumShapeSample => "fixtures/r/moments/minimum-shape-sample.csv",
            Dataset::Symmetric => "fixtures/r/moments/symmetric.csv",
            Dataset::Ties => "fixtures/r/moments/ties.csv",
        }
    }
}

/// Index of the first line that belongs to `case`, or `-1`.
pub open spec fn first_row_of(ls: Seq<Seq<u8>>, case: Seq<u8>) -> int
    decreases ls.len(),
{
    if ls.len() == 0 {
        -1
    } else if row_is_case(ls[0], case) {
        0
    } else {
        let rest = first_row_of(ls.drop_first(), case);
        if rest < 0 {
            -1
        } else {
            rest + 1
        }
    }
}

proof fn lemma_first_row_of(ls: Seq<Seq<u8>>, case: Seq<u8>)
    ensures
        -1 <= first_row_of(ls, case) < ls.len(),
    decreases ls.len(),
{
    if ls.len() > 0 {
        lemma_first_row_of(ls.drop_first(), case);
    }
}

/// The fields of the case's row in the reference table, as written, in the
/// order `case, n, mean, variance, skewness, excess_kurtosis`: the table must
/// start with its header, the first row whose first field is the case is
/// taken, the count must be an unsigned decimal number, and the row must have
/// exactly six fields.
pub open spec fn statistic_fields(ls: Seq<Seq<u8>>, case: Seq<u8>) -> Result<
    Seq<Seq<u8>>,
    ReferenceError,
> {
    if ls.len() == 0 {
        Err(ReferenceError::MissingHeader)
    } else if ls[0] != REFERENCE_HEADER.spec_bytes() {
        Err(ReferenceError::HeaderMismatch)
    } else {
        let k = first_row_of(ls.drop_first(), case);
        if k < 0 {
            Err(ReferenceError::MissingCase)
        } else {
            let fields = split(ls[k + 1], COMMA);
            if fields.len() < 2 {
                Err(ReferenceError::MissingField)
            } else if decimal_count(fields[1]) is None {
                Err(ReferenceError::InvalidCount)
            } else if fields.len() < 6 {
                Err(ReferenceError::MissingField)
            } else if fields.len() > 6 {
                Err(ReferenceError::ExtraField)
            } else {
                Ok(fields)
            }
        }
    }
}

/// The reference statistics of one case, as the table writes them.
pub struct StatisticFields {
    /// Number of observations.
    pub n: usize,
    /// Arithmetic mean.
    pub mean: Vec<u8>,
    /// Sample variance with denominator `n - 1`.
    pub variance: Vec<u8>,
    /// Adjusted sample skewness (e1071 Type 2).
    pub skewness: Vec<u8>,
    /// Adjusted excess kurtosis (e1071 Type 2).
    pub excess_kurtosis: Vec<u8>,
}

/// A fixture's observations and reference statistics as the files write them.
pub struct RawReference {
    /// The dataset the files belong to.
    pub dataset: Dataset,
    /// Observations, one trimmed decimal number each.
    pub observations: Vec<Vec<u8>>,
    /// Reference statistics.
    pub statistics: StatisticFields,
}

/// Why a moments dataset could not be read.
#[derive(Debug, Clone, Copy, PartialEq, Eq, Structural)]
pub enum MomentsError {
    /// The fixture file is malformed.
    Fixture(FixtureError),
    /// The reference table is malformed.
    Reference(ReferenceError),
    /// The fixture's observation count differs from the reference count.
    CountMismatch,
}

/// Reads the text of a moments fixture and of the reference table.
pub struct Parser {
    /// The dataset the texts belong to.
    pub dataset: Dataset,
    /// The fixture file's text.
    pub fixture: Vec<u8>,
    /// The reference table's text.
    pub references: Vec<u8>,
}

impl Parser {
    /// Creates a parser for `dataset`'s fixture text and the reference table.
    pub fn new(dataset: Dataset, fixture: Vec<u8>, references: Vec<u8>) -> (parser: Parser)
        ensures
            parser.dataset == dataset,
            parser.fixture@ == fixture@,
            parser.references@ == references@,
    {
        Parser { dataset, fixture, references }
    }

    /// Returns the fixture's observations as written (see
    /// [`fixture_values`]).
    pub fn parse_fixture(&self) -> (values: Result<Vec<Vec<u8>>, FixtureError>)
        ensures
            values matches Ok(v) ==> fixture_values(lines(self.fixture@)) == Ok::<
                Seq<Seq<u8>>,
                FixtureError,
            >(views(v@)),
            values matches Err(e) ==> fixture_values(lines(self.fixture@)) == Err::<
                Seq<Seq<u8>>,
                FixtureError,
            >(e),
    {
        read_fixture(self.fixture.as_slice())
    }

    /// Returns the case's reference statistics as written (see
    /// [`statistic_fields`]).
    pub fn parse_statistics(&self) -> (statistics: Result<StatisticFields, ReferenceError>)
        ensures
            statistics matches Err(e) ==> statistic_fields(
                lines(self.references@),
                encode_utf8(case_name_of(self.dataset)),
            ) == Err::<Seq<Seq<u8>>, ReferenceError>(e),
            statistics matches Ok(stats) ==> {
                let fields = statistic_fields(
                    lines(self.references@),
                    encode_utf8(case_name_of(self.dataset)),
                );
                &&& fields is Ok
                &&& decimal_count(fields->Ok_0[1]) == Some(stats.n as nat)
                &&& fields->Ok_0[2] == stats.mean@
                &&& fields->Ok_0[3] == stats.variance@
                &&& fields->Ok_0[4] == stats.skewness@
                &&& fields->Ok_0[5] == stats.excess_kurtosis@
            },
    {
        let case = self.dataset.case_name().as_bytes();
        let ls = split_lines(self.references.as_slice());
        let ghost lv = views(ls@);
        if ls.len() == 0 {
            return Err(ReferenceError::MissingHeader);
        }
        proof {
            assert(lv[0] == ls@[0]@);
        }
        if !bytes_equal(ls[0].as_slice(), REFERENCE_HEADER.as_bytes()) {
            return Err(ReferenceError::HeaderMismatch);
        }
        let ghost rows = lv.drop_first();
        let mut k: usize = 1;
        proof {
            assert(rows.subrange(0, rows.len() as int) == rows);
        }
        while k < ls.len() && !row_belongs_to(ls[k].as_slice(), case)
            invariant
                1 <= k <= ls.len() == lv.len(),
                lv == views(ls@),
                rows == lv.drop_first(),
                first_row_of(rows, case@) == (if first_row_of(
                    rows.subrange(k - 1, rows.len() as int),
                    case@,
                ) < 0 {
                    -1
                } else {
                    first_row_of(rows.subrange(k - 1, rows.len() as int), case@) + k - 1
                }),
            decreases ls.len() - k,
        {
            proof {
                let rest = rows.subrange(k - 1, rows.len() as int);
                assert(rest[0] == ls@[k as int]@);
                assert(rest.drop_first() == rows.subrange(k as int, rows.len() as int));
            }
            k = k + 1;
        }
        proof {
            lemma_first_row_of(rows, case@);
            if k < ls.len() {
                let rest = rows.subrange(k - 1, rows.len() as int);
                assert(rest[0] == ls@[k as int]@);
            }
        }
        if k == ls.len() {
            return Err(ReferenceError::MissingCase);
        }
        let fields = split_on(ls[k].as_slice(), COMMA);
        proof {
            assert(first_row_of(rows, case@) == k - 1);
            assert(lv[k as int] == ls@[k as int]@);
        }
        if fields.len() < 2 {
            return Err(ReferenceError::MissingField);
        }
        proof {
            assert(views(fields@)[1] == fields@[1]@);
        }
        let n = match parse_count(fields[1].as_slice()) {
            Some(n) => n,
            None => return Err(ReferenceError::InvalidCount),
        };
        if fields.len() < 6 {
            return Err(ReferenceError::MissingField);
        }
        if fields.len() > 6 {
            return Err(ReferenceError::ExtraField);
        }
        let mean = copy_all(fields[2].as_slice());
        let variance = copy_all(fields[3].as_slice());
        let skewness = copy_all(fields[4].as_slice());
        let excess_kurtosis = copy_all(fields[5].as_slice());
        proof {
            assert(views(fields@)[2] == fields@[2]@);
            assert(views(fields@)[3] == fields@[3]@);
            assert(views(fields@)[4] == fields@[4]@);
            assert(views(fields@)[5] == fields@[5]@);
        }
        Ok(StatisticFields { n, mean, variance, skewness, excess_kurtosis })
    }

    /// Reads the fixture and the case's reference statistics, and checks that
    /// the number of observations matches the reference count.
    pub fn parse(self) -> (reference: Result<RawReference, MomentsError>)
        ensures
            reference matches Ok(raw) ==> {
                &&& raw.dataset == self.dataset
                &&& fixture_values(lines(self.fixture@)) == Ok::<Seq<Seq<u8>>, FixtureError>(
                    views(raw.observations@),
                )
                &&& statistic_fields(
                    lines(self.references@),
                    encode_utf8(case_name_of(self.dataset)),
                ) is Ok
                &&& {
                    let fields = statistic_fields(
                        lines(self.references@),
                        encode_utf8(case_name_of(self.dataset)),
                    )->Ok_0;
                    &&& decimal_count(fields[1]) == Some(raw.statistics.n as nat)
                    &&& fields[2] == raw.statistics.mean@
                    &&& fields[3] == raw.statistics.variance@
                    &&& fields[4] == raw.statistics.skewness@
                    &&& fields[5] == raw.statistics.excess_kurtosis@
                }
                &&& raw.observations.len() == raw.statistics.n
            },
            reference matches Err(e) ==> match e {
                MomentsError::Fixture(f) => fixture_values(lines(self.fixture@)) == Err::<
                    Seq<Seq<u8>>,
                    FixtureError,
                >(f),
                MomentsError::Reference(r) => fixture_values(lines(self.fixture@)) is Ok
                    && statistic_fields(
                    lines(self.references@),
                    encode_utf8(case_name_of(self.dataset)),
                ) == Err::<Seq<Seq<u8>>, ReferenceError>(r),
                MomentsError::CountMismatch => {
                    let fields = statistic_fields(
                        lines(self.references@),
                        encode_utf8(case_name_of(self.dataset)),
                    );
                    &&& fixture_values(lines(self.fixture@)) is Ok
                    &&& fields is Ok
                    &&& decimal_count(fields->Ok_0[1]) != Some(
                        fixture_values(lines(self.fixture@))->Ok_0.len(),
                    )
                },
            },
    {
        let observations = match self.parse_fixture() {
            Ok(values) => values,
            Err(e) => return Err(MomentsError::Fixture(e)),
        };
        let statistics = match self.parse_statistics() {
            Ok(stats) => stats,
            Err(e) => return Err(MomentsError::Reference(e)),
        };
        if observations.len() != statistics.n {
            return Err(MomentsError::CountMismatch);
        }
        Ok(RawReference { dataset: self.dataset, observations, statistics })
    }
}

} // verus!
