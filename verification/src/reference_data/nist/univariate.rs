//! NIST univariate Statistical Reference Datasets with certified reference
//! statistics.
//!
//! Each bundled file lists the certified statistics as `label: value` lines
//! and the observations after a `Data: Y` line and a separator of dashes.
//! References include the observation count, sample mean, sample standard
//! deviation, and lag-one autocorrelation. Reading a file checks that the
//! number of observations matches the certified count.

use vstd::prelude::*;
use vstd::string::StringSliceAdditionalSpecFns;
use crate::text::{
    decimal_count, find_field, find_field_in, lines, parse_count, split_lines, trim, trimmed,
    views,
};

verus! {

/// A bundled NIST univariate Statistical Reference Dataset.
#[derive(Debug, Clone, Copy, PartialEq, Eq, Structural)]
pub enum Dataset {
    /// `Lew` dataset.
    Lew,
    /// `Lottery` dataset.
    Lottery,
    /// `Mavro` dataset.
    Mavro,
    /// `Michelso` dataset.
    Michelso,
    /// `NumAcc1` dataset.
    NumAcc1,
    /// `NumAcc2` dataset.
    NumAcc2,
    /// `NumAcc3` dataset.
    NumAcc3,
    /// `NumAcc4` dataset.
    NumAcc4,
    /// `PiDigits` dataset.
    PiDigits,
}

/// Path of a dataset's bundled file, relative to the data directory.
pub open spec fn input_path(dataset: Dataset) -> Seq<char> {
    match dataset {
        Dataset::Lew => "nist/univariate/Lew.dat"@,
        Dataset::Lottery => "nist/univariate/Lottery.dat"@,
        Dataset::Mavro => "nist/univariate/Mavro.dat"@,
        Dataset::Michelso => "nist/univariate/Michelso.dat"@,
        Dataset::NumAcc1 => "nist/univariate/NumAcc1.dat"@,
        Dataset::NumAcc2 => "nist/univariate/NumAcc2.dat"@,
        Dataset::NumAcc3 => "nist/univariate/NumAcc3.dat"@,
        Dataset::NumAcc4 => "nist/univariate/NumAcc4.dat"@,
        Dataset::PiDigits => "nist/univariate/PiDigits.dat"@,
    }
}

impl Dataset {
    /// Returns the path of the dataset's bundled file, relative to the data
    /// directory.
    pub fn input(self) -> (path: &'static str)
        ensures
            path@ == input_path(self),
    {
        match self {
            Dataset::Lew => "nist/univariate/Lew.dat",
            Dataset::Lottery => "nist/univariate/Lottery.dat",
            Dataset::Mavro => "nist/univariate/Mavro.dat",
            Dataset::Michelso => "nist/univariate/Michelso.dat",
            Dataset::NumAcc1 => "nist/univariate/NumAcc1.dat",
            Dataset::NumAcc2 => "nist/univariate/NumAcc2.dat",
            Dataset::NumAcc3 => "nist/univariate/NumAcc3.dat",
            Dataset::NumAcc4 => "nist/univariate/NumAcc4.dat",
            Dataset::PiDigits => "nist/univariate/PiDigits.dat",
        }
    }
}

/// Label of the certified observation count.
pub const OBSERVATION_COUNT: &'static str = "Number of Observations";

/// Label of the certified sample mean.
pub const SAMPLE_MEAN: &'static str = "Sample Mean";

/// Label of the certified sample standard deviation.
pub const SAMPLE_STANDARD_DEVIATION: &'static str = "Sample Standard Deviation";

/// Label of the certified lag-one autocorrelation coefficient.
pub const SAMPLE_AUTOCORRELATION: &'static str = "Sample Autocorrelation Coefficient";

/// Start of the line that precedes the observations.
pub const DATA_MARKER: &'static str = "Data: Y";

/// Dash, the byte of the separator line.
pub const DASH: u8 = 45;

/// Why a bundled NIST file could not be read.
#[derive(Debug, Clone, Copy, PartialEq, Eq, Structural)]
pub enum NistError {
    /// No line starts with `Data: Y`.
    MissingData,
    /// The `Data: Y` line is the last line.
    MissingSeparator,
    /// The line after `Data: Y` holds something other than dashes.
    MalformedSeparator,
    /// No line offers the observation count.
    MissingObservationCount,
    /// The observation count is not an unsigned decimal number.
    InvalidObservationCount,
    /// No line offers the sample mean.
    MissingSampleMean,
    /// No line offers the sample standard deviation.
    MissingSampleStandardDeviation,
    /// No line offers the lag-one autocorrelation coefficient.
    MissingSampleAutocorrelation,
    /// The number of observations differs from the certified count.
    ObservationCountMismatch,
}

/// Index of the first line that starts with `prefix`, or `-1`.
pub open spec fn first_line_starting_with(ls: Seq<Seq<u8>>, prefix: Seq<u8>) -> int
    decreases ls.len(),
{
    if ls.len() == 0 {
        -1
    } else if prefix.is_prefix_of(ls[0]) {
        0
    } else {
        let rest = first_line_starting_with(ls.drop_first(), prefix);
        if rest < 0 {
            -1
        } else {
            rest + 1
        }
    }
}

proof fn lemma_first_line_starting_with(ls: Seq<Seq<u8>>, prefix: Seq<u8>)
    ensures
        -1 <= first_line_starting_with(ls, prefix) < ls.len(),
    decreases ls.len(),
{
    if ls.len() > 0 {
        lemma_first_line_starting_with(ls.drop_first(), prefix);
    }
}

/// Every byte of the line is a dash (an empty line qualifies).
pub open spec fn is_separator(line: Seq<u8>) -> bool {
    forall|k: int| 0 <= k < line.len() ==> #[trigger] line[k] == DASH
}

/// The trimmed lines up to the first blank one.
pub open spec fn data_values(ls: Seq<Seq<u8>>) -> Seq<Seq<u8>>
    decreases ls.len(),
{
    if ls.len() == 0 || trim(ls[0]).len() == 0 {
        seq![]
    } else {
        seq![trim(ls[0])] + data_values(ls.drop_first())
    }
}

/// The observations of a file, as written: after the first line starting with
/// `Data: Y` comes a separator line of dashes, then one observation per line
/// until the first blank line or the end.
pub open spec fn observation_values(ls: Seq<Seq<u8>>) -> Result<Seq<Seq<u8>>, NistError> {
    let k = first_line_starting_with(ls, DATA_MARKER.spec_bytes());
    if k < 0 {
        Err(NistError::MissingData)
    } else if k + 1 >= ls.len() {
        Err(NistError::MissingSeparator)
    } else if !is_separator(ls[k + 1]) {
        Err(NistError::MalformedSeparator)
    } else {
        Ok(data_values(ls.subrange(k + 2, ls.len() as int)))
    }
}

/// The first problem of a file, in the order the file is read: the
/// observations, then the certified count, mean, standard deviation and
/// autocorrelation, then the agreement of the count with the observations.
pub open spec fn reference_error(ls: Seq<Seq<u8>>) -> Option<NistError> {
    let count = find_field(ls, OBSERVATION_COUNT.spec_bytes());
    match observation_values(ls) {
        Err(e) => Some(e),
        Ok(observations) => if count is None {
            Some(NistError::MissingObservationCount)
        } else if decimal_count(count->0) is None {
            Some(NistError::InvalidObservationCount)
        } else if find_field(ls, SAMPLE_MEAN.spec_bytes()) is None {
            Some(NistError::MissingSampleMean)
        } else if find_field(ls, SAMPLE_STANDARD_DEVIATION.spec_bytes()) is None {
            Some(NistError::MissingSampleStandardDeviation)
        } else if find_field(ls, SAMPLE_AUTOCORRELATION.spec_bytes()) is None {
            Some(NistError::MissingSampleAutocorrelation)
        } else if observations.len() != decimal_count(count->0)->0 {
            Some(NistError::ObservationCountMismatch)
        } else {
            None
        }
    }
}

/// A dataset's observations and certified statistics as its file writes them.
pub struct RawReference {
    /// The dataset the file belongs to.
    pub dataset: Dataset,
    /// Observations, one trimmed decimal number each.
    pub observations: Vec<Vec<u8>>,
    /// Certified number of observations.
    pub n: usize,
    /// Certified sample mean, as written.
    pub sample_mean: Vec<u8>,
    /// Certified sample standard deviation, as written.
    pub sample_standard_deviation: Vec<u8>,
    /// Certified lag-one autocorrelation coefficient, as written.
    pub sample_lag1_autocorrelation: Vec<u8>,
}

/// Reads the text of a bundled NIST file.
pub struct Parser {
    /// The dataset the text belongs to.
    pub dataset: Dataset,
    /// The file's text.
    pub text: Vec<u8>,
}

impl Parser {
    /// Creates a parser for the text of `dataset`'s file.
    pub fn new(dataset: Dataset, text: Vec<u8>) -> (parser: Parser)
        ensures
            parser.dataset == dataset,
            parser.text@ == text@,
    {
        Parser { dataset, text }
    }

    /// Returns the value offered for `label` by the first `label: value` line
    /// that offers one, or `None` when no line does.
    pub fn field(&self, label: &str) -> (value: Option<Vec<u8>>)
        ensures
            value is Some <==> find_field(lines(self.text@), label.spec_bytes()) is Some,
            value matches Some(v) ==> find_field(lines(self.text@), label.spec_bytes()) == Some(v@),
    {
        let ls = split_lines(self.text.as_slice());
        find_field_in(&ls, label.as_bytes())
    }

    /// Returns the observations as written (see [`observation_values`]).
    pub fn observations(&self) -> (values: Result<Vec<Vec<u8>>, NistError>)
        ensures
            values matches Ok(v) ==> observation_values(lines(self.text@)) == Ok::<
                Seq<Seq<u8>>,
                NistError,
            >(views(v@)),
            values matches Err(e) ==> observation_values(lines(self.text@)) == Err::<
                Seq<Seq<u8>>,
                NistError,
            >(e),
    {
        let ls = split_lines(self.text.as_slice());
        let ghost lv = views(ls@);
        let marker = DATA_MARKER.as_bytes();
        let n = ls.len();
        let mut k: usize = 0;
        proof {
            assert(lv.subrange(0, n as int) == lv);
        }
        while k < n && !crate::text::starts_with(ls[k].as_slice(), 0, ls[k].len(), marker)
            invariant
                k <= n == ls.len(),
                lv == views(ls@),
                marker@ == DATA_MARKER.spec_bytes(),
                first_line_starting_with(lv, marker@) == (if first_line_starting_with(
                    lv.subrange(k as int, n as int),
                    marker@,
                ) < 0 {
                    -1
                } else {
                    first_line_starting_with(lv.subrange(k as int, n as int), marker@) + k
                }),
            decreases n - k,
        {
            proof {
                let rest = lv.subrange(k as int, n as int);
                assert(rest[0] == ls@[k as int]@);
                assert(ls@[k as int]@.subrange(0, ls@[k as int]@.len() as int) == ls@[k as int]@);
                assert(rest.drop_first() == lv.subrange(k + 1, n as int));
            }
            k = k + 1;
        }
        proof {
            lemma_first_line_starting_with(lv, marker@);
            if k < n {
                let rest = lv.subrange(k as int, n as int);
                assert(rest[0] == ls@[k as int]@);
                assert(ls@[k as int]@.subrange(0, ls@[k as int]@.len() as int) == ls@[k as int]@);
            }
        }
        if k == n {
            return Err(NistError::MissingData);
        }
        if k + 1 == n {
            return Err(NistError::MissingSeparator);
        }
        proof {
            assert(first_line_starting_with(lv, DATA_MARKER.spec_bytes()) == k);
        }
        let separator = &ls[k + 1];
        let mut j: usize = 0;
        while j < separator.len()
            invariant
                j <= separator.len(),
                k + 1 < n == ls.len() == lv.len(),
                lv == views(ls@),
                lv == lines(self.text@),
                first_line_starting_with(lv, DATA_MARKER.spec_bytes()) == k,
                separator@ == lv[k + 1],
                forall|i: int| 0 <= i < j ==> #[trigger] separator@[i] == DASH,
            decreases separator.len() - j,
        {
            if separator[j] != DASH {
                proof {
                    assert(lv[k + 1] == separator@);
                    assert(!is_separator(lv[k + 1]));
                }
                return Err(NistError::MalformedSeparator);
            }
            j = j + 1;
        }
        proof {
            assert(lv[k + 1] == separator@);
            assert(is_separator(lv[k + 1]));
        }
        let mut values: Vec<Vec<u8>> = Vec::new();
        let mut i = k + 2;
        proof {
            assert(views(values@) =~= seq![]);
        }
        loop
            invariant
                k + 2 <= i <= n == ls.len(),
                lv == views(ls@),
                lv == lines(self.text@),
                first_line_starting_with(lv, DATA_MARKER.spec_bytes()) == k,
                is_separator(lv[k + 1]),
                data_values(lv.subrange(k + 2, n as int))
                    == views(values@) + data_values(lv.subrange(i as int, n as int)),
            ensures
                lv == lines(self.text@),
                first_line_starting_with(lv, DATA_MARKER.spec_bytes()) == k,
                is_separator(lv[k + 1]),
                data_values(lv.subrange(k + 2, n as int)) == views(values@),
            decreases n - i,
        {
            if i == n {
                proof {
                    assert(views(values@) + seq![] == views(values@));
                }
                break;
            }
            let value = trimmed(ls[i].as_slice());
            let ghost rest = lv.subrange(i as int, n as int);
            proof {
                assert(rest[0] == ls@[i as int]@);
                assert(rest.drop_first() == lv.subrange(i + 1, n as int));
            }
            if value.len() == 0 {
                proof {
                    assert(views(values@) + seq![] == views(values@));
                }
                break;
            }
            let ghost before = views(values@);
            values.push(value);
            proof {
                assert(views(values@) =~= before.push(value@));
                assert(before + data_values(rest) == views(values@) + data_values(
                    lv.subrange(i + 1, n as int),
                ));
            }
            i = i + 1;
        }
        Ok(values)
    }

    /// Reads the observations and the certified statistics, and checks that
    /// the number of observations matches the certified count.
    pub fn parse(self) -> (reference: Result<RawReference, NistError>)
        ensures
            reference matches Err(e) ==> reference_error(lines(self.text@)) == Some(e),
            reference matches Ok(raw) ==> {
                let ls = lines(self.text@);
                &&& reference_error(ls) is None
                &&& raw.dataset == self.dataset
                &&& observation_values(ls) == Ok::<Seq<Seq<u8>>, NistError>(views(raw.observations@))
                &&& decimal_count(find_field(ls, OBSERVATION_COUNT.spec_bytes())->0) == Some(raw.n as nat)
                &&& find_field(ls, SAMPLE_MEAN.spec_bytes()) == Some(raw.sample_mean@)
                &&& find_field(ls, SAMPLE_STANDARD_DEVIATION.spec_bytes()) == Some(
                    raw.sample_standard_deviation@,
                )
                &&& find_field(ls, SAMPLE_AUTOCORRELATION.spec_bytes()) == Some(
                    raw.sample_lag1_autocorrelation@,
                )
                &&& raw.observations.len() == raw.n
            },
    {
        let observations = match self.observations() {
            Ok(values) => values,
            Err(e) => return Err(e),
        };
        let count = match self.field(OBSERVATION_COUNT) {
            Some(token) => token,
            None => return Err(NistError::MissingObservationCount),
        };
        let n = match parse_count(count.as_slice()) {
            Some(n) => n,
            None => return Err(NistError::InvalidObservationCount),
        };
        let sample_mean = match self.field(SAMPLE_MEAN) {
            Some(token) => token,
            None => return Err(NistError::MissingSampleMean),
        };
        let sample_standard_deviation = match self.field(SAMPLE_STANDARD_DEVIATION) {
            Some(token) => token,
            None => return Err(NistError::MissingSampleStandardDeviation),
        };
        let sample_lag1_autocorrelation = match self.field(SAMPLE_AUTOCORRELATION) {
            Some(token) => token,
            None => return Err(NistError::MissingSampleAutocorrelation),
        };
        if observations.len() != n {
            return Err(NistError::ObservationCountMismatch);
        }
        Ok(
            RawReference {
                dataset: self.dataset,
                observations,
                n,
                sample_mean,
                sample_standard_deviation,
                sample_lag1_autocorrelation,
            },
        )
    }
}

} // verus!
