use unrvl::reference_data::nist::univariate::{
    self as nist, NistError, OBSERVATION_COUNT, SAMPLE_AUTOCORRELATION, SAMPLE_MEAN,
    SAMPLE_STANDARD_DEVIATION,
};
use unrvl::reference_data::r::csv::{FixtureError, ReferenceError};
use unrvl::reference_data::r::moments::{self, MomentsError};
use unrvl::reference_data::r::quantiles::{self, EntryError, QuantilesError};

const NIST_TEXT: &str = "Dataset Name:  Tiny (Tiny.dat)\r
Certified Values:\r
   Sample Mean                               ybar:   2.00000000000000\r
   Sample Standard Deviation (denom. = n-1)     s:   1.00000000000000\r
   Sample Autocorrelation Coefficient (lag 1) r(1):  -0.250000000000000\r
\r
Number of Observations:                 3\r
Data: Y\r
-----------\r
  1\r
  2\r
  3\r
";

fn text(s: &str) -> String {
    String::from_utf8(s.as_bytes().to_vec()).unwrap()
}

fn owned(tokens: &[Vec<u8>]) -> Vec<String> {
    tokens.iter().map(|t| String::from_utf8(t.clone()).unwrap()).collect()
}

fn nist_parser(s: &str) -> nist::Parser {
    nist::Parser::new(nist::Dataset::Lew, s.as_bytes().to_vec())
}

#[test]
fn nist_datasets_name_their_bundled_files() {
    assert_eq!(nist::Dataset::Lew.input(), "nist/univariate/Lew.dat");
    assert_eq!(nist::Dataset::PiDigits.input(), "nist/univariate/PiDigits.dat");
    assert_eq!(nist::Dataset::NumAcc3.input(), "nist/univariate/NumAcc3.dat");
}

#[test]
fn nist_fields_are_read_after_the_last_colon() {
    let parser = nist_parser(NIST_TEXT);
    assert_eq!(parser.field(SAMPLE_MEAN), Some(b"2.00000000000000".to_vec()));
    assert_eq!(parser.field(SAMPLE_STANDARD_DEVIATION), Some(b"1.00000000000000".to_vec()));
    assert_eq!(parser.field(SAMPLE_AUTOCORRELATION), Some(b"-0.250000000000000".to_vec()));
    assert_eq!(parser.field(OBSERVATION_COUNT), Some(b"3".to_vec()));
    assert_eq!(parser.field("Sample Median"), None);
}

#[test]
fn nist_field_skips_lines_without_a_value() {
    let parser = nist_parser("Sample Mean:\nSample Mean ybar: \t  \nSample Mean: 5 6\n");
    assert_eq!(parser.field(SAMPLE_MEAN), Some(b"5".to_vec()));
}

#[test]
fn nist_observations_follow_the_separator() {
    let parser = nist_parser(NIST_TEXT);
    let values = parser.observations().unwrap();
    assert_eq!(owned(&values), vec!["1", "2", "3"]);
}

#[test]
fn nist_observations_stop_at_a_blank_line() {
    let parser = nist_parser("Data: Y\n---\n 4 \n5\n   \n6\n");
    assert_eq!(owned(&parser.observations().unwrap()), vec!["4", "5"]);
}

#[test]
fn nist_structural_errors_are_reported() {
    assert_eq!(nist_parser("no data here\n").observations().err(), Some(NistError::MissingData));
    assert_eq!(nist_parser("Data: Y").observations().err(), Some(NistError::MissingSeparator));
    assert_eq!(nist_parser("Data: Y\n--x--\n1\n").observations().err(), Some(NistError::MalformedSeparator));
}

#[test]
fn nist_parse_reads_a_whole_file() {
    let raw = nist_parser(NIST_TEXT).parse().ok().unwrap();
    assert_eq!(raw.dataset, nist::Dataset::Lew);
    assert_eq!(raw.n, 3);
    assert_eq!(owned(&raw.observations), vec!["1", "2", "3"]);
    assert_eq!(raw.sample_mean, b"2.00000000000000".to_vec());
    assert_eq!(raw.sample_standard_deviation, b"1.00000000000000".to_vec());
    assert_eq!(raw.sample_lag1_autocorrelation, b"-0.250000000000000".to_vec());
}

#[test]
fn nist_parse_checks_the_certified_count() {
    let short = NIST_TEXT.replace("  2\r\n  3\r\n", "  2\r\n");
    assert_eq!(nist_parser(&short).parse().err(), Some(NistError::ObservationCountMismatch));

    let bad_count = NIST_TEXT.replace("Observations:                 3", "Observations: three");
    assert_eq!(nist_parser(&bad_count).parse().err(), Some(NistError::InvalidObservationCount));

    let no_mean = NIST_TEXT.replace("Sample Mean", "Average");
    assert_eq!(nist_parser(&no_mean).parse().err(), Some(NistError::MissingSampleMean));
}

const MOMENTS_REFERENCES: &str = "case,n,mean,variance,skewness,excess_kurtosis
baseline,3,2,1,0,-1.5
ties,4,1.5,0.3333333333333333,0,-6
";

fn moments_parser(dataset: moments::Dataset, fixture: &str, references: &str) -> moments::Parser {
    moments::Parser::new(dataset, fixture.as_bytes().to_vec(), references.as_bytes().to_vec())
}

#[test]
fn moments_datasets_name_their_cases_and_fixtures() {
    assert_eq!(moments::Dataset::AsymmetricTail.case_name(), "asymmetric-tail");
    assert_eq!(moments::Dataset::MinimumShapeSample.case_name(), "minimum-shape-sample");
    assert_eq!(moments::Dataset::Symmetric.case_name(), "symmetric");
    assert_eq!(moments::Dataset::Ties.fixture(), "fixtures/r/moments/ties.csv");
    assert_eq!(moments::REFERENCES, "r/moments.csv");
}

#[test]
fn moments_fixture_values_are_trimmed() {
    let parser = moments_parser(moments::Dataset::Baseline, "value\r\n 1 \r\n2.5\n3\n", "");
    assert_eq!(owned(&parser.parse_fixture().unwrap()), vec!["1", "2.5", "3"]);
}

#[test]
fn moments_fixture_errors_are_reported() {
    let empty = moments_parser(moments::Dataset::Baseline, "", "");
    assert_eq!(empty.parse_fixture().err(), Some(FixtureError::MissingHeader));
    let wrong = moments_parser(moments::Dataset::Baseline, "x\n1\n", "");
    assert_eq!(wrong.parse_fixture().err(), Some(FixtureError::HeaderMismatch));
    let no_values = moments_parser(moments::Dataset::Baseline, "value\n", "");
    assert_eq!(no_values.parse_fixture().err(), Some(FixtureError::Empty));
}

#[test]
fn moments_statistics_come_from_the_case_row() {
    let parser = moments_parser(moments::Dataset::Ties, "value\n1\n", MOMENTS_REFERENCES);
    let stats = parser.parse_statistics().ok().unwrap();
    assert_eq!(stats.n, 4);
    assert_eq!(stats.mean, b"1.5".to_vec());
    assert_eq!(stats.variance, b"0.3333333333333333".to_vec());
    assert_eq!(stats.skewness, b"0".to_vec());
    assert_eq!(stats.excess_kurtosis, b"-6".to_vec());
}

#[test]
fn moments_reference_errors_are_reported() {
    let missing = moments_parser(moments::Dataset::Symmetric, "", MOMENTS_REFERENCES);
    assert_eq!(missing.parse_statistics().err(), Some(ReferenceError::MissingCase));

    let header = moments_parser(moments::Dataset::Ties, "", "case,n\nties,1,1,1,1,1\n");
    assert_eq!(header.parse_statistics().err(), Some(ReferenceError::HeaderMismatch));

    let short = MOMENTS_REFERENCES.replace("ties,4,1.5,", "ties,4,");
    let parser = moments_parser(moments::Dataset::Ties, "", &short);
    assert_eq!(parser.parse_statistics().err(), Some(ReferenceError::MissingField));

    let long = MOMENTS_REFERENCES.replace("-6", "-6,7");
    let parser = moments_parser(moments::Dataset::Ties, "", &long);
    assert_eq!(parser.parse_statistics().err(), Some(ReferenceError::ExtraField));

    let count = MOMENTS_REFERENCES.replace("ties,4", "ties,-4");
    let parser = moments_parser(moments::Dataset::Ties, "", &count);
    assert_eq!(parser.parse_statistics().err(), Some(ReferenceError::InvalidCount));
}

#[test]
fn moments_parse_checks_the_count() {
    let ok = moments_parser(moments::Dataset::Baseline, "value\n1\n2\n3\n", MOMENTS_REFERENCES);
    let raw = ok.parse().ok().unwrap();
    assert_eq!(raw.statistics.n, 3);
    assert_eq!(owned(&raw.observations), vec!["1", "2", "3"]);

    let mismatch = moments_parser(moments::Dataset::Baseline, "value\n1\n2\n", MOMENTS_REFERENCES);
    assert_eq!(mismatch.parse().err(), Some(MomentsError::CountMismatch));
}

const QUANTILE_REFERENCES: &str = "case,probability,value
baseline,0,1
ties,0,2
baseline,0.5,2
ties,1,5
baseline,1,3
";

fn quantiles_parser(dataset: quantiles::Dataset, fixture: &str, references: &str) -> quantiles::Parser {
    quantiles::Parser::new(dataset, fixture.as_bytes().to_vec(), references.as_bytes().to_vec())
}

#[test]
fn quantiles_datasets_name_their_cases_and_fixtures() {
    assert_eq!(quantiles::Dataset::Baseline.case_name(), "baseline");
    assert_eq!(quantiles::Dataset::Ties.case_name(), "ties");
    assert_eq!(
        quantiles::Dataset::MinimumShapeSample.fixture(),
        "fixtures/r/quantiles/minimum-shape-sample.csv"
    );
    assert_eq!(quantiles::REFERENCES, "r/quantiles.csv");
}

#[test]
fn quantile_entries_keep_table_order() {
    let parser = quantiles_parser(quantiles::Dataset::Baseline, "value\n1\n", QUANTILE_REFERENCES);
    let entries = parser.parse_statistics().ok().unwrap();
    let pairs: Vec<(String, String)> = entries
        .iter()
        .map(|e| (text(std::str::from_utf8(&e.probability).unwrap()), text(std::str::from_utf8(&e.value).unwrap())))
        .collect();
    assert_eq!(
        pairs,
        vec![
            ("0".to_string(), "1".to_string()),
            ("0.5".to_string(), "2".to_string()),
            ("1".to_string(), "3".to_string())
        ]
    );
}

#[test]
fn quantile_reference_errors_are_reported() {
    let missing = quantiles_parser(quantiles::Dataset::AsymmetricTail, "value\n1\n", QUANTILE_REFERENCES);
    assert_eq!(missing.parse_statistics().err(), Some(ReferenceError::MissingCase));
    assert_eq!(missing.parse().err(), Some(QuantilesError::Reference(ReferenceError::MissingCase)));

    let extra = QUANTILE_REFERENCES.replace("ties,1,5", "ties,1,5,6");
    let parser = quantiles_parser(quantiles::Dataset::Ties, "value\n1\n", &extra);
    assert_eq!(parser.parse_statistics().err(), Some(ReferenceError::ExtraField));

    let short = QUANTILE_REFERENCES.replace("ties,1,5", "ties,1");
    let parser = quantiles_parser(quantiles::Dataset::Ties, "value\n1\n", &short);
    assert_eq!(parser.parse_statistics().err(), Some(ReferenceError::MissingField));

    let bad_fixture = quantiles_parser(quantiles::Dataset::Ties, "values\n1\n", QUANTILE_REFERENCES);
    assert_eq!(bad_fixture.parse().err(), Some(QuantilesError::Fixture(FixtureError::HeaderMismatch)));
}

fn bits(xs: &[f64]) -> Vec<u64> {
    xs.iter().map(|x| x.to_bits()).collect()
}

#[test]
fn quantile_entries_are_checked() {
    let ok = quantiles::check_entries(&bits(&[0.0, 0.5, 1.0]), &bits(&[1.0, 2.0, 3.0]));
    assert!(ok.is_ok());

    let range = quantiles::check_entries(&bits(&[0.0, 1.5]), &bits(&[1.0, f64::NAN]));
    assert_eq!(range.err(), Some(EntryError::ProbabilityOutOfRange));

    let value = quantiles::check_entries(&bits(&[0.0, 0.5]), &bits(&[f64::INFINITY, 2.0]));
    assert_eq!(value.err(), Some(EntryError::NonFiniteValue));

    let order = quantiles::check_entries(&bits(&[0.5, 0.5]), &bits(&[1.0, 2.0]));
    assert_eq!(order.err(), Some(EntryError::NotAscending));

    let descending = quantiles::check_entries(&bits(&[0.75, 0.25]), &bits(&[1.0, 2.0]));
    assert_eq!(descending.err(), Some(EntryError::NotAscending));
}
