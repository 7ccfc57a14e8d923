use lakehouse::layout::{
    format_log_version, log_file_name, log_version_of_file_name, tmp_log_file_name, DATA_DIR,
    LOG_DIR,
};
use lakehouse::text::parse_u64;

#[test]
fn formats_log_version_as_20_digits() {
    assert_eq!(format_log_version(0), "00000000000000000000");
    assert_eq!(format_log_version(1), "00000000000000000001");
    assert_eq!(
        format_log_version(10000000000000000000),
        "10000000000000000000"
    );
}

#[test]
fn format_log_version_of_largest_version() {
    assert_eq!(format_log_version(u64::MAX), "18446744073709551615");
    assert_eq!(format_log_version(42), "00000000000000000042");
}

#[test]
fn log_file_names_carry_the_version() {
    assert_eq!(log_file_name(7), "00000000000000000007.json");
    assert_eq!(tmp_log_file_name(7), "00000000000000000007.json.tmp");
    assert_eq!(DATA_DIR, "data");
    assert_eq!(LOG_DIR, "_log");
}

#[test]
fn log_file_name_is_found_again_as_its_version() {
    for v in [0u64, 1, 9, 10, 12345, 10000000000000000000, u64::MAX] {
        assert_eq!(log_version_of_file_name(&log_file_name(v)), Some(v));
    }
}

#[test]
fn tmp_and_foreign_names_are_not_versions() {
    assert_eq!(log_version_of_file_name(&tmp_log_file_name(3)), None);
    assert_eq!(log_version_of_file_name("0000000000000000003.json"), None);
    assert_eq!(log_version_of_file_name("00000000000000000003.txt"), None);
    assert_eq!(log_version_of_file_name("0000000000000000000a.json"), None);
    assert_eq!(log_version_of_file_name("99999999999999999999.json"), None);
    assert_eq!(log_version_of_file_name("checkpoint.json"), None);
    assert_eq!(log_version_of_file_name(""), None);
}

#[test]
fn only_twenty_digit_stems_are_versions() {
    assert_eq!(log_version_of_file_name("+0000000000000000005.json"), None);
    assert_eq!(log_version_of_file_name("-0000000000000000005.json"), None);
    assert_eq!(log_version_of_file_name(" 0000000000000000005.json"), None);
    assert_eq!(log_version_of_file_name("00000000000000000005.json"), Some(5));
}

#[test]
fn parse_u64_follows_str_parse() {
    for s in [
        "0",
        "+0",
        "18446744073709551615",
        "18446744073709551616",
        "",
        "+",
        "-1",
        "12a",
        "007",
        "+-1",
        "١٢",
    ] {
        assert_eq!(parse_u64(s), s.parse::<u64>().ok(), "input {s:?}");
    }
}

#[test]
fn log_names_sort_as_versions() {
    let versions = [0u64, 1, 2, 9, 10, 11, 99, 100, 1234567, u64::MAX - 1, u64::MAX];
    for a in versions {
        for b in versions {
            assert_eq!(a < b, format_log_version(a) < format_log_version(b));
        }
    }
}
