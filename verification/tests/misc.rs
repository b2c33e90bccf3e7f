use rsbx::buffer::buffer_is_blank;
use rsbx::buffer::bytes_equal;
use rsbx::decimal::append_decimal;
use rsbx::decimal::read_decimal;
use rsbx::general_error::Error;
use rsbx::general_error::ErrorKind;
use rsbx::log::parse_digits;
use rsbx::log::read_log;
use rsbx::log::write_log;
use rsbx::log::ErrorKind as LogErrorKind;
use rsbx::log::Log;
use rsbx::log::LogError;
use rsbx::log::LogHandler;
use rsbx::misc_utils::bytes_to_upper_hex_string;
use rsbx::misc_utils::calc_required_len_and_seek_to_from_byte_range;
use rsbx::misc_utils::ensure_at_least;
use rsbx::misc_utils::ensure_at_most;
use rsbx::misc_utils::round_down_to_multiple;
use rsbx::misc_utils::PositionOrLength;
use rsbx::misc_utils::RangeEnd;
use rsbx::misc_utils::RequiredLenAndSeekTo;
use rsbx::progress_report::calc_percent;
use rsbx::progress_report::calc_units_remaining;
use rsbx::progress_report::make_progress_bar;
use rsbx::progress_report::string_to_verbosity_level;
use rsbx::progress_report::PRVerbosityLevel;
use rsbx::progress_report::VerbositySettings;
use rsbx::rescue_core::Stats;

#[test]
fn blank_buffers() {
    assert!(buffer_is_blank(&[]));
    assert!(buffer_is_blank(&[0; 512]));
    let mut buffer = [0u8; 512];
    buffer[511] = 1;
    assert!(!buffer_is_blank(&buffer));
    assert!(bytes_equal(b"abc", b"abc"));
    assert!(!bytes_equal(b"abc", b"abd"));
    assert!(!bytes_equal(b"abc", b"ab"));
}

#[test]
fn rounding_and_limits() {
    assert_eq!(round_down_to_multiple(0, 128), 0);
    assert_eq!(round_down_to_multiple(127, 128), 0);
    assert_eq!(round_down_to_multiple(128, 128), 128);
    assert_eq!(round_down_to_multiple(1000, 128), 896);
    assert_eq!(ensure_at_most(10, 11), 10);
    assert_eq!(ensure_at_most(10, 9), 9);
    assert_eq!(ensure_at_least(10, 9), 10);
    assert_eq!(ensure_at_least(10, 11), 11);
}

#[test]
fn whole_file_range() {
    let r = calc_required_len_and_seek_to_from_byte_range(
        None,
        None,
        false,
        0,
        PositionOrLength::Len(1024),
        None,
    );
    assert_eq!(r, RequiredLenAndSeekTo { required_len: 1024, seek_to: 0 });
    let r = calc_required_len_and_seek_to_from_byte_range(
        None,
        None,
        false,
        0,
        PositionOrLength::Len(0),
        None,
    );
    assert_eq!(r, RequiredLenAndSeekTo { required_len: 0, seek_to: 0 });
    let r = calc_required_len_and_seek_to_from_byte_range(
        None,
        None,
        false,
        0,
        PositionOrLength::Pos(99),
        None,
    );
    assert_eq!(r, RequiredLenAndSeekTo { required_len: 100, seek_to: 0 });
}

#[test]
fn ranges_are_aligned_unless_told_otherwise() {
    let r = calc_required_len_and_seek_to_from_byte_range(
        Some(700),
        Some(RangeEnd::Inc(1500)),
        false,
        0,
        PositionOrLength::Len(4096),
        Some(512),
    );
    assert_eq!(r, RequiredLenAndSeekTo { required_len: 1500 - 512 + 1, seek_to: 512 });
    let r = calc_required_len_and_seek_to_from_byte_range(
        Some(700),
        Some(RangeEnd::Exc(1500)),
        true,
        0,
        PositionOrLength::Len(4096),
        Some(512),
    );
    assert_eq!(r, RequiredLenAndSeekTo { required_len: 800, seek_to: 700 });
    let r = calc_required_len_and_seek_to_from_byte_range(
        Some(300),
        None,
        false,
        256,
        PositionOrLength::Len(1000),
        None,
    );
    assert_eq!(r, RequiredLenAndSeekTo { required_len: 1000 - 256, seek_to: 512 });
}

#[test]
fn ranges_are_kept_within_the_file() {
    let r = calc_required_len_and_seek_to_from_byte_range(
        Some(5000),
        Some(RangeEnd::Inc(9000)),
        true,
        0,
        PositionOrLength::Len(1000),
        None,
    );
    assert_eq!(r, RequiredLenAndSeekTo { required_len: 1, seek_to: 999 });
    let r = calc_required_len_and_seek_to_from_byte_range(
        Some(512),
        Some(RangeEnd::Inc(100)),
        false,
        0,
        PositionOrLength::Len(1000),
        None,
    );
    assert_eq!(r, RequiredLenAndSeekTo { required_len: 1, seek_to: 512 });
    let r = calc_required_len_and_seek_to_from_byte_range(
        Some(512),
        Some(RangeEnd::Exc(0)),
        false,
        0,
        PositionOrLength::Len(1000),
        None,
    );
    assert_eq!(r, RequiredLenAndSeekTo { required_len: 1, seek_to: 512 });
}

#[test]
fn uids_are_spelt_in_upper_case_hex() {
    let text: String = bytes_to_upper_hex_string(&[0x00, 0x01, 0xAB, 0xFF, 0x9C, 0x40])
        .into_iter()
        .collect();
    assert_eq!(text, "0001ABFF9C40");
    assert!(bytes_to_upper_hex_string(&[]).is_empty());
}

#[test]
fn decimal_numbers() {
    for (x, text) in [
        (0u64, "0"),
        (7, "7"),
        (10, "10"),
        (1234567890, "1234567890"),
        (u64::MAX, "18446744073709551615"),
    ] {
        let mut out = b"x=".to_vec();
        append_decimal(&mut out, x);
        assert_eq!(out, format!("x={}", text).into_bytes());
        assert_eq!(read_decimal(&out, 2), Some((x, text.len())));
    }
    assert_eq!(read_decimal(b"12ab", 0), Some((12, 2)));
    assert_eq!(read_decimal(b"ab", 0), None);
    assert_eq!(read_decimal(b"", 0), None);
    assert_eq!(read_decimal(b"18446744073709551616", 0), None);
    assert_eq!(read_decimal(b"007", 0), Some((7, 3)));
}

#[test]
fn log_text() {
    let text = write_log(1024, 5, 2, 3);
    assert_eq!(
        text,
        b"bytes_processed=1024\nblocks_processed=5\nmeta_blocks_processed=2\ndata_blocks_processed=3\n"
            .to_vec()
    );
    assert_eq!(read_log(&text), Some((1024, 5, 2, 3)));
    let mut padded = text.clone();
    padded.resize(1024, 0);
    assert_eq!(read_log(&padded), Some((1024, 5, 2, 3)));
}

#[test]
fn broken_logs_are_refused() {
    assert_eq!(read_log(b""), None);
    assert_eq!(read_log(b"bytes_processed=1\n"), None);
    assert_eq!(
        read_log(b"bytes_processed=\nblocks_processed=5\nmeta_blocks_processed=2\ndata_blocks_processed=3\n"),
        None
    );
    assert_eq!(
        read_log(b"bytes_processed=1\nblocks_processed=5\nmeta_blocks_processed=2\ndata_blocks_processed=3"),
        None
    );
    assert_eq!(
        read_log(b"bytes_processed=1\nmeta_blocks_processed=2\nblocks_processed=5\ndata_blocks_processed=3\n"),
        None
    );
    assert_eq!(
        read_log(b"bytes_processed=99999999999999999999\nblocks_processed=5\nmeta_blocks_processed=2\ndata_blocks_processed=3\n"),
        None
    );
}

#[test]
fn stats_go_through_the_log() {
    let stats = Stats {
        meta_or_par_blocks_processed: 4,
        data_or_par_blocks_processed: 9,
        bytes_processed: 128 * 20,
        total_bytes: 128 * 100,
    };
    let text = stats.serialize();
    assert_eq!(
        text,
        b"bytes_processed=2560\nblocks_processed=13\nmeta_blocks_processed=4\ndata_blocks_processed=9\n"
            .to_vec()
    );
    let mut read = Stats::new(128 * 100).unwrap();
    assert_eq!(read.deserialize(&text), Ok(()));
    assert_eq!(read, stats);
}

#[test]
fn bytes_done_are_rounded_down_and_kept_within_the_total() {
    let mut stats = Stats::new(1000).unwrap();
    let log = write_log(700, 0, 1, 2);
    assert_eq!(stats.from_log(&log), Ok(()));
    assert_eq!(stats.bytes_processed, 640);
    assert_eq!(stats.meta_or_par_blocks_processed, 1);
    assert_eq!(stats.data_or_par_blocks_processed, 2);
    let log = write_log(5000, 0, 0, 0);
    assert_eq!(stats.from_log(&log), Ok(()));
    assert_eq!(stats.bytes_processed, 896);
    let before = stats;
    assert_eq!(stats.from_log(b"nonsense"), Err(()));
    assert_eq!(stats, before);
}

#[test]
fn log_errors_and_handlers() {
    let error = LogError::new(LogErrorKind::ParseError, "rescue.log");
    assert_eq!(error.kind, LogErrorKind::ParseError);
    assert_eq!(error.path, "rescue.log");
    assert_eq!(LogHandler::new(Some("a.log")).log_file, Some(String::from("a.log")));
    assert_eq!(LogHandler::new(None).log_file, None);
}

#[test]
fn errors_have_messages() {
    let error = Error::new(ErrorKind::RSCodecCreateFail);
    assert_eq!(error.kind, ErrorKind::RSCodecCreateFail);
    assert_eq!(error.message(), "Reed-Solomon codec creation fail");
    assert_eq!(
        Error::new(ErrorKind::NoReferenceBlock).message(),
        "Failed to find reference block"
    );
    assert_eq!(Error::new(ErrorKind::DecodeFail(3)).message(), "Failed to decode data block");
}

#[test]
fn verbosity_levels() {
    assert_eq!(string_to_verbosity_level("0"), Ok(PRVerbosityLevel::L0));
    assert_eq!(string_to_verbosity_level("1"), Ok(PRVerbosityLevel::L1));
    assert_eq!(string_to_verbosity_level("2"), Ok(PRVerbosityLevel::L2));
    assert_eq!(string_to_verbosity_level("3"), Err(()));
    assert_eq!(string_to_verbosity_level(""), Err(()));
    assert_eq!(string_to_verbosity_level("01"), Err(()));
    let settings = VerbositySettings::new(PRVerbosityLevel::L1, true);
    assert!(!settings.verbose_while_active);
    assert!(settings.verbose_when_done);
    assert!(settings.json_enabled);
    assert!(settings.should_print(true, false));
    assert!(!settings.should_print(false, false));
    assert!(!settings.should_print(true, true));
    let settings = VerbositySettings::new(PRVerbosityLevel::L2, false);
    assert!(settings.should_print(false, false));
    let settings = VerbositySettings::new(PRVerbosityLevel::L0, false);
    assert!(!settings.should_print(true, false));
}

#[test]
fn percentages() {
    assert_eq!(calc_percent(0, 0), 100);
    assert_eq!(calc_percent(5, 0), 100);
    assert_eq!(calc_percent(0, 10), 0);
    assert_eq!(calc_percent(1, 3), 33);
    assert_eq!(calc_percent(2, 3), 66);
    assert_eq!(calc_percent(3, 3), 100);
    assert_eq!(calc_percent(9, 3), 100);
    assert_eq!(calc_percent(u64::MAX, u64::MAX), 100);
    assert_eq!(calc_percent(u64::MAX / 2, u64::MAX), 49);
    assert_eq!(calc_units_remaining(3, 10), 7);
    assert_eq!(calc_units_remaining(10, 3), 0);
}

#[test]
fn progress_bars() {
    assert_eq!(make_progress_bar(0), "[-------------------------]");
    assert_eq!(make_progress_bar(4), "[#------------------------]");
    assert_eq!(make_progress_bar(50), "[############-------------]");
    assert_eq!(make_progress_bar(99), "[########################-]");
    assert_eq!(make_progress_bar(100), "[#########################]");
}

#[test]
fn four_runs_of_digits() {
    assert_eq!(parse_digits(b"1024", b"5", b"2", b"3"), Ok((1024, 5, 2, 3)));
    assert_eq!(
        parse_digits(b"18446744073709551615", b"0", b"00", b"9"),
        Ok((u64::MAX, 0, 0, 9))
    );
    assert_eq!(parse_digits(b"18446744073709551616", b"0", b"0", b"9"), Err(()));
    assert_eq!(parse_digits(b"1", b"", b"2", b"3"), Err(()));
    assert_eq!(parse_digits(b"1", b"2", b"3x", b"4"), Err(()));
    assert_eq!(parse_digits(b"1", b"2", b"3", b"-4"), Err(()));
}
