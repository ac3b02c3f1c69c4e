use sequence::config::{get_config, get_exchange, Config, ConfigError};
use sequence::exchange::{Exchange, Range};

fn window(begin: u64, end: u64) -> Config {
    Config { output: String::from("out.pcap"), begin, end }
}

fn range(begin: u64, count: u64) -> Range {
    Range { begin, count }
}

#[test]
fn exactly_one_exchange_must_be_chosen() {
    assert_eq!(get_exchange(true, false, false), Some(Exchange::CME));
    assert_eq!(get_exchange(false, true, false), Some(Exchange::CBOE));
    assert_eq!(get_exchange(false, false, true), Some(Exchange::ICE));
    assert_eq!(get_exchange(false, false, false), None);
    assert_eq!(get_exchange(true, true, false), None);
    assert_eq!(get_exchange(true, false, true), None);
    assert_eq!(get_exchange(false, true, true), None);
    assert_eq!(get_exchange(true, true, true), None);
}

#[test]
fn no_output_path_means_no_window() {
    assert_eq!(get_config(None, 0, None, None), Ok(None));
    assert_eq!(get_config(None, 5, Some(9), Some(4)), Ok(None));
    assert_eq!(get_config(None, u64::MAX, None, Some(1)), Ok(None));
}

#[test]
fn window_ends_at_the_given_end() {
    assert_eq!(get_config(Some("out.pcap"), 10, Some(25), None), Ok(Some(window(10, 25))));
    assert_eq!(get_config(Some("out.pcap"), 0, Some(0), None), Ok(Some(window(0, 0))));
}

#[test]
fn window_end_defaults_to_begin_plus_count() {
    assert_eq!(get_config(Some("out.pcap"), 10, None, Some(5)), Ok(Some(window(10, 15))));
    assert_eq!(get_config(Some("out.pcap"), 0, None, Some(0)), Ok(Some(window(0, 0))));
    assert_eq!(
        get_config(Some("out.pcap"), u64::MAX - 1, None, Some(1)),
        Ok(Some(window(u64::MAX - 1, u64::MAX)))
    );
}

#[test]
fn end_and_count_together_are_an_error() {
    assert_eq!(get_config(Some("out.pcap"), 0, Some(10), Some(10)), Err(ConfigError::EndAndCount));
}

#[test]
fn neither_end_nor_count_is_an_error() {
    assert_eq!(get_config(Some("out.pcap"), 0, None, None), Err(ConfigError::NoEndOrCount));
}

#[test]
fn window_past_the_largest_sequence_number_is_an_error() {
    assert_eq!(get_config(Some("out.pcap"), u64::MAX, None, Some(1)), Err(ConfigError::EndOutOfRange));
    assert_eq!(get_config(Some("out.pcap"), 2, None, Some(u64::MAX - 1)), Err(ConfigError::EndOutOfRange));
}

#[test]
fn errors_have_messages() {
    assert_eq!(ConfigError::EndAndCount.message(), "Must specify either --end or --count");
    assert_eq!(ConfigError::NoEndOrCount.message(), "Must specify one of --end or --count");
    assert_eq!(
        ConfigError::EndOutOfRange.message(),
        "The selected range ends past the last sequence number"
    );
}

#[test]
fn ranges_that_overlap_the_window_are_selected() {
    let config = window(10, 20);
    assert!(config.selects(range(10, 1)));
    assert!(config.selects(range(19, 1)));
    assert!(config.selects(range(5, 6)));
    assert!(config.selects(range(19, 50)));
    assert!(config.selects(range(0, 100)));
    assert!(config.selects(range(12, 3)));
}

#[test]
fn ranges_outside_the_window_are_not_selected() {
    let config = window(10, 20);
    assert!(!config.selects(range(5, 5)));
    assert!(!config.selects(range(20, 1)));
    assert!(!config.selects(range(0, 1)));
    assert!(!config.selects(range(25, 100)));
}

#[test]
fn ranges_without_messages_are_not_selected() {
    let config = window(10, 20);
    assert!(!config.selects(range(0, 0)));
    assert!(!config.selects(range(15, 0)));
}

#[test]
fn empty_window_selects_nothing() {
    assert!(!window(10, 10).selects(range(10, 1)));
    assert!(!window(10, 5).selects(range(0, 100)));
    assert!(!window(5, 3).selects(range(0, 10)));
}

#[test]
fn selection_holds_at_the_largest_sequence_numbers() {
    let config = window(u64::MAX - 1, u64::MAX);
    assert!(config.selects(range(u64::MAX - 1, 1)));
    assert!(config.selects(range(0, u64::MAX)));
    assert!(!config.selects(range(0, u64::MAX - 1)));
}
