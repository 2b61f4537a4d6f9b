use portscan::address::{parse_ipv4, parse_quad, TargetAddress};
use portscan::args::parse_args;
use portscan::config::{ConfigError, ScanConfig, DEFAULT_LOCAL_WORKERS, DEFAULT_RETRIES};
use portscan::text::{parse_decimal, to_chars};

fn decimal(text: &str, max: u16) -> Option<u16> {
    let word: Vec<char> = text.chars().collect();
    parse_decimal(&word, 0, word.len(), max)
}

fn command(words: &[&str]) -> Vec<String> {
    words.iter().map(|w| w.to_string()).collect()
}

#[test]
fn to_chars_gives_the_characters() {
    assert_eq!(to_chars("-IP"), vec!['-', 'I', 'P']);
    assert_eq!(to_chars(""), Vec::<char>::new());
    assert_eq!(to_chars("\u{e9}1"), vec!['\u{e9}', '1']);
}

#[test]
fn decimal_reads_plain_numbers() {
    assert_eq!(decimal("0", 255), Some(0));
    assert_eq!(decimal("7", 255), Some(7));
    assert_eq!(decimal("255", 255), Some(255));
    assert_eq!(decimal("8080", 65535), Some(8080));
    assert_eq!(decimal("65535", 65535), Some(65535));
}

#[test]
fn decimal_accepts_a_plus_sign_and_leading_zeros() {
    assert_eq!(decimal("+42", 255), Some(42));
    assert_eq!(decimal("007", 255), Some(7));
    assert_eq!(decimal("+000000000000000000000000255", 255), Some(255));
}

#[test]
fn decimal_refuses_what_is_too_large() {
    assert_eq!(decimal("256", 255), None);
    assert_eq!(decimal("65536", 65535), None);
    assert_eq!(decimal("99999999999999999999999999", 65535), None);
}

#[test]
fn decimal_refuses_what_is_no_number() {
    assert_eq!(decimal("", 255), None);
    assert_eq!(decimal("+", 255), None);
    assert_eq!(decimal("-1", 255), None);
    assert_eq!(decimal("++1", 255), None);
    assert_eq!(decimal("1+", 255), None);
    assert_eq!(decimal("12a", 255), None);
    assert_eq!(decimal(" 1", 255), None);
    assert_eq!(decimal("1.0", 255), None);
    assert_eq!(decimal("\u{663}", 255), None);
}

#[test]
fn decimal_reads_a_part_of_a_word() {
    let word: Vec<char> = "ab123cd".chars().collect();
    assert_eq!(parse_decimal(&word, 2, 5, 255), Some(123));
    assert_eq!(parse_decimal(&word, 2, 4, 255), Some(12));
    assert_eq!(parse_decimal(&word, 2, 2, 255), None);
    assert_eq!(parse_decimal(&word, 1, 5, 255), None);
}

#[test]
fn ipv4_reads_dotted_decimal() {
    assert_eq!(parse_ipv4("192.168.0.1"), Some([192, 168, 0, 1]));
    assert_eq!(parse_ipv4("0.0.0.0"), Some([0, 0, 0, 0]));
    assert_eq!(parse_ipv4("255.255.255.255"), Some([255, 255, 255, 255]));
    assert_eq!(parse_ipv4("127.0.0.1"), Some([127, 0, 0, 1]));
}

#[test]
fn ipv4_accepts_what_each_octet_accepts() {
    assert_eq!(parse_ipv4("+1.02.003.4"), Some([1, 2, 3, 4]));
}

#[test]
fn ipv4_refuses_a_wrong_number_of_fields() {
    assert_eq!(parse_ipv4(""), None);
    assert_eq!(parse_ipv4("1"), None);
    assert_eq!(parse_ipv4("1.2.3"), None);
    assert_eq!(parse_ipv4("1.2.3.4.5"), None);
    assert_eq!(parse_ipv4("1.2.3.4."), None);
    assert_eq!(parse_ipv4(".1.2.3.4"), None);
    assert_eq!(parse_ipv4("..."), None);
}

#[test]
fn ipv4_refuses_a_bad_octet() {
    assert_eq!(parse_ipv4("256.1.1.1"), None);
    assert_eq!(parse_ipv4("1.2.3.256"), None);
    assert_eq!(parse_ipv4("1..3.4"), None);
    assert_eq!(parse_ipv4("a.b.c.d"), None);
    assert_eq!(parse_ipv4("1.2.3.4 "), None);
    assert_eq!(parse_ipv4("1.2.-3.4"), None);
    assert_eq!(parse_ipv4("localhost"), None);
}

#[test]
fn quad_reads_characters() {
    let word: Vec<char> = "10.20.30.40".chars().collect();
    assert_eq!(parse_quad(&word), Some([10, 20, 30, 40]));
}

#[test]
fn target_address_moves_to_another_port() {
    let base = TargetAddress::new([10, 0, 0, 7], 1);
    let other = base.with_port(443);
    assert_eq!(other.octets, [10, 0, 0, 7]);
    assert_eq!(other.port, 443);
    assert_eq!(base.port, 1);
}

#[test]
fn args_spell_a_request() {
    let args = command(&["scanner", "-l", "0", "-h", "1000", "-t", "4", "-IP", "192.168.1.20"]);
    let config = parse_args(&args).expect("a good command line");
    assert_eq!(
        config,
        ScanConfig {
            target: TargetAddress { octets: [192, 168, 1, 20], port: 0 },
            low: 0,
            high: 1000,
            head_count: 4,
            local_worker_count: 50,
            retries: 1,
        }
    );
    assert_eq!(DEFAULT_LOCAL_WORKERS, 50);
    assert_eq!(DEFAULT_RETRIES, 1);
}

#[test]
fn args_may_come_in_any_order() {
    let args = command(&["scanner", "-IP", "10.0.0.1", "-t", "2", "-h", "8010", "-l", "8000"]);
    let config = parse_args(&args).expect("a good command line");
    assert_eq!(config.low, 8000);
    assert_eq!(config.high, 8010);
    assert_eq!(config.head_count, 2);
    assert_eq!(config.target.octets, [10, 0, 0, 1]);
    assert_eq!(config.target.port, 8000);
}

#[test]
fn args_of_the_wrong_number_are_refused() {
    assert_eq!(parse_args(&command(&[])), Err(ConfigError::Usage));
    assert_eq!(parse_args(&command(&["scanner"])), Err(ConfigError::Usage));
    let short = command(&["scanner", "-l", "0", "-h", "1000", "-t", "4"]);
    assert_eq!(parse_args(&short), Err(ConfigError::Usage));
    let long =
        command(&["scanner", "-l", "0", "-h", "1000", "-t", "4", "-IP", "192.168.1.20", "-v"]);
    assert_eq!(parse_args(&long), Err(ConfigError::Usage));
}

#[test]
fn args_without_an_option_are_refused() {
    let args = command(&["scanner", "-x", "0", "-h", "1000", "-t", "4", "-IP", "192.168.1.20"]);
    assert_eq!(parse_args(&args), Err(ConfigError::MissingOption));
    let args = command(&["scanner", "-l", "0", "-h", "1000", "-t", "4", "-ip", "192.168.1.20"]);
    assert_eq!(parse_args(&args), Err(ConfigError::MissingOption));
    let args = command(&["scanner", "-l", "0", "-h", "1000", "-IP", "192.168.1.20", "4", "-t"]);
    assert_eq!(parse_args(&args), Err(ConfigError::MissingOption));
}

#[test]
fn args_with_a_bad_number_are_refused() {
    let args = command(&["scanner", "-l", "zero", "-h", "1000", "-t", "4", "-IP", "192.168.1.20"]);
    assert_eq!(parse_args(&args), Err(ConfigError::BadNumber));
    let args = command(&["scanner", "-l", "0", "-h", "65536", "-t", "4", "-IP", "192.168.1.20"]);
    assert_eq!(parse_args(&args), Err(ConfigError::BadNumber));
    let args = command(&["scanner", "-l", "0", "-h", "1000", "-t", "-4", "-IP", "192.168.1.20"]);
    assert_eq!(parse_args(&args), Err(ConfigError::BadNumber));
}

#[test]
fn args_with_a_bad_address_are_refused() {
    let args = command(&["scanner", "-l", "0", "-h", "1000", "-t", "4", "-IP", "192.168.1"]);
    assert_eq!(parse_args(&args), Err(ConfigError::BadAddress));
    let args = command(&["scanner", "-l", "0", "-h", "1000", "-t", "4", "-IP", "example.org"]);
    assert_eq!(parse_args(&args), Err(ConfigError::BadAddress));
}

#[test]
fn args_that_spell_a_bad_request_are_refused() {
    let args = command(&["scanner", "-l", "10", "-h", "9", "-t", "4", "-IP", "10.0.0.1"]);
    assert_eq!(parse_args(&args), Err(ConfigError::BackwardRange));
    let args = command(&["scanner", "-l", "10", "-h", "10", "-t", "4", "-IP", "10.0.0.1"]);
    assert_eq!(parse_args(&args), Err(ConfigError::EmptyRange));
    let args = command(&["scanner", "-l", "10", "-h", "20", "-t", "0", "-IP", "10.0.0.1"]);
    assert_eq!(parse_args(&args), Err(ConfigError::NoHeads));
    let args = command(&["scanner", "-l", "10", "-h", "20", "-t", "1311", "-IP", "10.0.0.1"]);
    assert_eq!(parse_args(&args), Err(ConfigError::TooManyWorkers));
    let args = command(&["scanner", "-l", "10", "-h", "20", "-t", "1310", "-IP", "10.0.0.1"]);
    assert!(parse_args(&args).is_ok());
}

#[test]
fn args_report_the_first_fault() {
    let args = command(&["scanner", "-l", "x", "-h", "y", "-t", "0", "-IP", "nowhere"]);
    assert_eq!(parse_args(&args), Err(ConfigError::BadNumber));
    let args = command(&["scanner", "-l", "5", "-h", "5", "-t", "0", "-IP", "nowhere"]);
    assert_eq!(parse_args(&args), Err(ConfigError::BadAddress));
    let args = command(&["scanner", "-l", "5", "-h", "5", "-q", "0", "-IP", "nowhere"]);
    assert_eq!(parse_args(&args), Err(ConfigError::MissingOption));
}
