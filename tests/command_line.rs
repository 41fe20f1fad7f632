use port_scanner::args::{bytes_equal, parse_u16, Address, ArgError, Args};

fn strings(v: &[&str]) -> Vec<String> {
    v.iter().map(|s| s.to_string()).collect()
}

const LOCALHOST: Address = Address::V4([127, 0, 0, 1]);

#[test]
fn too_few_arguments() {
    let args = strings(&["prog"]);
    assert_eq!(Args::new(&args, &vec![None]), Err(ArgError::NotEnoughArguments));
}

#[test]
fn help_flag_alone() {
    let args = strings(&["prog", "-h"]);
    assert_eq!(Args::new(&args, &vec![None, None]), Err(ArgError::Help));
    let args = strings(&["prog", "--help"]);
    assert_eq!(Args::new(&args, &vec![None, None]), Err(ArgError::Help));
}

#[test]
fn help_flag_with_more() {
    let args = strings(&["prog", "-h", "x"]);
    assert_eq!(Args::new(&args, &vec![None, None, None]), Err(ArgError::TooManyArguments));
}

#[test]
fn too_many_arguments() {
    let args = strings(&["prog", "-j", "4", "127.0.0.1", "x"]);
    let addrs = vec![None, None, None, Some(LOCALHOST), None];
    assert_eq!(Args::new(&args, &addrs), Err(ArgError::TooManyArguments));
}

#[test]
fn bad_thread_count() {
    let args = strings(&["prog", "-j", "abc", "1.2.3.4"]);
    let addrs = vec![None, None, None, Some(Address::V4([1, 2, 3, 4]))];
    assert_eq!(Args::new(&args, &addrs), Err(ArgError::BadThreadCount));
}

#[test]
fn zero_threads_refused() {
    let args = strings(&["prog", "-j", "0", "1.2.3.4"]);
    let addrs = vec![None, None, None, Some(Address::V4([1, 2, 3, 4]))];
    assert_eq!(Args::new(&args, &addrs), Err(ArgError::BadThreadCount));
}

#[test]
fn bad_address() {
    let args = strings(&["prog", "-j", "10", "not-an-ip"]);
    assert_eq!(Args::new(&args, &vec![None, None, None, None]), Err(ArgError::BadAddress));
}

#[test]
fn explicit_thread_count() {
    let args = strings(&["prog", "-j", "10", "127.0.0.1"]);
    let addrs = vec![None, None, None, Some(LOCALHOST)];
    assert_eq!(
        Args::new(&args, &addrs),
        Ok(Args { ipaddr: LOCALHOST, threads: 10 })
    );
}

#[test]
fn default_thread_count() {
    let args = strings(&["prog", "127.0.0.1"]);
    let addrs = vec![None, Some(LOCALHOST)];
    assert_eq!(Args::new(&args, &addrs), Ok(Args { ipaddr: LOCALHOST, threads: 4 }));
    let v6 = Address::V6([0, 0, 0, 0, 0, 0, 0, 1]);
    let args = strings(&["prog", "::1"]);
    assert_eq!(Args::new(&args, &vec![None, Some(v6)]), Ok(Args { ipaddr: v6, threads: 4 }));
}

#[test]
fn unknown_shapes_refused() {
    let args = strings(&["prog", "hello"]);
    assert_eq!(Args::new(&args, &vec![None, None]), Err(ArgError::InvalidSyntax));
    let args = strings(&["prog", "-j", "10"]);
    assert_eq!(Args::new(&args, &vec![None, None, None]), Err(ArgError::InvalidSyntax));
    let args = strings(&["prog", "127.0.0.1", "x"]);
    let addrs = vec![None, Some(LOCALHOST), None];
    assert_eq!(Args::new(&args, &addrs), Err(ArgError::InvalidSyntax));
}

#[test]
fn error_messages() {
    assert_eq!(ArgError::NotEnoughArguments.message(), "not enough arguments");
    assert_eq!(ArgError::TooManyArguments.message(), "too many arguments");
    assert_eq!(ArgError::Help.message(), "help");
    assert_eq!(ArgError::BadThreadCount.message(), "failed to parse thread number");
    assert_eq!(ArgError::BadAddress.message(), "not a valid IPADDR; must be IPv4 or IPv6");
    assert_eq!(ArgError::InvalidSyntax.message(), "invalid syntax");
}

#[test]
fn decimal_parsing() {
    assert_eq!(parse_u16(b"10"), Some(10));
    assert_eq!(parse_u16(b"+7"), Some(7));
    assert_eq!(parse_u16(b"007"), Some(7));
    assert_eq!(parse_u16(b"65535"), Some(65535));
    assert_eq!(parse_u16(b"65536"), None);
    assert_eq!(parse_u16(b"99999999999"), None);
    assert_eq!(parse_u16(b""), None);
    assert_eq!(parse_u16(b"+"), None);
    assert_eq!(parse_u16(b"-1"), None);
    assert_eq!(parse_u16(b"1a"), None);
}

#[test]
fn help_flag_must_match_exactly() {
    let args = strings(&["prog", "-hx"]);
    assert_eq!(Args::new(&args, &vec![None, None]), Err(ArgError::InvalidSyntax));
    let args = strings(&["prog", "x--help"]);
    assert_eq!(Args::new(&args, &vec![None, None]), Err(ArgError::InvalidSyntax));
}

#[test]
fn thread_flag_must_match_exactly() {
    let args = strings(&["prog", "x-j", "10", "1.2.3.4"]);
    let addrs = vec![None, None, None, Some(Address::V4([1, 2, 3, 4]))];
    assert_eq!(Args::new(&args, &addrs), Err(ArgError::InvalidSyntax));
    let args = strings(&["prog", "-jj", "10", "1.2.3.4"]);
    assert_eq!(Args::new(&args, &addrs), Err(ArgError::InvalidSyntax));
}

#[test]
fn comparing_bytes() {
    assert!(bytes_equal(b"-j", b"-j"));
    assert!(!bytes_equal(b"-j", b"-h"));
    assert!(!bytes_equal(b"-j", b"-jx"));
    assert!(bytes_equal(b"", b""));
}
