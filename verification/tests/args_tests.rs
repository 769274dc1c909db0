use re_epmd::args::{parse_u64, EpmdReq as ArgsReq};
use re_epmd::{parse_args, EpmdConfig, ParseResponse};

fn strings(list: &[&str]) -> Vec<String> {
    list.iter().map(|s| s.to_string()).collect()
}

#[test]
fn no_arguments_proceed() {
    let mut config = EpmdConfig::new();
    assert_eq!(parse_args(&mut config, &strings(&[])), ParseResponse::Proceed);
}

#[test]
fn flags_set_the_configuration() {
    let mut config = EpmdConfig::new();
    let args = strings(&["-d", "-daemon", "-relaxed_command_check", "-systemd"]);
    assert_eq!(parse_args(&mut config, &args), ParseResponse::ShouldExit);
    assert!(config.debug);
    assert!(config.is_daemon);
    assert!(config.brutal_kill);
    assert!(config.is_systemd);
}

#[test]
fn valued_options_consume_the_next_argument() {
    let mut config = EpmdConfig::new();
    let args = strings(&["-port", "5000", "-address", "10.0.0.1", "-packet_timeout", "90"]);
    assert_eq!(parse_args(&mut config, &args), ParseResponse::ShouldExit);
    assert_eq!(config.port, 5000);
    assert_eq!(config.address, "10.0.0.1");
    assert_eq!(config.packet_timeout, 90);
}

#[test]
fn bad_option_values_are_reported() {
    let mut config = EpmdConfig::new();
    assert_eq!(parse_args(&mut config, &strings(&["-port"])), ParseResponse::BadOpt);
    assert_eq!(parse_args(&mut config, &strings(&["-port", "abc"])), ParseResponse::BadOpt);
    assert_eq!(parse_args(&mut config, &strings(&["-port", "70000"])), ParseResponse::BadOpt);
    assert_eq!(parse_args(&mut config, &strings(&["-frobnicate"])), ParseResponse::BadOpt);
}

#[test]
fn interactive_commands_must_stand_alone() {
    let mut config = EpmdConfig::new();
    assert_eq!(
        parse_args(&mut config, &strings(&["-kill"])),
        ParseResponse::Call(ArgsReq::Kill)
    );
    assert_eq!(
        parse_args(&mut config, &strings(&["-names"])),
        ParseResponse::Call(ArgsReq::Names)
    );
    assert_eq!(
        parse_args(&mut config, &strings(&["-dump"])),
        ParseResponse::Call(ArgsReq::Dump)
    );
    assert_eq!(
        parse_args(&mut config, &strings(&["-stop", "node1"])),
        ParseResponse::Call(ArgsReq::Stop("node1".to_string()))
    );
    assert_eq!(parse_args(&mut config, &strings(&["-d", "-kill"])), ParseResponse::BadOpt);
}

#[test]
fn parse_u64_accepts_digits_only() {
    assert_eq!(parse_u64("0"), Some(0));
    assert_eq!(parse_u64("4369"), Some(4369));
    assert_eq!(parse_u64("18446744073709551615"), Some(u64::MAX));
    assert_eq!(parse_u64("18446744073709551616"), None);
    assert_eq!(parse_u64(""), None);
    assert_eq!(parse_u64("12a"), None);
    assert_eq!(parse_u64("-1"), None);
}
