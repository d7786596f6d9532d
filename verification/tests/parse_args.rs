use pw::args::parse_args;
use pw::args::parse_length;
use pw::args::Config;
use pw::args::Parsed;
use pw::args::SpecialMode;

fn tokens(words: &[&str]) -> Vec<String> {
    words.iter().map(|word| String::from(*word)).collect()
}

#[test]
fn empty() {
    let config = parse_args(Vec::<String>::new()).unwrap();
    assert_eq!(
        config,
        Parsed::Config(Config {
            length: 32,
            lower: true,
            upper: true,
            number: true,
            special: SpecialMode::Full,
        })
    )
}

#[test]
fn override_length() {
    let config = parse_args(vec![String::from("30")]).unwrap();
    assert_eq!(
        config,
        Parsed::Config(Config {
            length: 30,
            lower: true,
            upper: true,
            number: true,
            special: SpecialMode::Full,
        })
    )
}

#[test]
fn charsets_split_flags() {
    let config = parse_args(vec![String::from("-l"), String::from("-u")]).unwrap();

    assert_eq!(
        config,
        Parsed::Config(Config {
            length: 32,
            lower: true,
            upper: true,
            number: false,
            special: SpecialMode::Disabled,
        })
    )
}

#[test]
fn charsets_joined_flags() {
    let config = parse_args(vec![String::from("-ln")]).unwrap();
    assert_eq!(
        config,
        Parsed::Config(Config {
            length: 32,
            lower: true,
            upper: false,
            number: true,
            special: SpecialMode::Disabled,
        })
    )
}

#[test]
fn charsets_and_length() {
    let config =
        parse_args(vec![String::from("-lu"), String::from("44"), String::from("-s")]).unwrap();
    assert_eq!(
        config,
        Parsed::Config(Config {
            length: 44,
            lower: true,
            upper: true,
            number: false,
            special: SpecialMode::Full,
        })
    )
}

#[test]
fn only_length_tokens_select_everything() {
    for words in [&["0"][..], &["7", "9"][..], &["65535"][..], &["-"][..], &[][..]] {
        match parse_args(tokens(words)).unwrap() {
            Parsed::Config(config) => {
                assert!(config.lower && config.upper && config.number);
                assert_eq!(config.special, SpecialMode::Full);
            }
            Parsed::Help => panic!("no help was asked for"),
        }
    }
}

#[test]
fn named_classes_are_the_only_ones() {
    assert_eq!(
        parse_args(tokens(&["-n"])).unwrap(),
        Parsed::Config(Config {
            length: 32,
            lower: false,
            upper: false,
            number: true,
            special: SpecialMode::Disabled,
        })
    );
    assert_eq!(
        parse_args(tokens(&["-s", "12"])).unwrap(),
        Parsed::Config(Config {
            length: 12,
            lower: false,
            upper: false,
            number: false,
            special: SpecialMode::Full,
        })
    );
    assert_eq!(
        parse_args(tokens(&["-b"])).unwrap(),
        Parsed::Config(Config {
            length: 32,
            lower: false,
            upper: false,
            number: false,
            special: SpecialMode::Basic,
        })
    );
}

#[test]
fn basic_wins_over_full_in_either_order() {
    for words in [
        &["-s", "-b"][..],
        &["-b", "-s"][..],
        &["-sb"][..],
        &["-bs"][..],
        &["-s", "10", "-lb", "-s"][..],
    ] {
        match parse_args(tokens(words)).unwrap() {
            Parsed::Config(config) => assert_eq!(config.special, SpecialMode::Basic),
            Parsed::Help => panic!("no help was asked for"),
        }
    }
}

#[test]
fn letters_and_length_scenario() {
    assert_eq!(
        parse_args(tokens(&["-l", "-u", "18"])).unwrap(),
        Parsed::Config(Config {
            length: 18,
            lower: true,
            upper: true,
            number: false,
            special: SpecialMode::Disabled,
        })
    );
}

#[test]
fn basic_and_upper_scenario() {
    assert_eq!(
        parse_args(tokens(&["-bu"])).unwrap(),
        Parsed::Config(Config {
            length: 32,
            lower: false,
            upper: true,
            number: false,
            special: SpecialMode::Basic,
        })
    );
}

#[test]
fn last_length_wins() {
    assert_eq!(
        parse_args(tokens(&["10", "-l", "20", "3"])).unwrap(),
        Parsed::Config(Config {
            length: 3,
            lower: true,
            upper: false,
            number: false,
            special: SpecialMode::Disabled,
        })
    );
}

#[test]
fn invalid_flag_is_named() {
    assert_eq!(parse_args(tokens(&["-x"])), Err(String::from("Invalid flag -x")));
    assert_eq!(parse_args(tokens(&["-lux", "12"])), Err(String::from("Invalid flag -x")));
    assert_eq!(parse_args(tokens(&["--"])), Err(String::from("Invalid flag --")));
    assert_eq!(parse_args(tokens(&["--helpx"])), Err(String::from("Invalid flag --")));
    assert_eq!(parse_args(tokens(&["-5"])), Err(String::from("Invalid flag -5")));
    assert_eq!(parse_args(tokens(&["-l\u{e9}"])), Err(String::from("Invalid flag -\u{e9}")));
}

#[test]
fn invalid_length_names_the_token_and_the_maximum() {
    assert_eq!(
        parse_args(tokens(&["99999"])),
        Err(String::from("Invalid length 99999 (max 65535)"))
    );
    assert_eq!(
        parse_args(tokens(&["65536"])),
        Err(String::from("Invalid length 65536 (max 65535)"))
    );
    assert_eq!(
        parse_args(tokens(&["-l", "abc"])),
        Err(String::from("Invalid length abc (max 65535)"))
    );
    assert_eq!(parse_args(tokens(&[""])), Err(String::from("Invalid length  (max 65535)")));
    assert_eq!(parse_args(tokens(&["1 2"])), Err(String::from("Invalid length 1 2 (max 65535)")));
    assert_eq!(parse_args(tokens(&["12a"])), Err(String::from("Invalid length 12a (max 65535)")));
}

#[test]
fn help_is_its_own_outcome() {
    assert_eq!(parse_args(tokens(&["--help"])), Ok(Parsed::Help));
    assert_eq!(parse_args(tokens(&["-h"])), Ok(Parsed::Help));
    assert_eq!(parse_args(tokens(&["-lh"])), Ok(Parsed::Help));
    assert_eq!(parse_args(tokens(&["-l", "12", "--help", "-x"])), Ok(Parsed::Help));
    assert_eq!(parse_args(tokens(&["-hx"])), Ok(Parsed::Help));
}

#[test]
fn first_offender_decides() {
    assert_eq!(parse_args(tokens(&["-xh"])), Err(String::from("Invalid flag -x")));
    assert_eq!(
        parse_args(tokens(&["abc", "--help"])),
        Err(String::from("Invalid length abc (max 65535)"))
    );
    assert_eq!(parse_args(tokens(&["-q", "abc"])), Err(String::from("Invalid flag -q")));
}

#[test]
fn lengths_are_read_as_decimal_numbers() {
    assert_eq!(parse_length("0"), Some(0));
    assert_eq!(parse_length("32"), Some(32));
    assert_eq!(parse_length("65535"), Some(65535));
    assert_eq!(parse_length("65536"), None);
    assert_eq!(parse_length("000000000000000000000000042"), Some(42));
    assert_eq!(parse_length("+17"), Some(17));
    assert_eq!(parse_length("+"), None);
    assert_eq!(parse_length("++1"), None);
    assert_eq!(parse_length(""), None);
    assert_eq!(parse_length("1_000"), None);
    assert_eq!(parse_length(" 1"), None);
    assert_eq!(parse_length("99999999999999999999999999"), None);
    assert_eq!(parse_length("\u{663}"), None);
}

#[test]
fn lengths_agree_with_the_standard_parser() {
    for token in ["0", "1", "+5", "007", "65535", "65536", "", "+", "-1", "1e3", "١٢"] {
        assert_eq!(parse_length(token), token.parse::<u16>().ok());
    }
}
