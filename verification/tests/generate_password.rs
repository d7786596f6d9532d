use std::collections::HashSet;

use pw::args::parse_args;
use pw::args::Config;
use pw::args::Parsed;
use pw::args::SpecialMode;
use pw::generate::generate_password;
use pw::generate::LOWERCASE;
use pw::generate::NO_CHARSETS;
use pw::generate::NUMBER;
use pw::generate::SPECIAL;
use pw::generate::SPECIAL_BASIC;
use pw::generate::UPPERCASE;

fn test_config(config: &Config, length: Option<u16>) {
    let length = length.unwrap_or(config.length);
    let length = usize::try_from(length).unwrap();

    let pw = generate_password(config).unwrap();
    assert_eq!(pw.len(), length);
    let pw_set: HashSet<char> = pw.chars().collect();
    assert_eq!(
        LOWERCASE.chars().any(|c| pw_set.contains(&c)),
        config.lower,
        "Expected lowercase = {}",
        config.lower
    );
    assert_eq!(
        UPPERCASE.chars().any(|c| pw_set.contains(&c)),
        config.upper,
        "Expected uppercase = {}",
        config.upper
    );
    assert_eq!(
        NUMBER.chars().any(|c| pw_set.contains(&c)),
        config.number,
        "Expected number = {}",
        config.number
    );
    assert_eq!(
        SPECIAL.chars().any(|c| pw_set.contains(&c)),
        config.special != SpecialMode::Disabled,
        "Expected special = {:?}",
        config.special
    );
    if config.special == SpecialMode::Basic {
        assert!(pw.chars().all(|c| !SPECIAL.contains(c) || SPECIAL_BASIC.contains(c)));
    }
}

fn parsed(words: &[&str]) -> Config {
    let tokens: Vec<String> = words.iter().map(|word| String::from(*word)).collect();
    match parse_args(tokens).unwrap() {
        Parsed::Config(config) => config,
        Parsed::Help => panic!("no help was asked for"),
    }
}

#[test]
fn normal_config() {
    let config = Config {
        length: 32,
        lower: true,
        upper: true,
        number: true,
        special: SpecialMode::Full,
    };
    test_config(&config, None);
}

#[test]
fn shortest_password() {
    let config = Config {
        length: 0,
        lower: true,
        upper: true,
        number: true,
        special: SpecialMode::Full,
    };
    test_config(&config, Some(4));
}

#[test]
fn lower_only() {
    let config = Config {
        length: 10,
        lower: true,
        upper: false,
        number: false,
        special: SpecialMode::Disabled,
    };
    test_config(&config, None);
}

#[test]
fn upper_only() {
    let config = Config {
        length: 10,
        lower: false,
        upper: true,
        number: false,
        special: SpecialMode::Disabled,
    };
    test_config(&config, None);
}

#[test]
fn number_only() {
    let config = Config {
        length: 10,
        lower: false,
        upper: false,
        number: true,
        special: SpecialMode::Disabled,
    };
    test_config(&config, None);
}

#[test]
fn special_only() {
    let config = Config {
        length: 10,
        lower: false,
        upper: false,
        number: false,
        special: SpecialMode::Full,
    };
    test_config(&config, None);
}

#[test]
fn no_charsets_selected() {
    let config = Config {
        length: 32,
        lower: false,
        upper: false,
        number: false,
        special: SpecialMode::Disabled,
    };
    let pw_result = generate_password(&config);
    pw_result.expect_err("generate_password did not error");
}

#[test]
fn no_charsets_message() {
    let config = Config {
        length: 0,
        lower: false,
        upper: false,
        number: false,
        special: SpecialMode::Disabled,
    };
    assert_eq!(generate_password(&config), Err("No charsets selected!"));
    assert_eq!(NO_CHARSETS, "No charsets selected!");
}

#[test]
fn alphabets_are_the_documented_ones() {
    assert_eq!(LOWERCASE, "abcdefghijklmnopqrstuvwxyz");
    assert_eq!(UPPERCASE, "ABCDEFGHIJKLMNOPQRSTUVWXYZ");
    assert_eq!(NUMBER, "0123456789");
    assert_eq!(SPECIAL, "~!@#$%^&*()_-+=:;<,>.?/");
    assert_eq!(SPECIAL_BASIC, "$.-_,?!+:/");
    assert_eq!(SPECIAL.chars().count(), 23);
    assert_eq!(SPECIAL_BASIC.chars().count(), 10);
    assert!(SPECIAL_BASIC.chars().all(|c| SPECIAL.contains(c)));
}

#[test]
fn basic_special_only() {
    let config = Config {
        length: 200,
        lower: false,
        upper: false,
        number: false,
        special: SpecialMode::Basic,
    };
    for _ in 0..20 {
        let pw = generate_password(&config).unwrap();
        assert_eq!(pw.chars().count(), 200);
        assert!(pw.chars().all(|c| SPECIAL_BASIC.contains(c)));
    }
}

#[test]
fn length_is_the_larger_of_request_and_classes() {
    for special in [SpecialMode::Disabled, SpecialMode::Basic, SpecialMode::Full] {
        for bits in 0..8u8 {
            let config = Config {
                lower: bits & 1 != 0,
                upper: bits & 2 != 0,
                number: bits & 4 != 0,
                special,
                length: 0,
            };
            let classes = usize::from(config.lower)
                + usize::from(config.upper)
                + usize::from(config.number)
                + usize::from(special != SpecialMode::Disabled);
            for length in [0u16, 1, 2, 3, 4, 5, 17] {
                let config = Config { length, ..config };
                if classes == 0 {
                    assert!(generate_password(&config).is_err());
                } else {
                    test_config(&config, Some(length.max(classes as u16)));
                }
            }
        }
    }
}

#[test]
fn longest_password() {
    let config = Config {
        length: 65535,
        lower: true,
        upper: false,
        number: true,
        special: SpecialMode::Disabled,
    };
    test_config(&config, None);
}

#[test]
fn letters_scenario_generates_letters() {
    let config = parsed(&["-l", "-u", "18"]);
    let pw = generate_password(&config).unwrap();
    assert_eq!(pw.len(), 18);
    assert!(pw.chars().all(|c| c.is_ascii_alphabetic()));
    assert!(pw.chars().any(|c| c.is_ascii_lowercase()));
    assert!(pw.chars().any(|c| c.is_ascii_uppercase()));
}

#[test]
fn default_scenario_generates_every_class() {
    let config = parsed(&[]);
    let pw = generate_password(&config).unwrap();
    assert_eq!(pw.len(), 32);
    assert!(pw.chars().any(|c| LOWERCASE.contains(c)));
    assert!(pw.chars().any(|c| UPPERCASE.contains(c)));
    assert!(pw.chars().any(|c| NUMBER.contains(c)));
    assert!(pw.chars().any(|c| SPECIAL.contains(c)));
}

#[test]
fn basic_upper_scenario_generates_both() {
    let config = parsed(&["-bu"]);
    let pw = generate_password(&config).unwrap();
    assert_eq!(pw.len(), 32);
    assert!(pw.chars().any(|c| UPPERCASE.contains(c)));
    assert!(pw.chars().any(|c| SPECIAL_BASIC.contains(c)));
    assert!(pw.chars().all(|c| !NUMBER.contains(c)));
    assert!(pw.chars().all(|c| !LOWERCASE.contains(c)));
    assert!(pw.chars().all(|c| !SPECIAL.contains(c) || SPECIAL_BASIC.contains(c)));
}

#[test]
fn draws_vary() {
    let config = Config {
        length: 64,
        lower: true,
        upper: true,
        number: true,
        special: SpecialMode::Full,
    };
    let first = generate_password(&config).unwrap();
    let differs = (0..20).any(|_| generate_password(&config).unwrap() != first);
    assert!(differs);
}

#[test]
fn seeds_do_not_stay_in_front() {
    let config = Config {
        length: 32,
        lower: true,
        upper: false,
        number: true,
        special: SpecialMode::Disabled,
    };
    let letter_first = (0..200).any(|_| {
        let pw = generate_password(&config).unwrap();
        LOWERCASE.contains(pw.chars().next().unwrap())
    });
    assert!(letter_first);
}
