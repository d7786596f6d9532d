//! Turning command-line tokens into a validated [`Config`].

use crate::text::chars_of;
use crate::text::push_char;
use vstd::string::StringExecFns;
use vstd::prelude::*;

verus! {

/// Which special characters a password may draw from.
#[derive(Clone, Copy, Debug, PartialEq, Eq, Structural)]
pub enum SpecialMode {
    /// No special characters.
    Disabled,
    /// The restricted subset that most systems accept.
    Basic,
    /// Every special character.
    Full,
}

/// What a password is made of, and how long it is asked to be.
#[derive(Clone, Copy, Debug, PartialEq, Eq, Structural)]
pub struct Config {
    pub lower: bool,
    pub upper: bool,
    pub special: SpecialMode,
    pub number: bool,
    pub length: u16,
}

/// What reading the tokens comes to, short of an error.
#[derive(Clone, Copy, Debug, PartialEq, Eq, Structural)]
pub enum Parsed {
    /// A configuration to generate a password with.
    Config(Config),
    /// The usage text was asked for.
    Help,
}

/// The length of a password when no length token is given.
pub const DEFAULT_LENGTH: u16 = 32;

impl Config {
    /// True when no character class at all is selected.
    pub open spec fn selects_nothing(self) -> bool {
        !self.lower && !self.upper && !self.number && self.special == SpecialMode::Disabled
    }

    /// The configuration with every class selected when none is, unchanged
    /// otherwise.
    pub open spec fn normalized(self) -> Config {
        if self.selects_nothing() {
            Config {
                lower: true,
                upper: true,
                number: true,
                special: SpecialMode::Full,
                length: self.length,
            }
        } else {
            self
        }
    }

    /// The state before any token is read: nothing selected, default length.
    pub open spec fn initial() -> Config {
        Config {
            lower: false,
            upper: false,
            number: false,
            special: SpecialMode::Disabled,
            length: DEFAULT_LENGTH,
        }
    }
}

/// The largest length that a token can ask for.
pub const MAX_LENGTH: u16 = 65535;

/// True for the ten decimal digits.
pub open spec fn is_digit(c: char) -> bool {
    '0' <= c <= '9'
}

/// The number that a decimal digit stands for.
pub open spec fn digit_value(c: char) -> nat
    recommends
        is_digit(c),
{
    (c as int - '0' as int) as nat
}

/// True when every character of `s` is a decimal digit.
pub open spec fn all_digits(s: Seq<char>) -> bool {
    forall|i: int| 0 <= i < s.len() ==> is_digit(#[trigger] s[i])
}

/// The number that a sequence of decimal digits denotes, most significant
/// digit first; leading zeros do not count.
pub open spec fn decimal_value(digits: Seq<char>) -> nat
    decreases digits.len(),
{
    if digits.len() == 0 {
        0
    } else {
        10 * decimal_value(digits.drop_last()) + digit_value(digits.last())
    }
}

/// A length token without the plus sign that may lead it.
pub open spec fn unsigned_part(token: Seq<char>) -> Seq<char> {
    if token.len() > 0 && token[0] == '+' {
        token.drop_first()
    } else {
        token
    }
}

/// The length that a token denotes: one or more decimal digits, after an
/// optional plus sign, whose value is at most [`MAX_LENGTH`]. Any other token
/// denotes none.
pub open spec fn length_of(token: Seq<char>) -> Option<u16> {
    let digits = unsigned_part(token);
    if digits.len() > 0 && all_digits(digits) && decimal_value(digits) <= MAX_LENGTH {
        Some(decimal_value(digits) as u16)
    } else {
        None
    }
}

/// A longer run of digits never denotes less than the run it starts with.
pub proof fn lemma_decimal_value_grows(digits: Seq<char>, k: int)
    requires
        0 <= k <= digits.len(),
        all_digits(digits),
    ensures
        decimal_value(digits.take(k)) <= decimal_value(digits),
    decreases digits.len() - k,
{
    if k == digits.len() {
        assert(digits.take(k) =~= digits);
    } else {
        lemma_decimal_value_grows(digits, k + 1);
        assert(digits.take(k + 1).drop_last() =~= digits.take(k));
    }
}

/// Reads a length token.
pub fn parse_length(token: &str) -> (r: Option<u16>)
    ensures
        r == length_of(token@),
{
    let chars = chars_of(token);
    let start: usize = if chars.len() > 0 && chars[0] == '+' {
        1
    } else {
        0
    };
    let ghost digits = unsigned_part(token@);
    assert(digits =~= chars@.subrange(start as int, chars.len() as int));
    if start == chars.len() {
        return None;
    }
    let mut value: u32 = 0;
    let mut i: usize = start;
    while i < chars.len()
        invariant
            start <= i <= chars.len(),
            digits == unsigned_part(token@),
            digits == chars@.subrange(start as int, chars.len() as int),
            all_digits(digits.take(i - start)),
            value == decimal_value(digits.take(i - start)),
            value <= MAX_LENGTH,
        decreases chars.len() - i,
    {
        let c = chars[i];
        let ghost seen = digits.take(i - start);
        let ghost next = digits.take(i - start + 1);
        assert(next.drop_last() =~= seen);
        assert(next.last() == c);
        if c < '0' || c > '9' {
            assert(!is_digit(digits[i - start]));
            return None;
        }
        let d: u32 = c as u32 - '0' as u32;
        let grown: u32 = 10 * value + d;
        assert(grown == decimal_value(next));
        assert(all_digits(next)) by {
            assert forall|j: int| 0 <= j < next.len() implies is_digit(#[trigger] next[j]) by {
                if j < seen.len() {
                    assert(next[j] == seen[j]);
                }
            }
        }
        if grown > MAX_LENGTH as u32 {
            proof {
                if all_digits(digits) {
                    lemma_decimal_value_grows(digits, i - start + 1);
                }
            }
            return None;
        }
        value = grown;
        i += 1;
    }
    assert(digits.take(i - start) =~= digits);
    Some(value as u16)
}

/// The message for a flag letter that is not known.
pub open spec fn invalid_flag_message(flag: char) -> Seq<char> {
    "Invalid flag -"@.push(flag)
}

/// The message for a token that denotes no length.
pub open spec fn invalid_length_message(token: Seq<char>) -> Seq<char> {
    "Invalid length "@ + token + " (max 65535)"@
}

/// An outcome with its message as a sequence of characters.
pub open spec fn outcome_view(r: Result<Parsed, String>) -> Result<Parsed, Seq<char>> {
    match r {
        Ok(parsed) => Ok(parsed),
        Err(message) => Err(message@),
    }
}

/// What one flag letter does to the selection so far. The letters `l`, `u`
/// and `n` select a class. `s` selects the full special characters unless a
/// special mode is already set; `b` sets the basic ones whatever was set
/// before. `h` asks for help, and any other letter is an error.
pub open spec fn flag_step(state: Config, flag: char) -> Result<Parsed, Seq<char>> {
    if flag == 'l' {
        Ok(Parsed::Config(Config { lower: true, ..state }))
    } else if flag == 'u' {
        Ok(Parsed::Config(Config { upper: true, ..state }))
    } else if flag == 'n' {
        Ok(Parsed::Config(Config { number: true, ..state }))
    } else if flag == 's' {
        if state.special == SpecialMode::Disabled {
            Ok(Parsed::Config(Config { special: SpecialMode::Full, ..state }))
        } else {
            Ok(Parsed::Config(state))
        }
    } else if flag == 'b' {
        Ok(Parsed::Config(Config { special: SpecialMode::Basic, ..state }))
    } else if flag == 'h' {
        Ok(Parsed::Help)
    } else {
        Err(invalid_flag_message(flag))
    }
}

/// What the letters of a flag cluster do, read from the left: the first
/// letter that asks for help or is not known ends the reading.
pub open spec fn cluster_step(state: Config, letters: Seq<char>) -> Result<Parsed, Seq<char>>
    decreases letters.len(),
{
    if letters.len() == 0 {
        Ok(Parsed::Config(state))
    } else {
        match flag_step(state, letters[0]) {
            Ok(Parsed::Config(next)) => cluster_step(next, letters.drop_first()),
            other => other,
        }
    }
}

/// True for a token that is read as a cluster of flag letters.
pub open spec fn is_cluster(token: Seq<char>) -> bool {
    token.len() > 0 && token[0] == '-' && token != "--help"@
}

/// What one token does: `--help` asks for help, a token that starts with a
/// dash is a flag cluster, and any other token sets the length.
pub open spec fn token_step(state: Config, token: Seq<char>) -> Result<Parsed, Seq<char>> {
    if token == "--help"@ {
        Ok(Parsed::Help)
    } else if is_cluster(token) {
        cluster_step(state, token.drop_first())
    } else {
        match length_of(token) {
            Some(length) => Ok(Parsed::Config(Config { length, ..state })),
            None => Err(invalid_length_message(token)),
        }
    }
}

/// What a sequence of tokens does, read from the left: the first token that
/// asks for help or fails ends the reading.
pub open spec fn tokens_step(state: Config, tokens: Seq<Seq<char>>) -> Result<
    Parsed,
    Seq<char>,
>
    decreases tokens.len(),
{
    if tokens.len() == 0 {
        Ok(Parsed::Config(state))
    } else {
        match token_step(state, tokens[0]) {
            Ok(Parsed::Config(next)) => tokens_step(next, tokens.drop_first()),
            other => other,
        }
    }
}

/// The outcome of parsing: the tokens are read from nothing selected and the
/// default length, and a configuration that selects nothing then selects
/// everything.
pub open spec fn parse_outcome(tokens: Seq<Seq<char>>) -> Result<Parsed, Seq<char>> {
    match tokens_step(Config::initial(), tokens) {
        Ok(Parsed::Config(state)) => Ok(Parsed::Config(state.normalized())),
        other => other,
    }
}

/// The tokens as sequences of characters.
pub open spec fn token_views(args: Seq<String>) -> Seq<Seq<char>> {
    Seq::new(args.len(), |i: int| args[i]@)
}

fn apply_flag(state: Config, flag: char) -> (r: Result<Parsed, String>)
    ensures
        outcome_view(r) == flag_step(state, flag),
{
    let mut next = state;
    if flag == 'l' {
        next.lower = true;
    } else if flag == 'u' {
        next.upper = true;
    } else if flag == 'n' {
        next.number = true;
    } else if flag == 's' {
        if state.special == SpecialMode::Disabled {
            next.special = SpecialMode::Full;
        }
    } else if flag == 'b' {
        next.special = SpecialMode::Basic;
    } else if flag == 'h' {
        return Ok(Parsed::Help);
    } else {
        let mut message = String::from_str("Invalid flag -");
        push_char(&mut message, flag);
        return Err(message);
    }
    Ok(Parsed::Config(next))
}

fn apply_cluster(state: Config, chars: &Vec<char>) -> (r: Result<Parsed, String>)
    requires
        chars@.len() > 0,
    ensures
        outcome_view(r) == cluster_step(state, chars@.drop_first()),
{
    let mut current = state;
    let mut i: usize = 1;
    assert(chars@.skip(1) =~= chars@.drop_first());
    while i < chars.len()
        invariant
            1 <= i <= chars.len(),
            cluster_step(current, chars@.skip(i as int)) == cluster_step(
                state,
                chars@.drop_first(),
            ),
        decreases chars.len() - i,
    {
        assert(chars@.skip(i as int).drop_first() =~= chars@.skip(i + 1));
        match apply_flag(current, chars[i]) {
            Ok(Parsed::Config(next)) => {
                current = next;
            },
            other => {
                return other;
            },
        }
        i += 1;
    }
    Ok(Parsed::Config(current))
}

fn is_help(chars: &Vec<char>) -> (b: bool)
    ensures
        b == (chars@ == "--help"@),
{
    proof {
        reveal_strlit("--help");
    }
    let b = chars.len() == 6 && chars[0] == '-' && chars[1] == '-' && chars[2] == 'h' && chars[3]
        == 'e' && chars[4] == 'l' && chars[5] == 'p';
    assert(b == (chars@ =~= "--help"@));
    b
}

fn apply_token(state: Config, token: &str) -> (r: Result<Parsed, String>)
    ensures
        outcome_view(r) == token_step(state, token@),
{
    let chars = chars_of(token);
    if is_help(&chars) {
        Ok(Parsed::Help)
    } else if chars.len() > 0 && chars[0] == '-' {
        apply_cluster(state, &chars)
    } else {
        match parse_length(token) {
            Some(length) => {
                let mut next = state;
                next.length = length;
                Ok(Parsed::Config(next))
            },
            None => {
                let mut message = String::from_str("Invalid length ");
                message.append(token);
                message.append(" (max 65535)");
                Err(message)
            },
        }
    }
}

/// Reads the command-line tokens, from the left, into a configuration.
///
/// The first token or flag letter that asks for help or cannot be read decides
/// the outcome. Otherwise every class that a flag names is selected, the last
/// length token gives the length, and where no class was named all are.
pub fn parse_args(args: Vec<String>) -> (r: Result<Parsed, String>)
    ensures
        outcome_view(r) == parse_outcome(token_views(args@)),
{
    let ghost tokens = token_views(args@);
    let mut state = Config {
        lower: false,
        upper: false,
        number: false,
        special: SpecialMode::Disabled,
        length: DEFAULT_LENGTH,
    };
    let mut i: usize = 0;
    assert(tokens.skip(0) =~= tokens);
    while i < args.len()
        invariant
            i <= args.len(),
            tokens == token_views(args@),
            tokens_step(state, tokens.skip(i as int)) == tokens_step(Config::initial(), tokens),
        decreases args.len() - i,
    {
        assert(tokens.skip(i as int).drop_first() =~= tokens.skip(i + 1));
        assert(tokens.skip(i as int)[0] == args@[i as int]@);
        match apply_token(state, args[i].as_str()) {
            Ok(Parsed::Config(next)) => {
                state = next;
            },
            other => {
                return other;
            },
        }
        i += 1;
    }
    if !state.lower && !state.upper && !state.number && state.special == SpecialMode::Disabled {
        state.lower = true;
        state.upper = true;
        state.number = true;
        state.special = SpecialMode::Full;
    }
    Ok(Parsed::Config(state))
}

} // verus!
