//! Drawing a password that holds every selected class of characters.

use crate::args::Config;
use crate::args::SpecialMode;
use crate::text::string_of;
use rand::rngs::ThreadRng;
use rand::seq::IteratorRandom;
use rand::seq::SliceRandom;
use vstd::prelude::*;
use vstd::string::StringExecFns;

verus! {

/// The lowercase letters.
pub const LOWERCASE: &'static str = "abcdefghijklmnopqrstuvwxyz";

/// The uppercase letters.
pub const UPPERCASE: &'static str = "ABCDEFGHIJKLMNOPQRSTUVWXYZ";

/// The decimal digits.
pub const NUMBER: &'static str = "0123456789";

/// Every special character.
pub const SPECIAL: &'static str = "~!@#$%^&*()_-+=:;<,>.?/";

/// The special characters that most systems accept.
pub const SPECIAL_BASIC: &'static str = "$.-_,?!+:/";

/// The message returned when a configuration selects no class.
pub const NO_CHARSETS: &'static str = "No charsets selected!";

/// True for the lowercase letters.
pub open spec fn is_lowercase(c: char) -> bool {
    'a' <= c <= 'z'
}

/// True for the uppercase letters.
pub open spec fn is_uppercase(c: char) -> bool {
    'A' <= c <= 'Z'
}

/// True for the decimal digits.
pub open spec fn is_number(c: char) -> bool {
    '0' <= c <= '9'
}

/// True for the basic special characters.
pub open spec fn is_basic_special(c: char) -> bool {
    c == '$' || c == '.' || c == '-' || c == '_' || c == ',' || c == '?' || c == '!' || c == '+'
        || c == ':' || c == '/'
}

/// True for every special character, the basic ones among them.
pub open spec fn is_special(c: char) -> bool {
    is_basic_special(c) || c == '~' || c == '@' || c == '#' || c == '%' || c == '^' || c == '&'
        || c == '*' || c == '(' || c == ')' || c == '=' || c == ';' || c == '<' || c == '>'
}

/// [`LOWERCASE`] holds the lowercase letters and nothing else.
pub proof fn lemma_lowercase_alphabet()
    ensures
        LOWERCASE@.len() == 26,
        forall|c: char| LOWERCASE@.contains(c) <==> is_lowercase(c),
{
    reveal_strlit("abcdefghijklmnopqrstuvwxyz");
    let s = LOWERCASE@;
    assert forall|c: char| is_lowercase(c) implies s.contains(c) by {
        let i = c as int - 'a' as int;
        assert(s[i] == c);
    }
}

/// [`UPPERCASE`] holds the uppercase letters and nothing else.
pub proof fn lemma_uppercase_alphabet()
    ensures
        UPPERCASE@.len() == 26,
        forall|c: char| UPPERCASE@.contains(c) <==> is_uppercase(c),
{
    reveal_strlit("ABCDEFGHIJKLMNOPQRSTUVWXYZ");
    let s = UPPERCASE@;
    assert forall|c: char| is_uppercase(c) implies s.contains(c) by {
        let i = c as int - 'A' as int;
        assert(s[i] == c);
    }
}

/// [`NUMBER`] holds the decimal digits and nothing else.
pub proof fn lemma_number_alphabet()
    ensures
        NUMBER@.len() == 10,
        forall|c: char| NUMBER@.contains(c) <==> is_number(c),
{
    reveal_strlit("0123456789");
    let s = NUMBER@;
    assert forall|c: char| is_number(c) implies s.contains(c) by {
        let i = c as int - '0' as int;
        assert(s[i] == c);
    }
}

/// [`SPECIAL`] holds the special characters and nothing else.
pub proof fn lemma_special_alphabet()
    ensures
        SPECIAL@.len() == 23,
        forall|c: char| SPECIAL@.contains(c) <==> is_special(c),
{
    reveal_strlit("~!@#$%^&*()_-+=:;<,>.?/");
    let s = SPECIAL@;
    assert forall|c: char| is_special(c) implies s.contains(c) by {
        if c == '~' {
            assert(s[0] == c);
        } else if c == '!' {
            assert(s[1] == c);
        } else if c == '@' {
            assert(s[2] == c);
        } else if c == '#' {
            assert(s[3] == c);
        } else if c == '$' {
            assert(s[4] == c);
        } else if c == '%' {
            assert(s[5] == c);
        } else if c == '^' {
            assert(s[6] == c);
        } else if c == '&' {
            assert(s[7] == c);
        } else if c == '*' {
            assert(s[8] == c);
        } else if c == '(' {
            assert(s[9] == c);
        } else if c == ')' {
            assert(s[10] == c);
        } else if c == '_' {
            assert(s[11] == c);
        } else if c == '-' {
            assert(s[12] == c);
        } else if c == '+' {
            assert(s[13] == c);
        } else if c == '=' {
            assert(s[14] == c);
        } else if c == ':' {
            assert(s[15] == c);
        } else if c == ';' {
            assert(s[16] == c);
        } else if c == '<' {
            assert(s[17] == c);
        } else if c == ',' {
            assert(s[18] == c);
        } else if c == '>' {
            assert(s[19] == c);
        } else if c == '.' {
            assert(s[20] == c);
        } else if c == '?' {
            assert(s[21] == c);
        } else if c == '/' {
            assert(s[22] == c);
        }
    }
}

/// [`SPECIAL_BASIC`] holds the basic special characters and nothing else.
pub proof fn lemma_basic_special_alphabet()
    ensures
        SPECIAL_BASIC@.len() == 10,
        forall|c: char| SPECIAL_BASIC@.contains(c) <==> is_basic_special(c),
{
    reveal_strlit("$.-_,?!+:/");
    let s = SPECIAL_BASIC@;
    assert forall|c: char| is_basic_special(c) implies s.contains(c) by {
        if c == '$' {
            assert(s[0] == c);
        } else if c == '.' {
            assert(s[1] == c);
        } else if c == '-' {
            assert(s[2] == c);
        } else if c == '_' {
            assert(s[3] == c);
        } else if c == ',' {
            assert(s[4] == c);
        } else if c == '?' {
            assert(s[5] == c);
        } else if c == '!' {
            assert(s[6] == c);
        } else if c == '+' {
            assert(s[7] == c);
        } else if c == ':' {
            assert(s[8] == c);
        } else if c == '/' {
            assert(s[9] == c);
        }
    }
}

/// The number of classes that a configuration selects.
pub open spec fn class_count(config: Config) -> nat {
    let lower: nat = if config.lower { 1 } else { 0 };
    let upper: nat = if config.upper { 1 } else { 0 };
    let number: nat = if config.number { 1 } else { 0 };
    let special: nat = if config.special != SpecialMode::Disabled { 1 } else { 0 };
    lower + upper + number + special
}

/// The length of a generated password: the length asked for, or the number
/// of selected classes where that is more.
pub open spec fn password_length(config: Config) -> nat {
    if config.length >= class_count(config) {
        config.length as nat
    } else {
        class_count(config)
    }
}

/// True for the characters that a password of this configuration may hold.
pub open spec fn allowed(config: Config, c: char) -> bool {
    ||| config.lower && is_lowercase(c)
    ||| config.upper && is_uppercase(c)
    ||| config.number && is_number(c)
    ||| config.special == SpecialMode::Full && is_special(c)
    ||| config.special == SpecialMode::Basic && is_basic_special(c)
}

/// True when `password` holds a lowercase letter.
pub open spec fn has_lowercase(password: Seq<char>) -> bool {
    exists|i: int| 0 <= i < password.len() && is_lowercase(#[trigger] password[i])
}

/// True when `password` holds an uppercase letter.
pub open spec fn has_uppercase(password: Seq<char>) -> bool {
    exists|i: int| 0 <= i < password.len() && is_uppercase(#[trigger] password[i])
}

/// True when `password` holds a digit.
pub open spec fn has_number(password: Seq<char>) -> bool {
    exists|i: int| 0 <= i < password.len() && is_number(#[trigger] password[i])
}

/// True when `password` holds a special character.
pub open spec fn has_special(password: Seq<char>) -> bool {
    exists|i: int| 0 <= i < password.len() && is_special(#[trigger] password[i])
}

/// True when `password` holds a basic special character.
pub open spec fn has_basic_special(password: Seq<char>) -> bool {
    exists|i: int| 0 <= i < password.len() && is_basic_special(#[trigger] password[i])
}

/// True when every character of `password` is allowed by `config`.
pub open spec fn all_allowed(config: Config, password: Seq<char>) -> bool {
    forall|i: int| 0 <= i < password.len() ==> allowed(config, #[trigger] password[i])
}

/// True when every class that `config` selects has a character in `password`.
pub open spec fn covers(config: Config, password: Seq<char>) -> bool {
    &&& config.lower ==> has_lowercase(password)
    &&& config.upper ==> has_uppercase(password)
    &&& config.number ==> has_number(password)
    &&& config.special == SpecialMode::Full ==> has_special(password)
    &&& config.special == SpecialMode::Basic ==> has_basic_special(password)
}

/// What holds of every password generated for `config`: it has the length
/// that the configuration comes to, holds only allowed characters, and holds
/// one of every selected class.
pub open spec fn acceptable(config: Config, password: Seq<char>) -> bool {
    &&& password.len() == password_length(config)
    &&& all_allowed(config, password)
    &&& covers(config, password)
}

/// The characters that the special mode contributes.
pub open spec fn special_alphabet(mode: SpecialMode) -> Seq<char> {
    match mode {
        SpecialMode::Disabled => Seq::empty(),
        SpecialMode::Basic => SPECIAL_BASIC@,
        SpecialMode::Full => SPECIAL@,
    }
}

/// The characters of every selected class, one class after the other.
pub open spec fn alphabet(config: Config) -> Seq<char> {
    let number = if config.number { NUMBER@ } else { Seq::empty() };
    let upper = if config.upper { UPPERCASE@ } else { Seq::empty() };
    let lower = if config.lower { LOWERCASE@ } else { Seq::empty() };
    special_alphabet(config.special) + number + upper + lower
}

/// The alphabet of a configuration holds the allowed characters and nothing
/// else.
pub proof fn lemma_alphabet_allowed(config: Config)
    ensures
        forall|c: char| alphabet(config).contains(c) <==> allowed(config, c),
        config.selects_nothing() <==> alphabet(config).len() == 0,
{
    lemma_lowercase_alphabet();
    lemma_uppercase_alphabet();
    lemma_number_alphabet();
    lemma_special_alphabet();
    lemma_basic_special_alphabet();
    let special = special_alphabet(config.special);
    let number = if config.number { NUMBER@ } else { Seq::empty() };
    let upper = if config.upper { UPPERCASE@ } else { Seq::empty() };
    let lower = if config.lower { LOWERCASE@ } else { Seq::empty() };
    let all = alphabet(config);
    assert forall|c: char| all.contains(c) <==> allowed(config, c) by {
        if all.contains(c) {
            let i = choose|i: int| 0 <= i < all.len() && all[i] == c;
            if i < special.len() {
                assert(special[i] == c);
            } else if i < special.len() + number.len() {
                assert(number[i - special.len()] == c);
            } else if i < special.len() + number.len() + upper.len() {
                assert(upper[i - special.len() - number.len()] == c);
            } else {
                assert(lower[i - special.len() - number.len() - upper.len()] == c);
            }
        }
        if special.contains(c) {
            let i = choose|i: int| 0 <= i < special.len() && special[i] == c;
            assert(all[i] == c);
        }
        if number.contains(c) {
            let i = choose|i: int| 0 <= i < number.len() && number[i] == c;
            assert(all[special.len() + i] == c);
        }
        if upper.contains(c) {
            let i = choose|i: int| 0 <= i < upper.len() && upper[i] == c;
            assert(all[special.len() + number.len() + i] == c);
        }
        if lower.contains(c) {
            let i = choose|i: int| 0 <= i < lower.len() && lower[i] == c;
            assert(all[special.len() + number.len() + upper.len() + i] == c);
        }
    }
}

/// A class that is not selected has no character in an acceptable password.
pub proof fn lemma_unselected_absent(config: Config, password: Seq<char>)
    requires
        acceptable(config, password),
    ensures
        !config.lower ==> !has_lowercase(password),
        !config.upper ==> !has_uppercase(password),
        !config.number ==> !has_number(password),
        config.special == SpecialMode::Disabled ==> !has_special(password),
{
}

/// With the basic special characters selected, the special characters of an
/// acceptable password are all basic ones.
pub proof fn lemma_basic_excludes_others(config: Config, password: Seq<char>)
    requires
        acceptable(config, password),
        config.special == SpecialMode::Basic,
    ensures
        forall|i: int|
            0 <= i < password.len() && is_special(#[trigger] password[i]) ==> is_basic_special(
                password[i],
            ),
{
}

/// An acceptable password is as long as asked for, or as the number of
/// selected classes where that is more; at most four classes are selected.
pub proof fn lemma_acceptable_length(config: Config, password: Seq<char>)
    requires
        acceptable(config, password),
    ensures
        password.len() >= config.length,
        password.len() >= class_count(config),
        password.len() == config.length || password.len() == class_count(config),
        class_count(config) <= 4,
        class_count(config) == 0 <==> config.selects_nothing(),
{
}

/// The handle to the thread's random number generator, of the `rand` crate.
/// Nothing is known of what it holds.
#[verifier::external_type_specification]
#[verifier::external_body]
pub struct ExThreadRng(ThreadRng);

/// `rand::rng` hands out the thread's generator. Nothing is claimed of it.
pub assume_specification[ rand::rng ]() -> ThreadRng;

/// Draws one character of `alphabet` at random.
///
/// Trusted: this is `IteratorRandom::choose` of the `rand` crate, on the
/// characters of the string. The contract claims what holds of every draw:
/// there is a result exactly when the string is not empty, and the result is
/// one of its characters. Which one is left open.
#[verifier::external_body]
fn choose_char(alphabet: &str, rng: &mut ThreadRng) -> (r: Option<char>)
    ensures
        r is Some <==> alphabet@.len() > 0,
        r matches Some(c) ==> alphabet@.contains(c),
{
    alphabet.chars().choose(rng)
}

/// Puts `chars` into a random order.
///
/// Trusted: this is `SliceRandom::shuffle` of the `rand` crate, which only
/// swaps items. The contract claims that the same characters are there
/// afterwards, each as often as before. Their order is left open.
#[verifier::external_body]
fn shuffle_chars(chars: &mut Vec<char>, rng: &mut ThreadRng)
    ensures
        final(chars)@.to_multiset() == old(chars)@.to_multiset(),
{
    chars.shuffle(rng);
}

/// Two sequences with the same items, each as often, have the same length
/// and every item of one is an item of the other.
proof fn lemma_same_items(a: Seq<char>, b: Seq<char>)
    requires
        a.to_multiset() == b.to_multiset(),
    ensures
        a.len() == b.len(),
        forall|c: char| a.contains(c) <==> b.contains(c),
{
    vstd::seq_lib::to_multiset_len(a);
    vstd::seq_lib::to_multiset_len(b);
    assert forall|c: char| a.contains(c) <==> b.contains(c) by {
        vstd::seq_lib::to_multiset_contains(a, c);
        vstd::seq_lib::to_multiset_contains(b, c);
    }
}

/// A rearranged password is as acceptable as the one it came from.
pub proof fn lemma_rearranged_acceptable(config: Config, before: Seq<char>, after: Seq<char>)
    requires
        acceptable(config, before),
        before.to_multiset() == after.to_multiset(),
    ensures
        acceptable(config, after),
{
    lemma_same_items(before, after);
    assert forall|i: int| 0 <= i < after.len() implies allowed(config, #[trigger] after[i]) by {
        assert(after.contains(after[i]));
        assert(before.contains(after[i]));
    }
    if config.lower {
        let i = choose|i: int| 0 <= i < before.len() && is_lowercase(#[trigger] before[i]);
        assert(before.contains(before[i]));
        let j = choose|j: int| 0 <= j < after.len() && after[j] == before[i];
        assert(is_lowercase(after[j]));
    }
    if config.upper {
        let i = choose|i: int| 0 <= i < before.len() && is_uppercase(#[trigger] before[i]);
        assert(before.contains(before[i]));
        let j = choose|j: int| 0 <= j < after.len() && after[j] == before[i];
        assert(is_uppercase(after[j]));
    }
    if config.number {
        let i = choose|i: int| 0 <= i < before.len() && is_number(#[trigger] before[i]);
        assert(before.contains(before[i]));
        let j = choose|j: int| 0 <= j < after.len() && after[j] == before[i];
        assert(is_number(after[j]));
    }
    if config.special == SpecialMode::Full {
        let i = choose|i: int| 0 <= i < before.len() && is_special(#[trigger] before[i]);
        assert(before.contains(before[i]));
        let j = choose|j: int| 0 <= j < after.len() && after[j] == before[i];
        assert(is_special(after[j]));
    }
    if config.special == SpecialMode::Basic {
        let i = choose|i: int| 0 <= i < before.len() && is_basic_special(#[trigger] before[i]);
        assert(before.contains(before[i]));
        let j = choose|j: int| 0 <= j < after.len() && after[j] == before[i];
        assert(is_basic_special(after[j]));
    }
}

/// One character of an alphabet that is not empty, drawn at random.
fn random_str(alphabet: &str, rng: &mut ThreadRng) -> (c: char)
    requires
        alphabet@.len() > 0,
    ensures
        alphabet@.contains(c),
{
    choose_char(alphabet, rng).unwrap()
}

/// Generates a password for `config`.
///
/// One character is drawn from every selected class, then characters of all
/// selected classes together until the length asked for is reached, and the
/// whole is put into a random order. A configuration that selects no class
/// gets the error [`NO_CHARSETS`] and no password.
pub fn generate_password(config: &Config) -> (r: Result<String, &'static str>)
    ensures
        r is Err <==> config.selects_nothing(),
        r matches Err(message) ==> message@ == NO_CHARSETS@,
        r matches Ok(password) ==> acceptable(*config, password@),
{
    let mut all_chars = String::new();
    let mut password: Vec<char> = Vec::with_capacity(32);
    let mut rng = rand::rng();
    proof {
        lemma_lowercase_alphabet();
        lemma_uppercase_alphabet();
        lemma_number_alphabet();
        lemma_special_alphabet();
        lemma_basic_special_alphabet();
        lemma_alphabet_allowed(*config);
    }

    match config.special {
        SpecialMode::Full => {
            all_chars.append(SPECIAL);
            password.push(random_str(SPECIAL, &mut rng));
        },
        SpecialMode::Basic => {
            all_chars.append(SPECIAL_BASIC);
            password.push(random_str(SPECIAL_BASIC, &mut rng));
        },
        SpecialMode::Disabled => {},
    }
    let ghost special_at = password.len() - 1;

    if config.number {
        all_chars.append(NUMBER);
        password.push(random_str(NUMBER, &mut rng));
    }
    let ghost number_at = password.len() - 1;

    if config.upper {
        all_chars.append(UPPERCASE);
        password.push(random_str(UPPERCASE, &mut rng));
    }
    let ghost upper_at = password.len() - 1;

    if config.lower {
        all_chars.append(LOWERCASE);
        password.push(random_str(LOWERCASE, &mut rng));
    }
    let ghost lower_at = password.len() - 1;

    if password.len() == 0 {
        return Err(NO_CHARSETS);
    }
    assert(all_chars@ =~= alphabet(*config));
    assert(password@.len() == class_count(*config));
    assert(config.special == SpecialMode::Full ==> is_special(password@[special_at]));
    assert(config.special == SpecialMode::Basic ==> is_basic_special(password@[special_at]));
    assert(config.number ==> is_number(password@[number_at]));
    assert(config.upper ==> is_uppercase(password@[upper_at]));
    assert(config.lower ==> is_lowercase(password@[lower_at]));
    assert(covers(*config, password@));
    assert(all_allowed(*config, password@));

    let length = config.length as usize;
    while password.len() < length
        invariant
            length == config.length,
            all_chars@ == alphabet(*config),
            all_chars@.len() > 0,
            forall|c: char| alphabet(*config).contains(c) <==> allowed(*config, c),
            class_count(*config) <= password@.len(),
            password@.len() <= password_length(*config),
            all_allowed(*config, password@),
            covers(*config, password@),
        decreases length - password.len(),
    {
        let ghost seeded = password@;
        let c = random_str(all_chars.as_str(), &mut rng);
        password.push(c);
        proof {
            lemma_grown_covers(*config, seeded, c);
        }
    }
    let ghost drawn = password@;
    shuffle_chars(&mut password, &mut rng);
    proof {
        lemma_rearranged_acceptable(*config, drawn, password@);
    }
    Ok(string_of(&password))
}

/// A password that covers the selected classes still does with one more
/// allowed character at its end.
proof fn lemma_grown_covers(config: Config, password: Seq<char>, c: char)
    requires
        all_allowed(config, password),
        covers(config, password),
        allowed(config, c),
    ensures
        all_allowed(config, password.push(c)),
        covers(config, password.push(c)),
{
    let grown = password.push(c);
    assert forall|i: int| 0 <= i < grown.len() implies allowed(config, #[trigger] grown[i]) by {
        if i < password.len() {
            assert(grown[i] == password[i]);
        }
    }
    if config.lower {
        let i = choose|i: int| 0 <= i < password.len() && is_lowercase(#[trigger] password[i]);
        assert(is_lowercase(grown[i]));
    }
    if config.upper {
        let i = choose|i: int| 0 <= i < password.len() && is_uppercase(#[trigger] password[i]);
        assert(is_uppercase(grown[i]));
    }
    if config.number {
        let i = choose|i: int| 0 <= i < password.len() && is_number(#[trigger] password[i]);
        assert(is_number(grown[i]));
    }
    if config.special == SpecialMode::Full {
        let i = choose|i: int| 0 <= i < password.len() && is_special(#[trigger] password[i]);
        assert(is_special(grown[i]));
    }
    if config.special == SpecialMode::Basic {
        let i = choose|i: int| 0 <= i < password.len() && is_basic_special(
            #[trigger] password[i],
        );
        assert(is_basic_special(grown[i]));
    }
}

} // verus!
