//! What the tokens select: the outcome of parsing, stated over the tokens as a
//! whole rather than one step after the other.

use crate::args::cluster_step;
use crate::args::decimal_value;
use crate::args::digit_value;
use crate::args::flag_step;
use crate::args::invalid_flag_message;
use crate::args::invalid_length_message;
use crate::args::is_cluster;
use crate::args::length_of;
use crate::args::parse_outcome;
use crate::args::token_step;
use crate::args::tokens_step;
use crate::args::Config;
use crate::args::Parsed;
use crate::args::SpecialMode;
use crate::args::DEFAULT_LENGTH;
use crate::args::MAX_LENGTH;
use vstd::prelude::*;

verus! {

/// True for the flag letters that select a class.
pub open spec fn is_class_letter(c: char) -> bool {
    c == 'l' || c == 'u' || c == 'n' || c == 's' || c == 'b'
}

/// True for a token that sets the length.
pub open spec fn is_length_token(token: Seq<char>) -> bool {
    token != "--help"@ && !is_cluster(token) && length_of(token) is Some
}

/// True for a flag cluster that holds class letters only.
pub open spec fn is_class_cluster(token: Seq<char>) -> bool {
    is_cluster(token) && forall|j: int| 1 <= j < token.len() ==> is_class_letter(#[trigger] token[j])
}

/// True for a token that reading goes on after: a cluster of class letters
/// or a length.
pub open spec fn is_plain(token: Seq<char>) -> bool {
    is_class_cluster(token) || is_length_token(token)
}

/// True when every token is one that reading goes on after.
pub open spec fn all_plain(tokens: Seq<Seq<char>>) -> bool {
    forall|i: int| 0 <= i < tokens.len() ==> is_plain(#[trigger] tokens[i])
}

/// True when some flag cluster among the tokens holds the letter.
pub open spec fn names(tokens: Seq<Seq<char>>, flag: char) -> bool {
    exists|i: int, j: int|
        0 <= i < tokens.len() && is_cluster(tokens[i]) && 1 <= j < tokens[i].len()
            && #[trigger] tokens[i][j] == flag
}

/// True when some flag cluster among the tokens holds a class letter.
pub open spec fn names_a_class(tokens: Seq<Seq<char>>) -> bool {
    names(tokens, 'l') || names(tokens, 'u') || names(tokens, 'n') || names(tokens, 's') || names(
        tokens,
        'b',
    )
}

/// The special mode after some flags: basic where `b` is among them in any
/// place; else the mode set before them, if one was; else full where `s` is
/// among them.
pub open spec fn special_after(before: SpecialMode, basic: bool, full: bool) -> SpecialMode {
    if basic {
        SpecialMode::Basic
    } else if before != SpecialMode::Disabled {
        before
    } else if full {
        SpecialMode::Full
    } else {
        SpecialMode::Disabled
    }
}

/// The length that the last length token gives, or `otherwise` where there
/// is none.
pub open spec fn last_length(tokens: Seq<Seq<char>>, otherwise: u16) -> u16
    decreases tokens.len(),
{
    if tokens.len() == 0 {
        otherwise
    } else if is_length_token(tokens.last()) {
        length_of(tokens.last())->0
    } else {
        last_length(tokens.drop_last(), otherwise)
    }
}

/// The state after a cluster of class letters.
pub open spec fn after_letters(state: Config, letters: Seq<char>) -> Config {
    Config {
        lower: state.lower || letters.contains('l'),
        upper: state.upper || letters.contains('u'),
        number: state.number || letters.contains('n'),
        special: special_after(state.special, letters.contains('b'), letters.contains('s')),
        length: state.length,
    }
}

/// The state after tokens that reading goes on after.
pub open spec fn after_tokens(state: Config, tokens: Seq<Seq<char>>) -> Config {
    Config {
        lower: state.lower || names(tokens, 'l'),
        upper: state.upper || names(tokens, 'u'),
        number: state.number || names(tokens, 'n'),
        special: special_after(state.special, names(tokens, 'b'), names(tokens, 's')),
        length: last_length(tokens, state.length),
    }
}

/// A cluster of class letters selects every class that one of its letters
/// names, in whatever order they stand, and leaves the length alone.
pub proof fn lemma_class_letters(state: Config, letters: Seq<char>)
    requires
        forall|j: int| 0 <= j < letters.len() ==> is_class_letter(#[trigger] letters[j]),
    ensures
        cluster_step(state, letters) == Ok::<Parsed, Seq<char>>(
            Parsed::Config(after_letters(state, letters)),
        ),
    decreases letters.len(),
{
    if letters.len() == 0 {
        assert(after_letters(state, letters) == state);
    } else {
        let first = letters[0];
        let rest = letters.drop_first();
        assert(is_class_letter(first));
        let next = flag_step(state, first)->Ok_0->Config_0;
        assert forall|j: int| 0 <= j < rest.len() implies is_class_letter(#[trigger] rest[j]) by {
            assert(rest[j] == letters[j + 1]);
        }
        lemma_class_letters(next, rest);
        assert forall|c: char| letters.contains(c) <==> (first == c || rest.contains(c)) by {
            if letters.contains(c) {
                let j = choose|j: int| 0 <= j < letters.len() && letters[j] == c;
                if j > 0 {
                    assert(rest[j - 1] == c);
                }
            }
            if rest.contains(c) {
                let j = choose|j: int| 0 <= j < rest.len() && rest[j] == c;
                assert(letters[j + 1] == c);
            }
            if first == c {
                assert(letters[0] == c);
            }
        }
        assert(after_letters(next, rest) == after_letters(state, letters));
    }
}

/// What a letter that is no class letter comes to: help for `h`, an error
/// that names the letter for any other.
pub open spec fn stop_outcome(flag: char) -> Result<Parsed, Seq<char>> {
    if flag == 'h' {
        Ok(Parsed::Help)
    } else {
        Err(invalid_flag_message(flag))
    }
}

/// The first letter of a cluster that is no class letter decides what the
/// cluster comes to, whatever follows it.
pub proof fn lemma_first_other_letter(state: Config, letters: Seq<char>, at: int)
    requires
        0 <= at < letters.len(),
        forall|j: int| 0 <= j < at ==> is_class_letter(#[trigger] letters[j]),
        !is_class_letter(letters[at]),
    ensures
        cluster_step(state, letters) == stop_outcome(letters[at]),
    decreases letters.len(),
{
    if at > 0 {
        let rest = letters.drop_first();
        assert(is_class_letter(letters[0]));
        let next = flag_step(state, letters[0])->Ok_0->Config_0;
        assert forall|j: int| 0 <= j < at - 1 implies is_class_letter(#[trigger] rest[j]) by {
            assert(rest[j] == letters[j + 1]);
        }
        assert(rest[at - 1] == letters[at]);
        lemma_first_other_letter(next, rest, at - 1);
    }
}

/// Reading tokens and then one more is reading them all: the last token is
/// read only where the ones before it left a state to go on from.
pub proof fn lemma_one_more_token(state: Config, tokens: Seq<Seq<char>>, token: Seq<char>)
    ensures
        tokens_step(state, tokens.push(token)) == match tokens_step(state, tokens) {
            Ok(Parsed::Config(next)) => token_step(next, token),
            other => other,
        },
    decreases tokens.len(),
{
    let all = tokens.push(token);
    if tokens.len() == 0 {
        assert(all.drop_first() =~= tokens);
        assert(all[0] == token);
        match token_step(state, token) {
            Ok(Parsed::Config(next)) => {
                assert(tokens_step(next, tokens) == Ok::<Parsed, Seq<char>>(
                    Parsed::Config(next),
                ));
            },
            _ => {},
        }
    } else {
        assert(all[0] == tokens[0]);
        assert(all.drop_first() =~= tokens.drop_first().push(token));
        match token_step(state, tokens[0]) {
            Ok(Parsed::Config(next)) => {
                lemma_one_more_token(next, tokens.drop_first(), token);
            },
            _ => {},
        }
    }
}

/// A letter is named by tokens and one more where the tokens name it or the
/// last one, a cluster, holds it.
proof fn lemma_names_one_more(tokens: Seq<Seq<char>>, token: Seq<char>, flag: char)
    ensures
        names(tokens.push(token), flag) <==> names(tokens, flag) || (is_cluster(token)
            && token.drop_first().contains(flag)),
{
    let all = tokens.push(token);
    if names(all, flag) {
        let (i, j) = choose|i: int, j: int|
            0 <= i < all.len() && is_cluster(all[i]) && 1 <= j < all[i].len()
                && #[trigger] all[i][j] == flag;
        if i < tokens.len() {
            assert(tokens[i][j] == flag);
        } else {
            assert(token.drop_first()[j - 1] == flag);
        }
    }
    if names(tokens, flag) {
        let (i, j) = choose|i: int, j: int|
            0 <= i < tokens.len() && is_cluster(tokens[i]) && 1 <= j < tokens[i].len()
                && #[trigger] tokens[i][j] == flag;
        assert(all[i][j] == flag);
    }
    if is_cluster(token) && token.drop_first().contains(flag) {
        let letters = token.drop_first();
        let j = choose|j: int| 0 <= j < letters.len() && letters[j] == flag;
        assert(all[tokens.len() as int][j + 1] == flag);
    }
}

/// Tokens that reading goes on after select every class that a flag among
/// them names, in whatever order they stand; `b` among them makes the special
/// characters the basic ones; and the last length token gives the length.
pub proof fn lemma_plain_tokens(state: Config, tokens: Seq<Seq<char>>)
    requires
        all_plain(tokens),
    ensures
        tokens_step(state, tokens) == Ok::<Parsed, Seq<char>>(
            Parsed::Config(after_tokens(state, tokens)),
        ),
    decreases tokens.len(),
{
    if tokens.len() == 0 {
        assert(after_tokens(state, tokens) == state);
    } else {
        let before = tokens.drop_last();
        let token = tokens.last();
        assert(tokens =~= before.push(token));
        assert forall|i: int| 0 <= i < before.len() implies is_plain(#[trigger] before[i]) by {
            assert(before[i] == tokens[i]);
        }
        assert(is_plain(token));
        lemma_plain_tokens(state, before);
        lemma_one_more_token(state, before, token);
        lemma_names_one_more(before, token, 'l');
        lemma_names_one_more(before, token, 'u');
        lemma_names_one_more(before, token, 'n');
        lemma_names_one_more(before, token, 's');
        lemma_names_one_more(before, token, 'b');
        let middle = after_tokens(state, before);
        if is_class_cluster(token) {
            let letters = token.drop_first();
            assert forall|j: int| 0 <= j < letters.len() implies is_class_letter(
                #[trigger] letters[j],
            ) by {
                assert(letters[j] == token[j + 1]);
            }
            lemma_class_letters(middle, letters);
            assert(after_letters(middle, letters) == after_tokens(state, tokens));
        } else {
            assert(is_length_token(token));
            assert(Config { length: length_of(token)->0, ..middle } == after_tokens(
                state,
                tokens,
            ));
        }
    }
}

/// Reading two runs of tokens one after the other is reading them as one:
/// the second run is read only where the first left a state to go on from.
pub proof fn lemma_tokens_in_two_runs(
    state: Config,
    first: Seq<Seq<char>>,
    second: Seq<Seq<char>>,
)
    ensures
        tokens_step(state, first + second) == match tokens_step(state, first) {
            Ok(Parsed::Config(next)) => tokens_step(next, second),
            other => other,
        },
    decreases second.len(),
{
    if second.len() == 0 {
        assert(first + second =~= first);
        match tokens_step(state, first) {
            Ok(Parsed::Config(next)) => {
                assert(tokens_step(next, second) == Ok::<Parsed, Seq<char>>(
                    Parsed::Config(next),
                ));
            },
            _ => {},
        }
    } else {
        let before = second.drop_last();
        assert(first + second =~= (first + before).push(second.last()));
        assert(second =~= before.push(second.last()));
        lemma_tokens_in_two_runs(state, first, before);
        lemma_one_more_token(state, first + before, second.last());
        match tokens_step(state, first) {
            Ok(Parsed::Config(next)) => {
                lemma_one_more_token(next, before, second.last());
            },
            _ => {},
        }
    }
}

/// The first token that reading does not go on after decides the outcome,
/// whatever follows it.
pub proof fn lemma_first_other_token(tokens: Seq<Seq<char>>, at: int)
    requires
        0 <= at < tokens.len(),
        all_plain(tokens.take(at)),
        !is_plain(tokens[at]),
    ensures
        parse_outcome(tokens) == token_step(
            after_tokens(Config::initial(), tokens.take(at)),
            tokens[at],
        ),
        !(parse_outcome(tokens) matches Ok(Parsed::Config(_))),
{
    let before = tokens.take(at);
    let from = tokens.skip(at);
    let middle = after_tokens(Config::initial(), before);
    assert(tokens =~= before + from);
    lemma_plain_tokens(Config::initial(), before);
    lemma_tokens_in_two_runs(Config::initial(), before, from);
    assert(from[0] == tokens[at]);
    let token = tokens[at];
    if token != "--help"@ && is_cluster(token) {
        let letters = token.drop_first();
        if forall|j: int| 0 <= j < letters.len() ==> is_class_letter(#[trigger] letters[j]) {
            assert forall|j: int| 1 <= j < token.len() implies is_class_letter(
                #[trigger] token[j],
            ) by {
                assert(letters[j - 1] == token[j]);
            }
        }
        lemma_cluster_stops(middle, letters);
    }
}

/// A cluster that holds a letter that is no class letter leaves no state to
/// go on from.
proof fn lemma_cluster_stops(state: Config, letters: Seq<char>)
    requires
        exists|j: int| 0 <= j < letters.len() && !is_class_letter(#[trigger] letters[j]),
    ensures
        !(cluster_step(state, letters) matches Ok(Parsed::Config(_))),
    decreases letters.len(),
{
    let j = choose|j: int| 0 <= j < letters.len() && !is_class_letter(#[trigger] letters[j]);
    if is_class_letter(letters[0]) {
        let rest = letters.drop_first();
        assert(rest[j - 1] == letters[j]);
        lemma_cluster_stops(flag_step(state, letters[0])->Ok_0->Config_0, rest);
    }
}

/// Help is the outcome where the first token that reading does not go on
/// after is `--help`.
pub proof fn lemma_help_token(tokens: Seq<Seq<char>>, at: int)
    requires
        0 <= at < tokens.len(),
        all_plain(tokens.take(at)),
        tokens[at] == "--help"@,
    ensures
        parse_outcome(tokens) == Ok::<Parsed, Seq<char>>(Parsed::Help),
{
    reveal_strlit("--help");
    lemma_first_other_token(tokens, at);
}

/// Where the first token that reading does not go on after is a flag cluster,
/// its first letter that is no class letter decides: help for `h`, and for any
/// other letter an error whose message ends with that letter.
pub proof fn lemma_other_flag(tokens: Seq<Seq<char>>, at: int, letter_at: int)
    requires
        0 <= at < tokens.len(),
        all_plain(tokens.take(at)),
        is_cluster(tokens[at]),
        1 <= letter_at < tokens[at].len(),
        forall|j: int| 1 <= j < letter_at ==> is_class_letter(#[trigger] tokens[at][j]),
        !is_class_letter(tokens[at][letter_at]),
    ensures
        parse_outcome(tokens) == stop_outcome(tokens[at][letter_at]),
        tokens[at][letter_at] != 'h' ==> parse_outcome(tokens) == Err::<Parsed, Seq<char>>(
            invalid_flag_message(tokens[at][letter_at]),
        ),
        invalid_flag_message(tokens[at][letter_at]).last() == tokens[at][letter_at],
{
    let token = tokens[at];
    let letters = token.drop_first();
    lemma_first_other_token(tokens, at);
    assert forall|j: int| 0 <= j < letter_at - 1 implies is_class_letter(
        #[trigger] letters[j],
    ) by {
        assert(letters[j] == token[j + 1]);
    }
    assert(letters[letter_at - 1] == token[letter_at]);
    lemma_first_other_letter(
        after_tokens(Config::initial(), tokens.take(at)),
        letters,
        letter_at - 1,
    );
}

/// Where the first token that reading does not go on after starts with no
/// dash and denotes no length, the outcome is an error whose message holds
/// the token and, before its closing bracket, the largest length in decimal.
pub proof fn lemma_other_length(tokens: Seq<Seq<char>>, at: int)
    requires
        0 <= at < tokens.len(),
        all_plain(tokens.take(at)),
        tokens[at].len() == 0 || tokens[at][0] != '-',
        length_of(tokens[at]) is None,
    ensures
        parse_outcome(tokens) == Err::<Parsed, Seq<char>>(invalid_length_message(tokens[at])),
        invalid_length_message(tokens[at]).subrange(15, 15 + tokens[at].len() as int) == tokens[at],
        ({
            let message = invalid_length_message(tokens[at]);
            let maximum = message.subrange(message.len() - 6, message.len() - 1);
            maximum.len() == 5 && decimal_value(maximum) == MAX_LENGTH
        }),
{
    reveal_strlit("--help");
    reveal_strlit("Invalid length ");
    reveal_strlit(" (max 65535)");
    lemma_first_other_token(tokens, at);
    let token = tokens[at];
    let message = invalid_length_message(token);
    assert(message.subrange(15, 15 + token.len() as int) =~= token);
    let maximum = message.subrange(message.len() - 6, message.len() - 1);
    assert(maximum =~= seq!['6', '5', '5', '3', '5']);
    lemma_decimal_five(maximum);
}

/// The value of a run of five digits.
proof fn lemma_decimal_five(digits: Seq<char>)
    requires
        digits.len() == 5,
    ensures
        decimal_value(digits) == 10000 * digit_value(digits[0]) + 1000
            * digit_value(digits[1]) + 100 * digit_value(digits[2])
            + 10 * digit_value(digits[3]) + digit_value(digits[4]),
{
    let d4 = digits.drop_last();
    let d3 = d4.drop_last();
    let d2 = d3.drop_last();
    let d1 = d2.drop_last();
    assert(d1.drop_last().len() == 0);
    assert(decimal_value(d1) == digit_value(digits[0])) by {
        assert(decimal_value(d1.drop_last()) == 0);
    }
    assert(decimal_value(d2) == 10 * decimal_value(d1) + digit_value(digits[1]));
    assert(decimal_value(d3) == 10 * decimal_value(d2) + digit_value(digits[2]));
    assert(decimal_value(d4) == 10 * decimal_value(d3) + digit_value(digits[3]));
    assert(decimal_value(digits) == 10 * decimal_value(d4) + digit_value(
        digits[4],
    ));
}

/// With no class flag among them, tokens that are all read select every
/// class, with the full special characters, whatever lengths they give.
pub proof fn lemma_nothing_named_selects_all(tokens: Seq<Seq<char>>)
    requires
        all_plain(tokens),
        !names_a_class(tokens),
    ensures
        parse_outcome(tokens) == Ok::<Parsed, Seq<char>>(
            Parsed::Config(
                Config {
                    lower: true,
                    upper: true,
                    number: true,
                    special: SpecialMode::Full,
                    length: last_length(tokens, DEFAULT_LENGTH),
                },
            ),
        ),
{
    lemma_plain_tokens(Config::initial(), tokens);
}

/// With a class flag among them, tokens that are all read select the classes
/// that their flags name and no other.
pub proof fn lemma_named_classes_only(tokens: Seq<Seq<char>>)
    requires
        all_plain(tokens),
        names_a_class(tokens),
    ensures
        parse_outcome(tokens) == Ok::<Parsed, Seq<char>>(
            Parsed::Config(
                Config {
                    lower: names(tokens, 'l'),
                    upper: names(tokens, 'u'),
                    number: names(tokens, 'n'),
                    special: if names(tokens, 'b') {
                        SpecialMode::Basic
                    } else if names(tokens, 's') {
                        SpecialMode::Full
                    } else {
                        SpecialMode::Disabled
                    },
                    length: last_length(tokens, DEFAULT_LENGTH),
                },
            ),
        ),
{
    lemma_plain_tokens(Config::initial(), tokens);
}

/// Where `b` stands among the flags, before or after any `s`, the special
/// characters are the basic ones.
pub proof fn lemma_basic_wins(tokens: Seq<Seq<char>>)
    requires
        all_plain(tokens),
        names(tokens, 'b'),
    ensures
        parse_outcome(tokens) matches Ok(Parsed::Config(config)) && config.special
            == SpecialMode::Basic,
{
    lemma_named_classes_only(tokens);
}

/// A configuration that parsing gives always selects a class.
pub proof fn lemma_parsed_selects(tokens: Seq<Seq<char>>)
    ensures
        parse_outcome(tokens) matches Ok(Parsed::Config(config)) ==> !config.selects_nothing(),
{
}

} // verus!
