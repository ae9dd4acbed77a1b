//! The service's settings, from what the environment says.

use crate::tokens::MAX_LEN;
use vstd::prelude::*;

verus! {

/// Port that the service listens on unless told otherwise.
pub const DEFAULT_PORT: u16 = 8402;

/// Lanes unless told otherwise. Each is another copy of the model's weights.
pub const DEFAULT_POOL_SIZE: usize = 2;

/// Padded tokens to a run unless told otherwise: two full-length texts' worth of
/// activations.
pub const DEFAULT_MAX_BATCH_TOKENS: usize = 16384;

/// The value of a string of decimal digits.
pub open spec fn decimal_value(digits: Seq<char>) -> nat
    decreases digits.len(),
{
    if digits.len() == 0 {
        0
    } else {
        decimal_value(digits.drop_last()) * 10 + (digits.last() as nat - '0' as nat) as nat
    }
}

pub open spec fn all_digits(text: Seq<char>) -> bool {
    forall|i: int| 0 <= i < text.len() ==> '0' <= #[trigger] text[i] && text[i] <= '9'
}

/// An unsigned number in decimal: digits, with an optional `+` before them.
pub open spec fn unsigned(text: Seq<char>) -> Option<nat> {
    let digits = if text.len() > 0 && text[0] == '+' {
        text.drop_first()
    } else {
        text
    };
    if digits.len() > 0 && all_digits(digits) {
        Some(decimal_value(digits))
    } else {
        None
    }
}

/// The number that a variable says, if it is set to a number of at most `max`.
pub open spec fn number_of(var: Option<String>, max: nat) -> Option<nat> {
    match var {
        Some(text) => match unsigned(text@) {
            Some(n) => if n <= max {
                Some(n)
            } else {
                None
            },
            None => None,
        },
        None => None,
    }
}

/// Calls `str::parse::<usize>`, which takes digits with an optional `+` before them,
/// and fails on anything else and on a number that does not fit.
#[verifier::external_body]
fn parse_usize(text: &str) -> (number: Option<usize>)
    ensures
        number == match unsigned(text@) {
            Some(n) => if n <= usize::MAX {
                Some(n as usize)
            } else {
                None
            },
            None => None,
        },
{
    text.parse().ok()
}

/// Calls `str::parse::<u16>`, which takes digits with an optional `+` before them, and
/// fails on anything else and on a number that does not fit.
#[verifier::external_body]
fn parse_u16(text: &str) -> (number: Option<u16>)
    ensures
        number == match unsigned(text@) {
            Some(n) => if n <= u16::MAX {
                Some(n as u16)
            } else {
                None
            },
            None => None,
        },
{
    text.parse().ok()
}

/// The characters with the Unicode property `White_Space`.
pub open spec fn is_white_space(c: char) -> bool {
    ||| '\u{9}' <= c <= '\u{d}'
    ||| c == ' '
    ||| c == '\u{85}'
    ||| c == '\u{a0}'
    ||| c == '\u{1680}'
    ||| '\u{2000}' <= c <= '\u{200a}'
    ||| c == '\u{2028}'
    ||| c == '\u{2029}'
    ||| c == '\u{202f}'
    ||| c == '\u{205f}'
    ||| c == '\u{3000}'
}

/// `text` without the white space at its ends.
pub open spec fn trimmed(text: Seq<char>) -> Seq<char>
    decreases text.len(),
{
    if text.len() == 0 {
        text
    } else if is_white_space(text[0]) {
        trimmed(text.drop_first())
    } else if is_white_space(text.last()) {
        trimmed(text.drop_last())
    } else {
        text
    }
}

/// Calls `str::trim`, which removes white space from both ends.
#[verifier::external_body]
fn trim(text: &str) -> (inner: &str)
    ensures
        inner@ == trimmed(text@),
{
    text.trim()
}

/// `MODEL_DIR`: where the model's files are.
pub fn model_dir(var: Option<String>) -> (dir: String)
    ensures
        dir@ == match var {
            Some(dir) => dir@,
            None => "models"@,
        },
{
    match var {
        Some(dir) => dir,
        None => "models".to_owned(),
    }
}

/// The tokenizer's definition within the model's directory.
pub fn tokenizer_path(model_dir: &str) -> (path: String)
    ensures
        path@ == model_dir@ + "/tokenizer.json"@,
{
    model_dir.to_owned().concat("/tokenizer.json")
}

/// The model's weights within the model's directory.
pub fn model_path(model_dir: &str) -> (path: String)
    ensures
        path@ == model_dir@ + "/model.onnx"@,
{
    model_dir.to_owned().concat("/model.onnx")
}

/// `EMBEDDING_PORT`: the port to listen on. Anything but a port counts as unset.
pub fn port(var: Option<String>) -> (port: u16)
    ensures
        port == match number_of(var, u16::MAX as nat) {
            Some(n) => n,
            None => DEFAULT_PORT as nat,
        },
{
    let number: Option<u16> = match &var {
        Some(text) => parse_u16(text.as_str()),
        None => None,
    };
    match number {
        Some(n) => n,
        None => DEFAULT_PORT,
    }
}

fn number(var: &Option<String>) -> (number: Option<usize>)
    ensures
        match number {
            Some(n) => number_of(*var, usize::MAX as nat) == Some(n as nat),
            None => number_of(*var, usize::MAX as nat) is None,
        },
{
    match var {
        Some(text) => parse_usize(text.as_str()),
        None => None,
    }
}

/// `EMBEDDING_POOL_SIZE`: the number of lanes, at least one. Anything else counts as
/// unset.
pub fn pool_size(var: Option<String>) -> (size: usize)
    ensures
        size == match number_of(var, usize::MAX as nat) {
            Some(n) => if n >= 1 {
                n
            } else {
                DEFAULT_POOL_SIZE as nat
            },
            None => DEFAULT_POOL_SIZE as nat,
        },
        size >= 1,
{
    match number(&var) {
        Some(n) => if n >= 1 {
            n
        } else {
            DEFAULT_POOL_SIZE
        },
        None => DEFAULT_POOL_SIZE,
    }
}

/// Threads within a lane: the cores are split between the lanes, so that all of them
/// together do not oversubscribe the machine.
pub open spec fn threads_of(cores: int, pool_size: int) -> int {
    if cores / pool_size >= 1 {
        cores / pool_size
    } else {
        1
    }
}

/// Threads for each of `pool_size` lanes on this many cores.
pub fn intra_threads(cores: usize, pool_size: usize) -> (threads: usize)
    requires
        pool_size > 0,
    ensures
        threads == threads_of(cores as int, pool_size as int),
        threads >= 1,
{
    let share: usize = cores / pool_size;
    if share >= 1 {
        share
    } else {
        1
    }
}

/// All lanes together run no more threads than there are cores, as long as there is a
/// core for each lane; with fewer cores than lanes each lane runs one thread.
pub proof fn law_lanes_do_not_oversubscribe(cores: int, pool_size: int)
    requires
        0 <= cores,
        0 < pool_size,
    ensures
        pool_size <= cores ==> threads_of(cores, pool_size) * pool_size <= cores,
        cores < pool_size ==> threads_of(cores, pool_size) == 1,
{
    let share = cores / pool_size;
    vstd::arithmetic::div_mod::lemma_fundamental_div_mod(cores, pool_size);
    vstd::arithmetic::mul::lemma_mul_is_commutative(pool_size, share);
    if pool_size <= cores {
        vstd::arithmetic::div_mod::lemma_div_is_ordered(pool_size, cores, pool_size);
        vstd::arithmetic::div_mod::lemma_div_by_self(pool_size);
    } else {
        vstd::arithmetic::div_mod::lemma_basic_div(cores, pool_size);
    }
}

/// `EMBEDDING_MAX_BATCH_TOKENS`: padded tokens to a run. Never less than one
/// full-length text, so that such a text always runs within it.
pub fn max_batch_tokens(var: Option<String>) -> (tokens: usize)
    ensures
        tokens == match number_of(var, usize::MAX as nat) {
            Some(n) => if n >= MAX_LEN {
                n
            } else {
                MAX_LEN as nat
            },
            None => DEFAULT_MAX_BATCH_TOKENS as nat,
        },
        tokens >= MAX_LEN,
{
    match number(&var) {
        Some(n) => if n >= MAX_LEN {
            n
        } else {
            MAX_LEN
        },
        None => DEFAULT_MAX_BATCH_TOKENS,
    }
}

/// The words that turn a setting off.
pub open spec fn is_off(word: Seq<char>) -> bool {
    word == "0"@ || word == "false"@ || word == "no"@ || word == "off"@
}

/// `EMBEDDING_CPU_ARENA`: whether the model runtime keeps its own memory arena. On
/// unless set to a word for off.
pub fn cpu_arena(var: Option<String>) -> (on: bool)
    ensures
        on == match var {
            Some(text) => !is_off(trimmed(text@)),
            None => true,
        },
{
    match &var {
        Some(text) => {
            let word: String = trim(text.as_str()).to_owned();
            !(word == "0".to_owned() || word == "false".to_owned() || word == "no".to_owned()
                || word == "off".to_owned())
        },
        None => true,
    }
}

/// Decimal digits count as they do on paper: no digits are worth nothing, and a further
/// digit makes ten times as much and itself.
pub proof fn law_digits_count_as_on_paper(digits: Seq<char>, digit: char)
    requires
        '0' <= digit <= '9',
    ensures
        decimal_value(Seq::empty()) == 0,
        decimal_value(digits.push(digit)) == 10 * decimal_value(digits) + (digit as int
            - '0' as int),
{
    assert(digits.push(digit).drop_last() =~= digits);
}

/// A number is one digit or more, with or without a plus before them, and nothing else.
pub proof fn law_number_is_digits(text: Seq<char>)
    ensures
        text.len() > 0 && (forall|i: int|
            0 <= i < text.len() ==> '0' <= #[trigger] text[i] && text[i] <= '9') ==> unsigned(text)
            == Some(decimal_value(text)) && unsigned(seq!['+'] + text) == Some(
            decimal_value(text),
        ),
        text.len() == 0 ==> unsigned(text) is None,
        text == seq!['+'] ==> unsigned(text) is None,
        (exists|i: int|
            0 < i < text.len() && !('0' <= #[trigger] text[i] && text[i] <= '9')) ==> unsigned(
            text,
        ) is None,
        text.len() > 0 && text[0] != '+' && !('0' <= text[0] && text[0] <= '9') ==> unsigned(
            text,
        ) is None,
{
    let signed = seq!['+'] + text;
    assert(signed.drop_first() =~= text);
    assert(signed[0] == '+');
    if exists|i: int| 0 < i < text.len() && !('0' <= #[trigger] text[i] && text[i] <= '9') {
        let i = choose|i: int| 0 < i < text.len() && !('0' <= #[trigger] text[i] && text[i] <= '9');
        assert(text.drop_first()[i - 1] == text[i]);
    }
}

/// The port is the number that the variable says, if it says one that is a port, and
/// otherwise the default.
pub proof fn law_port_is_what_the_variable_says(var: Option<String>, result: u16)
    requires
        call_ensures(port, (var,), result),
    ensures
        var matches Some(text) ==> {
            &&& unsigned(text@) is Some && unsigned(text@)->0 <= 65535 ==> result as nat
                == unsigned(text@)->0
            &&& unsigned(text@) is None || unsigned(text@)->0 > 65535 ==> result == 8402
        },
        var is None ==> result == 8402,
{
}

/// There are as many lanes as the variable says, if it says a number that is not zero and
/// that the machine can hold, and otherwise two.
pub proof fn law_pool_size_is_what_the_variable_says(var: Option<String>, size: usize)
    requires
        call_ensures(pool_size, (var,), size),
    ensures
        var matches Some(text) ==> {
            &&& unsigned(text@) is Some && 1 <= unsigned(text@)->0 <= usize::MAX ==> size as nat
                == unsigned(text@)->0
            &&& unsigned(text@) is None || unsigned(text@)->0 == 0 || unsigned(text@)->0
                > usize::MAX ==> size == 2
        },
        var is None ==> size == 2,
{
}

/// The budget is what the variable says, but never below one text of full length; without
/// a number that the machine can hold it is two such texts.
pub proof fn law_budget_is_what_the_variable_says(var: Option<String>, tokens: usize)
    requires
        call_ensures(max_batch_tokens, (var,), tokens),
    ensures
        var matches Some(text) ==> {
            &&& unsigned(text@) is Some && 8192 <= unsigned(text@)->0 <= usize::MAX
                ==> tokens as nat == unsigned(text@)->0
            &&& unsigned(text@) is Some && unsigned(text@)->0 < 8192 ==> tokens == 8192
            &&& unsigned(text@) is None || unsigned(text@)->0 > usize::MAX ==> tokens == 16384
        },
        var is None ==> tokens == 16384,
{
}

/// Cores can be split between any number of lanes but none.
pub proof fn law_any_lanes_get_threads(cores: usize, pool_size: usize)
    requires
        pool_size > 0,
    ensures
        call_requires(intra_threads, (cores, pool_size)),
{
}

/// The lanes get as many threads as the cores allow: at least one each, and no more in
/// all than there are cores, but one more for each lane would be too many.
pub proof fn law_threads_use_the_cores(cores: usize, pool_size: usize, threads: usize)
    requires
        call_ensures(intra_threads, (cores, pool_size), threads),
        pool_size > 0,
    ensures
        threads >= 1,
        threads > 1 ==> threads * pool_size <= cores,
        (threads + 1) * pool_size > cores,
{
    let share = cores as int / pool_size as int;
    vstd::arithmetic::div_mod::lemma_fundamental_div_mod(cores as int, pool_size as int);
    vstd::arithmetic::div_mod::lemma_mod_bound(cores as int, pool_size as int);
    let p = pool_size as int;
    let n = threads as int;
    assert(p * share == share * p) by (nonlinear_arith);
    assert((n + 1) * p == n * p + p) by (nonlinear_arith);
    if share < 1 {
        vstd::arithmetic::div_mod::lemma_div_pos_is_pos(cores as int, p);
        assert(share * p == 0) by (nonlinear_arith)
            requires
                share == 0,
        ;
        assert(n * p == p) by (nonlinear_arith)
            requires
                n == 1,
        ;
    }
}

proof fn lemma_trimmed_word(before: Seq<char>, word: Seq<char>, after: Seq<char>)
    requires
        forall|i: int| 0 <= i < before.len() ==> is_white_space(#[trigger] before[i]),
        forall|i: int| 0 <= i < after.len() ==> is_white_space(#[trigger] after[i]),
        word.len() > 0,
        !is_white_space(word[0]),
        !is_white_space(word.last()),
    ensures
        trimmed(before + word + after) == word,
    decreases before.len() + after.len(),
{
    let text = before + word + after;
    if before.len() > 0 {
        assert(text[0] == before[0]);
        assert(text.drop_first() =~= before.drop_first() + word + after);
        lemma_trimmed_word(before.drop_first(), word, after);
    } else if after.len() > 0 {
        assert(text[0] == word[0]);
        assert(text.last() == after.last());
        assert(text.drop_last() =~= before + word + after.drop_last());
        lemma_trimmed_word(before, word, after.drop_last());
    } else {
        assert(text =~= word);
    }
}

/// Only four words turn the arena off, whatever white space stands around them. Nothing
/// else does: neither another word, nor one of them within a longer one.
pub proof fn law_only_a_word_for_off_turns_the_arena_off(
    var: Option<String>,
    before: Seq<char>,
    word: Seq<char>,
    after: Seq<char>,
    on: bool,
)
    requires
        call_ensures(cpu_arena, (var,), on),
        var matches Some(text) ==> {
            &&& text@ == before + word + after
            &&& forall|i: int| 0 <= i < before.len() ==> is_white_space(#[trigger] before[i])
            &&& forall|i: int| 0 <= i < after.len() ==> is_white_space(#[trigger] after[i])
            &&& word.len() > 0
            &&& !is_white_space(word[0])
            &&& !is_white_space(word[word.len() - 1])
        },
    ensures
        var is None ==> on,
        var is Some ==> (!on <==> word == seq!['0'] || word == seq!['f', 'a', 'l', 's', 'e'] || word
            == seq!['n', 'o'] || word == seq!['o', 'f', 'f']),
{
    if var is Some {
        lemma_trimmed_word(before, word, after);
    }
    reveal_strlit("0");
    reveal_strlit("false");
    reveal_strlit("no");
    reveal_strlit("off");
    assert("0"@ =~= seq!['0']);
    assert("false"@ =~= seq!['f', 'a', 'l', 's', 'e']);
    assert("no"@ =~= seq!['n', 'o']);
    assert("off"@ =~= seq!['o', 'f', 'f']);
}

/// A variable that holds only white space leaves the arena on.
pub proof fn law_white_space_alone_says_nothing(text: String, on: bool)
    requires
        call_ensures(cpu_arena, (Some(text),), on),
        forall|i: int| 0 <= i < text@.len() ==> is_white_space(#[trigger] text@[i]),
    ensures
        on,
{
    lemma_trimmed_white_space(text@);
    reveal_strlit("0");
    reveal_strlit("false");
    reveal_strlit("no");
    reveal_strlit("off");
}

proof fn lemma_trimmed_white_space(text: Seq<char>)
    requires
        forall|i: int| 0 <= i < text.len() ==> is_white_space(#[trigger] text[i]),
    ensures
        trimmed(text).len() == 0,
    decreases text.len(),
{
    if text.len() > 0 {
        assert(is_white_space(text[0]));
        assert forall|i: int| 0 <= i < text.drop_first().len() implies is_white_space(
            #[trigger] text.drop_first()[i],
        ) by {
            assert(text.drop_first()[i] == text[i + 1]);
        }
        lemma_trimmed_white_space(text.drop_first());
    }
}

/// Of the ASCII characters, white space is the space and the controls from tab to carriage
/// return. No letter, digit or sign is.
pub proof fn law_no_sign_is_white_space(c: char)
    requires
        c <= '\u{7f}',
    ensures
        is_white_space(c) <==> c == ' ' || '\t' <= c <= '\r',
{
}

/// The model's files are looked for where the variable says, and otherwise in `models`.
pub proof fn law_model_directory_is_what_the_variable_says(var: Option<String>, dir: String)
    requires
        call_ensures(model_dir, (var,), dir),
    ensures
        var matches Some(text) ==> dir@ == text@,
        var is None ==> dir@ == seq!['m', 'o', 'd', 'e', 'l', 's'],
{
    reveal_strlit("models");
    assert("models"@ =~= seq!['m', 'o', 'd', 'e', 'l', 's']);
}

/// Both files lie in the model's directory under their own names.
pub proof fn law_files_lie_in_the_directory(dir: &str, tokenizer: String, model: String)
    requires
        call_ensures(tokenizer_path, (dir,), tokenizer),
        call_ensures(model_path, (dir,), model),
    ensures
        tokenizer@.len() == dir@.len() + 15,
        model@.len() == dir@.len() + 11,
        tokenizer@.subrange(0, dir@.len() as int) == dir@,
        model@.subrange(0, dir@.len() as int) == dir@,
        tokenizer@.subrange(dir@.len() as int, tokenizer@.len() as int) == "/tokenizer.json"@,
        model@.subrange(dir@.len() as int, model@.len() as int) == "/model.onnx"@,
{
    reveal_strlit("/tokenizer.json");
    reveal_strlit("/model.onnx");
    assert(tokenizer@.subrange(0, dir@.len() as int) =~= dir@);
    assert(model@.subrange(0, dir@.len() as int) =~= dir@);
    assert(tokenizer@.subrange(dir@.len() as int, tokenizer@.len() as int)
        =~= "/tokenizer.json"@);
    assert(model@.subrange(dir@.len() as int, model@.len() as int) =~= "/model.onnx"@);
}

} // verus!
