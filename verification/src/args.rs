//! Reading a scan request from the words of a command line.
//!
//! The command line has nine words: the program's name and four options,
//! each followed by its value. `-l` gives the first port, `-h` the port
//! past the last one, `-t` the number of head tasks and `-IP` the target
//! in dotted-decimal form. An option's value is the word that follows the
//! first word that spells the option.

use crate::address::{dotted_quad, parse_quad, TargetAddress};
use crate::config::{
    range_fault, ConfigError, ScanConfig, DEFAULT_LOCAL_WORKERS, DEFAULT_RETRIES,
};
use crate::text::{decimal, parse_decimal, to_chars};
use vstd::prelude::*;

verus! {

/// The number of words of a well-formed command line.
pub const ARGUMENT_COUNT: usize = 9;

pub open spec fn low_flag() -> Seq<char> {
    seq!['-', 'l']
}

pub open spec fn high_flag() -> Seq<char> {
    seq!['-', 'h']
}

pub open spec fn heads_flag() -> Seq<char> {
    seq!['-', 't']
}

pub open spec fn target_flag() -> Seq<char> {
    seq!['-', 'I', 'P']
}

/// The words of a command line as texts.
pub open spec fn words(args: Seq<String>) -> Seq<Seq<char>> {
    args.map_values(|arg: String| arg@)
}

/// The word that follows the first word at or after `from` that spells
/// `flag`, where there is one. The last word has none after it and so is
/// not looked at.
pub open spec fn value_after(words: Seq<Seq<char>>, flag: Seq<char>, from: int) -> Option<
    Seq<char>,
>
    decreases words.len() - from,
{
    if from < 0 || from + 1 >= words.len() {
        None
    } else if words[from] == flag {
        Some(words[from + 1])
    } else {
        value_after(words, flag, from + 1)
    }
}

/// The number that the option `flag` gives.
pub open spec fn number_option(words: Seq<Seq<char>>, flag: Seq<char>) -> Result<
    int,
    ConfigError,
> {
    match value_after(words, flag, 0) {
        None => Err(ConfigError::MissingOption),
        Some(text) => match decimal(text, 0xffff) {
            None => Err(ConfigError::BadNumber),
            Some(n) => Ok(n),
        },
    }
}

/// The octets of the target that the option `-IP` gives.
pub open spec fn target_option(words: Seq<Seq<char>>) -> Result<Seq<u8>, ConfigError> {
    match value_after(words, target_flag(), 0) {
        None => Err(ConfigError::MissingOption),
        Some(text) => match dotted_quad(text) {
            None => Err(ConfigError::BadAddress),
            Some(octets) => Ok(octets),
        },
    }
}

/// What is wrong with a command line, if anything is: the number of its
/// words, then the options in the order `-l`, `-h`, `-t`, `-IP`, then the
/// request that they spell.
pub open spec fn request_fault(words: Seq<Seq<char>>) -> Option<ConfigError> {
    if words.len() != ARGUMENT_COUNT {
        Some(ConfigError::Usage)
    } else {
        match number_option(words, low_flag()) {
            Err(e) => Some(e),
            Ok(low) => match number_option(words, high_flag()) {
                Err(e) => Some(e),
                Ok(high) => match number_option(words, heads_flag()) {
                    Err(e) => Some(e),
                    Ok(heads) => match target_option(words) {
                        Err(e) => Some(e),
                        Ok(_) => range_fault(
                            low as u16,
                            high as u16,
                            heads as u16,
                            DEFAULT_LOCAL_WORKERS,
                        ),
                    },
                },
            },
        }
    }
}

/// `config` is the request that a command line spells.
pub open spec fn spells(words: Seq<Seq<char>>, config: ScanConfig) -> bool {
    &&& number_option(words, low_flag()) == Ok::<int, ConfigError>(config.low as int)
    &&& number_option(words, high_flag()) == Ok::<int, ConfigError>(config.high as int)
    &&& number_option(words, heads_flag()) == Ok::<int, ConfigError>(config.head_count as int)
    &&& target_option(words) == Ok::<Seq<u8>, ConfigError>(config.target.octets@)
    &&& config.target.port == config.low
    &&& config.local_worker_count == DEFAULT_LOCAL_WORKERS
    &&& config.retries == DEFAULT_RETRIES
}

/// The texts of a list of words.
pub open spec fn texts(list: Seq<Vec<char>>) -> Seq<Seq<char>> {
    list.map_values(|word: Vec<char>| word@)
}

fn to_words(args: &Vec<String>) -> (list: Vec<Vec<char>>)
    ensures
        texts(list@) == words(args@),
{
    let mut list: Vec<Vec<char>> = Vec::new();
    let mut i: usize = 0;
    while i < args.len()
        invariant
            0 <= i <= args@.len(),
            list@.len() == i,
            forall|k: int| 0 <= k < i ==> (#[trigger] list@[k])@ == args@[k]@,
        decreases args@.len() - i,
    {
        list.push(to_chars(args[i].as_str()));
        i = i + 1;
    }
    assert(texts(list@) =~= words(args@));
    list
}

fn same_text(a: &Vec<char>, b: &Vec<char>) -> (same: bool)
    ensures
        same == (a@ == b@),
{
    if a.len() != b.len() {
        return false;
    }
    let mut i: usize = 0;
    while i < a.len()
        invariant
            0 <= i <= a@.len(),
            a@.len() == b@.len(),
            forall|k: int| 0 <= k < i ==> a@[k] == b@[k],
        decreases a@.len() - i,
    {
        if a[i] != b[i] {
            return false;
        }
        i = i + 1;
    }
    assert(a@ =~= b@);
    true
}

/// The place of the value of the option `flag` among the words.
fn find_value(list: &Vec<Vec<char>>, flag: &Vec<char>) -> (place: Option<usize>)
    ensures
        match place {
            Some(k) => 0 < k < list@.len() && value_after(texts(list@), flag@, 0) == Some(
                list@[k as int]@,
            ),
            None => value_after(texts(list@), flag@, 0) is None,
        },
{
    let ghost all = texts(list@);
    if list.len() == 0 {
        return None;
    }
    let last: usize = list.len() - 1;
    let mut i: usize = 0;
    while i < last
        invariant
            0 <= i <= last,
            last + 1 == list@.len(),
            all == texts(list@),
            value_after(all, flag@, 0) == value_after(all, flag@, i as int),
        decreases list@.len() - i,
    {
        assert(all[i as int] == list@[i as int]@);
        if same_text(&list[i], flag) {
            assert(all[i + 1] == list@[i + 1]@);
            return Some(i + 1);
        }
        i = i + 1;
    }
    None
}

fn read_number(list: &Vec<Vec<char>>, flag: &Vec<char>) -> (number: Result<u16, ConfigError>)
    ensures
        match number {
            Ok(n) => number_option(texts(list@), flag@) == Ok::<int, ConfigError>(n as int),
            Err(e) => number_option(texts(list@), flag@) == Err::<int, ConfigError>(e),
        },
{
    match find_value(list, flag) {
        None => Err(ConfigError::MissingOption),
        Some(k) => {
            let word = &list[k];
            assert(word@.subrange(0, word@.len() as int) =~= word@);
            match parse_decimal(word, 0, word.len(), 0xffff) {
                None => Err(ConfigError::BadNumber),
                Some(n) => Ok(n),
            }
        },
    }
}

fn read_target(list: &Vec<Vec<char>>) -> (octets: Result<[u8; 4], ConfigError>)
    ensures
        match octets {
            Ok(quad) => target_option(texts(list@)) == Ok::<Seq<u8>, ConfigError>(quad@),
            Err(e) => target_option(texts(list@)) == Err::<Seq<u8>, ConfigError>(e),
        },
{
    let flag: Vec<char> = vec!['-', 'I', 'P'];
    assert(flag@ =~= target_flag());
    match find_value(list, &flag) {
        None => Err(ConfigError::MissingOption),
        Some(k) => match parse_quad(&list[k]) {
            None => Err(ConfigError::BadAddress),
            Some(quad) => Ok(quad),
        },
    }
}

/// Reads the scan request that a command line spells, with the usual
/// number of local workers and of tries, and checks it.
pub fn parse_args(args: &Vec<String>) -> (parsed: Result<ScanConfig, ConfigError>)
    ensures
        match parsed {
            Ok(config) => {
                &&& request_fault(words(args@)) is None
                &&& spells(words(args@), config)
                &&& config.fault() is None
            },
            Err(e) => request_fault(words(args@)) == Some(e),
        },
{
    if args.len() != ARGUMENT_COUNT {
        return Err(ConfigError::Usage);
    }
    let list = to_words(args);
    let low_text: Vec<char> = vec!['-', 'l'];
    let high_text: Vec<char> = vec!['-', 'h'];
    let heads_text: Vec<char> = vec!['-', 't'];
    assert(low_text@ =~= low_flag());
    assert(high_text@ =~= high_flag());
    assert(heads_text@ =~= heads_flag());
    let low = read_number(&list, &low_text)?;
    let high = read_number(&list, &high_text)?;
    let head_count = read_number(&list, &heads_text)?;
    let octets = read_target(&list)?;
    let config = ScanConfig::new(TargetAddress::new(octets, low), low, high, head_count);
    match config.validate() {
        Ok(_) => Ok(config),
        Err(e) => Err(e),
    }
}

} // verus!
