//! Target addresses and their dotted-decimal spelling.

use crate::text::{decimal, parse_decimal, to_chars};
use vstd::prelude::*;

verus! {

/// An IPv4 address together with a port: the endpoint of one connection.
#[derive(Clone, Copy, Debug, PartialEq, Eq)]
pub struct TargetAddress {
    pub octets: [u8; 4],
    pub port: u16,
}

impl TargetAddress {
    /// The same host at another port.
    pub open spec fn at(self, port: u16) -> TargetAddress {
        TargetAddress { octets: self.octets, port }
    }

    pub fn new(octets: [u8; 4], port: u16) -> (address: TargetAddress)
        ensures
            address == (TargetAddress { octets, port }),
    {
        TargetAddress { octets, port }
    }

    /// The same host at another port.
    pub fn with_port(&self, port: u16) -> (address: TargetAddress)
        ensures
            address == self.at(port),
    {
        TargetAddress { octets: self.octets, port }
    }
}

/// The length of the first field of `s`: the number of characters before
/// its first dot, or all of them where it has none.
pub open spec fn field_len(s: Seq<char>) -> nat
    decreases s.len(),
{
    if s.len() == 0 || s[0] == '.' {
        0
    } else {
        1 + field_len(s.skip(1))
    }
}

/// The fields of `s`: the stretches of text between its dots. A text
/// without a dot is one field, an empty text one empty field.
pub open spec fn fields(s: Seq<char>) -> Seq<Seq<char>>
    decreases s.len(),
{
    let n = field_len(s) as int;
    if n >= s.len() {
        seq![s]
    } else {
        seq![s.take(n)] + fields(s.skip(n + 1))
    }
}

/// The four octets that `s` spells in dotted-decimal form, where it does:
/// exactly four fields, each a decimal number of at most 255.
pub open spec fn dotted_quad(s: Seq<char>) -> Option<Seq<u8>> {
    let parts = fields(s);
    if parts.len() == 4 && (forall|k: int| 0 <= k < 4 ==> decimal(#[trigger] parts[k], 255) is Some) {
        Some(Seq::new(4, |k: int| decimal(parts[k], 255).unwrap() as u8))
    } else {
        None
    }
}

/// Every text has at least one field.
pub proof fn lemma_fields_nonempty(s: Seq<char>)
    ensures
        fields(s).len() >= 1,
    decreases s.len(),
{
    let n = field_len(s) as int;
    if n < s.len() {
        lemma_fields_nonempty(s.skip(n + 1));
    }
}

/// The index of the first dot of `word` at or after `from`, or the length
/// of `word` where there is none.
fn field_end(word: &Vec<char>, from: usize) -> (end: usize)
    requires
        from <= word@.len(),
    ensures
        from <= end <= word@.len(),
        end - from == field_len(word@.skip(from as int)),
{
    let mut end: usize = from;
    while end < word.len() && word[end] != '.'
        invariant
            from <= end <= word@.len(),
            field_len(word@.skip(from as int)) == (end - from) + field_len(word@.skip(end as int)),
        decreases word@.len() - end,
    {
        assert(word@.skip(end as int).skip(1) =~= word@.skip(end + 1));
        end = end + 1;
    }
    end
}

/// Reads a dotted-decimal IPv4 address from its characters.
pub fn parse_quad(word: &Vec<char>) -> (octets: Option<[u8; 4]>)
    ensures
        match octets {
            Some(quad) => dotted_quad(word@) == Some(quad@),
            None => dotted_quad(word@) is None,
        },
{
    let ghost s = word@;
    let ghost mut done: Seq<Seq<char>> = Seq::empty();
    let mut read: Vec<u8> = Vec::new();
    let mut start: usize = 0;
    let mut k: usize = 0;
    assert(s.skip(0) =~= s);
    while k < 4
        invariant
            s == word@,
            0 <= k <= 4,
            start <= s.len(),
            done.len() == k,
            read@.len() == k,
            k < 4 ==> fields(s) == done + fields(s.skip(start as int)),
            k == 4 ==> fields(s) == done,
            forall|j: int| 0 <= j < k ==> decimal(#[trigger] done[j], 255) == Some(read@[j] as int),
        decreases 4 - k,
    {
        let end: usize = field_end(word, start);
        let ghost rest = s.skip(start as int);
        let ghost field = s.subrange(start as int, end as int);
        proof {
            assert(rest.take(end - start) =~= field);
            if end < s.len() {
                assert(rest.skip(end - start + 1) =~= s.skip(end + 1));
                lemma_fields_nonempty(s.skip(end + 1));
            } else {
                assert(field =~= rest);
            }
            assert(fields(rest)[0] == field);
            assert(fields(s)[k as int] == field);
        }
        match parse_decimal(word, start, end, 255) {
            None => {
                return None;
            },
            Some(value) => {
                read.push(value as u8);
            },
        }
        if k < 3 {
            if end == word.len() {
                assert(fields(s).len() == k + 1);
                return None;
            }
            start = end + 1;
            proof {
                done = done.push(field);
                assert(fields(s) =~= done + fields(s.skip(start as int)));
            }
        } else {
            if end != word.len() {
                assert(fields(s).len() >= 5);
                return None;
            }
            proof {
                done = done.push(field);
                assert(fields(s) =~= done);
            }
        }
        k = k + 1;
    }
    let quad: [u8; 4] = [read[0], read[1], read[2], read[3]];
    assert(quad@ =~= Seq::new(4, |k: int| decimal(fields(s)[k], 255).unwrap() as u8));
    Some(quad)
}

/// Reads a dotted-decimal IPv4 address such as `192.168.0.1`.
pub fn parse_ipv4(text: &str) -> (octets: Option<[u8; 4]>)
    ensures
        match octets {
            Some(quad) => dotted_quad(text@) == Some(quad@),
            None => dotted_quad(text@) is None,
        },
{
    let word = to_chars(text);
    parse_quad(&word)
}

} // verus!
