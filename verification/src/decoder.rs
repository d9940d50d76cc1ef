use crate::mempool_config::ChainId;
use vstd::prelude::*;
use vstd::string::*;

verus! {

/// The arguments of the transaction decoder.
#[derive(Clone, Copy, Debug, PartialEq, Eq, Structural)]
pub struct Argument {
    pub execute: bool,
    pub concurrency_level: usize,
}

impl Argument {
    pub fn new(execute: bool, concurrency_level: usize) -> (a: Self)
        ensures
            a.execute == execute,
            a.concurrency_level == concurrency_level,
    {
        Argument { execute, concurrency_level }
    }
}

impl Default for Argument {
    /// The arguments of a call without options: no execution, one worker.
    fn default() -> (a: Self)
        ensures
            !a.execute,
            a.concurrency_level == 1,
    {
        Argument { execute: false, concurrency_level: 1 }
    }
}

/// Whether a character is one of `0` to `9`.
pub open spec fn is_decimal_digit(c: char) -> bool {
    48 <= c as u32 <= 57
}

/// The number that a string of decimal digits writes.
pub open spec fn decimal_value(s: Seq<char>) -> nat
    decreases s.len(),
{
    if s.len() == 0 {
        0
    } else {
        decimal_value(s.drop_last()) * 10 + (s.last() as u32 - 48) as nat
    }
}

/// The byte that a string writes in decimal: `None` unless the string is
/// one or more of the digits `0` to `9` and its number is at most 255.
pub open spec fn spec_parse_byte(s: Seq<char>) -> Option<u8> {
    if s.len() > 0 && (forall|i: int| 0 <= i < s.len() ==> is_decimal_digit(s[i])) && decimal_value(s)
        <= 255 {
        Some(decimal_value(s) as u8)
    } else {
        None
    }
}

/// Reads a byte written in decimal.
pub fn parse_byte(s: &str) -> (r: Option<u8>)
    ensures
        r == spec_parse_byte(s@),
{
    let n = s.unicode_len();
    if n == 0 {
        return None;
    }
    let mut acc: u32 = 0;
    let mut overflow = false;
    let mut i: usize = 0;
    assert(s@.subrange(0, 0) =~= Seq::<char>::empty());
    while i < n
        invariant
            0 <= i <= n,
            n == s@.len(),
            forall|j: int| 0 <= j < i ==> is_decimal_digit(s@[j]),
            overflow ==> decimal_value(s@.subrange(0, i as int)) > 255,
            !overflow ==> acc == decimal_value(s@.subrange(0, i as int)) && acc <= 255,
        decreases n - i,
    {
        let c = s.get_char(i);
        let code = c as u32;
        if code < 48 || code > 57 {
            assert(!is_decimal_digit(s@[i as int]));
            return None;
        }
        proof {
            let next = s@.subrange(0, i as int + 1);
            assert(next.drop_last() =~= s@.subrange(0, i as int));
            assert(next.last() == c);
        }
        if !overflow {
            acc = acc * 10 + (code - 48);
            if acc > 255 {
                overflow = true;
            }
        }
        i += 1;
    }
    assert(s@.subrange(0, n as int) =~= s@);
    if overflow {
        None
    } else {
        Some(acc as u8)
    }
}

/// The bytes that a list of strings writes: one byte for each string that
/// writes one, in the order of the list.
pub open spec fn spec_bytes_of_runs(runs: Seq<Seq<char>>) -> Seq<u8>
    decreases runs.len(),
{
    if runs.len() == 0 {
        Seq::empty()
    } else {
        match spec_parse_byte(runs.last()) {
            Some(b) => spec_bytes_of_runs(runs.drop_last()).push(b),
            None => spec_bytes_of_runs(runs.drop_last()),
        }
    }
}

/// The contents of a list of strings.
pub open spec fn strings_view(v: Seq<String>) -> Seq<Seq<char>> {
    Seq::new(v.len(), |i: int| v[i]@)
}

/// Collects the bytes that the strings of `runs` write; a string that writes
/// none is passed over.
pub fn bytes_of_runs(runs: &Vec<String>) -> (bytes: Vec<u8>)
    ensures
        bytes@ == spec_bytes_of_runs(strings_view(runs@)),
{
    let ghost rv = strings_view(runs@);
    let mut bytes: Vec<u8> = Vec::new();
    let mut i: usize = 0;
    assert(rv.subrange(0, 0) =~= Seq::<Seq<char>>::empty());
    while i < runs.len()
        invariant
            0 <= i <= runs.len(),
            rv == strings_view(runs@),
            bytes@ == spec_bytes_of_runs(rv.subrange(0, i as int)),
        decreases runs.len() - i,
    {
        proof {
            let next = rv.subrange(0, i as int + 1);
            assert(next.drop_last() =~= rv.subrange(0, i as int));
            assert(next.last() == runs@[i as int]@);
        }
        match parse_byte(runs[i].as_str()) {
            Some(b) => {
                bytes.push(b);
            },
            None => {},
        }
        i += 1;
    }
    assert(rv.subrange(0, rv.len() as int) =~= rv);
    bytes
}

/// The runs of digits in a text: the successive matches of the pattern `\d+`,
/// from left to right.
pub uninterp spec fn spec_digit_runs(text: Seq<char>) -> Seq<Seq<char>>;

/// Calls `regex`'s `Regex::find_iter` with the pattern `\d+` and hands out the
/// text of every match. The contract names the list of matches.
#[verifier::external_body]
fn digit_runs(text: &str) -> (runs: Vec<String>)
    ensures
        strings_view(runs@) == spec_digit_runs(text@),
{
    let re = regex::Regex::new(r"\d+").unwrap();
    re.find_iter(text).map(|m| m.as_str().to_string()).collect()
}

/// Reads the bytes of a transaction from a line of text that lists them in
/// decimal, such as `[1, 22, 255]`: every run of digits that writes a byte is
/// one byte, and whatever stands between the runs is passed over.
pub fn decode_byte_list(text: &str) -> (bytes: Vec<u8>)
    ensures
        bytes@ == spec_bytes_of_runs(spec_digit_runs(text@)),
{
    let runs = digit_runs(text);
    bytes_of_runs(&runs)
}

/// The name of the network of a chain: `mainnet` for chain 1, `testnet` for
/// chain 2, and `devnet` for every other chain.
pub fn network_name(chain_id: ChainId) -> (name: &'static str)
    ensures
        name@ == if chain_id.id == 1 {
            "mainnet"@
        } else if chain_id.id == 2 {
            "testnet"@
        } else {
            "devnet"@
        },
{
    if chain_id.is_mainnet() {
        "mainnet"
    } else if chain_id.is_testnet() {
        "testnet"
    } else {
        "devnet"
    }
}

} // verus!
