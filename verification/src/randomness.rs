use vstd::prelude::*;

verus! {

/// Transcript of a distributed key generation run. For now it carries
/// placeholder bytes only; a fresh transcript holds the single byte `0`.
#[derive(Clone, Debug, PartialEq, Eq)]
pub struct DKGTranscript {
    pub dummy_bytes: Vec<u8>,
}

impl DKGTranscript {
    /// A fresh transcript: exactly one zero byte.
    pub fn new() -> (t: Self)
        ensures
            t.dummy_bytes@ == seq![0u8],
    {
        let mut bytes: Vec<u8> = Vec::new();
        bytes.push(0u8);
        assert(bytes@ =~= seq![0u8]);
        DKGTranscript { dummy_bytes: bytes }
    }
}

impl Default for DKGTranscript {
    fn default() -> (t: Self)
        ensures
            t.dummy_bytes@ == seq![0u8],
    {
        Self::new()
    }
}

/// The randomness of one block. For now it carries placeholder bytes only; a
/// fresh value holds the single byte `0`.
#[derive(Clone, Debug, PartialEq, Eq)]
pub struct Randomness {
    pub dummy_bytes: Vec<u8>,
}

impl Randomness {
    /// A fresh value: exactly one zero byte.
    pub fn new() -> (r: Self)
        ensures
            r.dummy_bytes@ == seq![0u8],
    {
        let mut bytes: Vec<u8> = Vec::new();
        bytes.push(0u8);
        assert(bytes@ =~= seq![0u8]);
        Randomness { dummy_bytes: bytes }
    }
}

impl Default for Randomness {
    fn default() -> (r: Self)
        ensures
            r.dummy_bytes@ == seq![0u8],
    {
        Self::new()
    }
}

} // verus!
