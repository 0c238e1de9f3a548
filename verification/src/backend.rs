//! Names of the compute backends.
use vstd::prelude::*;

use crate::error::RenderError;

verus! {

/// Where cells are scored.
#[derive(Clone, Copy, Debug, PartialEq, Eq, Structural)]
pub enum Backend {
    /// CUDA while it works, the CPU from the first CUDA failure on.
    Auto,
    Cpu,
    Cuda,
}

impl Default for Backend {
    fn default() -> (b: Backend)
        ensures
            b == Backend::Auto,
    {
        Backend::Auto
    }
}

/// ASCII lower case of a character; other characters are unchanged.
pub open spec fn ascii_lower(c: char) -> char {
    if 'A' <= c && c <= 'Z' {
        ((c as u32) + 32) as char
    } else {
        c
    }
}

pub open spec fn lowered(s: Seq<char>) -> Seq<char> {
    s.map_values(|c: char| ascii_lower(c))
}

/// The name of a backend, in lower case.
pub open spec fn backend_name(b: Backend) -> Seq<char> {
    match b {
        Backend::Auto => seq!['a', 'u', 't', 'o'],
        Backend::Cpu => seq!['c', 'p', 'u'],
        Backend::Cuda => seq!['c', 'u', 'd', 'a'],
    }
}

/// The backend a name stands for, ignoring ASCII case.
pub open spec fn parse_backend(s: Seq<char>) -> Result<Backend, RenderError> {
    if lowered(s) == backend_name(Backend::Auto) {
        Ok(Backend::Auto)
    } else if lowered(s) == backend_name(Backend::Cpu) {
        Ok(Backend::Cpu)
    } else if lowered(s) == backend_name(Backend::Cuda) {
        Ok(Backend::Cuda)
    } else {
        Err(RenderError::UnknownBackend)
    }
}

fn lower_chars(value: &str) -> (out: Vec<char>)
    ensures
        out@ == lowered(value@),
{
    let mut out: Vec<char> = Vec::new();
    for c in it: value.chars()
        invariant
            out@ == lowered(it.seq().take(it.index() as int)),
    {
        let l = if 'A' <= c && c <= 'Z' {
            ((c as u8) + 32) as char
        } else {
            c
        };
        out.push(l);
        assert(it.seq().take(it.index() + 1) =~= it.seq().take(it.index() as int).push(c));
    }
    out
}

fn chars_equal(a: &Vec<char>, b: &[char]) -> (r: bool)
    ensures
        r == (a@ == b@),
{
    if a.len() != b.len() {
        return false;
    }
    for i in 0..a.len()
        invariant
            a@.len() == b@.len(),
            forall|j: int| 0 <= j < i ==> a@[j] == b@[j],
    {
        if a[i] != b[i] {
            return false;
        }
    }
    assert(a@ =~= b@);
    true
}

impl Backend {
    /// The backend's name: "auto", "cpu" or "cuda".
    pub fn name(&self) -> (s: &'static str)
        ensures
            s@ == backend_name(*self),
    {
        proof {
            reveal_strlit("auto");
            reveal_strlit("cpu");
            reveal_strlit("cuda");
        }
        match self {
            Backend::Auto => "auto",
            Backend::Cpu => "cpu",
            Backend::Cuda => "cuda",
        }
    }

    /// Reads a backend name, ignoring ASCII case.
    pub fn parse(value: &str) -> (res: Result<Backend, RenderError>)
        ensures
            res == parse_backend(value@),
    {
        let lower = lower_chars(value);
        if chars_equal(&lower, &['a', 'u', 't', 'o']) {
            Ok(Backend::Auto)
        } else if chars_equal(&lower, &['c', 'p', 'u']) {
            Ok(Backend::Cpu)
        } else if chars_equal(&lower, &['c', 'u', 'd', 'a']) {
            Ok(Backend::Cuda)
        } else {
            Err(RenderError::UnknownBackend)
        }
    }
}

impl core::str::FromStr for Backend {
    type Err = RenderError;

    fn from_str(value: &str) -> (res: Result<Backend, RenderError>)
        ensures
            res == parse_backend(value@),
    {
        Backend::parse(value)
    }
}

/// Law: a backend's name reads back as that backend, in any ASCII case.
pub proof fn lemma_name_parses_back(b: Backend)
    ensures
        parse_backend(backend_name(b)) == Ok::<Backend, RenderError>(b),
{
    assert(lowered(seq!['a', 'u', 't', 'o']) =~= seq!['a', 'u', 't', 'o']);
    assert(lowered(seq!['c', 'p', 'u']) =~= seq!['c', 'p', 'u']);
    assert(lowered(seq!['c', 'u', 'd', 'a']) =~= seq!['c', 'u', 'd', 'a']);
}

} // verus!
