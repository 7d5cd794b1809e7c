//! Parsing of `key=value` command-line arguments.

use vstd::prelude::*;
use crate::error::{KvError, KvErrorV};

verus! {

/// One `key=value` argument: the text before the first `=`, and the text
/// between the first `=` and the second one (or the end).
#[derive(Debug, PartialEq)]
pub struct KvPair {
    pub k: String,
    pub v: String,
}

/// Parses a `key=value` argument. The key is everything before the first
/// `=`; the value is everything between the first `=` and the next one or
/// the end; text without any `=` is rejected.
pub fn parse_kv_pair(s: &str) -> (r: Result<KvPair, KvError>)
    ensures
        match r {
            Ok(p) => exists|i: int|
                0 <= i < s@.len() && #[trigger] s@[i] == '=' && (forall|j: int|
                    0 <= j < i ==> s@[j] != '=') && p.k@ == s@.subrange(0, i) && exists|e: int|
                    i < e <= s@.len() && p.v@ == s@.subrange(i + 1, e) && (e == s@.len() || s@[e]
                        == '=') && (forall|j: int| i < j < e ==> s@[j] != '='),
            Err(er) => er@ is InvalidCommand && (forall|i: int|
                0 <= i < s@.len() ==> s@[i] != '='),
        },
{
    let n = s.unicode_len();
    let mut i: usize = 0;
    while i < n
        invariant
            i <= n,
            n == s@.len(),
            forall|j: int| 0 <= j < i ==> s@[j] != '=',
        decreases n - i,
    {
        if s.get_char(i) == '=' {
            let mut e: usize = i + 1;
            while e < n && s.get_char(e) != '='
                invariant
                    i < e <= n,
                    n == s@.len(),
                    forall|j: int| i < j < e ==> s@[j] != '=',
                decreases n - e,
            {
                e = e + 1;
            }
            proof {
                assert(e == s@.len() || s@[e as int] == '=');
            }
            let k = s.substring_char(0, i).to_owned();
            let v = s.substring_char(i + 1, e).to_owned();
            return Ok(KvPair { k, v });
        }
        i = i + 1;
    }
    let mut m = String::from_str("Failed to parse ");
    m.append(s);
    Err(KvError::InvalidCommand(m))
}

} // verus!
