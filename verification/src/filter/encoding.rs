//! The content encodings that a body can be decoded from and encoded back to.
use vstd::prelude::*;

use crate::text::str_eq;

verus! {

#[derive(Debug, Clone, Copy, PartialEq, Eq, Structural)]
pub enum SupportedEncoding {
    Brotli,
    Gzip,
    Deflate,
}

/// The encoding a `Content-Encoding` value names, if it is a supported one.
pub open spec fn encoding_of(name: Seq<char>) -> Option<SupportedEncoding> {
    if name == seq!['b', 'r'] {
        Some(SupportedEncoding::Brotli)
    } else if name == seq!['g', 'z', 'i', 'p'] {
        Some(SupportedEncoding::Gzip)
    } else if name == seq!['d', 'e', 'f', 'l', 'a', 't', 'e'] {
        Some(SupportedEncoding::Deflate)
    } else {
        None
    }
}

impl SupportedEncoding {
    /// The encoding that `name` (`br`, `gzip` or `deflate`) names.
    pub fn from_name(name: &str) -> (res: Option<SupportedEncoding>)
        ensures
            res == encoding_of(name@),
    {
        proof {
            reveal_strlit("br");
            reveal_strlit("gzip");
            reveal_strlit("deflate");
            assert("br"@ =~= seq!['b', 'r']);
            assert("gzip"@ =~= seq!['g', 'z', 'i', 'p']);
            assert("deflate"@ =~= seq!['d', 'e', 'f', 'l', 'a', 't', 'e']);
        }
        if str_eq(name, "br") {
            Some(SupportedEncoding::Brotli)
        } else if str_eq(name, "gzip") {
            Some(SupportedEncoding::Gzip)
        } else if str_eq(name, "deflate") {
            Some(SupportedEncoding::Deflate)
        } else {
            None
        }
    }

    /// The names of the supported encodings, each once: `br`, `gzip` and `deflate`.
    pub fn new_hash_set() -> (res: Vec<String>)
        ensures
            res@.map_values(|s: String| s@) == seq![
                seq!['b', 'r'],
                seq!['g', 'z', 'i', 'p'],
                seq!['d', 'e', 'f', 'l', 'a', 't', 'e'],
            ],
    {
        proof {
            reveal_strlit("br");
            reveal_strlit("gzip");
            reveal_strlit("deflate");
        }
        assert("br"@ =~= seq!['b', 'r']);
        assert("gzip"@ =~= seq!['g', 'z', 'i', 'p']);
        assert("deflate"@ =~= seq!['d', 'e', 'f', 'l', 'a', 't', 'e']);
        let mut set: Vec<String> = Vec::new();
        set.push("br".to_owned());
        set.push("gzip".to_owned());
        set.push("deflate".to_owned());
        assert(set@.map_values(|s: String| s@) =~= seq![
            seq!['b', 'r'],
            seq!['g', 'z', 'i', 'p'],
            seq!['d', 'e', 'f', 'l', 'a', 't', 'e'],
        ]);
        set
    }
}

} // verus!
