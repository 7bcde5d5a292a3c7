use vstd::prelude::*;

use crate::digits::dec_str;
use crate::digits::timestamp_string;

verus! {

/// The key under which an upload made at `secs` (seconds since the Unix
/// epoch) by the caller named `id` is stored: `<secs>_<id>.html`.
pub open spec fn key_of(secs: u64, id: Seq<char>) -> Seq<char> {
    dec_str(secs as nat) + seq!['_'] + id + seq!['.', 'h', 't', 'm', 'l']
}

/// A key that is usable as a name inside the flat namespace: non-empty,
/// not one of the two directory self-references, and free of path
/// separators, so resolving it can never escape the namespace.
pub open spec fn key_safe(k: Seq<char>) -> bool {
    &&& k.len() > 0
    &&& k != seq!['.']
    &&& k != seq!['.', '.']
    &&& forall|i: int| 0 <= i < k.len() ==> k[i] != '/' && k[i] != '\\'
}

/// Derives the object key for one upload. The caller identifier is used
/// verbatim; path safety is checked by the store, not here.
pub fn generate(secs: u64, caller_id: &str) -> (r: String)
    ensures
        r@ == key_of(secs, caller_id@),
{
    let mut r = timestamp_string(secs);
    r.append("_");
    r.append(caller_id);
    r.append(".html");
    proof {
        reveal_strlit("_");
        reveal_strlit(".html");
        assert("_"@ =~= seq!['_']);
        assert(".html"@ =~= seq!['.', 'h', 't', 'm', 'l']);
        assert(r@ =~= key_of(secs, caller_id@));
    }
    r
}

/// Decides whether a key may be looked up in or written to the flat
/// namespace without any risk of path traversal.
pub fn check_key_safe(k: &str) -> (r: bool)
    ensures
        r == key_safe(k@),
{
    let n = k.unicode_len();
    if n == 0 {
        return false;
    }
    if n == 1 && k.get_char(0) == '.' {
        proof {
            assert(k@ =~= seq!['.']);
        }
        return false;
    }
    if n == 2 && k.get_char(0) == '.' && k.get_char(1) == '.' {
        proof {
            assert(k@ =~= seq!['.', '.']);
        }
        return false;
    }
    proof {
        assert(k@ != seq!['.']) by {
            if k@ == seq!['.'] {
                assert(k@.len() == 1);
                assert(k@[0] == '.');
            }
        }
        assert(k@ != seq!['.', '.']) by {
            if k@ == seq!['.', '.'] {
                assert(k@.len() == 2);
                assert(k@[0] == '.');
                assert(k@[1] == '.');
            }
        }
    }
    let mut i: usize = 0;
    while i < n
        invariant
            n == k@.len(),
            n > 0,
            0 <= i <= n,
            k@ != seq!['.'],
            k@ != seq!['.', '.'],
            forall|j: int| 0 <= j < i ==> k@[j] != '/' && k@[j] != '\\',
        decreases n - i,
    {
        let c = k.get_char(i);
        if c == '/' || c == '\\' {
            return false;
        }
        i += 1;
    }
    true
}

} // verus!
