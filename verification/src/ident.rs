//! Namespaced identifiers: `<type>_<id>`, of which only the part behind the
//! last separator names a node.

use vstd::prelude::*;
use vstd::string::*;

verus! {

/// The character that parts the type tag from the bare identifier.
pub const SEPARATOR: char = '_';

/// Position of the last separator in `s`, or `-1` where `s` holds none.
pub open spec fn last_separator(s: Seq<char>) -> int
    decreases s.len(),
{
    if s.len() == 0 {
        -1
    } else if s.last() == SEPARATOR {
        s.len() - 1
    } else {
        last_separator(s.drop_last())
    }
}

/// The bare identifier of `s`: what follows its last separator, or all of `s`
/// where it holds none.
pub open spec fn bare_id(s: Seq<char>) -> Seq<char> {
    s.subrange(last_separator(s) + 1, s.len() as int)
}

/// `last_separator` stays within `-1 ..< len`, points at a separator when it
/// is not `-1`, and nothing behind it is a separator.
pub proof fn lemma_last_separator(s: Seq<char>)
    ensures
        -1 <= last_separator(s) < s.len(),
        last_separator(s) >= 0 ==> s[last_separator(s)] == SEPARATOR,
        forall|k: int| last_separator(s) < k < s.len() ==> s[k] != SEPARATOR,
    decreases s.len(),
{
    if s.len() > 0 && s.last() != SEPARATOR {
        let head = s.drop_last();
        lemma_last_separator(head);
        assert forall|k: int| last_separator(s) < k < s.len() implies s[k] != SEPARATOR by {
            if k < head.len() {
                assert(head[k] == s[k]);
            }
        }
    }
}

/// If `s[p]` is a separator (or `p` is `-1`) and no separator follows it,
/// then `p` is the last separator of `s`.
pub proof fn lemma_last_separator_is(s: Seq<char>, p: int)
    requires
        -1 <= p < s.len(),
        p >= 0 ==> s[p] == SEPARATOR,
        forall|k: int| p < k < s.len() ==> s[k] != SEPARATOR,
    ensures
        last_separator(s) == p,
    decreases s.len(),
{
    if s.len() > 0 && s.last() != SEPARATOR {
        let head = s.drop_last();
        assert forall|k: int| p < k < head.len() implies head[k] != SEPARATOR by {
            assert(head[k] == s[k]);
        }
        lemma_last_separator_is(head, p);
    }
}

/// The bare identifier holds no separator, is a suffix of the whole, and is
/// either the whole or stands right behind a separator.
pub proof fn lemma_bare_id_shape(s: Seq<char>)
    ensures
        bare_id(s).len() <= s.len(),
        bare_id(s) == s.subrange(s.len() - bare_id(s).len(), s.len() as int),
        forall|k: int| 0 <= k < bare_id(s).len() ==> bare_id(s)[k] != SEPARATOR,
        bare_id(s).len() == s.len() || s[s.len() - bare_id(s).len() - 1] == SEPARATOR,
{
    lemma_last_separator(s);
}

/// An identifier without a separator is its own bare identifier.
pub proof fn lemma_bare_id_plain(s: Seq<char>)
    requires
        forall|k: int| 0 <= k < s.len() ==> s[k] != SEPARATOR,
    ensures
        bare_id(s) == s,
{
    lemma_last_separator_is(s, -1);
    assert(s.subrange(0, s.len() as int) =~= s);
}

/// Strips the namespace from `raw`: the result is what follows the last
/// separator, or all of `raw` where there is none.
pub fn target_of(raw: &str) -> (target: String)
    ensures
        target@ == bare_id(raw@),
{
    let n: usize = raw.unicode_len();
    let mut start: usize = n;
    let mut searching = true;
    while searching && start > 0
        invariant
            start <= n,
            n == raw@.len(),
            forall|k: int| start <= k < n ==> raw@[k] != SEPARATOR,
            !searching ==> start > 0 && raw@[start - 1] == SEPARATOR,
        decreases start + (if searching { 1int } else { 0int }),
    {
        if raw.get_char(start - 1) == SEPARATOR {
            searching = false;
        } else {
            start = start - 1;
        }
    }
    proof {
        lemma_last_separator_is(raw@, start - 1);
    }
    raw.substring_char(start, n).to_owned()
}

} // verus!
