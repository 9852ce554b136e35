//! Queue-name validation.
//!
//! An externally supplied queue name is mapped to a safe internal table
//! name. Only names made of ASCII letters, digits and underscores are
//! accepted; the empty string and every other character (hyphens included)
//! are rejected. The internal name is the accepted name behind a fixed
//! prefix, so it can be spliced into backend resource definitions without
//! any request-time input reaching them unchecked.

use vstd::prelude::*;
use vstd::string::*;

verus! {

/// A character admitted in a queue name: an ASCII letter, a digit, or an
/// underscore.
pub open spec fn is_name_char(c: char) -> bool {
    ('a' <= c && c <= 'z') || ('A' <= c && c <= 'Z') || ('0' <= c && c <= '9') || c == '_'
}

/// A valid queue name: non-empty, every character admitted.
pub open spec fn valid_queue_name(s: Seq<char>) -> bool {
    s.len() > 0 && (forall|i: int| 0 <= i < s.len() ==> is_name_char(s[i]))
}

/// The internal table name derived from a queue name.
pub open spec fn table_name_of(s: Seq<char>) -> Seq<char> {
    "queue_"@ + s
}

/// Whether two string slices spell the same characters.
pub fn str_eq(a: &str, b: &str) -> (r: bool)
    ensures
        r == (a@ == b@),
{
    let na = a.unicode_len();
    let nb = b.unicode_len();
    if na != nb {
        proof {
            if a@ == b@ {
                assert(a@.len() == b@.len());
            }
        }
        return false;
    }
    let mut i: usize = 0;
    while i < na
        invariant
            0 <= i <= na,
            na == a@.len(),
            nb == b@.len(),
            na == nb,
            forall|j: int| 0 <= j < i ==> a@[j] == b@[j],
        decreases na - i,
    {
        if a.get_char(i) != b.get_char(i) {
            return false;
        }
        i += 1;
    }
    proof {
        assert(a@ =~= b@);
    }
    true
}

/// Maps a queue name to the internal table name, or `None` when the name
/// is rejected. A name is accepted exactly when it is non-empty and made
/// of ASCII letters, digits and underscores.
pub fn sanitize_queue_name(queue: &str) -> (r: Option<String>)
    ensures
        r is Some <==> valid_queue_name(queue@),
        r matches Some(t) ==> t@ == table_name_of(queue@),
{
    let len = queue.unicode_len();
    if len == 0 {
        return None;
    }
    let mut i: usize = 0;
    while i < len
        invariant
            0 <= i <= len,
            len == queue@.len(),
            forall|j: int| 0 <= j < i ==> is_name_char(queue@[j]),
        decreases len - i,
    {
        let c = queue.get_char(i);
        let ok = (c >= 'a' && c <= 'z') || (c >= 'A' && c <= 'Z') || (c >= '0' && c <= '9') || c
            == '_';
        if !ok {
            return None;
        }
        i += 1;
    }
    let mut table = String::from_str("queue_");
    table.append(queue);
    Some(table)
}

/// Whether some entry of the name list spells the name.
pub open spec fn has_name(names: Seq<String>, q: Seq<char>) -> bool {
    exists|i: int| 0 <= i < names.len() && (#[trigger] names[i])@ == q
}

/// The entry index of a name in the name list.
pub open spec fn idx_of(names: Seq<String>, q: Seq<char>) -> int {
    choose|i: int| 0 <= i < names.len() && (#[trigger] names[i])@ == q
}

/// A name's index is the only one spelling it when names are distinct.
pub proof fn lemma_idx_of(names: Seq<String>, q: Seq<char>, i: int)
    requires
        forall|p: int, j: int|
            0 <= p < j < names.len() ==> (#[trigger] names[p])@ != (#[trigger] names[j])@,
        0 <= i < names.len(),
        names[i]@ == q,
    ensures
        has_name(names, q),
        idx_of(names, q) == i,
{
    assert(has_name(names, q));
    let j = idx_of(names, q);
    if j != i {
        if j < i {
            assert(names[j]@ != names[i]@);
        } else {
            assert(names[i]@ != names[j]@);
        }
    }
}

/// A name occurs in one more configured entry exactly when it occurs in
/// the earlier entries or is the next entry.
pub proof fn lemma_has_name_take(queues: Seq<String>, k: int, q: Seq<char>)
    requires
        0 <= k < queues.len(),
    ensures
        has_name(queues.take(k + 1), q) == (has_name(queues.take(k), q) || queues[k]@ == q),
{
    if has_name(queues.take(k + 1), q) {
        let i = choose|i: int|
            0 <= i < queues.take(k + 1).len() && (#[trigger] queues.take(k + 1)[i])@ == q;
        if i < k {
            assert(queues.take(k)[i]@ == q);
            assert(has_name(queues.take(k), q));
        } else {
            assert(queues.take(k + 1)[k]@ == q);
            assert(queues[k]@ == q);
        }
    }
    if has_name(queues.take(k), q) {
        let i = choose|i: int|
            0 <= i < queues.take(k).len() && (#[trigger] queues.take(k)[i])@ == q;
        assert(queues.take(k + 1)[i]@ == q);
        assert(has_name(queues.take(k + 1), q));
    }
    if queues[k]@ == q {
        assert(queues.take(k + 1)[k]@ == q);
        assert(has_name(queues.take(k + 1), q));
    }
}

/// A name occurs in an extended name list exactly when it occurs in the
/// list or is the added name.
pub proof fn lemma_has_name_push(names: Seq<String>, x: String, q: Seq<char>)
    ensures
        has_name(names.push(x), q) == (has_name(names, q) || x@ == q),
{
    if has_name(names.push(x), q) {
        let i = choose|i: int|
            0 <= i < names.push(x).len() && (#[trigger] names.push(x)[i])@ == q;
        if i < names.len() {
            assert(names[i]@ == q);
            assert(has_name(names, q));
        } else {
            assert(names.push(x)[names.len() as int] == x);
        }
    }
    if has_name(names, q) {
        let i = choose|i: int| 0 <= i < names.len() && (#[trigger] names[i])@ == q;
        assert(names.push(x)[i]@ == q);
        assert(has_name(names.push(x), q));
    }
    if x@ == q {
        assert(names.push(x)[names.len() as int]@ == q);
        assert(has_name(names.push(x), q));
    }
}

} // verus!
