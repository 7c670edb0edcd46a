//! Small tables of named entries, as they come out of a JSON object: where a name occurs more
//! than once, its last entry counts.

use vstd::prelude::*;
use crate::types::str_eq;

verus! {

/// The place of the last of the first `n` entries named `key`.
pub open spec fn last_entry<V>(m: Seq<(String, V)>, key: Seq<char>, n: nat) -> Option<int>
    decreases n,
{
    if n == 0 {
        None
    } else if m[n - 1].0@ == key {
        Some(n - 1)
    } else {
        last_entry(m, key, (n - 1) as nat)
    }
}

/// What the table holds under `key`.
pub open spec fn entry_value<V>(m: Seq<(String, V)>, key: Seq<char>) -> Option<V> {
    match last_entry(m, key, m.len()) {
        Some(i) => Some(m[i].1),
        None => None,
    }
}

/// A name has a value exactly when some entry carries it, and the value is that of an entry with
/// that name after which the name does not occur again.
pub proof fn law_last_entry<V>(m: Seq<(String, V)>, key: Seq<char>, n: nat)
    requires
        n <= m.len(),
    ensures
        match last_entry(m, key, n) {
            Some(i) => 0 <= i < n && m[i].0@ == key && forall|j: int| i < j < n ==> (#[trigger] m[j]).0@ != key,
            None => forall|j: int| 0 <= j < n ==> (#[trigger] m[j]).0@ != key,
        },
    decreases n,
{
    if n > 0 && m[n - 1].0@ != key {
        law_last_entry(m, key, (n - 1) as nat);
    }
}

/// The last entry named `key`.
pub fn find_entry<V>(m: &Vec<(String, V)>, key: &str) -> (r: Option<usize>)
    ensures
        match r {
            Some(i) => i < m@.len() && last_entry(m@, key@, m@.len()) == Some(i as int),
            None => last_entry(m@, key@, m@.len()) is None,
        },
{
    let mut n: usize = m.len();
    while n > 0
        invariant
            n <= m@.len(),
            last_entry(m@, key@, m@.len()) == last_entry(m@, key@, n as nat),
        decreases n,
    {
        if str_eq(m[n - 1].0.as_str(), key) {
            return Some(n - 1);
        }
        n = n - 1;
    }
    None
}

/// Whether the text occurs in the list.
pub open spec fn has_text(v: Seq<String>, key: Seq<char>) -> bool {
    exists|i: int| 0 <= i < v.len() && (#[trigger] v[i])@ == key
}

pub fn contains_text(v: &Vec<String>, key: &str) -> (r: bool)
    ensures
        r == has_text(v@, key@),
{
    let mut i: usize = 0;
    while i < v.len()
        invariant
            i <= v@.len(),
            forall|j: int| 0 <= j < i ==> (#[trigger] v@[j])@ != key@,
        decreases v@.len() - i,
    {
        if str_eq(v[i].as_str(), key) {
            return true;
        }
        i = i + 1;
    }
    false
}

} // verus!
