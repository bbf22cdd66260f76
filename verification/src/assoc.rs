//! Association lists used as read-only, string-keyed maps: exact-key lookup
//! (first entry wins) and longest-prefix lookup for mount-point resolution.

use vstd::prelude::*;
use vstd::string::*;
use crate::text::{is_path_prefix, path_prefix_of, str_eq};

verus! {

/// The value bound to `key`: the first entry whose key matches.
pub open spec fn find_entry<V>(s: Seq<(String, V)>, key: Seq<char>) -> Option<V>
    decreases s.len(),
{
    if s.len() == 0 {
        None
    } else if s[0].0@ == key {
        Some(s[0].1)
    } else {
        find_entry(s.skip(1), key)
    }
}

/// Index of the entry `find_entry` selects, if any.
pub fn assoc_index<V>(m: &Vec<(String, V)>, key: &str) -> (r: Option<usize>)
    ensures
        match r {
            Some(i) => 0 <= i < m@.len() && m@[i as int].0@ == key@ && find_entry(m@, key@)
                == Some(m@[i as int].1),
            None => find_entry(m@, key@) is None,
        },
{
    let mut i: usize = 0;
    proof {
        assert(m@.skip(0) =~= m@);
    }
    while i < m.len()
        invariant
            i <= m@.len(),
            find_entry(m@, key@) == find_entry(m@.skip(i as int), key@),
        decreases m@.len() - i,
    {
        proof {
            assert(m@.skip(i as int)[0] == m@[i as int]);
            assert(m@.skip(i as int).skip(1) =~= m@.skip(i + 1));
        }
        if str_eq(m[i].0.as_str(), key) {
            return Some(i);
        }
        i = i + 1;
    }
    proof {
        assert(m@.skip(i as int).len() == 0);
    }
    None
}

/// Index of the entry whose key is the longest mount-point prefix of `path`;
/// among equally long prefixes the first entry wins.
pub open spec fn best_prefix<V>(s: Seq<(String, V)>, path: Seq<char>) -> Option<int>
    decreases s.len(),
{
    if s.len() == 0 {
        None
    } else {
        let rest = best_prefix(s.drop_last(), path);
        let last_i = s.len() - 1;
        if path_prefix_of(s[last_i].0@, path) {
            match rest {
                Some(j) => if s[last_i].0@.len() > s[j].0@.len() {
                    Some(last_i as int)
                } else {
                    Some(j)
                },
                None => Some(last_i as int),
            }
        } else {
            rest
        }
    }
}

/// What `best_prefix` selects, where it selects something, is a maximal
/// matching prefix, and the first one of that length.
pub proof fn lemma_best_prefix_props<V>(s: Seq<(String, V)>, path: Seq<char>)
    ensures
        match best_prefix(s, path) {
            Some(i) => 0 <= i < s.len() && path_prefix_of(s[i].0@, path) && (forall|j: int|
                0 <= j < s.len() && #[trigger] path_prefix_of(s[j].0@, path) ==> s[j].0@.len()
                    <= s[i].0@.len()),
            None => forall|j: int|
                0 <= j < s.len() ==> !#[trigger] path_prefix_of(s[j].0@, path),
        },
    decreases s.len(),
{
    if s.len() > 0 {
        lemma_best_prefix_props(s.drop_last(), path);
        assert(forall|j: int| 0 <= j < s.len() - 1 ==> s.drop_last()[j] == s[j]);
    }
}

pub fn best_prefix_index<V>(m: &Vec<(String, V)>, path: &str) -> (r: Option<usize>)
    ensures
        match r {
            Some(i) => best_prefix(m@, path@) == Some(i as int) && 0 <= i < m@.len(),
            None => best_prefix(m@, path@) is None,
        },
{
    let mut i: usize = 0;
    let mut best: Option<usize> = None;
    let mut best_len: usize = 0;
    proof {
        assert(m@.take(0) =~= Seq::<(String, V)>::empty());
    }
    while i < m.len()
        invariant
            i <= m@.len(),
            match best {
                Some(b) => best_prefix(m@.take(i as int), path@) == Some(b as int) && b < i
                    && best_len == m@[b as int].0@.len(),
                None => best_prefix(m@.take(i as int), path@) is None,
            },
        decreases m@.len() - i,
    {
        let ghost pre = m@.take(i as int);
        let ghost cur = m@.take(i + 1);
        proof {
            assert(cur.drop_last() =~= pre);
            assert(cur[cur.len() - 1] == m@[i as int]);
        }
        if is_path_prefix(m[i].0.as_str(), path) {
            let key_len = m[i].0.as_str().unicode_len();
            match best {
                Some(_) => {
                    if key_len > best_len {
                        best = Some(i);
                        best_len = key_len;
                    }
                },
                None => {
                    best = Some(i);
                    best_len = key_len;
                },
            }
        }
        i = i + 1;
    }
    proof {
        assert(m@.take(m@.len() as int) =~= m@);
    }
    best
}

/// An owned copy of a vector of strings.
pub fn clone_strings(v: &Vec<String>) -> (r: Vec<String>)
    ensures
        r@ == v@,
{
    let mut out: Vec<String> = Vec::new();
    let mut i: usize = 0;
    while i < v.len()
        invariant
            i <= v@.len(),
            out@ == v@.take(i as int),
        decreases v@.len() - i,
    {
        out.push(v[i].clone());
        proof {
            assert(v@.take(i + 1) =~= v@.take(i as int).push(v@[i as int]));
        }
        i = i + 1;
    }
    proof {
        assert(v@.take(v@.len() as int) =~= v@);
    }
    out
}

/// The views of a vector of strings.
pub open spec fn string_views(s: Seq<String>) -> Seq<Seq<char>> {
    s.map_values(|x: String| x@)
}

} // verus!
