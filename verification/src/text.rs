//! Character-sequence helpers shared by the mount-table parser, the dataset
//! resolver and the display layer: lexicographic ordering, substring search,
//! and component-aware path prefix arithmetic.

use vstd::prelude::*;
use vstd::string::*;

verus! {

/// Lexicographic (codepoint) order on character sequences; reflexive.
pub open spec fn lex_le(a: Seq<char>, b: Seq<char>) -> bool
    decreases a.len(),
{
    if a.len() == 0 {
        true
    } else if b.len() == 0 {
        false
    } else if a[0] != b[0] {
        (a[0] as int) < (b[0] as int)
    } else {
        lex_le(a.skip(1), b.skip(1))
    }
}

pub proof fn lemma_lex_le_refl(a: Seq<char>)
    ensures
        lex_le(a, a),
    decreases a.len(),
{
    if a.len() > 0 {
        lemma_lex_le_refl(a.skip(1));
    }
}

pub proof fn lemma_lex_le_total(a: Seq<char>, b: Seq<char>)
    ensures
        lex_le(a, b) || lex_le(b, a),
    decreases a.len(),
{
    if a.len() == 0 || b.len() == 0 {
    } else if a[0] != b[0] {
    } else {
        lemma_lex_le_total(a.skip(1), b.skip(1));
    }
}

pub proof fn lemma_lex_le_antisym(a: Seq<char>, b: Seq<char>)
    requires
        lex_le(a, b),
        lex_le(b, a),
    ensures
        a == b,
    decreases a.len(),
{
    if a.len() == 0 {
        assert(b.len() == 0);
        assert(a =~= b);
    } else {
        assert(b.len() > 0);
        assert(a[0] == b[0]);
        lemma_lex_le_antisym(a.skip(1), b.skip(1));
        assert(a =~= b) by {
            assert(a.skip(1).len() == a.len() - 1);
            assert(b.skip(1).len() == b.len() - 1);
            assert(a.len() == b.len());
            assert(forall|i: int|
                1 <= i < a.len() ==> a[i] == a.skip(1)[i - 1] && b[i] == b.skip(1)[i - 1]);
        }
    }
}

pub proof fn lemma_lex_le_trans(a: Seq<char>, b: Seq<char>, c: Seq<char>)
    requires
        lex_le(a, b),
        lex_le(b, c),
    ensures
        lex_le(a, c),
    decreases a.len(),
{
    if a.len() == 0 {
    } else {
        assert(b.len() > 0);
        assert(c.len() > 0);
        if a[0] == b[0] && b[0] == c[0] {
            lemma_lex_le_trans(a.skip(1), b.skip(1), c.skip(1));
        }
    }
}

/// Compare two string slices in lexicographic codepoint order.
pub fn str_le(a: &str, b: &str) -> (r: bool)
    ensures
        r == lex_le(a@, b@),
{
    let a_len: usize = a.unicode_len();
    let b_len: usize = b.unicode_len();
    let mut i: usize = 0;
    proof {
        assert(a@.skip(0) =~= a@);
        assert(b@.skip(0) =~= b@);
    }
    loop
        invariant
            i <= a_len,
            i <= b_len,
            a_len == a@.len(),
            b_len == b@.len(),
            lex_le(a@, b@) == lex_le(a@.skip(i as int), b@.skip(i as int)),
        decreases a_len - i,
    {
        if i == a_len {
            proof {
                assert(a@.skip(i as int).len() == 0);
            }
            return true;
        }
        if i == b_len {
            proof {
                assert(b@.skip(i as int).len() == 0);
                assert(a@.skip(i as int).len() > 0);
            }
            return false;
        }
        let ca = a.get_char(i);
        let cb = b.get_char(i);
        proof {
            assert(a@.skip(i as int)[0] == a@[i as int]);
            assert(b@.skip(i as int)[0] == b@[i as int]);
        }
        if ca as u32 != cb as u32 {
            return (ca as u32) < (cb as u32);
        }
        proof {
            assert(a@.skip(i as int).skip(1) =~= a@.skip(i + 1));
            assert(b@.skip(i as int).skip(1) =~= b@.skip(i + 1));
        }
        i = i + 1;
    }
}

/// Equality of two string slices, by their character sequences.
pub fn str_eq(a: &str, b: &str) -> (r: bool)
    ensures
        r == (a@ == b@),
{
    let le_ab = str_le(a, b);
    let le_ba = str_le(b, a);
    proof {
        if le_ab && le_ba {
            lemma_lex_le_antisym(a@, b@);
        }
        if a@ == b@ {
            lemma_lex_le_refl(a@);
        }
    }
    le_ab && le_ba
}

/// The needle `n` occurs in `s` starting at index `i`.
pub open spec fn occurs_at(s: Seq<char>, n: Seq<char>, i: int) -> bool {
    0 <= i && i + n.len() <= s.len() && s.subrange(i, i + n.len() as int) =~= n
}

/// `n` occurs somewhere in `s`.
pub open spec fn contains_seq(s: Seq<char>, n: Seq<char>) -> bool {
    exists|i: int| occurs_at(s, n, i)
}

/// Index of the first occurrence of `n` in `s`, if any.
pub open spec fn find_first(s: Seq<char>, n: Seq<char>) -> Option<int>
    decreases s.len(),
{
    if s.len() < n.len() {
        None
    } else if occurs_at(s, n, 0) {
        Some(0int)
    } else if s.len() == 0 {
        None
    } else {
        match find_first(s.skip(1), n) {
            Some(i) => Some(i + 1),
            None => None,
        }
    }
}

pub proof fn lemma_occurs_at_skip(s: Seq<char>, n: Seq<char>, j: int)
    requires
        s.len() > 0,
        0 <= j,
    ensures
        occurs_at(s.skip(1), n, j) == occurs_at(s, n, j + 1),
{
    if j + 1 + n.len() <= s.len() {
        assert(s.skip(1).subrange(j, j + n.len() as int) =~= s.subrange(
            j + 1,
            j + 1 + n.len() as int,
        ));
    }
}

pub proof fn lemma_find_first(s: Seq<char>, n: Seq<char>)
    ensures
        match find_first(s, n) {
            Some(i) => occurs_at(s, n, i) && forall|j: int|
                0 <= j < i ==> !#[trigger] occurs_at(s, n, j),
            None => forall|j: int| !#[trigger] occurs_at(s, n, j),
        },
    decreases s.len(),
{
    if s.len() < n.len() {
        assert(forall|j: int| occurs_at(s, n, j) ==> j + n.len() <= s.len());
    } else if occurs_at(s, n, 0) {
    } else if s.len() == 0 {
        assert(n.len() == 0);
        assert(s.subrange(0, 0) =~= n);
        assert(occurs_at(s, n, 0));
    } else {
        lemma_find_first(s.skip(1), n);
        assert forall|j: int| 0 <= j implies occurs_at(s.skip(1), n, j) == occurs_at(
            s,
            n,
            j + 1,
        ) by {
            lemma_occurs_at_skip(s, n, j);
        }
        match find_first(s.skip(1), n) {
            Some(i) => {
                assert(occurs_at(s, n, i + 1));
                assert forall|j: int| 0 <= j < i + 1 implies !occurs_at(s, n, j) by {
                    if j > 0 {
                        assert(!occurs_at(s.skip(1), n, j - 1));
                    }
                }
            },
            None => {
                assert forall|j: int| !occurs_at(s, n, j) by {
                    if j > 0 {
                        assert(!occurs_at(s.skip(1), n, j - 1));
                    } else if j == 0 {
                        assert(!occurs_at(s, n, 0));
                    }
                }
            },
        }
    }
}

/// Does `n@` occur in `s@` starting at `i`? Lengths are passed in to avoid
/// recounting.
fn matches_at(s: &str, s_len: usize, n: &str, n_len: usize, i: usize) -> (r: bool)
    requires
        s_len == s@.len(),
        n_len == n@.len(),
        i + n_len <= s_len,
    ensures
        r == occurs_at(s@, n@, i as int),
{
    let mut j: usize = 0;
    loop
        invariant
            j <= n_len,
            s_len == s@.len(),
            n_len == n@.len(),
            i + n_len <= s_len,
            forall|k: int| 0 <= k < j ==> s@[i + k] == n@[k],
        decreases n_len - j,
    {
        if j == n_len {
            proof {
                assert(s@.subrange(i as int, i + n@.len() as int) =~= n@);
            }
            return true;
        }
        let cs = s.get_char(i + j);
        let cn = n.get_char(j);
        if cs as u32 != cn as u32 {
            proof {
                if occurs_at(s@, n@, i as int) {
                    assert(s@.subrange(i as int, i + n@.len() as int)[j as int] == s@[i + j]);
                }
            }
            return false;
        }
        j = j + 1;
    }
}

/// First occurrence of `n` in `s`, as an index into the character sequence.
pub fn find_sub(s: &str, n: &str) -> (r: Option<usize>)
    ensures
        match r {
            Some(i) => find_first(s@, n@) == Some(i as int),
            None => find_first(s@, n@) is None,
        },
{
    let s_len: usize = s.unicode_len();
    let n_len: usize = n.unicode_len();
    proof {
        lemma_find_first(s@, n@);
    }
    if n_len > s_len {
        return None;
    }
    let mut i: usize = 0;
    loop
        invariant
            i <= s_len - n_len + 1,
            n_len <= s_len,
            s_len == s@.len(),
            n_len == n@.len(),
            forall|j: int| 0 <= j < i ==> !#[trigger] occurs_at(s@, n@, j),
        decreases s_len - i,
    {
        if i > s_len - n_len {
            proof {
                lemma_find_first(s@, n@);
                assert(forall|j: int| occurs_at(s@, n@, j) ==> j + n@.len() <= s@.len());
                if find_first(s@, n@) is Some {
                    let w = find_first(s@, n@)->Some_0;
                    assert(occurs_at(s@, n@, w));
                }
            }
            return None;
        }
        if matches_at(s, s_len, n, n_len, i) {
            proof {
                lemma_find_first(s@, n@);
                match find_first(s@, n@) {
                    Some(w) => {
                        if w < i {
                            assert(!occurs_at(s@, n@, w));
                        }
                        if w > i {
                            assert(!occurs_at(s@, n@, i as int));
                        }
                    },
                    None => {
                        assert(!occurs_at(s@, n@, i as int));
                    },
                }
            }
            return Some(i);
        }
        i = i + 1;
    }
}

/// Does `s` contain `n` anywhere?
pub fn str_contains(s: &str, n: &str) -> (r: bool)
    ensures
        r == contains_seq(s@, n@),
{
    let found = find_sub(s, n);
    proof {
        lemma_find_first(s@, n@);
    }
    match found {
        Some(i) => {
            proof {
                assert(occurs_at(s@, n@, i as int));
            }
            true
        },
        None => false,
    }
}

/// `p` is a mount-point style prefix of `q`: a character prefix that ends on a
/// path component boundary.
pub open spec fn path_prefix_of(p: Seq<char>, q: Seq<char>) -> bool {
    &&& p.len() <= q.len()
    &&& q.subrange(0, p.len() as int) =~= p
    &&& (p.len() == q.len() || q[p.len() as int] == '/' || (p.len() > 0 && p[p.len() - 1] == '/'))
}

pub fn is_path_prefix(p: &str, q: &str) -> (r: bool)
    ensures
        r == path_prefix_of(p@, q@),
{
    let p_len: usize = p.unicode_len();
    let q_len: usize = q.unicode_len();
    if p_len > q_len {
        return false;
    }
    if !matches_at(q, q_len, p, p_len, 0) {
        proof {
            assert(!occurs_at(q@, p@, 0));
        }
        return false;
    }
    proof {
        assert(occurs_at(q@, p@, 0));
    }
    if p_len == q_len {
        return true;
    }
    if q.get_char(p_len) == '/' {
        return true;
    }
    if p_len > 0 && p.get_char(p_len - 1) == '/' {
        return true;
    }
    false
}

/// Join a directory path and a relative suffix; an empty suffix leaves the
/// path unchanged.
pub open spec fn spec_path_join(base: Seq<char>, rel: Seq<char>) -> Seq<char> {
    if rel.len() == 0 {
        base
    } else {
        base + seq!['/'] + rel
    }
}

pub fn path_join(base: &str, rel: &str) -> (r: String)
    ensures
        r@ == spec_path_join(base@, rel@),
{
    let mut out: String = base.to_owned();
    if rel.unicode_len() == 0 {
        return out;
    }
    proof {
        reveal_strlit("/");
    }
    out.append("/");
    out.append(rel);
    proof {
        assert(out@ =~= base@ + seq!['/'] + rel@);
    }
    out
}

/// The suffix of `q` below the mount point `p`: `q` minus the prefix `p`,
/// minus one leading separator if present.
pub open spec fn spec_relative_of(p: Seq<char>, q: Seq<char>) -> Seq<char> {
    let rest = q.skip(p.len() as int);
    if rest.len() > 0 && rest[0] == '/' {
        rest.skip(1)
    } else {
        rest
    }
}

pub fn relative_of(p: &str, q: &str) -> (r: String)
    requires
        p@.len() <= q@.len(),
    ensures
        r@ == spec_relative_of(p@, q@),
{
    let p_len: usize = p.unicode_len();
    let q_len: usize = q.unicode_len();
    let start: usize = if p_len < q_len && q.get_char(p_len) == '/' {
        p_len + 1
    } else {
        p_len
    };
    let tail = q.substring_char(start, q_len);
    proof {
        let rest = q@.skip(p@.len() as int);
        if rest.len() > 0 && rest[0] == '/' {
            assert(q@[p@.len() as int] == '/');
            assert(tail@ =~= rest.skip(1));
        } else {
            assert(tail@ =~= rest);
        }
    }
    tail.to_owned()
}

/// Number of component starts in `s`, given whether the character before `s`
/// was a separator: a component starts at each non-separator character that
/// follows a separator (or starts the sequence).
pub open spec fn count_components(s: Seq<char>, prev_sep: bool) -> int
    decreases s.len(),
{
    if s.len() == 0 {
        0
    } else {
        (if prev_sep && s[0] != '/' {
            1int
        } else {
            0int
        }) + count_components(s.skip(1), s[0] == '/')
    }
}

/// Number of path components, in the way a component iterator counts them: one
/// for a leading separator, plus one per non-empty run between separators.
pub open spec fn spec_path_depth(s: Seq<char>) -> int {
    (if s.len() > 0 && s[0] == '/' {
        1int
    } else {
        0int
    }) + count_components(s, true)
}

/// Count the path components of `s`.
pub fn path_depth(s: &str) -> (r: usize)
    ensures
        r == spec_path_depth(s@),
        r <= s@.len() + 1,
{
    let len: usize = s.unicode_len();
    let mut i: usize = 0;
    let mut prev_sep: bool = true;
    let mut count: usize = 0;
    proof {
        lemma_count_components_bound(s@, true);
        assert(s@.skip(0) =~= s@);
    }
    while i < len
        invariant
            i <= len,
            len == s@.len(),
            count <= i,
            count + count_components(s@.skip(i as int), prev_sep) == count_components(s@, true),
        decreases len - i,
    {
        let c = s.get_char(i);
        proof {
            assert(s@.skip(i as int)[0] == s@[i as int]);
            assert(s@.skip(i as int).skip(1) =~= s@.skip(i + 1));
            lemma_count_components_bound(s@.skip(i + 1), c == '/');
            lemma_count_components_nonneg(s@.skip(i + 1), c == '/');
        }
        if prev_sep && c != '/' {
            count = count + 1;
        }
        prev_sep = c == '/';
        i = i + 1;
    }
    let leading: bool = if len > 0 { s.get_char(0) == '/' } else { false };
    if leading {
        proof {
            assert(count_components(s@, true) == count_components(s@.skip(1), true));
            lemma_count_components_bound(s@.skip(1), true);
        }
        count + 1
    } else {
        count
    }
}

proof fn lemma_count_components_nonneg(s: Seq<char>, prev_sep: bool)
    ensures
        count_components(s, prev_sep) >= 0,
    decreases s.len(),
{
    if s.len() > 0 {
        lemma_count_components_nonneg(s.skip(1), s[0] == '/');
    }
}

proof fn lemma_count_components_bound(s: Seq<char>, prev_sep: bool)
    ensures
        count_components(s, prev_sep) <= s.len(),
        count_components(s, prev_sep) >= 0,
    decreases s.len(),
{
    if s.len() > 0 {
        lemma_count_components_bound(s.skip(1), s[0] == '/');
    }
}

} // verus!
