//! Character-level splitting of text, stated over the character sequence.
use vstd::prelude::*;
use vstd::string::*;

verus! {

/// `i` is the position of the first `c` in `s`.
pub open spec fn is_first_index(s: Seq<char>, c: char, i: int) -> bool {
    &&& 0 <= i < s.len()
    &&& s[i] == c
    &&& forall|j: int| 0 <= j < i ==> s[j] != c
}

/// `i` is the position of the last `c` in `s`.
pub open spec fn is_last_index(s: Seq<char>, c: char, i: int) -> bool {
    &&& 0 <= i < s.len()
    &&& s[i] == c
    &&& forall|j: int| i < j < s.len() ==> s[j] != c
}

/// `s` cut around its first `c`: the part before it and the part after it.
pub open spec fn split_first(s: Seq<char>, c: char) -> Option<(Seq<char>, Seq<char>)> {
    if exists|i: int| is_first_index(s, c, i) {
        let i = choose|i: int| is_first_index(s, c, i);
        Some((s.take(i), s.skip(i + 1)))
    } else {
        None
    }
}

/// `s` cut around its last `c`: the part before it and the part after it.
pub open spec fn split_last(s: Seq<char>, c: char) -> Option<(Seq<char>, Seq<char>)> {
    if exists|i: int| is_last_index(s, c, i) {
        let i = choose|i: int| is_last_index(s, c, i);
        Some((s.take(i), s.skip(i + 1)))
    } else {
        None
    }
}

proof fn lemma_first_index_unique(s: Seq<char>, c: char, i: int, k: int)
    requires
        is_first_index(s, c, i),
        is_first_index(s, c, k),
    ensures
        i == k,
{
}

proof fn lemma_last_index_unique(s: Seq<char>, c: char, i: int, k: int)
    requires
        is_last_index(s, c, i),
        is_last_index(s, c, k),
    ensures
        i == k,
{
}

/// Cutting `a`, `c`, `b` around its first `c` gives back `a` and `b` when
/// `a` holds no `c`.
pub proof fn lemma_split_first_joined(a: Seq<char>, b: Seq<char>, c: char)
    requires
        !a.contains(c),
    ensures
        split_first(a + seq![c] + b, c) == Some((a, b)),
{
    let s = a + seq![c] + b;
    assert(is_first_index(s, c, a.len() as int)) by {
        assert forall|j: int| 0 <= j < a.len() implies s[j] != c by {
            assert(s[j] == a[j]);
        }
    }
    let i = choose|i: int| is_first_index(s, c, i);
    lemma_first_index_unique(s, c, i, a.len() as int);
    assert(s.take(i) =~= a);
    assert(s.skip(i + 1) =~= b);
}

/// Cutting `a`, `c`, `b` around its last `c` gives back `a` and `b` when
/// `b` holds no `c`.
pub proof fn lemma_split_last_joined(a: Seq<char>, b: Seq<char>, c: char)
    requires
        !b.contains(c),
    ensures
        split_last(a + seq![c] + b, c) == Some((a, b)),
{
    let s = a + seq![c] + b;
    assert(is_last_index(s, c, a.len() as int)) by {
        assert forall|j: int| a.len() < j < s.len() implies s[j] != c by {
            assert(s[j] == b[j - a.len() - 1]);
        }
    }
    let i = choose|i: int| is_last_index(s, c, i);
    lemma_last_index_unique(s, c, i, a.len() as int);
    assert(s.take(i) =~= a);
    assert(s.skip(i + 1) =~= b);
}

/// A text without `c` has no cut around `c`.
pub proof fn lemma_split_last_absent(s: Seq<char>, c: char)
    requires
        !s.contains(c),
    ensures
        split_last(s, c) is None,
{
    if exists|i: int| is_last_index(s, c, i) {
        let i = choose|i: int| is_last_index(s, c, i);
        assert(s.contains(c)) by {
            assert(s[i] == c);
        }
    }
}

/// Whether two texts hold the same characters.
pub fn same_text(a: &str, b: &str) -> (r: bool)
    ensures
        r == (a@ == b@),
{
    let n = a.unicode_len();
    if n != b.unicode_len() {
        return false;
    }
    let mut i: usize = 0;
    while i < n
        invariant
            n == a@.len(),
            n == b@.len(),
            i <= n,
            forall|j: int| 0 <= j < i ==> a@[j] == b@[j],
        decreases n - i,
    {
        if a.get_char(i) != b.get_char(i) {
            return false;
        }
        i = i + 1;
    }
    assert(a@ =~= b@);
    true
}

/// Cuts `s` around its first `c`, as `str::split_once` does.
pub fn split_once_first(s: &str, c: char) -> (r: Option<(String, String)>)
    ensures
        match r {
            Some((x, y)) => split_first(s@, c) == Some((x@, y@)),
            None => split_first(s@, c) is None,
        },
{
    let n = s.unicode_len();
    let mut i: usize = 0;
    while i < n
        invariant
            n == s@.len(),
            i <= n,
            forall|j: int| 0 <= j < i ==> s@[j] != c,
        decreases n - i,
    {
        if s.get_char(i) == c {
            proof {
                assert(is_first_index(s@, c, i as int));
                let k = choose|k: int| is_first_index(s@, c, k);
                lemma_first_index_unique(s@, c, k, i as int);
            }
            let before = s.substring_char(0, i).to_owned();
            let after = s.substring_char(i + 1, n).to_owned();
            proof {
                assert(before@ =~= s@.take(i as int));
                assert(after@ =~= s@.skip(i + 1));
            }
            return Some((before, after));
        }
        i = i + 1;
    }
    proof {
        if exists|k: int| is_first_index(s@, c, k) {
            let k = choose|k: int| is_first_index(s@, c, k);
            assert(s@[k] == c);
        }
    }
    None
}

/// Cuts `s` around its last `c`, as `str::rsplit_once` does.
pub fn split_once_last(s: &str, c: char) -> (r: Option<(String, String)>)
    ensures
        match r {
            Some((x, y)) => split_last(s@, c) == Some((x@, y@)),
            None => split_last(s@, c) is None,
        },
{
    let n = s.unicode_len();
    let mut i: usize = n;
    while i > 0
        invariant
            n == s@.len(),
            i <= n,
            forall|j: int| i <= j < n ==> s@[j] != c,
        decreases i,
    {
        if s.get_char(i - 1) == c {
            proof {
                assert(is_last_index(s@, c, i - 1));
                let k = choose|k: int| is_last_index(s@, c, k);
                lemma_last_index_unique(s@, c, k, i - 1);
            }
            let before = s.substring_char(0, i - 1).to_owned();
            let after = s.substring_char(i, n).to_owned();
            proof {
                assert(before@ =~= s@.take(i - 1));
                assert(after@ =~= s@.skip(i as int));
            }
            return Some((before, after));
        }
        i = i - 1;
    }
    proof {
        if exists|k: int| is_last_index(s@, c, k) {
            let k = choose|k: int| is_last_index(s@, c, k);
            assert(s@[k] == c);
        }
    }
    None
}

} // verus!
