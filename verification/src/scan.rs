//! Byte-level text scanning: substring search and whitespace trimming.
//!
//! The discovery logic scrapes a textual banner, so everything here works
//! on byte sequences. `find_from` / `trim` are the mathematical models;
//! `find`, `match_at` and `trim_bytes` are their verified executable
//! counterparts.

use vstd::prelude::*;

verus! {

/// The bytes of an ASCII string, character by character.
pub open spec fn char_bytes(s: Seq<char>) -> Seq<u8> {
    Seq::new(s.len(), |i: int| s[i] as u8)
}

/// Turns an ASCII string literal into its byte vector.
pub(crate) fn lit_bytes(s: &str) -> (r: Vec<u8>)
    requires
        s.is_ascii(),
    ensures
        r@ == char_bytes(s@),
{
    proof {
        vstd::string::is_ascii_spec_bytes(s);
    }
    vstd::slice::slice_to_vec(s.as_bytes())
}

/// The needle `n` occurs in `h` at position `i`.
pub open spec fn matches_at(h: Seq<u8>, n: Seq<u8>, i: int) -> bool {
    &&& 0 <= i
    &&& i + n.len() <= h.len()
    &&& forall|k: int| 0 <= k < n.len() ==> h[i + k] == n[k]
}

/// Position of the first occurrence of `n` in `h` at or after `from`.
pub open spec fn find_from(h: Seq<u8>, n: Seq<u8>, from: int) -> Option<int>
    decreases h.len() - from,
{
    if from < 0 || from + n.len() > h.len() {
        None
    } else if matches_at(h, n, from) {
        Some(from)
    } else {
        find_from(h, n, from + 1)
    }
}

/// A found position is a match, lies at or after `from`, and is the first.
pub proof fn lemma_find_from_some(h: Seq<u8>, n: Seq<u8>, from: int, i: int)
    requires
        find_from(h, n, from) == Some(i),
    ensures
        from <= i,
        matches_at(h, n, i),
        forall|j: int| from <= j < i ==> !matches_at(h, n, j),
    decreases h.len() - from,
{
    if !(from < 0 || from + n.len() > h.len()) && !matches_at(h, n, from) {
        lemma_find_from_some(h, n, from + 1, i);
    }
}

/// Whether `n` occurs in `h` exactly at position `i`.
fn match_at(h: &[u8], n: &[u8], i: usize) -> (b: bool)
    requires
        i + n@.len() <= h@.len(),
    ensures
        b == matches_at(h@, n@, i as int),
{
    let n_len = n.len();
    let h_len = h.len();
    let mut k: usize = 0;
    while k < n_len
        invariant
            n_len == n@.len(),
            h_len == h@.len(),
            i + n@.len() <= h@.len(),
            k <= n@.len(),
            forall|k2: int| 0 <= k2 < k ==> h@[i + k2] == n@[k2],
        decreases n@.len() - k,
    {
        if h[i + k] != n[k] {
            return false;
        }
        k += 1;
    }
    true
}

/// First occurrence of `n` in `h` at or after `from`, or `None`.
pub fn find(h: &[u8], n: &[u8], from: usize) -> (r: Option<usize>)
    ensures
        match r {
            Some(i) => find_from(h@, n@, from as int) == Some(i as int),
            None => find_from(h@, n@, from as int) is None,
        },
{
    let n_len = n.len();
    let h_len = h.len();
    if n_len > h_len {
        return None;
    }
    let last = h_len - n_len;
    if from > last {
        return None;
    }
    let mut i = from;
    while i < last
        invariant
            from <= i <= last,
            n_len == n@.len(),
            h_len == h@.len(),
            last == h@.len() - n@.len(),
            find_from(h@, n@, from as int) == find_from(h@, n@, i as int),
        decreases last - i,
    {
        if match_at(h, n, i) {
            return Some(i);
        }
        i += 1;
    }
    if match_at(h, n, i) {
        proof {
            assert(find_from(h@, n@, i as int) == Some(i as int));
        }
        Some(i)
    } else {
        proof {
            assert(find_from(h@, n@, i as int) == find_from(h@, n@, i + 1));
            assert(find_from(h@, n@, i + 1) is None);
        }
        None
    }
}

/// A first match at `i` determines the value of `find_from`.
pub proof fn lemma_first_match_find_from(h: Seq<u8>, n: Seq<u8>, from: int, i: int)
    requires
        0 <= from <= i,
        matches_at(h, n, i),
        forall|j: int| from <= j < i ==> !matches_at(h, n, j),
    ensures
        find_from(h, n, from) == Some(i),
    decreases i - from,
{
    if from < i {
        lemma_first_match_find_from(h, n, from + 1, i);
    }
}

/// When no position at or after `from` matches, `find_from` finds nothing.
pub proof fn lemma_no_match_find_from(h: Seq<u8>, n: Seq<u8>, from: int)
    requires
        0 <= from,
        forall|j: int| from <= j ==> !matches_at(h, n, j),
    ensures
        find_from(h, n, from) is None,
    decreases h.len() - from,
{
    if !(from + n.len() > h.len()) {
        lemma_no_match_find_from(h, n, from + 1);
    }
}

/// ASCII whitespace: space, tab, line feed, vertical tab, form feed,
/// carriage return. Whitespace beyond ASCII is not stripped: the scanned
/// text is handled as bytes.
pub open spec fn is_ws(b: u8) -> bool {
    b == 32 || 9 <= b <= 13
}

/// `s` without its leading whitespace.
pub open spec fn trim_start(s: Seq<u8>) -> Seq<u8>
    decreases s.len(),
{
    if s.len() > 0 && is_ws(s[0]) {
        trim_start(s.drop_first())
    } else {
        s
    }
}

/// `s` without its trailing whitespace.
pub open spec fn trim_end(s: Seq<u8>) -> Seq<u8>
    decreases s.len(),
{
    if s.len() > 0 && is_ws(s.last()) {
        trim_end(s.drop_last())
    } else {
        s
    }
}

/// `s` without leading and trailing whitespace.
pub open spec fn trim(s: Seq<u8>) -> Seq<u8> {
    trim_end(trim_start(s))
}

fn is_ws_byte(b: u8) -> (r: bool)
    ensures
        r == is_ws(b),
{
    b == 32 || (9 <= b && b <= 13)
}

/// Copy of `s` with leading and trailing ASCII whitespace removed.
pub fn trim_bytes(s: &[u8]) -> (r: Vec<u8>)
    ensures
        r@ == trim(s@),
{
    let len = s.len();
    proof {
        assert(s@.subrange(0, len as int) =~= s@);
    }
    let mut a: usize = 0;
    while a < len && is_ws_byte(s[a])
        invariant
            a <= len,
            len == s@.len(),
            trim_start(s@) == trim_start(s@.subrange(a as int, len as int)),
        decreases len - a,
    {
        proof {
            let sub = s@.subrange(a as int, len as int);
            assert(sub[0] == s@[a as int]);
            assert(sub.drop_first() =~= s@.subrange(a + 1, len as int));
        }
        a += 1;
    }
    proof {
        let sub = s@.subrange(a as int, len as int);
        if a < len {
            assert(sub[0] == s@[a as int]);
        }
        assert(trim_start(s@) == sub);
    }
    let mut b: usize = len;
    while b > a && is_ws_byte(s[b - 1])
        invariant
            a <= b <= len,
            len == s@.len(),
            trim_start(s@) == s@.subrange(a as int, len as int),
            trim(s@) == trim_end(s@.subrange(a as int, b as int)),
        decreases b,
    {
        proof {
            let sub = s@.subrange(a as int, b as int);
            assert(sub.last() == s@[b - 1]);
            assert(sub.drop_last() =~= s@.subrange(a as int, b - 1));
        }
        b -= 1;
    }
    proof {
        let sub = s@.subrange(a as int, b as int);
        if b > a {
            assert(sub.last() == s@[b - 1]);
        }
        assert(trim(s@) == sub);
    }
    let mut r: Vec<u8> = Vec::new();
    let mut i = a;
    while i < b
        invariant
            a <= i <= b <= len,
            len == s@.len(),
            r@ == s@.subrange(a as int, i as int),
        decreases b - i,
    {
        r.push(s[i]);
        proof {
            assert(s@.subrange(a as int, i + 1) =~= s@.subrange(a as int, i as int).push(
                s@[i as int],
            ));
        }
        i += 1;
    }
    proof {
        assert(r@ == trim(s@));
    }
    r
}

/// Byte-wise equality of two names.
pub fn bytes_eq(a: &Vec<u8>, b: &Vec<u8>) -> (r: bool)
    ensures
        r == (a@ == b@),
{
    if a.len() != b.len() {
        return false;
    }
    let mut i: usize = 0;
    while i < a.len()
        invariant
            a@.len() == b@.len(),
            i <= a@.len(),
            forall|j: int| 0 <= j < i ==> a@[j] == b@[j],
        decreases a@.len() - i,
    {
        if a[i] != b[i] {
            return false;
        }
        i += 1;
    }
    proof {
        assert(a@ =~= b@);
    }
    true
}

} // verus!
