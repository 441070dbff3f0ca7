//! Verified character-level text helpers.
//!
//! The par-table sources use three tiny textual conventions: reference
//! expressions joined by `|`, combo patterns joined by spaces, and file roles
//! recognised by a substring of the path. The splitting, joining and substring
//! search used for those live here, specified over `Seq<char>` views.

use vstd::prelude::*;

verus! {

/// Whether the character `d` occurs in `s`.
pub open spec fn spec_contains_char(s: Seq<char>, d: char) -> bool {
    exists|i: int| 0 <= i < s.len() && s[i] == d
}

/// Index of the first occurrence of `d` in `s`, or `-1` when there is none.
pub open spec fn find_delim(s: Seq<char>, d: char) -> int
    decreases s.len(),
{
    if s.len() == 0 {
        -1
    } else if s[0] == d {
        0
    } else {
        let r = find_delim(s.skip(1), d);
        if r < 0 {
            -1
        } else {
            r + 1
        }
    }
}

/// `find_delim` returns the first occurrence of `d`, or `-1` when `d` does not
/// occur at all.
pub proof fn lemma_find_delim(s: Seq<char>, d: char)
    ensures
        find_delim(s, d) == -1 ==> !spec_contains_char(s, d),
        find_delim(s, d) != -1 ==> 0 <= find_delim(s, d) < s.len() && s[find_delim(s, d)] == d
            && (forall|j: int| 0 <= j < find_delim(s, d) ==> s[j] != d),
    decreases s.len(),
{
    if s.len() == 0 {
    } else if s[0] == d {
    } else {
        lemma_find_delim(s.skip(1), d);
        let t = s.skip(1);
        let r = find_delim(t, d);
        if r == -1 {
            assert forall|i: int| 0 <= i < s.len() implies s[i] != d by {
                if i > 0 {
                    assert(t[i - 1] == s[i]);
                    assert(!spec_contains_char(t, d));
                }
            }
        } else {
            assert(s[r + 1] == t[r]);
            assert forall|j: int| 0 <= j < r + 1 implies s[j] != d by {
                if j > 0 {
                    assert(t[j - 1] == s[j]);
                }
            }
        }
    }
}

/// The pieces of `s` between occurrences of `d`, in order. A string without
/// `d` yields itself as its only piece, so the result is never empty.
pub open spec fn spec_split(s: Seq<char>, d: char) -> Seq<Seq<char>>
    decreases s.len(),
{
    let i = find_delim(s, d);
    if 0 <= i < s.len() {
        seq![s.take(i)] + spec_split(s.skip(i + 1), d)
    } else {
        seq![s]
    }
}

/// Unfolds `spec_split` at the first occurrence of `d`.
pub proof fn lemma_split_at_first(s: Seq<char>, d: char, k: int)
    requires
        0 <= k < s.len(),
        s[k] == d,
        forall|j: int| 0 <= j < k ==> s[j] != d,
    ensures
        spec_split(s, d) == seq![s.take(k)] + spec_split(s.skip(k + 1), d),
{
    lemma_find_delim(s, d);
    let f = find_delim(s, d);
    assert(spec_contains_char(s, d));
    if f < k {
        assert(s[f] != d);
        assert(false);
    }
    if f > k {
        assert(s[k] != d);
        assert(false);
    }
}

/// `spec_split` on a string without the delimiter.
pub proof fn lemma_split_no_delim(s: Seq<char>, d: char)
    requires
        forall|j: int| 0 <= j < s.len() ==> s[j] != d,
    ensures
        spec_split(s, d) == seq![s],
{
    lemma_find_delim(s, d);
    let f = find_delim(s, d);
    if 0 <= f < s.len() {
        assert(s[f] == d);
        assert(false);
    }
}

/// Whether the character `d` occurs in `s`.
pub fn contains_char(s: &str, d: char) -> (r: bool)
    ensures
        r == spec_contains_char(s@, d),
{
    let len = s.unicode_len();
    let mut i: usize = 0;
    while i < len
        invariant
            len == s@.len(),
            i <= len,
            forall|j: int| 0 <= j < i ==> s@[j] != d,
        decreases len - i,
    {
        if s.get_char(i) == d {
            return true;
        }
        i = i + 1;
    }
    false
}

/// Splits `s` at every occurrence of `d`, as `str::split` does: empty pieces
/// are kept and an empty input yields one empty piece.
pub fn split_str(s: &str, d: char) -> (r: Vec<String>)
    ensures
        r@.map_values(|t: String| t@) == spec_split(s@, d),
{
    let len = s.unicode_len();
    let mut r: Vec<String> = Vec::new();
    let mut start: usize = 0;
    let mut i: usize = 0;
    proof {
        assert(s@.skip(0) =~= s@);
        assert(r@.map_values(|t: String| t@) =~= Seq::<Seq<char>>::empty());
        assert(Seq::<Seq<char>>::empty() + spec_split(s@, d) =~= spec_split(s@, d));
    }
    while i < len
        invariant
            len == s@.len(),
            start <= i <= len,
            forall|j: int| start <= j < i ==> s@[j] != d,
            spec_split(s@, d) == r@.map_values(|t: String| t@) + spec_split(
                s@.skip(start as int),
                d,
            ),
        decreases len - i,
    {
        if s.get_char(i) == d {
            let ghost r0 = r@;
            let piece = s.substring_char(start, i);
            let tok = piece.to_owned();
            r.push(tok);
            proof {
                let suffix = s@.skip(start as int);
                assert forall|j: int| 0 <= j < i - start implies suffix[j] != d by {
                    assert(suffix[j] == s@[start + j]);
                }
                assert(suffix[i - start] == s@[i as int]);
                lemma_split_at_first(suffix, d, i - start as int);
                assert(suffix.take(i - start) =~= s@.subrange(start as int, i as int));
                assert(suffix.skip(i - start + 1) =~= s@.skip(i + 1));
                assert(r@.map_values(|t: String| t@) =~= r0.map_values(|t: String| t@) + seq![
                    tok@,
                ]);
                assert(r@.map_values(|t: String| t@) + spec_split(s@.skip(i + 1), d)
                    =~= r0.map_values(|t: String| t@) + spec_split(suffix, d));
            }
            start = i + 1;
        }
        i = i + 1;
    }
    let ghost r0 = r@;
    let piece = s.substring_char(start, len);
    let tok = piece.to_owned();
    r.push(tok);
    proof {
        let suffix = s@.skip(start as int);
        assert forall|j: int| 0 <= j < suffix.len() implies suffix[j] != d by {
            assert(suffix[j] == s@[start + j]);
        }
        lemma_split_no_delim(suffix, d);
        assert(tok@ =~= suffix);
        assert(r@.map_values(|t: String| t@) =~= r0.map_values(|t: String| t@) + seq![tok@]);
    }
    r
}

/// The pieces of `parts` joined with single `sep` characters in between.
pub open spec fn spec_join(parts: Seq<Seq<char>>, sep: char) -> Seq<char>
    decreases parts.len(),
{
    if parts.len() == 0 {
        Seq::empty()
    } else if parts.len() == 1 {
        parts[0]
    } else {
        spec_join(parts.drop_last(), sep) + seq![sep] + parts.last()
    }
}

/// Joins `parts` with single spaces, as the reel rows are joined before the
/// combo pattern in them is read.
pub fn join_with_spaces(parts: &Vec<String>) -> (r: String)
    ensures
        r@ == spec_join(parts@.map_values(|t: String| t@), ' '),
{
    let ghost ps = parts@.map_values(|t: String| t@);
    let mut s = String::new();
    let mut i: usize = 0;
    while i < parts.len()
        invariant
            ps == parts@.map_values(|t: String| t@),
            i <= parts@.len(),
            s@ == spec_join(ps.take(i as int), ' '),
        decreases parts@.len() - i,
    {
        if i > 0 {
            s.append(" ");
        }
        s.append(parts[i].as_str());
        proof {
            reveal_strlit(" ");
            assert(" "@ =~= seq![' ']);
            assert(ps.take(i + 1).drop_last() =~= ps.take(i as int));
            assert(ps.take(i + 1).last() == ps[i as int]);
            if i == 0 {
                assert(s@ =~= ps[0]);
            }
        }
        i = i + 1;
    }
    proof {
        assert(ps.take(parts@.len() as int) =~= ps);
    }
    s
}

/// Whether `n` occurs in `h` as a contiguous substring.
pub open spec fn spec_contains_sub(h: Seq<char>, n: Seq<char>) -> bool {
    exists|i: int| 0 <= i && i + n.len() <= h.len() && #[trigger] h.subrange(i, i + n.len()) == n
}

/// Whether `needle` occurs in `hay` as a contiguous substring, as
/// `str::contains` reports it.
pub fn contains_sub(hay: &str, needle: &str) -> (r: bool)
    ensures
        r == spec_contains_sub(hay@, needle@),
{
    let hl = hay.unicode_len();
    let nl = needle.unicode_len();
    if nl > hl {
        return false;
    }
    let mut i: usize = 0;
    while i <= hl - nl
        invariant
            hl == hay@.len(),
            nl == needle@.len(),
            nl <= hl,
            i <= hl - nl + 1,
            forall|k: int| 0 <= k < i ==> #[trigger] hay@.subrange(k, k + nl) != needle@,
        decreases hl - nl - i + 1,
    {
        let mut j: usize = 0;
        let mut ok = true;
        while j < nl
            invariant
                hl == hay@.len(),
                nl == needle@.len(),
                i + nl <= hl,
                j <= nl,
                ok ==> forall|t: int| 0 <= t < j ==> hay@[i + t] == needle@[t],
                !ok ==> exists|t: int| 0 <= t < j && hay@[i + t] != needle@[t],
            decreases nl - j,
        {
            if s_get(hay, i + j) != s_get(needle, j) {
                ok = false;
            }
            j = j + 1;
        }
        if ok {
            proof {
                assert(hay@.subrange(i as int, i + nl) =~= needle@);
            }
            return true;
        }
        proof {
            let t = choose|t: int| 0 <= t < nl && hay@[i + t] != needle@[t];
            assert(hay@.subrange(i as int, i + nl)[t] == hay@[i + t]);
        }
        i = i + 1;
    }
    proof {
        assert forall|k: int| 0 <= k && k + needle@.len() <= hay@.len() implies #[trigger] hay@.subrange(
            k,
            k + needle@.len(),
        ) != needle@ by {
            assert(k < i);
        }
    }
    false
}

/// Whether two string slices hold the same characters.
pub fn str_eq(a: &str, b: &str) -> (r: bool)
    ensures
        r == (a@ == b@),
{
    let al = a.unicode_len();
    let bl = b.unicode_len();
    if al != bl {
        return false;
    }
    let mut i: usize = 0;
    while i < al
        invariant
            al == a@.len(),
            al == b@.len(),
            i <= al,
            forall|j: int| 0 <= j < i ==> a@[j] == b@[j],
        decreases al - i,
    {
        if s_get(a, i) != s_get(b, i) {
            return false;
        }
        i = i + 1;
    }
    proof {
        assert(a@ =~= b@);
    }
    true
}

/// One character of `s`, by index.
fn s_get(s: &str, i: usize) -> (c: char)
    requires
        i < s@.len(),
    ensures
        c == s@[i as int],
{
    s.get_char(i)
}

} // verus!
