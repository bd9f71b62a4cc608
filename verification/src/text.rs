//! Small verified utilities over strings: equality, substring search, and
//! character filtering. Contracts are stated over `Seq<char>` views.

use vstd::prelude::*;

verus! {

/// A `Vec`'s deep view has one entry per element.
pub broadcast proof fn lemma_deep_view_len<T: DeepView>(v: &Vec<T>)
    ensures
        #[trigger] v.deep_view().len() == v@.len(),
{
}

/// A `Vec`'s deep view holds each element's deep view.
pub broadcast proof fn lemma_deep_view_index<T: DeepView>(v: &Vec<T>, k: int)
    requires
        0 <= k < v@.len(),
    ensures
        #[trigger] v.deep_view()[k] == v@[k].deep_view(),
{
}

/// Whitespace, as the manifest format and the diagnostic stream treat it.
pub open spec fn sp_is_ws(c: char) -> bool {
    c == ' ' || c == '\t' || c == '\n' || c == '\r'
}

pub fn is_ws_char(c: char) -> (r: bool)
    ensures
        r == sp_is_ws(c),
{
    c == ' ' || c == '\t' || c == '\n' || c == '\r'
}

/// True when the window of `t` starting at `i` spells out `w`.
pub open spec fn matches_at(t: Seq<char>, i: int, w: Seq<char>) -> bool {
    &&& 0 <= i
    &&& i + w.len() <= t.len()
    &&& forall|k: int| 0 <= k < w.len() ==> t[i + k] == w[k]
}

/// True when `w` occurs somewhere in `t` as a contiguous substring.
pub open spec fn sp_contains(t: Seq<char>, w: Seq<char>) -> bool {
    exists|i: int| matches_at(t, i, w)
}

/// Character-for-character string equality.
pub fn str_eq(a: &str, b: &str) -> (r: bool)
    ensures
        r == (a@ == b@),
{
    let alen = a.unicode_len();
    let blen = b.unicode_len();
    if alen != blen {
        return false;
    }
    let mut i: usize = 0;
    while i < alen
        invariant
            i <= alen,
            alen == a@.len(),
            alen == b@.len(),
            forall|k: int| 0 <= k < i ==> a@[k] == b@[k],
        decreases alen - i,
    {
        if a.get_char(i) != b.get_char(i) {
            return false;
        }
        i += 1;
    }
    proof {
        assert(a@ =~= b@);
    }
    true
}

/// Substring search; quadratic, which is fine for the short command output
/// and tag names this library works with.
pub fn str_contains(t: &str, w: &str) -> (r: bool)
    ensures
        r == sp_contains(t@, w@),
{
    let tlen = t.unicode_len();
    let wlen = w.unicode_len();
    if wlen > tlen {
        return false;
    }
    let mut i: usize = 0;
    while i <= tlen - wlen
        invariant
            wlen <= tlen,
            tlen == t@.len(),
            wlen == w@.len(),
            forall|j: int| 0 <= j < i ==> !matches_at(t@, j, w@),
        decreases tlen - i,
    {
        let mut k: usize = 0;
        let mut all_eq = true;
        while k < wlen
            invariant
                k <= wlen,
                i + wlen <= tlen,
                tlen == t@.len(),
                wlen == w@.len(),
                all_eq ==> forall|m: int| 0 <= m < k ==> t@[i + m] == w@[m],
                !all_eq ==> !matches_at(t@, i as int, w@),
            decreases wlen - k,
        {
            if t.get_char(i + k) != w.get_char(k) {
                proof {
                    assert(!matches_at(t@, i as int, w@));
                }
                all_eq = false;
            }
            k += 1;
        }
        if all_eq {
            proof {
                assert(matches_at(t@, i as int, w@));
            }
            return true;
        }
        i += 1;
    }
    proof {
        assert forall|j: int| !matches_at(t@, j, w@) by {
            if matches_at(t@, j, w@) {
                assert(0 <= j && j + w@.len() <= t@.len());
                assert(j < i);
            }
        }
    }
    false
}

/// The characters of `t` with every carriage return and line feed removed.
pub open spec fn sp_strip_crlf(t: Seq<char>) -> Seq<char>
    decreases t.len(),
{
    if t.len() == 0 {
        t
    } else {
        let rest = sp_strip_crlf(t.drop_last());
        if t.last() == '\n' || t.last() == '\r' {
            rest
        } else {
            rest.push(t.last())
        }
    }
}

/// Copy of `s` with every `\n` and `\r` removed.
pub fn strip_crlf(s: &str) -> (r: String)
    ensures
        r@ == sp_strip_crlf(s@),
{
    let len = s.unicode_len();
    let mut out = String::new();
    let mut i: usize = 0;
    while i < len
        invariant
            i <= len,
            len == s@.len(),
            out@ == sp_strip_crlf(s@.subrange(0, i as int)),
        decreases len - i,
    {
        let c = s.get_char(i);
        proof {
            assert(s@.subrange(0, i + 1).drop_last() =~= s@.subrange(0, i as int));
            assert(s@.subrange(0, i + 1).last() == s@[i as int]);
        }
        if c != '\n' && c != '\r' {
            let piece = s.substring_char(i, i + 1);
            proof {
                assert(piece@ =~= seq![s@[i as int]]);
                assert(sp_strip_crlf(s@.subrange(0, i + 1)) =~= out@ + piece@);
            }
            out.append(piece);
        }
        i += 1;
    }
    proof {
        assert(s@.subrange(0, len as int) =~= s@);
    }
    out
}

} // verus!
