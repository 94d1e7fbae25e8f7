use vstd::prelude::*;

verus! {

/// The case-folded bytes of a text: the UTF-8 bytes of its lower-case form.
/// The result depends on the characters alone.
pub uninterp spec fn lower_fold(s: Seq<char>) -> Seq<u8>;

/// Relies on str::to_lowercase: the lower-case form depends on the
/// characters alone, and an empty string stays empty.
#[verifier::external_body]
pub fn lower_fold_bytes(s: &str) -> (r: Vec<u8>)
    ensures
        r@ == lower_fold(s@),
        s@.len() == 0 ==> r@.len() == 0,
{
    s.to_lowercase().into_bytes()
}

/// `needle` occurs in `hay` starting at position `i`.
pub open spec fn is_match_at(hay: Seq<u8>, needle: Seq<u8>, i: int) -> bool {
    0 <= i && i + needle.len() <= hay.len() && hay.subrange(i, i + needle.len()) == needle
}

/// `needle` occurs somewhere in `hay`.
pub open spec fn contains_bytes(hay: Seq<u8>, needle: Seq<u8>) -> bool {
    exists|i: int| is_match_at(hay, needle, i)
}

/// An empty needle occurs in every haystack.
pub proof fn lemma_empty_needle_matches(hay: Seq<u8>, needle: Seq<u8>)
    requires
        needle.len() == 0,
    ensures
        contains_bytes(hay, needle),
{
    assert(hay.subrange(0, 0) =~= needle);
    assert(is_match_at(hay, needle, 0));
}

/// Whether `needle` occurs contiguously in `hay`.
pub fn find_substring(hay: &Vec<u8>, needle: &Vec<u8>) -> (r: bool)
    ensures
        r == contains_bytes(hay@, needle@),
{
    let m = needle.len();
    let n = hay.len();
    if m == 0 {
        proof {
            lemma_empty_needle_matches(hay@, needle@);
        }
        return true;
    }
    if m > n {
        return false;
    }
    let mut i: usize = 0;
    while i <= n - m
        invariant
            0 < m <= n,
            m == needle@.len(),
            n == hay@.len(),
            i <= n - m + 1,
            forall|p: int| 0 <= p < i as int ==> !is_match_at(hay@, needle@, p),
        decreases n - i,
    {
        let mut j: usize = 0;
        let mut mismatch = false;
        while j < m
            invariant
                0 < m <= n,
                m == needle@.len(),
                n == hay@.len(),
                i + m <= n,
                j <= m,
                !mismatch ==> forall|q: int| 0 <= q < j as int ==> hay@[i as int + q]
                    == needle@[q],
                mismatch ==> !is_match_at(hay@, needle@, i as int),
            decreases m - j,
        {
            if hay[i + j] != needle[j] {
                proof {
                    assert(hay@.subrange(i as int, i as int + needle@.len())[j as int]
                        != needle@[j as int]);
                }
                mismatch = true;
                j = m;
            } else {
                j += 1;
            }
        }
        if !mismatch {
            proof {
                assert(hay@.subrange(i as int, i as int + needle@.len()) =~= needle@);
                assert(is_match_at(hay@, needle@, i as int));
            }
            return true;
        }
        i += 1;
    }
    proof {
        assert forall|p: int| !is_match_at(hay@, needle@, p) by {
            if 0 <= p && p + needle@.len() <= hay@.len() {
                assert(p < i as int);
            }
        }
    }
    false
}

/// Whether some text of `items` is exactly `key`.
pub open spec fn seq_has_text(items: Seq<String>, key: Seq<char>) -> bool {
    exists|j: int| 0 <= j < items.len() && #[trigger] items[j]@ == key
}

/// Whether some element of `items` equals `key`, character for character.
pub fn vec_has_text(items: &Vec<String>, key: &String) -> (r: bool)
    ensures
        r == seq_has_text(items@, key@),
{
    let n = items.len();
    let mut j: usize = 0;
    while j < n
        invariant
            n == items@.len(),
            j <= n,
            forall|q: int| 0 <= q < j as int ==> #[trigger] items@[q]@ != key@,
        decreases n - j,
    {
        if items[j].eq(key) {
            return true;
        }
        j += 1;
    }
    false
}

} // verus!
