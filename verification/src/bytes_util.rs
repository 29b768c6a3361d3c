//! Small verified utilities on byte sequences: substring search, splitting on
//! a separator, prefix tests, equality, and decimal rendering of numbers.
//! The wire codec and the router are built on these.

use vstd::prelude::*;

verus! {

/// The pattern `pat` occurs in `s` at position `i`.
pub open spec fn match_at(s: Seq<u8>, pat: Seq<u8>, i: int) -> bool {
    &&& 0 <= i
    &&& i + pat.len() <= s.len()
    &&& s.subrange(i, i + pat.len()) == pat
}

/// Position of the first occurrence of `pat` in `s`, if any.
pub open spec fn find_first(s: Seq<u8>, pat: Seq<u8>) -> Option<int>
    decreases s.len(),
{
    if pat.len() <= s.len() && s.subrange(0, pat.len() as int) == pat {
        Some(0)
    } else if s.len() == 0 {
        None
    } else {
        match find_first(s.drop_first(), pat) {
            None => None,
            Some(i) => Some(i + 1),
        }
    }
}

/// `find_first` returns the least position at which `pat` occurs, and `None`
/// exactly when it occurs nowhere.
pub proof fn lemma_find_first(s: Seq<u8>, pat: Seq<u8>)
    ensures
        match find_first(s, pat) {
            Some(i) => match_at(s, pat, i) && (forall|j: int| 0 <= j < i ==> !match_at(s, pat, j)),
            None => forall|j: int| !match_at(s, pat, j),
        },
    decreases s.len(),
{
    if pat.len() <= s.len() && s.subrange(0, pat.len() as int) == pat {
    } else if s.len() == 0 {
        assert forall|j: int| !match_at(s, pat, j) by {
            if 0 <= j && j + pat.len() <= s.len() {
                assert(s.subrange(j, j + pat.len()) != pat);
            }
        }
    } else {
        lemma_find_first(s.drop_first(), pat);
        assert forall|j: int| 1 <= j implies match_at(s, pat, j) == match_at(
            s.drop_first(),
            pat,
            j - 1,
        ) by {
            if 0 <= j - 1 && j - 1 + pat.len() <= s.drop_first().len() {
                assert(s.drop_first().subrange(j - 1, j - 1 + pat.len()) =~= s.subrange(
                    j,
                    j + pat.len(),
                ));
            }
        }
        assert(!match_at(s, pat, 0));
    }
}

/// If `pat` occurs at `i` and nowhere earlier, the first occurrence is `i`.
pub proof fn lemma_find_first_at(s: Seq<u8>, pat: Seq<u8>, i: int)
    requires
        match_at(s, pat, i),
        forall|j: int| 0 <= j < i ==> !match_at(s, pat, j),
    ensures
        find_first(s, pat) == Some(i),
{
    lemma_find_first(s, pat);
    match find_first(s, pat) {
        Some(k) => {
            if k < i {
                assert(match_at(s, pat, k));
            }
            if k > i {
                assert(!match_at(s, pat, i));
            }
        },
        None => {
            assert(!match_at(s, pat, i));
        },
    }
}

/// If `pat` occurs nowhere in `s`, `find_first` is `None`.
pub proof fn lemma_find_first_none(s: Seq<u8>, pat: Seq<u8>)
    requires
        forall|j: int| !match_at(s, pat, j),
    ensures
        find_first(s, pat) is None,
{
    lemma_find_first(s, pat);
    match find_first(s, pat) {
        Some(k) => {
            assert(match_at(s, pat, k));
        },
        None => {},
    }
}

/// The pieces of `s` between the non-overlapping occurrences of `pat`, taken
/// left to right; always at least one piece.
pub open spec fn split_on(s: Seq<u8>, pat: Seq<u8>) -> Seq<Seq<u8>>
    decreases s.len(),
        when pat.len() >= 1
        via split_on_decreases
{
    match find_first(s, pat) {
        None => seq![s],
        Some(i) => seq![s.subrange(0, i)] + split_on(
            s.subrange(i + pat.len(), s.len() as int),
            pat,
        ),
    }
}

#[via_fn]
proof fn split_on_decreases(s: Seq<u8>, pat: Seq<u8>) {
    lemma_find_first(s, pat);
}

/// Splitting never yields an empty list of pieces.
pub proof fn lemma_split_on_len(s: Seq<u8>, pat: Seq<u8>)
    requires
        pat.len() >= 1,
    ensures
        split_on(s, pat).len() >= 1,
{
    match find_first(s, pat) {
        None => {},
        Some(i) => {},
    }
}

/// Whether `s` and `pat` agree on the window of `pat`'s length at `i`.
fn window_eq(s: &[u8], i: usize, pat: &[u8]) -> (b: bool)
    requires
        i + pat@.len() <= s@.len(),
    ensures
        b == match_at(s@, pat@, i as int),
{
    let n = s.len();
    let mut k: usize = 0;
    while k < pat.len()
        invariant
            i + pat@.len() <= s@.len(),
            n == s@.len(),
            k <= pat@.len(),
            forall|m: int| 0 <= m < k ==> s@[i + m] == pat@[m],
        decreases pat@.len() - k,
    {
        if s[i + k] != pat[k] {
            proof {
                assert(s@.subrange(i as int, i + pat@.len())[k as int] == s@[i + k]);
            }
            return false;
        }
        k += 1;
    }
    proof {
        assert(s@.subrange(i as int, i + pat@.len()) =~= pat@);
    }
    true
}

/// Find the first occurrence of `pat` in `s`.
pub fn find_sub(s: &[u8], pat: &[u8]) -> (r: Option<usize>)
    requires
        pat@.len() >= 1,
    ensures
        match r {
            Some(i) => find_first(s@, pat@) == Some(i as int),
            None => find_first(s@, pat@) is None,
        },
{
    if pat.len() > s.len() {
        proof {
            assert forall|j: int| !match_at(s@, pat@, j) by {}
            lemma_find_first_none(s@, pat@);
        }
        return None;
    }
    let mut i: usize = 0;
    while i <= s.len() - pat.len()
        invariant
            pat@.len() >= 1,
            pat@.len() <= s@.len(),
            i <= s@.len() - pat@.len() + 1,
            forall|j: int| 0 <= j < i ==> !match_at(s@, pat@, j),
        decreases s@.len() - pat@.len() - i + 1,
    {
        if window_eq(s, i, pat) {
            proof {
                lemma_find_first_at(s@, pat@, i as int);
            }
            return Some(i);
        }
        i += 1;
    }
    proof {
        assert forall|j: int| !match_at(s@, pat@, j) by {
            if 0 <= j < i {
            } else if j + pat@.len() > s@.len() {
            }
        }
        lemma_find_first_none(s@, pat@);
    }
    None
}

/// Split `s` on every occurrence of `pat`, left to right.
pub fn split_on_sep(s: &[u8], pat: &[u8]) -> (r: Vec<Vec<u8>>)
    requires
        pat@.len() >= 1,
    ensures
        r.deep_view() == split_on(s@, pat@),
{
    let mut r: Vec<Vec<u8>> = Vec::new();
    let mut pos: usize = 0;
    let mut finished = false;
    proof {
        assert(s@.subrange(0, s@.len() as int) =~= s@);
        assert(r.deep_view() =~~= Seq::<Seq<u8>>::empty());
        assert(r.deep_view() + split_on(s@, pat@) =~= split_on(s@, pat@));
    }
    while !finished
        invariant
            pat@.len() >= 1,
            pos <= s@.len(),
            !finished ==> split_on(s@, pat@) == r.deep_view() + split_on(
                s@.subrange(pos as int, s@.len() as int),
                pat@,
            ),
            finished ==> r.deep_view() == split_on(s@, pat@),
        decreases s@.len() - pos + (if finished { 0int } else { 1int }),
    {
        let ghost tail_seq = s@.subrange(pos as int, s@.len() as int);
        let tail = &s[pos..s.len()];
        match find_sub(tail, pat) {
            Some(i) => {
                proof {
                    lemma_find_first(tail_seq, pat@);
                }
                let piece = vstd::slice::slice_to_vec(&s[pos..pos + i]);
                proof {
                    assert(tail_seq.subrange(0, i as int) =~= s@.subrange(
                        pos as int,
                        pos + i as int,
                    ));
                    assert(tail_seq.subrange(i + pat@.len(), tail_seq.len() as int) =~= s@.subrange(
                        pos + i + pat@.len(),
                        s@.len() as int,
                    ));
                }
                let ghost old_r = r.deep_view();
                r.push(piece);
                pos = pos + i + pat.len();
                proof {
                    assert(r.deep_view() =~~= old_r.push(tail_seq.subrange(0, i as int)));
                    assert(split_on(tail_seq, pat@) == seq![tail_seq.subrange(0, i as int)]
                        + split_on(s@.subrange(pos as int, s@.len() as int), pat@));
                    assert(r.deep_view() + split_on(s@.subrange(pos as int, s@.len() as int), pat@)
                        =~= old_r + split_on(tail_seq, pat@));
                }
            },
            None => {
                let piece = vstd::slice::slice_to_vec(tail);
                let ghost old_r = r.deep_view();
                r.push(piece);
                finished = true;
                proof {
                    assert(split_on(tail_seq, pat@) == seq![tail_seq]);
                    assert(r.deep_view() =~~= old_r.push(tail_seq));
                    assert(r.deep_view() =~= old_r + split_on(tail_seq, pat@));
                }
            },
        }
    }
    r
}

/// Byte-for-byte equality of two slices.
pub fn bytes_eq(a: &[u8], b: &[u8]) -> (r: bool)
    ensures
        r == (a@ == b@),
{
    if a.len() != b.len() {
        return false;
    }
    let mut k: usize = 0;
    while k < a.len()
        invariant
            a@.len() == b@.len(),
            k <= a@.len(),
            forall|m: int| 0 <= m < k ==> a@[m] == b@[m],
        decreases a@.len() - k,
    {
        if a[k] != b[k] {
            return false;
        }
        k += 1;
    }
    proof {
        assert(a@ =~= b@);
    }
    true
}

/// Whether `s` begins with `prefix`.
pub fn bytes_starts_with(s: &[u8], prefix: &[u8]) -> (r: bool)
    ensures
        r == prefix@.is_prefix_of(s@),
{
    if prefix.len() > s.len() {
        return false;
    }
    window_eq(s, 0, prefix)
}

/// Append a copy of `data` to `out`.
pub fn append_slice(out: &mut Vec<u8>, data: &[u8])
    ensures
        final(out)@ == old(out)@ + data@,
{
    let mut tmp = vstd::slice::slice_to_vec(data);
    out.append(&mut tmp);
}

/// The decimal digits of `n`, most significant first.
pub open spec fn dec_of(n: nat) -> Seq<u8>
    decreases n,
{
    if n < 10 {
        seq![(48 + n) as u8]
    } else {
        dec_of(n / 10).push((48 + n % 10) as u8)
    }
}

/// Render `n` in decimal.
pub fn usize_to_dec(n: usize) -> (r: Vec<u8>)
    ensures
        r@ == dec_of(n as nat),
    decreases n,
{
    if n < 10 {
        let mut r: Vec<u8> = Vec::new();
        r.push((48 + n) as u8);
        proof {
            assert(r@ =~= dec_of(n as nat));
        }
        r
    } else {
        let mut r = usize_to_dec(n / 10);
        r.push((48 + n % 10) as u8);
        proof {
            assert(r@ =~= dec_of(n as nat));
        }
        r
    }
}

} // verus!
