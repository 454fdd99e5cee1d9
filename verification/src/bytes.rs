//! Byte-sequence helpers shared by the reassembly algorithm: counting NUL
//! bytes, finding the first NUL, and stripping a trailing NUL run.

use vstd::prelude::*;

verus! {

/// Number of NUL bytes in `s`.
pub open spec fn count_nuls(s: Seq<u8>) -> nat
    decreases s.len(),
{
    if s.len() == 0 {
        0
    } else {
        count_nuls(s.drop_last()) + if s.last() == 0 {
            1nat
        } else {
            0nat
        }
    }
}

/// Index of the first NUL byte in `s`, or `s.len()` if there is none.
pub open spec fn first_nul(s: Seq<u8>) -> int
    decreases s.len(),
{
    if s.len() == 0 {
        0
    } else if s[0] == 0 {
        0
    } else {
        1 + first_nul(s.subrange(1, s.len() as int))
    }
}

/// `s` with its trailing run of NUL bytes removed.
pub open spec fn strip_nul_tail(s: Seq<u8>) -> Seq<u8>
    decreases s.len(),
{
    if s.len() > 0 && s.last() == 0 {
        strip_nul_tail(s.drop_last())
    } else {
        s
    }
}

/// `strip_nul_tail`, except that a segment of NUL bytes alone is kept whole.
pub open spec fn trim_nul_tail(s: Seq<u8>) -> Seq<u8> {
    if strip_nul_tail(s).len() == 0 {
        s
    } else {
        strip_nul_tail(s)
    }
}

/// Prefix of `s` that ends just before its first NUL byte; all of `s` if
/// there is none.
pub open spec fn take_until_nul(s: Seq<u8>) -> Seq<u8> {
    s.subrange(0, first_nul(s))
}

/// A sequence has no NUL bytes exactly when its NUL count is zero.
pub proof fn lemma_count_nuls_zero(s: Seq<u8>)
    ensures
        count_nuls(s) == 0 <==> (forall|k: int| 0 <= k < s.len() ==> s[k] != 0),
    decreases s.len(),
{
    if s.len() > 0 {
        lemma_count_nuls_zero(s.drop_last());
        assert(forall|k: int| 0 <= k < s.len() - 1 ==> s.drop_last()[k] == s[k]);
        if count_nuls(s) == 0 {
            assert(forall|k: int| 0 <= k < s.len() ==> s[k] != 0) by {
                assert(s.last() != 0);
                assert(forall|k: int| 0 <= k < s.len() - 1 ==> s[k] == s.drop_last()[k]);
            }
        }
    }
}

/// A sequence of `c` non-NUL bytes followed by NULs alone holds exactly
/// `len - c` NUL bytes.
pub proof fn lemma_count_nuls_padded(s: Seq<u8>, c: int)
    requires
        0 <= c <= s.len(),
        forall|k: int| 0 <= k < c ==> s[k] != 0,
        forall|k: int| c <= k < s.len() ==> s[k] == 0,
    ensures
        count_nuls(s) == s.len() - c,
    decreases s.len(),
{
    if s.len() == c {
        lemma_count_nuls_zero(s);
    } else {
        assert(s.last() == 0);
        let t = s.drop_last();
        assert(forall|k: int| 0 <= k < t.len() ==> t[k] == s[k]);
        lemma_count_nuls_padded(t, c);
    }
}

/// What stripping the NUL tail leaves never ends in NUL.
pub proof fn lemma_strip_last_nonzero(s: Seq<u8>)
    ensures
        strip_nul_tail(s).len() > 0 ==> strip_nul_tail(s).last() != 0,
    decreases s.len(),
{
    if s.len() > 0 && s.last() == 0 {
        lemma_strip_last_nonzero(s.drop_last());
    }
}

/// `first_nul` stays within bounds, lands on a NUL when one exists, and
/// nothing before it is NUL.
pub proof fn lemma_first_nul_bounds(s: Seq<u8>)
    ensures
        0 <= first_nul(s) <= s.len(),
        first_nul(s) < s.len() ==> s[first_nul(s)] == 0,
        forall|k: int| 0 <= k < first_nul(s) ==> s[k] != 0,
    decreases s.len(),
{
    if s.len() > 0 && s[0] != 0 {
        let t = s.subrange(1, s.len() as int);
        lemma_first_nul_bounds(t);
        assert(forall|k: int| 0 <= k < t.len() ==> t[k] == s[k + 1]);
        assert forall|k: int| 0 <= k < first_nul(s) implies s[k] != 0 by {
            if k >= 1 {
                assert(s[k] == t[k - 1]);
            }
        }
    }
}

/// `first_nul(s)` equals the position of the first NUL found by a scan.
pub proof fn lemma_first_nul_at(s: Seq<u8>, j: int)
    requires
        0 <= j <= s.len(),
        forall|k: int| 0 <= k < j ==> s[k] != 0,
        j < s.len() ==> s[j] == 0,
    ensures
        first_nul(s) == j,
    decreases j,
{
    if j == 0 {
        if s.len() > 0 {
            assert(s[0] == 0);
        }
    } else {
        assert(s[0] != 0);
        let t = s.subrange(1, s.len() as int);
        assert(forall|k: int| 0 <= k < t.len() ==> t[k] == s[k + 1]);
        lemma_first_nul_at(t, j - 1);
    }
}

/// When every byte from `j` on is NUL and the byte before `j` is not,
/// stripping the NUL tail keeps exactly the first `j` bytes.
pub proof fn lemma_strip_take(s: Seq<u8>, j: int)
    requires
        0 <= j <= s.len(),
        forall|k: int| j <= k < s.len() ==> s[k] == 0,
        j > 0 ==> s[j - 1] != 0,
    ensures
        strip_nul_tail(s) == s.take(j),
    decreases s.len(),
{
    if s.len() == j {
        if j == 0 {
            assert(strip_nul_tail(s) =~= s.take(0));
        } else {
            assert(s.last() != 0);
            assert(strip_nul_tail(s) =~= s.take(j));
        }
    } else {
        assert(s.last() == 0);
        let t = s.drop_last();
        assert(forall|k: int| 0 <= k < t.len() ==> t[k] == s[k]);
        lemma_strip_take(t, j);
        assert(t.take(j) =~= s.take(j));
    }
}

/// Number of NUL bytes in the slice `s`.
pub fn nul_count(s: &[u8]) -> (n: usize)
    ensures
        n as nat == count_nuls(s@),
{
    let mut n: usize = 0;
    let mut j: usize = 0;
    while j < s.len()
        invariant
            j <= s@.len(),
            n <= j,
            n as nat == count_nuls(s@.take(j as int)),
        decreases s@.len() - j,
    {
        proof {
            assert(s@.take(j as int + 1).drop_last() =~= s@.take(j as int));
            assert(s@.take(j as int + 1).last() == s@[j as int]);
        }
        if s[j] == 0 {
            n = n + 1;
        }
        j = j + 1;
    }
    proof {
        assert(s@.take(s@.len() as int) =~= s@);
    }
    n
}

/// Position of the first NUL byte in the slice `s`; its length if none.
pub fn first_nul_pos(s: &[u8]) -> (p: usize)
    ensures
        p as int == first_nul(s@),
        p <= s@.len(),
{
    let mut j: usize = 0;
    while j < s.len()
        invariant
            j <= s@.len(),
            forall|k: int| 0 <= k < j ==> s@[k] != 0,
        decreases s@.len() - j,
    {
        if s[j] == 0 {
            proof {
                lemma_first_nul_at(s@, j as int);
            }
            return j;
        }
        j = j + 1;
    }
    proof {
        lemma_first_nul_at(s@, s@.len() as int);
    }
    j
}

/// Length that the slice `s` keeps once its trailing NUL run is stripped.
pub fn nul_tail_start(s: &[u8]) -> (j: usize)
    ensures
        j <= s@.len(),
        strip_nul_tail(s@) == s@.take(j as int),
        j > 0 ==> s@[j as int - 1] != 0,
    decreases s@.len(),
{
    let mut j: usize = s.len();
    while j > 0 && s[j - 1] == 0
        invariant
            j <= s@.len(),
            forall|k: int| j <= k < s@.len() ==> s@[k] == 0,
        decreases j,
    {
        j = j - 1;
    }
    proof {
        lemma_strip_take(s@, j as int);
    }
    j
}

/// Appends `src[from..to]` to `dst`.
pub fn push_range(dst: &mut Vec<u8>, src: &[u8], from: usize, to: usize)
    requires
        from <= to <= src@.len(),
    ensures
        final(dst)@ == old(dst)@ + src@.subrange(from as int, to as int),
{
    let mut j: usize = from;
    proof {
        assert(dst@ =~= dst@ + src@.subrange(from as int, from as int));
    }
    while j < to
        invariant
            from <= j <= to <= src@.len(),
            dst@ == old(dst)@ + src@.subrange(from as int, j as int),
        decreases to - j,
    {
        dst.push(src[j]);
        proof {
            assert(old(dst)@ + src@.subrange(from as int, j as int + 1) =~= (old(dst)@
                + src@.subrange(from as int, j as int)).push(src@[j as int]));
        }
        j = j + 1;
    }
}

} // verus!
