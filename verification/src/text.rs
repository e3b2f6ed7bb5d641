//! The literal texts that the rewriter injects, as specification-level byte
//! sequences with executable builders, plus small byte-string utilities.

use vstd::prelude::*;
use vstd::slice::slice_to_vec;
use vstd::string::StringSliceAdditionalSpecFns;

verus! {

/// Bytes of a string slice, copied into an owned vector.
pub fn bytes_of(s: &str) -> (r: Vec<u8>)
    ensures
        r@ == s.spec_bytes(),
{
    slice_to_vec(s.as_bytes())
}

/// Appends the bytes of `s` to `out`.
pub fn push_str_bytes(out: &mut Vec<u8>, s: &str)
    ensures
        final(out)@ == old(out)@ + s.spec_bytes(),
{
    out.extend_from_slice(s.as_bytes());
    assert(out@ =~= old(out)@ + s.spec_bytes());
}

/// Appends all of `b` to `out`.
pub fn push_bytes(out: &mut Vec<u8>, b: &[u8])
    ensures
        final(out)@ == old(out)@ + b@,
{
    out.extend_from_slice(b);
    assert(out@ =~= old(out)@ + b@);
}

/// True when the byte vector equals the bytes of the string slice.
pub fn bytes_eq_str(a: &Vec<u8>, s: &str) -> (r: bool)
    ensures
        r == (a@ == s.spec_bytes()),
{
    let b: &[u8] = s.as_bytes();
    if a.len() != b.len() {
        assert(a@ != s.spec_bytes()) by {
            assert(a@.len() != s.spec_bytes().len());
        }
        return false;
    }
    let n = a.len();
    let mut i: usize = 0;
    while i < n
        invariant
            n == a@.len() == b@.len(),
            b@ == s.spec_bytes(),
            0 <= i <= n,
            forall|j: int| 0 <= j < i ==> a@[j] == b@[j],
        decreases n - i,
    {
        if a[i] != b[i] {
            return false;
        }
        i += 1;
    }
    assert(a@ =~= s.spec_bytes());
    true
}

/// `needle` occurs in `hay` starting at position `i`.
pub open spec fn occurs_at(hay: Seq<u8>, needle: Seq<u8>, i: int) -> bool {
    &&& 0 <= i
    &&& i + needle.len() <= hay.len()
    &&& hay.subrange(i, i + needle.len()) =~= needle
}

/// `needle` occurs somewhere in `hay`.
pub open spec fn contains_bytes(hay: Seq<u8>, needle: Seq<u8>) -> bool {
    exists|i: int| occurs_at(hay, needle, i)
}

/// Whether `nb` matches `hay` at position `i`.
fn match_at(hay: &Vec<u8>, nb: &[u8], i: usize) -> (r: bool)
    requires
        i + nb@.len() <= hay@.len(),
    ensures
        r == occurs_at(hay@, nb@, i as int),
{
    let m = nb.len();
    let hn = hay.len();
    let mut j: usize = 0;
    while j < m
        invariant
            m == nb@.len(),
            hn == hay@.len(),
            i + m <= hn,
            0 <= j <= m,
            forall|k: int| 0 <= k < j ==> hay@[i + k] == nb@[k],
        decreases m - j,
    {
        if hay[i + j] != nb[j] {
            assert(!occurs_at(hay@, nb@, i as int)) by {
                if occurs_at(hay@, nb@, i as int) {
                    assert(hay@.subrange(i as int, i + m)[j as int] == hay@[i + j]);
                }
            }
            return false;
        }
        j += 1;
    }
    assert(occurs_at(hay@, nb@, i as int)) by {
        assert(hay@.subrange(i as int, i + m) =~= nb@);
    }
    true
}

/// Whether the bytes of `needle` occur as a contiguous run in `hay`.
pub fn find_bytes(hay: &Vec<u8>, needle: &str) -> (r: bool)
    ensures
        r == contains_bytes(hay@, needle.spec_bytes()),
{
    let nb: &[u8] = needle.as_bytes();
    let m = nb.len();
    let n = hay.len();
    if m > n {
        assert(!contains_bytes(hay@, needle.spec_bytes()));
        return false;
    }
    let mut i: usize = 0;
    while i <= n - m
        invariant
            nb@ == needle.spec_bytes(),
            m == nb@.len(),
            n == hay@.len(),
            m <= n,
            0 <= i <= n - m + 1,
            forall|k: int| 0 <= k < i ==> !occurs_at(hay@, needle.spec_bytes(), k),
        decreases n - m + 1 - i,
    {
        if match_at(hay, nb, i) {
            return true;
        }
        i += 1;
    }
    assert forall|k: int| !occurs_at(hay@, needle.spec_bytes(), k) by {
        if occurs_at(hay@, needle.spec_bytes(), k) {
            assert(0 <= k < i);
        }
    }
    false
}

/// Decimal digits of `n`, most significant first.
pub open spec fn decimal_bytes(n: nat) -> Seq<u8>
    decreases n,
{
    if n < 10 {
        seq![(48 + n) as u8]
    } else {
        decimal_bytes(n / 10).push((48 + n % 10) as u8)
    }
}

/// Writes `n` in decimal notation.
pub fn decimal_of(n: usize) -> (r: Vec<u8>)
    ensures
        r@ == decimal_bytes(n as nat),
    decreases n,
{
    if n < 10 {
        let mut v: Vec<u8> = Vec::new();
        v.push(48 + (n as u8));
        assert(v@ =~= decimal_bytes(n as nat));
        v
    } else {
        let mut v = decimal_of(n / 10);
        v.push(48 + ((n % 10) as u8));
        v
    }
}

} // verus!
