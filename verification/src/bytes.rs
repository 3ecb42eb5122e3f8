use vstd::prelude::*;

verus! {

/// True when the pattern `n` occurs in `h` starting at index `i`.
pub open spec fn match_at(h: Seq<u8>, n: Seq<u8>, i: int) -> bool {
    &&& 0 <= i
    &&& i + n.len() <= h.len()
    &&& h.subrange(i, i + n.len()) == n
}

/// Index of the first occurrence of byte `b` in `h` at or after `i`.
pub open spec fn find_byte_from(h: Seq<u8>, b: u8, i: int) -> Option<int>
    decreases h.len() - i,
{
    if i < 0 || i >= h.len() {
        None
    } else if h[i] == b {
        Some(i)
    } else {
        find_byte_from(h, b, i + 1)
    }
}

/// Index of the first occurrence of the pattern `n` in `h` at or after `i`.
pub open spec fn find_sub_from(h: Seq<u8>, n: Seq<u8>, i: int) -> Option<int>
    decreases h.len() - i,
{
    if i < 0 || i + n.len() > h.len() {
        None
    } else if match_at(h, n, i) {
        Some(i)
    } else if i >= h.len() {
        // unreachable: an empty pattern matches at every admissible index
        None
    } else {
        find_sub_from(h, n, i + 1)
    }
}

/// `find_byte_from` returns the first match at or after `i`, or `None`
/// when there is none.
pub proof fn lemma_find_byte_from(h: Seq<u8>, b: u8, i: int)
    requires
        0 <= i,
    ensures
        match find_byte_from(h, b, i) {
            Some(k) => i <= k < h.len() && h[k] == b && (forall|j: int| i <= j < k ==> h[j] != b),
            None => forall|j: int| i <= j < h.len() ==> h[j] != b,
        },
    decreases h.len() - i,
{
    if i < h.len() && h[i] != b {
        lemma_find_byte_from(h, b, i + 1);
    }
}

/// `find_sub_from` returns the first match at or after `i`, or `None`
/// when there is none.
pub proof fn lemma_find_sub_from(h: Seq<u8>, n: Seq<u8>, i: int)
    requires
        0 <= i,
    ensures
        match find_sub_from(h, n, i) {
            Some(k) => i <= k && match_at(h, n, k) && (forall|j: int|
                i <= j < k ==> !match_at(h, n, j)),
            None => forall|j: int| i <= j ==> !match_at(h, n, j),
        },
    decreases h.len() - i,
{
    if i + n.len() <= h.len() && !match_at(h, n, i) {
        if i >= h.len() {
            assert(h.subrange(i, i + n.len()) =~= n);
            assert(false);
        } else {
            lemma_find_sub_from(h, n, i + 1);
        }
    }
}

/// Byte-wise equality of two slices.
pub fn bytes_eq(a: &[u8], b: &[u8]) -> (r: bool)
    ensures
        r == (a@ == b@),
{
    if a.len() != b.len() {
        return false;
    }
    let mut i: usize = 0;
    while i < a.len()
        invariant
            a@.len() == b@.len(),
            i <= a@.len(),
            forall|j: int| 0 <= j < i ==> a@[j] == b@[j],
        decreases a@.len() - i,
    {
        if a[i] != b[i] {
            return false;
        }
        i += 1;
    }
    proof {
        assert(a@ =~= b@);
    }
    true
}

/// First index of byte `b` in `h` at or after `from`.
pub fn find_byte_at(h: &[u8], b: u8, from: usize) -> (r: Option<usize>)
    requires
        from <= h@.len(),
    ensures
        match r {
            Some(k) => from <= k < h@.len() && find_byte_from(h@, b, from as int) == Some(
                k as int,
            ),
            None => find_byte_from(h@, b, from as int) is None,
        },
{
    proof {
        lemma_find_byte_from(h@, b, from as int);
    }
    let mut i: usize = from;
    while i < h.len()
        invariant
            from <= i <= h@.len(),
            forall|j: int| from <= j < i ==> h@[j] != b,
        decreases h@.len() - i,
    {
        if h[i] == b {
            proof {
                lemma_find_byte_from(h@, b, from as int);
            }
            return Some(i);
        }
        i += 1;
    }
    None
}

/// First index at or after `from` where the pattern `n` occurs in `h`.
pub fn find_sub_at(h: &[u8], n: &[u8], from: usize) -> (r: Option<usize>)
    requires
        from <= h@.len(),
    ensures
        match r {
            Some(k) => from <= k && k + n@.len() <= h@.len() && find_sub_from(
                h@,
                n@,
                from as int,
            ) == Some(k as int),
            None => find_sub_from(h@, n@, from as int) is None,
        },
{
    proof {
        lemma_find_sub_from(h@, n@, from as int);
    }
    if n.len() == 0 {
        proof {
            assert(h@.subrange(from as int, from as int) =~= n@);
            assert(match_at(h@, n@, from as int));
        }
        return Some(from);
    }
    if n.len() > h.len() || from > h.len() - n.len() {
        proof {
            match find_sub_from(h@, n@, from as int) {
                Some(k) => {
                    assert(match_at(h@, n@, k));
                    assert(false);
                },
                None => {},
            }
        }
        return None;
    }
    let mut i: usize = from;
    while i <= h.len() - n.len()
        invariant
            1 <= n@.len() <= h@.len(),
            from <= i <= h@.len() - n@.len() + 1,
            forall|j: int| from <= j < i ==> !match_at(h@, n@, j),
        decreases h@.len() - i,
    {
        let sub = vstd::slice::slice_subrange(h, i, i + n.len());
        if bytes_eq(sub, n) {
            proof {
                assert(match_at(h@, n@, i as int));
                lemma_find_sub_from(h@, n@, from as int);
            }
            return Some(i);
        }
        i += 1;
    }
    None
}

/// Copy of a slice as an owned vector.
pub fn bytes_of(s: &[u8]) -> (r: Vec<u8>)
    ensures
        r@ == s@,
{
    vstd::slice::slice_to_vec(s)
}

/// Append a slice's bytes to a vector.
pub fn push_bytes(v: &mut Vec<u8>, s: &[u8])
    ensures
        final(v)@ == old(v)@ + s@,
{
    let ghost pre = v@;
    let mut i: usize = 0;
    while i < s.len()
        invariant
            pre == old(v)@,
            i <= s@.len(),
            v@ == pre + s@.take(i as int),
        decreases s@.len() - i,
    {
        v.push(s[i]);
        proof {
            assert(pre + s@.take(i + 1) =~= (pre + s@.take(i as int)).push(s@[i as int]));
        }
        i += 1;
    }
    proof {
        assert(s@.take(i as int) =~= s@);
    }
}

/// The two slices' bytes, concatenated into an owned vector.
pub fn concat_bytes(a: &[u8], b: &[u8]) -> (r: Vec<u8>)
    ensures
        r@ == a@ + b@,
{
    let mut r = vstd::slice::slice_to_vec(a);
    push_bytes(&mut r, b);
    r
}

} // verus!
