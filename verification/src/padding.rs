use vstd::prelude::*;

use crate::error::StegoError;

verus! {

/// Number of padding bytes appended to data of length `n`: always in
/// `[1, 16]`, and `n` plus it is a multiple of 16. Data whose length is
/// already a multiple of 16 receives a full 16-byte padding block, so the
/// padding is always removable unambiguously.
pub open spec fn spec_pad_len(n: nat) -> nat {
    (16 - n % 16) as nat
}

/// The padded form of `data`: `spec_pad_len` copies of the pad length itself
/// are appended, so the final byte always states how many bytes to strip.
pub open spec fn spec_pad(data: Seq<u8>) -> Seq<u8> {
    data + Seq::new(spec_pad_len(data.len()), |i: int| spec_pad_len(data.len()) as u8)
}

/// What unpadding yields: `None` when the trailing indicator is malformed,
/// otherwise the buffer with the indicated number of bytes stripped. The
/// indicator is the final byte; it must lie in `[1, 16]`, not exceed the
/// buffer length, and every stripped byte must equal it.
pub open spec fn spec_unpad(padded: Seq<u8>) -> Option<Seq<u8>> {
    if padded.len() == 0 {
        None
    } else {
        let k = padded.last() as int;
        if 1 <= k && k <= 16 && k <= padded.len() && (forall|i: int|
            padded.len() - k <= i < padded.len() ==> padded[i] == padded.last()) {
            Some(padded.take(padded.len() - k))
        } else {
            None
        }
    }
}

/// Appends between 1 and 16 padding bytes so the result's length is a
/// multiple of 16; each padding byte holds the number of bytes appended.
pub fn pad(data: &Vec<u8>) -> (r: Vec<u8>)
    requires
        data@.len() + 16 <= usize::MAX,
    ensures
        r@ == spec_pad(data@),
        r@.len() == data@.len() + spec_pad_len(data@.len()),
{
    let n = data.len();
    let pl = 16 - n % 16;
    let mut r: Vec<u8> = Vec::new();
    let mut i: usize = 0;
    while i < n
        invariant
            i <= n,
            n == data@.len(),
            r@ == data@.take(i as int),
        decreases n - i,
    {
        r.push(data[i]);
        proof {
            assert(data@.take(i + 1 as int) =~= data@.take(i as int).push(data@[i as int]));
        }
        i += 1;
    }
    assert(data@.take(n as int) =~= data@);
    let mut j: usize = 0;
    while j < pl
        invariant
            j <= pl,
            n == data@.len(),
            pl == spec_pad_len(data@.len()),
            r@ == data@ + Seq::new(j as nat, |q: int| pl as u8),
        decreases pl - j,
    {
        r.push(pl as u8);
        proof {
            assert(data@ + Seq::new((j + 1) as nat, |q: int| pl as u8) =~= (data@ + Seq::new(
                j as nat,
                |q: int| pl as u8,
            )).push(pl as u8));
        }
        j += 1;
    }
    proof {
        assert(r@ =~= spec_pad(data@));
    }
    r
}

/// Reads the padding indicator from the final byte, validates it, and
/// returns the prefix with the padding stripped; fails with
/// `InvalidPadding` when the indicator or the padding bytes are malformed.
pub fn unpad(padded: &Vec<u8>) -> (r: Result<Vec<u8>, StegoError>)
    ensures
        r matches Ok(d) ==> spec_unpad(padded@) == Some(d@),
        r matches Err(e) ==> spec_unpad(padded@) is None && e == StegoError::InvalidPadding,
{
    let n = padded.len();
    if n == 0 {
        return Err(StegoError::InvalidPadding);
    }
    let k = padded[n - 1] as usize;
    if k < 1 || k > 16 || k > n {
        return Err(StegoError::InvalidPadding);
    }
    let mut i: usize = n - k;
    while i < n
        invariant
            n == padded@.len(),
            0 < n <= usize::MAX,
            1 <= k <= 16,
            k <= n,
            k == padded@.last() as int,
            n - k <= i <= n,
            forall|q: int| n - k <= q < i ==> padded@[q] == padded@.last(),
        decreases n - i,
    {
        if padded[i] != padded[n - 1] {
            return Err(StegoError::InvalidPadding);
        }
        i += 1;
    }
    let keep = n - k;
    let mut d: Vec<u8> = Vec::new();
    let mut t: usize = 0;
    while t < keep
        invariant
            keep <= n,
            n == padded@.len(),
            t <= keep,
            d@ == padded@.take(t as int),
        decreases keep - t,
    {
        d.push(padded[t]);
        proof {
            assert(padded@.take(t + 1 as int) =~= padded@.take(t as int).push(
                padded@[t as int],
            ));
        }
        t += 1;
    }
    Ok(d)
}

/// Law: stripping the padding that `spec_pad` added returns the original
/// data, whatever its length.
pub proof fn lemma_unpad_of_pad(data: Seq<u8>)
    ensures
        spec_unpad(spec_pad(data)) == Some(data),
{
    let p = spec_pad(data);
    let pl = spec_pad_len(data.len());
    assert(p.len() == data.len() + pl);
    assert(p.last() == pl as u8);
    assert(forall|i: int| p.len() - pl <= i < p.len() ==> p[i] == p.last());
    assert(p.take(p.len() - pl) =~= data);
}

} // verus!
