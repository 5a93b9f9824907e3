//! Content hashing: the SHA-512 digest behind both the self hash and the
//! aggregate root hash, specified through the uninterpreted function
//! [`sha512_hex`], and the concatenation of stored peer hashes that feeds the
//! aggregate.

use crate::strings::decimal_digits;
use vstd::prelude::*;
use vstd::string::StringExecFns;

verus! {

/// The lowercase hexadecimal SHA-512 digest of the UTF-8 bytes of `s`.  The
/// digest is a fixed function of the input characters alone; no algebraic
/// definition is given here.
pub uninterp spec fn sha512_hex(s: Seq<char>) -> Seq<char>;

/// Relies on `sha2::Sha512` through the `digest` crate's `Digest` interface:
/// `update` followed by `finalize` digests exactly the bytes fed to `update`,
/// and `generic_array`'s `LowerHex` renders the 64 digest bytes as lowercase
/// hexadecimal.  The result depends on the input characters alone.
#[verifier::external_body]
pub(crate) fn sha512_hex_exec(s: &str) -> (r: String)
    ensures
        r@ == sha512_hex(s@),
{
    let mut hasher = <sha2::Sha512 as sha2::Digest>::new();
    sha2::Digest::update(&mut hasher, s);
    format!("{:x}", sha2::Digest::finalize(hasher))
}

/// All hash strings of `hashes`, joined in their stored order.
pub open spec fn concat_all(hashes: Seq<Seq<char>>) -> Seq<char>
    decreases hashes.len(),
{
    if hashes.len() == 0 {
        Seq::empty()
    } else {
        concat_all(hashes.drop_last()) + hashes.last()
    }
}

/// The digest of a node's own content: its trust weight in decimal followed
/// by its canonical payload text.
pub open spec fn spec_self_hash(trust: u32, data: Seq<char>) -> Seq<char> {
    sha512_hex(decimal_digits(trust as nat) + data)
}

/// The aggregate digest: the self hash followed by every stored peer hash in
/// order, digested again.
pub open spec fn spec_root_hash(trust: u32, data: Seq<char>, others: Seq<Seq<char>>) -> Seq<char> {
    sha512_hex(spec_self_hash(trust, data) + concat_all(others))
}

/// Appends every string of `hashes`, in order, to `s`.
pub(crate) fn append_all(s: &mut String, hashes: &Vec<String>)
    ensures
        final (s)@ == old(s)@ + concat_all(hashes.deep_view()),
{
    let n = hashes.len();
    let mut i: usize = 0;
    proof {
        assert(hashes.deep_view().take(0) =~= Seq::<Seq<char>>::empty());
        assert(s@ =~= s@ + concat_all(hashes.deep_view().take(0)));
    }
    while i < n
        invariant
            i <= n,
            n == hashes@.len(),
            hashes.deep_view().len() == n,
            s@ == old(s)@ + concat_all(hashes.deep_view().take(i as int)),
        decreases n - i,
    {
        s.append(hashes[i].as_str());
        proof {
            let hv = hashes.deep_view();
            assert(hv[i as int] == hashes@[i as int]@);
            assert(hv.take(i as int + 1).drop_last() =~= hv.take(i as int));
            assert(hv.take(i as int + 1).last() == hv[i as int]);
        }
        i = i + 1;
    }
    proof {
        assert(hashes.deep_view().take(n as int) =~= hashes.deep_view());
    }
}

} // verus!
