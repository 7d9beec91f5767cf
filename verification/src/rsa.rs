//! Asymmetric block codec: adapts a fixed-block-size public-key primitive
//! into a service for payloads of arbitrary length. Input is segmented into
//! chunks of at most `block_size - PADDING_OVERHEAD` bytes, each chunk is
//! passed to the padded primitive and yields exactly `block_size` ciphertext
//! bytes; decryption walks the ciphertext in `block_size` chunks and keeps
//! only the recovered bytes of each. Sign and verify compose the digest
//! provider with the private/public halves of this codec.

use vstd::prelude::*;

use openssl::pkey::Private;
use openssl::rsa::{Padding, Rsa};

use vstd::arithmetic::div_mod::{
    lemma_basic_div, lemma_div_plus_one, lemma_mod_is_zero, lemma_mod_multiples_basic,
    lemma_mod_sub_multiples_vanish,
};
use vstd::slice::{slice_index_get, slice_subrange};

use crate::digest::{digest_of, ShaHash};
use crate::errors::CryptoError;

verus! {

/// Bytes of one block consumed by the PKCS#1 v1.5 padding scheme: three
/// framing bytes and at least eight padding bytes.
pub const PADDING_OVERHEAD: usize = 11;

/// Largest modulus size, in bytes, the codec accepts from parsed key
/// material; generated keys are far below it.
pub const MAX_BLOCK_SIZE: usize = 65536;

#[verifier::external_type_specification]
#[verifier::external_body]
#[verifier::reject_recursive_types(T)]
pub struct ExRsa<T>(Rsa<T>);

#[verifier::external_type_specification]
#[verifier::external_body]
pub struct ExPrivate(Private);

/// The ciphertext block the private-key primitive produces for one plaintext
/// segment under the key identified by `key`. Block-type-1 padding is
/// deterministic, so the block is a function of key and segment alone.
pub uninterp spec fn priv_block_of(key: int, segment: Seq<u8>) -> Seq<u8>;

/// Whether `block` is one possible output of the public-key primitive for
/// `segment` under the key identified by `key`. Block-type-2 padding is
/// randomized, so one segment has many matching blocks.
pub uninterp spec fn pub_block_matches(key: int, segment: Seq<u8>, block: Seq<u8>) -> bool;

/// The identity of the private key a PEM encoding parses to. Parsing is a
/// function of the bytes, so equal encodings yield the same key.
pub uninterp spec fn pem_key_id(pem: Seq<u8>) -> int;

/// The modulus size, in bytes, of the private key a PEM encoding parses to.
pub uninterp spec fn pem_key_size(pem: Seq<u8>) -> nat;

/// Whether the bytes parse as a PEM-encoded private key: parse success is a
/// function of the bytes alone.
pub uninterp spec fn pem_parses(pem: Seq<u8>) -> bool;

/// Whether the padded encryption primitives accept every well-sized segment
/// under the key identified by `key`: they do on freshly generated key
/// material. Pinned only by the primitive.
pub uninterp spec fn key_usable(key: int) -> bool;

/// Key material the codec loads: the bytes parse, and the parsed modulus
/// leaves room for the padding overhead and is not implausibly large.
pub open spec fn pem_loadable(pem: Seq<u8>) -> bool {
    pem_parses(pem) && 12 <= pem_key_size(pem) <= MAX_BLOCK_SIZE
}

/// Number of blocks the codec produces for `len` plaintext bytes when one
/// block carries at most `cap` of them: `ceil(len / cap)`, with 0 for 0.
pub open spec fn block_count(len: nat, cap: nat) -> nat
    recommends
        cap > 0,
{
    if len == 0 {
        0
    } else {
        (((len - 1) / (cap as int)) + 1) as nat
    }
}

/// Whether `c` is the ciphertext the private-key codec produces for
/// plaintext `d` under key `key` with block size `size`: a sequence of
/// `size`-byte blocks, one per plaintext segment of at most `size - 11`
/// bytes, the last segment possibly shorter.
pub open spec fn priv_ct_matches(key: int, size: nat, d: Seq<u8>, c: Seq<u8>) -> bool
    decreases c.len(),
{
    if c.len() == 0 {
        d.len() == 0
    } else if size < 12 || c.len() < size || d.len() == 0 {
        false
    } else {
        let cap = size - 11;
        let seg_len: int = if d.len() <= cap {
            d.len() as int
        } else {
            cap as int
        };
        c.subrange(0, size as int) == priv_block_of(key, d.subrange(0, seg_len))
            && priv_ct_matches(key, size, d.skip(seg_len), c.skip(size as int))
    }
}

/// Whether `c` is one possible ciphertext of the public-key codec for
/// plaintext `d` under key `key` with block size `size`.
pub open spec fn pub_ct_matches(key: int, size: nat, d: Seq<u8>, c: Seq<u8>) -> bool
    decreases c.len(),
{
    if c.len() == 0 {
        d.len() == 0
    } else if size < 12 || c.len() < size || d.len() == 0 {
        false
    } else {
        let cap = size - 11;
        let seg_len: int = if d.len() <= cap {
            d.len() as int
        } else {
            cap as int
        };
        pub_block_matches(key, d.subrange(0, seg_len), c.subrange(0, size as int))
            && pub_ct_matches(key, size, d.skip(seg_len), c.skip(size as int))
    }
}

/// Appending one more full-capacity-aligned segment and its block to a
/// matching private ciphertext keeps it matching.
proof fn lemma_priv_ct_extend(key: int, size: nat, d: Seq<u8>, c: Seq<u8>, seg: Seq<u8>, b: Seq<u8>)
    requires
        12 <= size,
        d.len() as int % (size - 11) == 0,
        priv_ct_matches(key, size, d, c),
        0 < seg.len() <= size - 11,
        b.len() == size,
        b == priv_block_of(key, seg),
    ensures
        priv_ct_matches(key, size, d + seg, c + b),
    decreases d.len(),
{
    let cap = size - 11;
    if d.len() == 0 {
        assert(c.len() == 0);
        assert(d + seg =~= seg);
        assert(c + b =~= b);
        assert(seg.subrange(0, seg.len() as int) =~= seg);
        assert(b.subrange(0, size as int) =~= b);
        assert(priv_ct_matches(key, size, seg.skip(seg.len() as int), b.skip(size as int)));
        assert(priv_ct_matches(key, size, seg, b));
    } else {
        lemma_mod_is_zero(d.len(), cap as nat);
        assert(d.len() >= cap);
        lemma_mod_sub_multiples_vanish(d.len() as int, cap);
        lemma_priv_ct_extend(key, size, d.skip(cap), c.skip(size as int), seg, b);
        assert((d + seg).subrange(0, cap) =~= d.subrange(0, cap));
        assert((d + seg).skip(cap) =~= d.skip(cap) + seg);
        assert((c + b).subrange(0, size as int) =~= c.subrange(0, size as int));
        assert((c + b).skip(size as int) =~= c.skip(size as int) + b);
        assert(priv_ct_matches(key, size, d + seg, c + b));
    }
}

/// Appending one more full-capacity-aligned segment and a block that the
/// public primitive can produce for it keeps a public ciphertext matching.
proof fn lemma_pub_ct_extend(key: int, size: nat, d: Seq<u8>, c: Seq<u8>, seg: Seq<u8>, b: Seq<u8>)
    requires
        12 <= size,
        d.len() as int % (size - 11) == 0,
        pub_ct_matches(key, size, d, c),
        0 < seg.len() <= size - 11,
        b.len() == size,
        pub_block_matches(key, seg, b),
    ensures
        pub_ct_matches(key, size, d + seg, c + b),
    decreases d.len(),
{
    let cap = size - 11;
    if d.len() == 0 {
        assert(c.len() == 0);
        assert(d + seg =~= seg);
        assert(c + b =~= b);
        assert(seg.subrange(0, seg.len() as int) =~= seg);
        assert(b.subrange(0, size as int) =~= b);
        assert(pub_ct_matches(key, size, seg.skip(seg.len() as int), b.skip(size as int)));
        assert(pub_ct_matches(key, size, seg, b));
    } else {
        lemma_mod_is_zero(d.len(), cap as nat);
        assert(d.len() >= cap);
        lemma_mod_sub_multiples_vanish(d.len() as int, cap);
        lemma_pub_ct_extend(key, size, d.skip(cap), c.skip(size as int), seg, b);
        assert((d + seg).subrange(0, cap) =~= d.subrange(0, cap));
        assert((d + seg).skip(cap) =~= d.skip(cap) + seg);
        assert((c + b).subrange(0, size as int) =~= c.subrange(0, size as int));
        assert((c + b).skip(size as int) =~= c.skip(size as int) + b);
        assert(pub_ct_matches(key, size, d + seg, c + b));
    }
}

/// The in-order concatenation of a sequence of plaintext segments.
pub open spec fn concat_segments(segs: Seq<Seq<u8>>) -> Seq<u8>
    decreases segs.len(),
{
    if segs.len() == 0 {
        Seq::empty()
    } else {
        segs[0] + concat_segments(segs.skip(1))
    }
}

/// Whether each `size`-byte chunk of `c` is a block the public primitive
/// can produce for the segment of `segs` in the same position, with no
/// chunk or segment left over.
pub open spec fn pub_chunks_carry(key: int, size: nat, c: Seq<u8>, segs: Seq<Seq<u8>>) -> bool
    decreases c.len(),
{
    if c.len() == 0 {
        segs.len() == 0
    } else if size < 12 || c.len() < size || segs.len() == 0 {
        false
    } else {
        segs[0].len() + 11 <= size && pub_block_matches(key, segs[0], c.subrange(0, size as int))
            && pub_chunks_carry(key, size, c.skip(size as int), segs.skip(1))
    }
}

/// Whether each `size`-byte chunk of `c` is the private encryption of the
/// segment of `segs` in the same position, with no chunk or segment left
/// over.
pub open spec fn priv_chunks_carry(key: int, size: nat, c: Seq<u8>, segs: Seq<Seq<u8>>) -> bool
    decreases c.len(),
{
    if c.len() == 0 {
        segs.len() == 0
    } else if size < 12 || c.len() < size || segs.len() == 0 {
        false
    } else {
        segs[0].len() + 11 <= size && c.subrange(0, size as int) == priv_block_of(key, segs[0])
            && priv_chunks_carry(key, size, c.skip(size as int), segs.skip(1))
    }
}

/// Whether decrypting `c` chunk by chunk with the private-key primitive can
/// recover exactly `d`: every chunk carries one plaintext segment as a
/// block the public primitive can produce, and `d` is their in-order
/// concatenation.
pub open spec fn pub_ct_decrypts_to(key: int, size: nat, c: Seq<u8>, d: Seq<u8>) -> bool {
    exists|segs: Seq<Seq<u8>>|
        #[trigger] pub_chunks_carry(key, size, c, segs) && d == concat_segments(segs)
}

/// Whether decrypting `c` chunk by chunk with the public-key primitive can
/// recover exactly `d`: every chunk is the private encryption of one
/// plaintext segment, and `d` is their in-order concatenation.
pub open spec fn priv_ct_decrypts_to(key: int, size: nat, c: Seq<u8>, d: Seq<u8>) -> bool {
    exists|segs: Seq<Seq<u8>>|
        #[trigger] priv_chunks_carry(key, size, c, segs) && d == concat_segments(segs)
}

/// Concatenation distributes over appending one segment at the end.
proof fn lemma_concat_push(segs: Seq<Seq<u8>>, seg: Seq<u8>)
    ensures
        concat_segments(segs.push(seg)) == concat_segments(segs) + seg,
    decreases segs.len(),
{
    if segs.len() == 0 {
        assert(segs.push(seg)[0] == seg);
        assert(segs.push(seg).skip(1).len() == 0);
        assert(concat_segments(segs.push(seg).skip(1)).len() == 0);
        assert(concat_segments(segs.push(seg)) =~= seg);
        assert(concat_segments(segs) + seg =~= seg);
    } else {
        assert(segs.push(seg).skip(1) =~= segs.skip(1).push(seg));
        lemma_concat_push(segs.skip(1), seg);
        assert(segs.push(seg)[0] == segs[0]);
        assert(concat_segments(segs.push(seg)) == segs[0] + (concat_segments(segs.skip(1)) + seg));
        assert(segs[0] + (concat_segments(segs.skip(1)) + seg) =~= (segs[0] + concat_segments(
            segs.skip(1),
        )) + seg);
    }
}

/// Appending one more block the public primitive can produce, and its
/// segment, keeps the chunks aligned.
proof fn lemma_pub_chunks_extend(
    key: int,
    size: nat,
    c: Seq<u8>,
    segs: Seq<Seq<u8>>,
    seg: Seq<u8>,
    b: Seq<u8>,
)
    requires
        12 <= size,
        c.len() % size == 0,
        pub_chunks_carry(key, size, c, segs),
        seg.len() + 11 <= size,
        b.len() == size,
        pub_block_matches(key, seg, b),
    ensures
        pub_chunks_carry(key, size, c + b, segs.push(seg)),
    decreases c.len(),
{
    if c.len() == 0 {
        assert(segs.len() == 0);
        assert(c + b =~= b);
        assert(b.subrange(0, size as int) =~= b);
        assert(segs.push(seg)[0] == seg);
        assert(b.skip(size as int).len() == 0);
        assert(segs.push(seg).skip(1).len() == 0);
        assert(pub_chunks_carry(key, size, b.skip(size as int), segs.push(seg).skip(1)));
        assert(pub_chunks_carry(key, size, c + b, segs.push(seg)));
    } else {
        lemma_mod_is_zero(c.len(), size);
        assert(c.len() >= size);
        lemma_mod_sub_multiples_vanish(c.len() as int, size as int);
        lemma_pub_chunks_extend(key, size, c.skip(size as int), segs.skip(1), seg, b);
        assert((c + b).subrange(0, size as int) =~= c.subrange(0, size as int));
        assert((c + b).skip(size as int) =~= c.skip(size as int) + b);
        assert(segs.push(seg)[0] == segs[0]);
        assert(segs.push(seg).skip(1) =~= segs.skip(1).push(seg));
        assert(pub_chunks_carry(key, size, c + b, segs.push(seg)));
    }
}

/// Appending one more block of the private primitive, and its segment,
/// keeps the chunks aligned.
proof fn lemma_priv_chunks_extend(
    key: int,
    size: nat,
    c: Seq<u8>,
    segs: Seq<Seq<u8>>,
    seg: Seq<u8>,
    b: Seq<u8>,
)
    requires
        12 <= size,
        c.len() % size == 0,
        priv_chunks_carry(key, size, c, segs),
        seg.len() + 11 <= size,
        b.len() == size,
        b == priv_block_of(key, seg),
    ensures
        priv_chunks_carry(key, size, c + b, segs.push(seg)),
    decreases c.len(),
{
    if c.len() == 0 {
        assert(segs.len() == 0);
        assert(c + b =~= b);
        assert(b.subrange(0, size as int) =~= b);
        assert(segs.push(seg)[0] == seg);
        assert(b.skip(size as int).len() == 0);
        assert(segs.push(seg).skip(1).len() == 0);
        assert(priv_chunks_carry(key, size, b.skip(size as int), segs.push(seg).skip(1)));
        assert(priv_chunks_carry(key, size, c + b, segs.push(seg)));
    } else {
        lemma_mod_is_zero(c.len(), size);
        assert(c.len() >= size);
        lemma_mod_sub_multiples_vanish(c.len() as int, size as int);
        lemma_priv_chunks_extend(key, size, c.skip(size as int), segs.skip(1), seg, b);
        assert((c + b).subrange(0, size as int) =~= c.subrange(0, size as int));
        assert((c + b).skip(size as int) =~= c.skip(size as int) + b);
        assert(segs.push(seg)[0] == segs[0]);
        assert(segs.push(seg).skip(1) =~= segs.skip(1).push(seg));
        assert(priv_chunks_carry(key, size, c + b, segs.push(seg)));
    }
}

/// Aligned chunks recover at most `size - 11` bytes per block, and only
/// from a whole number of blocks.
proof fn lemma_pub_chunks_len(key: int, size: nat, c: Seq<u8>, segs: Seq<Seq<u8>>)
    requires
        12 <= size,
        pub_chunks_carry(key, size, c, segs),
    ensures
        concat_segments(segs).len() as int <= (size as int - 11) * (c.len() as int
            / size as int),
        c.len() as int % size as int == 0,
    decreases c.len(),
{
    if c.len() == 0 {
        lemma_basic_div(0, size as int);
        lemma_mod_multiples_basic(0, size as int);
        assert(concat_segments(segs).len() == 0);
    } else {
        lemma_pub_chunks_len(key, size, c.skip(size as int), segs.skip(1));
        lemma_div_plus_one(c.len() as int - size as int, size as int);
        vstd::arithmetic::div_mod::lemma_mod_add_multiples_vanish(
            c.skip(size as int).len() as int,
            size as int,
        );
        assert(concat_segments(segs) == segs[0] + concat_segments(segs.skip(1)));
        let q = c.len() as int / size as int;
        assert(q == 1 + c.skip(size as int).len() as int / size as int);
        assert((size as int - 11) + (size as int - 11) * (q - 1) == (size as int - 11) * q)
            by (nonlinear_arith);
    }
}

/// Aligned chunks recover at most `size - 11` bytes per block, and only
/// from a whole number of blocks.
proof fn lemma_priv_chunks_len(key: int, size: nat, c: Seq<u8>, segs: Seq<Seq<u8>>)
    requires
        12 <= size,
        priv_chunks_carry(key, size, c, segs),
    ensures
        concat_segments(segs).len() as int <= (size as int - 11) * (c.len() as int
            / size as int),
        c.len() as int % size as int == 0,
    decreases c.len(),
{
    if c.len() == 0 {
        lemma_basic_div(0, size as int);
        lemma_mod_multiples_basic(0, size as int);
        assert(concat_segments(segs).len() == 0);
    } else {
        lemma_priv_chunks_len(key, size, c.skip(size as int), segs.skip(1));
        lemma_div_plus_one(c.len() as int - size as int, size as int);
        vstd::arithmetic::div_mod::lemma_mod_add_multiples_vanish(
            c.skip(size as int).len() as int,
            size as int,
        );
        assert(concat_segments(segs) == segs[0] + concat_segments(segs.skip(1)));
        let q = c.len() as int / size as int;
        assert(q == 1 + c.skip(size as int).len() as int / size as int);
        assert((size as int - 11) + (size as int - 11) * (q - 1) == (size as int - 11) * q)
            by (nonlinear_arith);
    }
}

/// What chunk-wise decryption can recover is bounded: at most `size - 11`
/// bytes per block, and only from ciphertexts that are whole numbers of
/// blocks.
pub proof fn lemma_pub_decrypts_to_len(key: int, size: nat, c: Seq<u8>, d: Seq<u8>)
    requires
        12 <= size,
        pub_ct_decrypts_to(key, size, c, d),
    ensures
        d.len() as int <= (size as int - 11) * (c.len() as int / size as int),
        c.len() as int % size as int == 0,
{
    let segs = choose|segs: Seq<Seq<u8>>|
        #[trigger] pub_chunks_carry(key, size, c, segs) && d == concat_segments(segs);
    lemma_pub_chunks_len(key, size, c, segs);
}

/// What chunk-wise decryption can recover is bounded: at most `size - 11`
/// bytes per block, and only from ciphertexts that are whole numbers of
/// blocks.
pub proof fn lemma_priv_decrypts_to_len(key: int, size: nat, c: Seq<u8>, d: Seq<u8>)
    requires
        12 <= size,
        priv_ct_decrypts_to(key, size, c, d),
    ensures
        d.len() as int <= (size as int - 11) * (c.len() as int / size as int),
        c.len() as int % size as int == 0,
{
    let segs = choose|segs: Seq<Seq<u8>>|
        #[trigger] priv_chunks_carry(key, size, c, segs) && d == concat_segments(segs);
    lemma_priv_chunks_len(key, size, c, segs);
}

/// Block-count law for the private-key codec: a matching ciphertext is a
/// whole number of blocks, `size * ceil(len(d) / (size - 11))` bytes, with
/// empty plaintext giving empty ciphertext.
pub proof fn lemma_priv_ct_len(key: int, size: nat, d: Seq<u8>, c: Seq<u8>)
    requires
        priv_ct_matches(key, size, d, c),
    ensures
        c.len() == size * block_count(d.len(), (size - 11) as nat),
    decreases c.len(),
{
    if c.len() == 0 {
    } else {
        let cap = size - 11;
        let seg_len: int = if d.len() <= cap {
            d.len() as int
        } else {
            cap as int
        };
        lemma_priv_ct_len(key, size, d.skip(seg_len), c.skip(size as int));
        let rest = (d.len() - seg_len) as nat;
        let k = block_count(rest, cap as nat);
        if d.len() <= cap {
            lemma_basic_div(d.len() as int - 1, cap as int);
            assert(block_count(d.len(), cap as nat) == 1);
        } else {
            lemma_div_plus_one(d.len() as int - cap - 1, cap as int);
            assert(block_count(d.len(), cap as nat) == k + 1);
        }
        assert(size * (k + 1) == size * k + size) by (nonlinear_arith);
        assert(c.skip(size as int).len() == size * k);
        assert(c.len() == size + size * k);
        assert(c.len() == size * block_count(d.len(), cap as nat));
    }
}

/// Block-count law for the public-key codec: a matching ciphertext is a
/// whole number of blocks, `size * ceil(len(d) / (size - 11))` bytes, with
/// empty plaintext giving empty ciphertext.
pub proof fn lemma_pub_ct_len(key: int, size: nat, d: Seq<u8>, c: Seq<u8>)
    requires
        pub_ct_matches(key, size, d, c),
    ensures
        c.len() == size * block_count(d.len(), (size - 11) as nat),
    decreases c.len(),
{
    if c.len() == 0 {
    } else {
        let cap = size - 11;
        let seg_len: int = if d.len() <= cap {
            d.len() as int
        } else {
            cap as int
        };
        lemma_pub_ct_len(key, size, d.skip(seg_len), c.skip(size as int));
        let rest = (d.len() - seg_len) as nat;
        let k = block_count(rest, cap as nat);
        if d.len() <= cap {
            lemma_basic_div(d.len() as int - 1, cap as int);
            assert(block_count(d.len(), cap as nat) == 1);
        } else {
            lemma_div_plus_one(d.len() as int - cap - 1, cap as int);
            assert(block_count(d.len(), cap as nat) == k + 1);
        }
        assert(size * (k + 1) == size * k + size) by (nonlinear_arith);
        assert(c.skip(size as int).len() == size * k);
        assert(c.len() == size + size * k);
        assert(c.len() == size * block_count(d.len(), cap as nat));
    }
}

/// Deterministic segmentation: under one key, one plaintext has exactly one
/// matching private-key ciphertext, so two codecs loaded from the same key
/// material produce identical ciphertext for identical input.
pub proof fn lemma_priv_ct_unique(key: int, size: nat, d: Seq<u8>, c1: Seq<u8>, c2: Seq<u8>)
    requires
        priv_ct_matches(key, size, d, c1),
        priv_ct_matches(key, size, d, c2),
    ensures
        c1 == c2,
    decreases c1.len(),
{
    if c1.len() == 0 {
        assert(c2.len() == 0);
        assert(c1 =~= c2);
    } else {
        assert(c2.len() > 0);
        let cap = size - 11;
        let seg_len: int = if d.len() <= cap {
            d.len() as int
        } else {
            cap as int
        };
        lemma_priv_ct_unique(key, size, d.skip(seg_len), c1.skip(size as int), c2.skip(size as int));
        assert(c1 =~= c1.subrange(0, size as int) + c1.skip(size as int));
        assert(c2 =~= c2.subrange(0, size as int) + c2.skip(size as int));
    }
}

/// Byte-for-byte equality of two slices.
fn bytes_eq(a: &[u8], b: &[u8]) -> (r: bool)
    ensures
        r == (a@ == b@),
{
    if a.len() != b.len() {
        return false;
    }
    let mut i: usize = 0;
    while i < a.len()
        invariant
            i <= a@.len(),
            a@.len() == b@.len(),
            forall|j: int| 0 <= j < i ==> a@[j] == b@[j],
        decreases a@.len() - i,
    {
        if *slice_index_get(a, i) != *slice_index_get(b, i) {
            return false;
        }
        i = i + 1;
    }
    proof {
        assert(a@ =~= b@);
    }
    true
}

/// The difference of two multiples of `m` is a multiple of `m`.
proof fn lemma_mod_diff_zero(a: int, b: int, m: int)
    requires
        m > 0,
        0 <= b <= a,
        a % m == 0,
        b % m == 0,
    ensures
        (a - b) % m == 0,
{
    vstd::arithmetic::div_mod::lemma_fundamental_div_mod(a, m);
    vstd::arithmetic::div_mod::lemma_fundamental_div_mod(b, m);
    let q1 = a / m;
    let q2 = b / m;
    assert(a - b == (q1 - q2) * m) by (nonlinear_arith)
        requires
            a == m * q1 + a % m,
            b == m * q2 + b % m,
            a % m == 0,
            b % m == 0,
    ;
    lemma_mod_multiples_basic(q1 - q2, m);
}

/// A loaded private/public key pair and the block codec over it.
pub struct EncryptRsa {
    rsa: Rsa<Private>,
    size: usize,
    ident: Ghost<int>,
}

impl EncryptRsa {
    /// The identity of the held key: equal keys (same parsed encoding) have
    /// equal identities.
    pub closed spec fn key_id(&self) -> int {
        self.ident@
    }

    /// The block size: the key modulus size in bytes.
    pub closed spec fn block_size(&self) -> nat {
        self.size as nat
    }

    /// A usable codec: the block size leaves room for the padding overhead.
    pub open spec fn wf(&self) -> bool {
        12 <= self.block_size() <= MAX_BLOCK_SIZE
    }

    /// Generates a fresh 2048-bit key pair.
    ///
    /// Relies on `openssl::rsa::Rsa::generate` and `Rsa::size`: a 2048-bit
    /// modulus gives a modulus size of exactly 256 bytes, and a freshly
    /// generated key is accepted by the padded encryption primitives on
    /// every well-sized segment (randomness assumed infallible).
    #[verifier::external_body]
    pub fn generate() -> (r: Result<EncryptRsa, CryptoError>)
        ensures
            r matches Ok(k) ==> k.block_size() == 256 && key_usable(k.key_id()),
            r matches Err(e) ==> e == CryptoError::KeyGenerationError,
    {
        match Rsa::generate(2048) {
            Ok(rsa) => {
                let size = rsa.size() as usize;
                Ok(EncryptRsa { rsa, size, ident: Ghost(arbitrary()) })
            }
            Err(_) => Err(CryptoError::KeyGenerationError),
        }
    }

    /// Relies on `Rsa::private_key_from_pem` and `Rsa::size`: parsing, and
    /// whether it succeeds at all, is a function of the bytes, and the
    /// parsed key's modulus size is a function of the key.
    #[verifier::external_body]
    fn parse_private_key_pem(pem: &[u8]) -> (r: Result<EncryptRsa, CryptoError>)
        ensures
            r is Ok <==> pem_parses(pem@),
            r matches Ok(k) ==> k.key_id() == pem_key_id(pem@) && k.block_size() == pem_key_size(
                pem@,
            ),
            r matches Err(e) ==> e == CryptoError::KeyParseError,
    {
        match Rsa::private_key_from_pem(pem) {
            Ok(rsa) => {
                let size = rsa.size() as usize;
                Ok(EncryptRsa { rsa, size, ident: Ghost(arbitrary()) })
            }
            Err(_) => Err(CryptoError::KeyParseError),
        }
    }

    /// Reconstructs a key pair from a PEM-encoded private key. Keys whose
    /// modulus leaves no room for the padding overhead, or is implausibly
    /// large, are rejected as unusable key material.
    pub fn from_pem(pem: &[u8]) -> (r: Result<EncryptRsa, CryptoError>)
        ensures
            r is Ok <==> pem_loadable(pem@),
            r matches Ok(k) ==> k.wf() && k.key_id() == pem_key_id(pem@) && k.block_size()
                == pem_key_size(pem@),
            r matches Err(e) ==> e == CryptoError::KeyParseError,
    {
        match Self::parse_private_key_pem(pem) {
            Ok(k) => {
                if k.size < 12 || k.size > MAX_BLOCK_SIZE {
                    Err(CryptoError::KeyParseError)
                } else {
                    Ok(k)
                }
            }
            Err(e) => Err(e),
        }
    }

    /// Relies on `Rsa::private_encrypt` with PKCS#1 v1.5 padding: one call
    /// consumes up to `size - 11` plaintext bytes and produces exactly
    /// `size` ciphertext bytes; block-type-1 padding is deterministic, so
    /// the block is a function of the key and the segment; on a usable key
    /// the call succeeds.
    #[verifier::external_body]
    fn private_encrypt_block(&self, segment: &[u8]) -> (r: Result<Vec<u8>, CryptoError>)
        requires
            self.wf(),
            segment@.len() + PADDING_OVERHEAD <= self.block_size(),
        ensures
            key_usable(self.key_id()) ==> r is Ok,
            r matches Ok(b) ==> b@.len() == self.block_size() && b@ == priv_block_of(
                self.key_id(),
                segment@,
            ),
            r matches Err(e) ==> e == CryptoError::EncryptionError,
    {
        let mut buf = vec![0u8; self.size];
        match self.rsa.private_encrypt(segment, &mut buf, Padding::PKCS1) {
            Ok(n) => {
                buf.truncate(n);
                Ok(buf)
            }
            Err(_) => Err(CryptoError::EncryptionError),
        }
    }

    /// Relies on `Rsa::public_encrypt` with PKCS#1 v1.5 padding: one call
    /// consumes up to `size - 11` plaintext bytes and produces exactly
    /// `size` ciphertext bytes; block-type-2 padding is randomized, so only
    /// membership in the segment's set of possible blocks is stated; on a
    /// usable key the call succeeds (randomness assumed infallible).
    #[verifier::external_body]
    fn public_encrypt_block(&self, segment: &[u8]) -> (r: Result<Vec<u8>, CryptoError>)
        requires
            self.wf(),
            segment@.len() + PADDING_OVERHEAD <= self.block_size(),
        ensures
            key_usable(self.key_id()) ==> r is Ok,
            r matches Ok(b) ==> b@.len() == self.block_size() && pub_block_matches(
                self.key_id(),
                segment@,
                b@,
            ),
            r matches Err(e) ==> e == CryptoError::EncryptionError,
    {
        let mut buf = vec![0u8; self.size];
        match self.rsa.public_encrypt(segment, &mut buf, Padding::PKCS1) {
            Ok(n) => {
                buf.truncate(n);
                Ok(buf)
            }
            Err(_) => Err(CryptoError::EncryptionError),
        }
    }

    /// Relies on `Rsa::private_decrypt` with PKCS#1 v1.5 padding: a block
    /// the matching public-key primitive produced for a segment decrypts to
    /// exactly that segment; conversely, a successful call means the block
    /// carries valid type-2 padding around what came back, so the block is
    /// one the public primitive can produce for it; at most `size - 11`
    /// bytes are ever recovered.
    #[verifier::external_body]
    fn private_decrypt_block(&self, block: &[u8]) -> (r: Result<Vec<u8>, CryptoError>)
        requires
            self.wf(),
            block@.len() == self.block_size(),
        ensures
            r matches Ok(p) ==> p@.len() + PADDING_OVERHEAD <= self.block_size()
                && pub_block_matches(self.key_id(), p@, block@),
            forall|s: Seq<u8>|
                s.len() + PADDING_OVERHEAD <= self.block_size() && pub_block_matches(
                    self.key_id(),
                    s,
                    block@,
                ) ==> r is Ok && r->Ok_0@ == s,
            r matches Err(e) ==> e == CryptoError::DecryptionError,
    {
        let mut buf = vec![0u8; self.size];
        match self.rsa.private_decrypt(block, &mut buf, Padding::PKCS1) {
            Ok(n) => {
                buf.truncate(n);
                Ok(buf)
            }
            Err(_) => Err(CryptoError::DecryptionError),
        }
    }

    /// Relies on `Rsa::public_decrypt` with PKCS#1 v1.5 padding: a block the
    /// matching private-key primitive produced for a segment decrypts to
    /// exactly that segment; conversely, a successful call means the block
    /// carries valid type-1 padding around what came back, and type-1
    /// padding is deterministic, so the block is exactly the private
    /// encryption of it; at most `size - 11` bytes are ever recovered.
    #[verifier::external_body]
    fn public_decrypt_block(&self, block: &[u8]) -> (r: Result<Vec<u8>, CryptoError>)
        requires
            self.wf(),
            block@.len() == self.block_size(),
        ensures
            r matches Ok(p) ==> p@.len() + PADDING_OVERHEAD <= self.block_size() && block@
                == priv_block_of(self.key_id(), p@),
            forall|s: Seq<u8>|
                s.len() + PADDING_OVERHEAD <= self.block_size() && block@ == priv_block_of(
                    self.key_id(),
                    s,
                ) ==> r is Ok && r->Ok_0@ == s,
            r matches Err(e) ==> e == CryptoError::DecryptionError,
    {
        let mut buf = vec![0u8; self.size];
        match self.rsa.public_decrypt(block, &mut buf, Padding::PKCS1) {
            Ok(n) => {
                buf.truncate(n);
                Ok(buf)
            }
            Err(_) => Err(CryptoError::DecryptionError),
        }
    }

    /// Encrypts a byte sequence of arbitrary length with the private key:
    /// segments of at most `block_size - 11` bytes, one output block each.
    pub fn private_encrypt(&self, data: &[u8]) -> (r: Result<Vec<u8>, CryptoError>)
        requires
            self.wf(),
        ensures
            data@.len() == 0 ==> r is Ok,
            key_usable(self.key_id()) ==> r is Ok,
            r matches Ok(c) ==> priv_ct_matches(self.key_id(), self.block_size(), data@, c@)
                && c@.len() == self.block_size() * block_count(
                data@.len(),
                (self.block_size() - PADDING_OVERHEAD) as nat,
            ),
            r matches Err(e) ==> e == CryptoError::EncryptionError,
    {
        let size = self.size;
        let cap = size - PADDING_OVERHEAD;
        let len = data.len();
        let mut out: Vec<u8> = Vec::new();
        let mut from: usize = 0;
        while from < len
            invariant
                self.wf(),
                size == self.size,
                cap == size - PADDING_OVERHEAD,
                len == data@.len(),
                from <= len,
                from == len || from as int % cap as int == 0,
                priv_ct_matches(
                    self.key_id(),
                    self.block_size(),
                    data@.subrange(0, from as int),
                    out@,
                ),
            decreases len - from,
        {
            let to = if len - from > cap {
                from + cap
            } else {
                len
            };
            let segment = slice_subrange(data, from, to);
            let mut block = match self.private_encrypt_block(segment) {
                Ok(b) => b,
                Err(e) => {
                    return Err(e);
                }
            };
            proof {
                lemma_priv_ct_extend(
                    self.key_id(),
                    self.block_size(),
                    data@.subrange(0, from as int),
                    out@,
                    data@.subrange(from as int, to as int),
                    block@,
                );
                assert(data@.subrange(0, from as int) + data@.subrange(from as int, to as int)
                    =~= data@.subrange(0, to as int));
                if to != len {
                    lemma_mod_multiples_basic(from as int / cap as int + 1, cap as int);
                    assert(from as int % cap as int == 0);
                    assert((from + cap) as int % cap as int == 0) by {
                        assert(from as int == cap as int * (from as int / cap as int)) by {
                            vstd::arithmetic::div_mod::lemma_fundamental_div_mod(
                                from as int,
                                cap as int,
                            );
                        };
                        assert((from as int / cap as int + 1) * cap as int == from as int
                            + cap as int) by (nonlinear_arith)
                            requires
                                from as int == cap as int * (from as int / cap as int),
                        ;
                    };
                }
            }
            out.append(&mut block);
            from = to;
        }
        proof {
            assert(data@.subrange(0, from as int) =~= data@);
            lemma_priv_ct_len(self.key_id(), self.block_size(), data@, out@);
        }
        Ok(out)
    }

    /// Encrypts a byte sequence of arbitrary length with the public key:
    /// segments of at most `block_size - 11` bytes, one output block each.
    pub fn public_encrypt(&self, data: &[u8]) -> (r: Result<Vec<u8>, CryptoError>)
        requires
            self.wf(),
        ensures
            data@.len() == 0 ==> r is Ok,
            key_usable(self.key_id()) ==> r is Ok,
            r matches Ok(c) ==> pub_ct_matches(self.key_id(), self.block_size(), data@, c@)
                && c@.len() == self.block_size() * block_count(
                data@.len(),
                (self.block_size() - PADDING_OVERHEAD) as nat,
            ),
            r matches Err(e) ==> e == CryptoError::EncryptionError,
    {
        let size = self.size;
        let cap = size - PADDING_OVERHEAD;
        let len = data.len();
        let mut out: Vec<u8> = Vec::new();
        let mut from: usize = 0;
        while from < len
            invariant
                self.wf(),
                size == self.size,
                cap == size - PADDING_OVERHEAD,
                len == data@.len(),
                from <= len,
                from == len || from as int % cap as int == 0,
                pub_ct_matches(
                    self.key_id(),
                    self.block_size(),
                    data@.subrange(0, from as int),
                    out@,
                ),
            decreases len - from,
        {
            let to = if len - from > cap {
                from + cap
            } else {
                len
            };
            let segment = slice_subrange(data, from, to);
            let mut block = match self.public_encrypt_block(segment) {
                Ok(b) => b,
                Err(e) => {
                    return Err(e);
                }
            };
            proof {
                lemma_pub_ct_extend(
                    self.key_id(),
                    self.block_size(),
                    data@.subrange(0, from as int),
                    out@,
                    data@.subrange(from as int, to as int),
                    block@,
                );
                assert(data@.subrange(0, from as int) + data@.subrange(from as int, to as int)
                    =~= data@.subrange(0, to as int));
                if to != len {
                    assert((from + cap) as int % cap as int == 0) by {
                        assert(from as int == cap as int * (from as int / cap as int)) by {
                            vstd::arithmetic::div_mod::lemma_fundamental_div_mod(
                                from as int,
                                cap as int,
                            );
                        };
                        assert((from as int / cap as int + 1) * cap as int == from as int
                            + cap as int) by (nonlinear_arith)
                            requires
                                from as int == cap as int * (from as int / cap as int),
                        ;
                        lemma_mod_multiples_basic(from as int / cap as int + 1, cap as int);
                    };
                }
            }
            out.append(&mut block);
            from = to;
        }
        proof {
            assert(data@.subrange(0, from as int) =~= data@);
            lemma_pub_ct_len(self.key_id(), self.block_size(), data@, out@);
        }
        Ok(out)
    }

    /// Decrypts with the private key a ciphertext the public-key codec
    /// produced, reassembling the original plaintext block by block. A
    /// length that is not a whole number of blocks is rejected outright.
    pub fn private_decrypt(&self, data: &[u8]) -> (r: Result<Vec<u8>, CryptoError>)
        requires
            self.wf(),
        ensures
            forall|d: Seq<u8>|
                #[trigger] pub_ct_matches(self.key_id(), self.block_size(), d, data@) ==> r is Ok
                    && r->Ok_0@ == d,
            forall|d: Seq<u8>|
                #[trigger] pub_ct_decrypts_to(self.key_id(), self.block_size(), data@, d) ==> r
                    is Ok && r->Ok_0@ == d,
            r matches Ok(p) ==> pub_ct_decrypts_to(self.key_id(), self.block_size(), data@, p@)
                && p@.len() as int <= (self.block_size() - PADDING_OVERHEAD) * (
            data@.len() as int / self.block_size() as int),
            r matches Err(e) ==> e == CryptoError::DecryptionError,
            r is Ok ==> data@.len() as int % self.block_size() as int == 0,
    {
        let size = self.size;
        let len = data.len();
        if len % size != 0 {
            proof {
                assert forall|d: Seq<u8>|
                    !#[trigger] pub_ct_matches(self.key_id(), self.block_size(), d, data@) by {
                    if pub_ct_matches(self.key_id(), self.block_size(), d, data@) {
                        lemma_pub_ct_len(self.key_id(), self.block_size(), d, data@);
                        lemma_mod_multiples_basic(
                            block_count(
                                d.len(),
                                (self.block_size() - PADDING_OVERHEAD) as nat,
                            ) as int,
                            size as int,
                        );
                    }
                }
                assert forall|d: Seq<u8>|
                    !#[trigger] pub_ct_decrypts_to(self.key_id(), self.block_size(), data@, d) by {
                    if pub_ct_decrypts_to(self.key_id(), self.block_size(), data@, d) {
                        lemma_pub_decrypts_to_len(self.key_id(), self.block_size(), data@, d);
                    }
                }
            }
            return Err(CryptoError::DecryptionError);
        }
        let mut out: Vec<u8> = Vec::new();
        let mut from: usize = 0;
        let ghost mut segs: Seq<Seq<u8>> = Seq::empty();
        proof {
            assert(data@.subrange(0, 0).len() == 0);
            assert(pub_chunks_carry(self.key_id(), self.block_size(), data@.subrange(0, 0), segs));
            assert(out@ =~= concat_segments(segs));
            assert forall|d: Seq<u8>|
                #[trigger] pub_ct_matches(self.key_id(), self.block_size(), d, data@) implies out@.len()
                <= d.len() && out@ == d.subrange(0, out@.len() as int) && pub_ct_matches(
                self.key_id(),
                self.block_size(),
                d.skip(out@.len() as int),
                data@.skip(from as int),
            ) by {
                assert(out@ =~= d.subrange(0, 0));
                assert(d.skip(0) =~= d);
                assert(data@.skip(0) =~= data@);
            }
            assert forall|d: Seq<u8>|
                #[trigger] pub_ct_decrypts_to(self.key_id(), self.block_size(), data@, d) implies out@.len()
                <= d.len() && out@ == d.subrange(0, out@.len() as int) && pub_ct_decrypts_to(
                self.key_id(),
                self.block_size(),
                data@.skip(from as int),
                d.skip(out@.len() as int),
            ) by {
                assert(out@ =~= d.subrange(0, 0));
                assert(d.skip(0) =~= d);
                assert(data@.skip(0) =~= data@);
            }
        }
        while from < len
            invariant
                self.wf(),
                size == self.size,
                len == data@.len(),
                len % size == 0,
                from % size == 0,
                from <= len,
                out@.len() <= from,
                pub_chunks_carry(
                    self.key_id(),
                    self.block_size(),
                    data@.subrange(0, from as int),
                    segs,
                ),
                out@ == concat_segments(segs),
                forall|d: Seq<u8>|
                    #[trigger] pub_ct_matches(self.key_id(), self.block_size(), d, data@) ==> out@.len()
                        <= d.len() && out@ == d.subrange(0, out@.len() as int) && pub_ct_matches(
                        self.key_id(),
                        self.block_size(),
                        d.skip(out@.len() as int),
                        data@.skip(from as int),
                    ),
                forall|d: Seq<u8>|
                    #[trigger] pub_ct_decrypts_to(self.key_id(), self.block_size(), data@, d)
                        ==> out@.len() <= d.len() && out@ == d.subrange(0, out@.len() as int)
                        && pub_ct_decrypts_to(
                        self.key_id(),
                        self.block_size(),
                        data@.skip(from as int),
                        d.skip(out@.len() as int),
                    ),
            decreases len - from,
        {
            proof {
                lemma_mod_diff_zero(len as int, from as int, size as int);
                lemma_mod_is_zero((len - from) as nat, size as nat);
                assert(len - from >= size);
            }
            let block = slice_subrange(data, from, from + size);
            let ghost prev_out = out@;
            let ghost prev_from = from as int;
            let p = match self.private_decrypt_block(block) {
                Ok(p) => p,
                Err(e) => {
                    proof {
                        assert forall|d: Seq<u8>|
                            !#[trigger] pub_ct_matches(self.key_id(), self.block_size(), d, data@) by {
                            if pub_ct_matches(self.key_id(), self.block_size(), d, data@) {
                                let rem_d = d.skip(prev_out.len() as int);
                                let rem_c = data@.skip(prev_from);
                                assert(rem_c.len() > 0);
                                let cap = self.block_size() - PADDING_OVERHEAD;
                                let seg_len: int = if rem_d.len() <= cap {
                                    rem_d.len() as int
                                } else {
                                    cap as int
                                };
                                assert(pub_block_matches(
                                    self.key_id(),
                                    rem_d.subrange(0, seg_len),
                                    rem_c.subrange(0, size as int),
                                ));
                                assert(rem_c.subrange(0, size as int) =~= data@.subrange(
                                    prev_from,
                                    prev_from + size as int,
                                ));
                            }
                        }
                        assert forall|d: Seq<u8>|
                            !#[trigger] pub_ct_decrypts_to(
                                self.key_id(),
                                self.block_size(),
                                data@,
                                d,
                            ) by {
                            if pub_ct_decrypts_to(self.key_id(), self.block_size(), data@, d) {
                                let rem_d = d.skip(prev_out.len() as int);
                                let rem_c = data@.skip(prev_from);
                                assert(rem_c.len() > 0);
                                let segs0 = choose|segs0: Seq<Seq<u8>>|
                                    #[trigger] pub_chunks_carry(
                                        self.key_id(),
                                        self.block_size(),
                                        rem_c,
                                        segs0,
                                    ) && rem_d == concat_segments(segs0);
                                assert(rem_c.subrange(0, size as int) =~= data@.subrange(
                                    prev_from,
                                    prev_from + size as int,
                                ));
                            }
                        }
                    }
                    return Err(e);
                }
            };
            let ghost pseq = p@;
            let ghost prev_segs = segs;
            let mut tail = p;
            out.append(&mut tail);
            from = from + size;
            proof {
                vstd::arithmetic::div_mod::lemma_mod_add_multiples_vanish(
                    prev_from,
                    size as int,
                );
                assert(out@ == prev_out + pseq);
                segs = prev_segs.push(pseq);
                lemma_pub_chunks_extend(
                    self.key_id(),
                    self.block_size(),
                    data@.subrange(0, prev_from),
                    prev_segs,
                    pseq,
                    data@.subrange(prev_from, prev_from + size as int),
                );
                lemma_concat_push(prev_segs, pseq);
                assert(data@.subrange(0, prev_from) + data@.subrange(
                    prev_from,
                    prev_from + size as int,
                ) =~= data@.subrange(0, from as int));
                assert(pub_chunks_carry(
                    self.key_id(),
                    self.block_size(),
                    data@.subrange(0, from as int),
                    segs,
                ));
                assert forall|d: Seq<u8>|
                    #[trigger] pub_ct_decrypts_to(self.key_id(), self.block_size(), data@, d) implies out@.len()
                    <= d.len() && out@ == d.subrange(0, out@.len() as int) && pub_ct_decrypts_to(
                    self.key_id(),
                    self.block_size(),
                    data@.skip(from as int),
                    d.skip(out@.len() as int),
                ) by {
                    let rem_d = d.skip(prev_out.len() as int);
                    let rem_c = data@.skip(prev_from);
                    assert(rem_c.len() > 0);
                    let segs0 = choose|segs0: Seq<Seq<u8>>|
                        #[trigger] pub_chunks_carry(
                            self.key_id(),
                            self.block_size(),
                            rem_c,
                            segs0,
                        ) && rem_d == concat_segments(segs0);
                    assert(rem_c.subrange(0, size as int) =~= data@.subrange(
                        prev_from,
                        prev_from + size as int,
                    ));
                    assert(pseq == segs0[0]);
                    assert(concat_segments(segs0) == segs0[0] + concat_segments(segs0.skip(1)));
                    assert(rem_d.len() == segs0[0].len() + concat_segments(segs0.skip(1)).len());
                    assert(out@.len() <= d.len());
                    assert(segs0[0] =~= d.subrange(
                        prev_out.len() as int,
                        prev_out.len() + pseq.len() as int,
                    ));
                    assert(out@ =~= d.subrange(0, out@.len() as int));
                    assert(rem_d.skip(pseq.len() as int) =~= concat_segments(segs0.skip(1)));
                    assert(d.skip(out@.len() as int) =~= rem_d.skip(pseq.len() as int));
                    assert(d.skip(out@.len() as int) =~= concat_segments(segs0.skip(1)));
                    assert(data@.skip(from as int) =~= rem_c.skip(size as int));
                    assert(pub_chunks_carry(
                        self.key_id(),
                        self.block_size(),
                        data@.skip(from as int),
                        segs0.skip(1),
                    ));
                    assert(pub_ct_decrypts_to(
                        self.key_id(),
                        self.block_size(),
                        data@.skip(from as int),
                        d.skip(out@.len() as int),
                    ));
                }
                assert forall|d: Seq<u8>|
                    #[trigger] pub_ct_matches(self.key_id(), self.block_size(), d, data@) implies out@.len()
                    <= d.len() && out@ == d.subrange(0, out@.len() as int) && pub_ct_matches(
                    self.key_id(),
                    self.block_size(),
                    d.skip(out@.len() as int),
                    data@.skip(from as int),
                ) by {
                    let rem_d = d.skip(prev_out.len() as int);
                    let rem_c = data@.skip(prev_from);
                    assert(rem_c.len() > 0);
                    let cap = self.block_size() - PADDING_OVERHEAD;
                    let seg_len: int = if rem_d.len() <= cap {
                        rem_d.len() as int
                    } else {
                        cap as int
                    };
                    assert(pub_block_matches(
                        self.key_id(),
                        rem_d.subrange(0, seg_len),
                        rem_c.subrange(0, size as int),
                    ));
                    assert(rem_c.subrange(0, size as int) =~= data@.subrange(
                        prev_from,
                        prev_from + size as int,
                    ));
                    assert(pseq == rem_d.subrange(0, seg_len));
                    assert(rem_d.subrange(0, seg_len) =~= d.subrange(
                        prev_out.len() as int,
                        prev_out.len() + seg_len,
                    ));
                    assert(out@ =~= d.subrange(0, out@.len() as int));
                    assert(d.skip(out@.len() as int) =~= rem_d.skip(seg_len));
                    assert(data@.skip(from as int) =~= rem_c.skip(size as int));
                    assert(pub_ct_matches(
                        self.key_id(),
                        self.block_size(),
                        rem_d.skip(seg_len),
                        rem_c.skip(size as int),
                    ));
                }
            }
        }
        proof {
            assert forall|d: Seq<u8>|
                #[trigger] pub_ct_matches(self.key_id(), self.block_size(), d, data@) implies out@
                == d by {
                assert(data@.skip(from as int).len() == 0);
                let rem_d = d.skip(out@.len() as int);
                assert(pub_ct_matches(
                    self.key_id(),
                    self.block_size(),
                    rem_d,
                    data@.skip(from as int),
                ));
                assert(rem_d.len() == 0);
                assert(d.len() == out@.len());
                assert(d.subrange(0, out@.len() as int) =~= d);
            }
            assert forall|d: Seq<u8>|
                #[trigger] pub_ct_decrypts_to(self.key_id(), self.block_size(), data@, d) implies out@
                == d by {
                assert(data@.skip(from as int).len() == 0);
                let rem_d = d.skip(out@.len() as int);
                let segs0 = choose|segs0: Seq<Seq<u8>>|
                    #[trigger] pub_chunks_carry(
                        self.key_id(),
                        self.block_size(),
                        data@.skip(from as int),
                        segs0,
                    ) && rem_d == concat_segments(segs0);
                assert(segs0.len() == 0);
                assert(concat_segments(segs0).len() == 0);
                assert(rem_d.len() == 0);
                assert(d.len() == out@.len());
                assert(d.subrange(0, out@.len() as int) =~= d);
            }
            assert(data@.subrange(0, from as int) =~= data@);
            assert(pub_chunks_carry(self.key_id(), self.block_size(), data@, segs));
            assert(pub_ct_decrypts_to(self.key_id(), self.block_size(), data@, out@));
            lemma_pub_decrypts_to_len(self.key_id(), self.block_size(), data@, out@);
        }
        Ok(out)
    }

    /// Decrypts with the public key a ciphertext the private-key codec
    /// produced (for instance a signature), reassembling the original
    /// plaintext block by block. A length that is not a whole number of
    /// blocks is rejected outright.
    pub fn public_decrypt(&self, data: &[u8]) -> (r: Result<Vec<u8>, CryptoError>)
        requires
            self.wf(),
        ensures
            forall|d: Seq<u8>|
                #[trigger] priv_ct_matches(self.key_id(), self.block_size(), d, data@) ==> r is Ok
                    && r->Ok_0@ == d,
            forall|d: Seq<u8>|
                #[trigger] priv_ct_decrypts_to(self.key_id(), self.block_size(), data@, d) ==> r
                    is Ok && r->Ok_0@ == d,
            r matches Ok(p) ==> priv_ct_decrypts_to(self.key_id(), self.block_size(), data@, p@)
                && p@.len() as int <= (self.block_size() - PADDING_OVERHEAD) * (
            data@.len() as int / self.block_size() as int),
            r matches Err(e) ==> e == CryptoError::DecryptionError,
            r is Ok ==> data@.len() as int % self.block_size() as int == 0,
    {
        let size = self.size;
        let len = data.len();
        if len % size != 0 {
            proof {
                assert forall|d: Seq<u8>|
                    !#[trigger] priv_ct_matches(self.key_id(), self.block_size(), d, data@) by {
                    if priv_ct_matches(self.key_id(), self.block_size(), d, data@) {
                        lemma_priv_ct_len(self.key_id(), self.block_size(), d, data@);
                        lemma_mod_multiples_basic(
                            block_count(
                                d.len(),
                                (self.block_size() - PADDING_OVERHEAD) as nat,
                            ) as int,
                            size as int,
                        );
                    }
                }
                assert forall|d: Seq<u8>|
                    !#[trigger] priv_ct_decrypts_to(self.key_id(), self.block_size(), data@, d) by {
                    if priv_ct_decrypts_to(self.key_id(), self.block_size(), data@, d) {
                        lemma_priv_decrypts_to_len(self.key_id(), self.block_size(), data@, d);
                    }
                }
            }
            return Err(CryptoError::DecryptionError);
        }
        let mut out: Vec<u8> = Vec::new();
        let mut from: usize = 0;
        let ghost mut segs: Seq<Seq<u8>> = Seq::empty();
        proof {
            assert(data@.subrange(0, 0).len() == 0);
            assert(priv_chunks_carry(self.key_id(), self.block_size(), data@.subrange(0, 0), segs));
            assert(out@ =~= concat_segments(segs));
            assert forall|d: Seq<u8>|
                #[trigger] priv_ct_matches(self.key_id(), self.block_size(), d, data@) implies out@.len()
                <= d.len() && out@ == d.subrange(0, out@.len() as int) && priv_ct_matches(
                self.key_id(),
                self.block_size(),
                d.skip(out@.len() as int),
                data@.skip(from as int),
            ) by {
                assert(out@ =~= d.subrange(0, 0));
                assert(d.skip(0) =~= d);
                assert(data@.skip(0) =~= data@);
            }
            assert forall|d: Seq<u8>|
                #[trigger] priv_ct_decrypts_to(self.key_id(), self.block_size(), data@, d) implies out@.len()
                <= d.len() && out@ == d.subrange(0, out@.len() as int) && priv_ct_decrypts_to(
                self.key_id(),
                self.block_size(),
                data@.skip(from as int),
                d.skip(out@.len() as int),
            ) by {
                assert(out@ =~= d.subrange(0, 0));
                assert(d.skip(0) =~= d);
                assert(data@.skip(0) =~= data@);
            }
        }
        while from < len
            invariant
                self.wf(),
                size == self.size,
                len == data@.len(),
                len % size == 0,
                from % size == 0,
                from <= len,
                out@.len() <= from,
                priv_chunks_carry(
                    self.key_id(),
                    self.block_size(),
                    data@.subrange(0, from as int),
                    segs,
                ),
                out@ == concat_segments(segs),
                forall|d: Seq<u8>|
                    #[trigger] priv_ct_matches(self.key_id(), self.block_size(), d, data@) ==> out@.len()
                        <= d.len() && out@ == d.subrange(0, out@.len() as int) && priv_ct_matches(
                        self.key_id(),
                        self.block_size(),
                        d.skip(out@.len() as int),
                        data@.skip(from as int),
                    ),
                forall|d: Seq<u8>|
                    #[trigger] priv_ct_decrypts_to(self.key_id(), self.block_size(), data@, d)
                        ==> out@.len() <= d.len() && out@ == d.subrange(0, out@.len() as int)
                        && priv_ct_decrypts_to(
                        self.key_id(),
                        self.block_size(),
                        data@.skip(from as int),
                        d.skip(out@.len() as int),
                    ),
            decreases len - from,
        {
            proof {
                lemma_mod_diff_zero(len as int, from as int, size as int);
                lemma_mod_is_zero((len - from) as nat, size as nat);
                assert(len - from >= size);
            }
            let block = slice_subrange(data, from, from + size);
            let ghost prev_out = out@;
            let ghost prev_from = from as int;
            let p = match self.public_decrypt_block(block) {
                Ok(p) => p,
                Err(e) => {
                    proof {
                        assert forall|d: Seq<u8>|
                            !#[trigger] priv_ct_matches(self.key_id(), self.block_size(), d, data@) by {
                            if priv_ct_matches(self.key_id(), self.block_size(), d, data@) {
                                let rem_d = d.skip(prev_out.len() as int);
                                let rem_c = data@.skip(prev_from);
                                assert(rem_c.len() > 0);
                                let cap = self.block_size() - PADDING_OVERHEAD;
                                let seg_len: int = if rem_d.len() <= cap {
                                    rem_d.len() as int
                                } else {
                                    cap as int
                                };
                                assert(rem_c.subrange(0, size as int) == priv_block_of(
                                    self.key_id(),
                                    rem_d.subrange(0, seg_len),
                                ));
                                assert(rem_c.subrange(0, size as int) =~= data@.subrange(
                                    prev_from,
                                    prev_from + size as int,
                                ));
                                assert(rem_d.subrange(0, seg_len).len() + PADDING_OVERHEAD
                                    <= self.block_size());
                            }
                        }
                        assert forall|d: Seq<u8>|
                            !#[trigger] priv_ct_decrypts_to(
                                self.key_id(),
                                self.block_size(),
                                data@,
                                d,
                            ) by {
                            if priv_ct_decrypts_to(self.key_id(), self.block_size(), data@, d) {
                                let rem_d = d.skip(prev_out.len() as int);
                                let rem_c = data@.skip(prev_from);
                                assert(rem_c.len() > 0);
                                let segs0 = choose|segs0: Seq<Seq<u8>>|
                                    #[trigger] priv_chunks_carry(
                                        self.key_id(),
                                        self.block_size(),
                                        rem_c,
                                        segs0,
                                    ) && rem_d == concat_segments(segs0);
                                assert(rem_c.subrange(0, size as int) =~= data@.subrange(
                                    prev_from,
                                    prev_from + size as int,
                                ));
                            }
                        }
                    }
                    return Err(e);
                }
            };
            let ghost pseq = p@;
            let ghost prev_segs = segs;
            let mut tail = p;
            out.append(&mut tail);
            from = from + size;
            proof {
                vstd::arithmetic::div_mod::lemma_mod_add_multiples_vanish(
                    prev_from,
                    size as int,
                );
                assert(out@ == prev_out + pseq);
                segs = prev_segs.push(pseq);
                lemma_priv_chunks_extend(
                    self.key_id(),
                    self.block_size(),
                    data@.subrange(0, prev_from),
                    prev_segs,
                    pseq,
                    data@.subrange(prev_from, prev_from + size as int),
                );
                lemma_concat_push(prev_segs, pseq);
                assert(data@.subrange(0, prev_from) + data@.subrange(
                    prev_from,
                    prev_from + size as int,
                ) =~= data@.subrange(0, from as int));
                assert(priv_chunks_carry(
                    self.key_id(),
                    self.block_size(),
                    data@.subrange(0, from as int),
                    segs,
                ));
                assert forall|d: Seq<u8>|
                    #[trigger] priv_ct_decrypts_to(self.key_id(), self.block_size(), data@, d) implies out@.len()
                    <= d.len() && out@ == d.subrange(0, out@.len() as int) && priv_ct_decrypts_to(
                    self.key_id(),
                    self.block_size(),
                    data@.skip(from as int),
                    d.skip(out@.len() as int),
                ) by {
                    let rem_d = d.skip(prev_out.len() as int);
                    let rem_c = data@.skip(prev_from);
                    assert(rem_c.len() > 0);
                    let segs0 = choose|segs0: Seq<Seq<u8>>|
                        #[trigger] priv_chunks_carry(
                            self.key_id(),
                            self.block_size(),
                            rem_c,
                            segs0,
                        ) && rem_d == concat_segments(segs0);
                    assert(rem_c.subrange(0, size as int) =~= data@.subrange(
                        prev_from,
                        prev_from + size as int,
                    ));
                    assert(pseq == segs0[0]);
                    assert(concat_segments(segs0) == segs0[0] + concat_segments(segs0.skip(1)));
                    assert(rem_d.len() == segs0[0].len() + concat_segments(segs0.skip(1)).len());
                    assert(out@.len() <= d.len());
                    assert(segs0[0] =~= d.subrange(
                        prev_out.len() as int,
                        prev_out.len() + pseq.len() as int,
                    ));
                    assert(out@ =~= d.subrange(0, out@.len() as int));
                    assert(rem_d.skip(pseq.len() as int) =~= concat_segments(segs0.skip(1)));
                    assert(d.skip(out@.len() as int) =~= rem_d.skip(pseq.len() as int));
                    assert(d.skip(out@.len() as int) =~= concat_segments(segs0.skip(1)));
                    assert(data@.skip(from as int) =~= rem_c.skip(size as int));
                    assert(priv_chunks_carry(
                        self.key_id(),
                        self.block_size(),
                        data@.skip(from as int),
                        segs0.skip(1),
                    ));
                    assert(priv_ct_decrypts_to(
                        self.key_id(),
                        self.block_size(),
                        data@.skip(from as int),
                        d.skip(out@.len() as int),
                    ));
                }
                assert forall|d: Seq<u8>|
                    #[trigger] priv_ct_matches(self.key_id(), self.block_size(), d, data@) implies out@.len()
                    <= d.len() && out@ == d.subrange(0, out@.len() as int) && priv_ct_matches(
                    self.key_id(),
                    self.block_size(),
                    d.skip(out@.len() as int),
                    data@.skip(from as int),
                ) by {
                    let rem_d = d.skip(prev_out.len() as int);
                    let rem_c = data@.skip(prev_from);
                    assert(rem_c.len() > 0);
                    let cap = self.block_size() - PADDING_OVERHEAD;
                    let seg_len: int = if rem_d.len() <= cap {
                        rem_d.len() as int
                    } else {
                        cap as int
                    };
                    assert(rem_c.subrange(0, size as int) == priv_block_of(
                        self.key_id(),
                        rem_d.subrange(0, seg_len),
                    ));
                    assert(rem_c.subrange(0, size as int) =~= data@.subrange(
                        prev_from,
                        prev_from + size as int,
                    ));
                    assert(rem_d.subrange(0, seg_len).len() + PADDING_OVERHEAD
                        <= self.block_size());
                    assert(pseq == rem_d.subrange(0, seg_len));
                    assert(rem_d.subrange(0, seg_len) =~= d.subrange(
                        prev_out.len() as int,
                        prev_out.len() + seg_len,
                    ));
                    assert(out@ =~= d.subrange(0, out@.len() as int));
                    assert(d.skip(out@.len() as int) =~= rem_d.skip(seg_len));
                    assert(data@.skip(from as int) =~= rem_c.skip(size as int));
                    assert(priv_ct_matches(
                        self.key_id(),
                        self.block_size(),
                        rem_d.skip(seg_len),
                        rem_c.skip(size as int),
                    ));
                }
            }
        }
        proof {
            assert forall|d: Seq<u8>|
                #[trigger] priv_ct_matches(self.key_id(), self.block_size(), d, data@) implies out@
                == d by {
                assert(data@.skip(from as int).len() == 0);
                let rem_d = d.skip(out@.len() as int);
                assert(priv_ct_matches(
                    self.key_id(),
                    self.block_size(),
                    rem_d,
                    data@.skip(from as int),
                ));
                assert(rem_d.len() == 0);
                assert(d.len() == out@.len());
                assert(d.subrange(0, out@.len() as int) =~= d);
            }
            assert forall|d: Seq<u8>|
                #[trigger] priv_ct_decrypts_to(self.key_id(), self.block_size(), data@, d) implies out@
                == d by {
                assert(data@.skip(from as int).len() == 0);
                let rem_d = d.skip(out@.len() as int);
                let segs0 = choose|segs0: Seq<Seq<u8>>|
                    #[trigger] priv_chunks_carry(
                        self.key_id(),
                        self.block_size(),
                        data@.skip(from as int),
                        segs0,
                    ) && rem_d == concat_segments(segs0);
                assert(segs0.len() == 0);
                assert(concat_segments(segs0).len() == 0);
                assert(rem_d.len() == 0);
                assert(d.len() == out@.len());
                assert(d.subrange(0, out@.len() as int) =~= d);
            }
            assert(data@.subrange(0, from as int) =~= data@);
            assert(priv_chunks_carry(self.key_id(), self.block_size(), data@, segs));
            assert(priv_ct_decrypts_to(self.key_id(), self.block_size(), data@, out@));
            lemma_priv_decrypts_to_len(self.key_id(), self.block_size(), data@, out@);
        }
        Ok(out)
    }

    /// Signs a byte sequence: the private-key encryption of its digest, so
    /// the signature is a whole number of blocks (exactly one for the usual
    /// key sizes, since a digest fits in a single segment).
    pub fn sign(&self, data: &[u8]) -> (r: Result<Vec<u8>, CryptoError>)
        requires
            self.wf(),
        ensures
            key_usable(self.key_id()) ==> r is Ok,
            r matches Ok(s) ==> priv_ct_matches(
                self.key_id(),
                self.block_size(),
                digest_of(data@),
                s@,
            ) && s@.len() == self.block_size() * block_count(
                32,
                (self.block_size() - PADDING_OVERHEAD) as nat,
            ),
            r matches Err(e) ==> e == CryptoError::EncryptionError,
    {
        let hash = match ShaHash::hash(data) {
            Ok(h) => h,
            Err(_) => {
                return Err(CryptoError::EncryptionError);
            }
        };
        self.private_encrypt(hash.as_slice())
    }

    /// Verifies a signature against a digest: decrypts the signature with
    /// the public key and compares the recovered digest with the given one.
    /// For any digest the signature actually signs, the outcome is owed and
    /// is `true` exactly when that digest equals the given one; a decrypt
    /// failure is propagated as an error.
    pub fn verify(&self, hash: &[u8], signature: &[u8]) -> (r: Result<bool, CryptoError>)
        requires
            self.wf(),
        ensures
            forall|d: Seq<u8>|
                #[trigger] priv_ct_matches(self.key_id(), self.block_size(), d, signature@)
                    ==> r is Ok && r->Ok_0 == (d == hash@),
            forall|d: Seq<u8>|
                #[trigger] priv_ct_decrypts_to(self.key_id(), self.block_size(), signature@, d)
                    ==> r is Ok && r->Ok_0 == (d == hash@),
            r is Ok <==> exists|d: Seq<u8>|
                #[trigger] priv_ct_decrypts_to(self.key_id(), self.block_size(), signature@, d),
            r matches Ok(b) ==> b == priv_ct_decrypts_to(
                self.key_id(),
                self.block_size(),
                signature@,
                hash@,
            ),
            r matches Err(e) ==> e == CryptoError::DecryptionError,
    {
        let recovered = match self.public_decrypt(signature) {
            Ok(v) => v,
            Err(e) => {
                return Err(e);
            }
        };
        Ok(bytes_eq(recovered.as_slice(), hash))
    }

    /// Verifies a signature against the data itself: hashes the data, then
    /// compares the digest the signature recovers to. For any digest the
    /// signature actually signs, the outcome is owed and is `true` exactly
    /// when that digest is the digest of `data`: a signature over other
    /// bytes verifies only if the digests collide.
    pub fn verify_data(&self, data: &[u8], signature: &[u8]) -> (r: Result<bool, CryptoError>)
        requires
            self.wf(),
        ensures
            forall|d: Seq<u8>|
                #[trigger] priv_ct_matches(self.key_id(), self.block_size(), d, signature@)
                    ==> r is Ok && r->Ok_0 == (d == digest_of(data@)),
            forall|d: Seq<u8>|
                #[trigger] priv_ct_decrypts_to(self.key_id(), self.block_size(), signature@, d)
                    ==> r is Ok && r->Ok_0 == (d == digest_of(data@)),
            r is Ok <==> exists|d: Seq<u8>|
                #[trigger] priv_ct_decrypts_to(self.key_id(), self.block_size(), signature@, d),
            r matches Ok(b) ==> b == priv_ct_decrypts_to(
                self.key_id(),
                self.block_size(),
                signature@,
                digest_of(data@),
            ),
            r matches Err(e) ==> e == CryptoError::DecryptionError,
    {
        let hash = match ShaHash::hash(data) {
            Ok(h) => h,
            Err(_) => {
                return Err(CryptoError::DecryptionError);
            }
        };
        self.verify(hash.as_slice(), signature)
    }

    /// Serializes the private half to its PEM encoding.
    ///
    /// Relies on `Rsa::private_key_to_pem` and `Rsa::private_key_from_pem`:
    /// the PEM encoding of a private key parses back to the same key.
    #[verifier::external_body]
    pub fn private_key_to_pem(&self) -> (r: Result<Vec<u8>, CryptoError>)
        ensures
            r matches Ok(p) ==> pem_key_id(p@) == self.key_id() && pem_key_size(p@)
                == self.block_size(),
            r matches Err(e) ==> e == CryptoError::IoError,
    {
        match self.rsa.private_key_to_pem() {
            Ok(p) => Ok(p),
            Err(_) => Err(CryptoError::IoError),
        }
    }

    /// Serializes the public half to its PEM encoding.
    ///
    /// Relies on `Rsa::public_key_to_pem`: the encoding of a valid key is a
    /// non-empty PEM document.
    #[verifier::external_body]
    pub fn public_key_to_pem(&self) -> (r: Result<Vec<u8>, CryptoError>)
        ensures
            r matches Ok(p) ==> p@.len() > 0,
            r matches Err(e) ==> e == CryptoError::IoError,
    {
        match self.rsa.public_key_to_pem() {
            Ok(p) => Ok(p),
            Err(_) => Err(CryptoError::IoError),
        }
    }
}

} // verus!
