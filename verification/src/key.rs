//! Identities on the ledger: 32-byte keys and their canonical order.

use vstd::prelude::*;

verus! {

/// The number of bytes in a key.
pub const KEY_LEN: usize = 32;

/// The identity of an account, a mint or a signer: 32 bytes.
#[derive(Clone, Copy, Debug, PartialEq, Eq)]
pub struct Pubkey {
    pub bytes: [u8; 32],
}

/// `a` comes before `b` in the lexicographic order of their bytes: they
/// agree up to some position, at which `a` holds the smaller byte.
pub open spec fn lex_less(a: Seq<u8>, b: Seq<u8>) -> bool {
    exists|i: int| first_difference(a, b, i) && a[i] < b[i]
}

/// `i` is the first position at which `a` and `b` differ.
pub open spec fn first_difference(a: Seq<u8>, b: Seq<u8>, i: int) -> bool {
    &&& 0 <= i < a.len()
    &&& i < b.len()
    &&& a[i] != b[i]
    &&& forall|j: int| 0 <= j < i ==> a[j] == b[j]
}

/// Two sequences differ first at one position only.
pub proof fn lemma_first_difference_unique(a: Seq<u8>, b: Seq<u8>, i: int, j: int)
    requires
        first_difference(a, b, i),
        first_difference(a, b, j),
    ensures
        i == j,
{
}

/// The order of keys is strict: no key precedes itself, and of two keys at
/// most one precedes the other.
pub proof fn lemma_lex_less_asymmetric(a: Seq<u8>, b: Seq<u8>)
    ensures
        !lex_less(a, a),
        lex_less(a, b) ==> !lex_less(b, a),
{
    if lex_less(a, b) && lex_less(b, a) {
        let i = choose|i: int| first_difference(a, b, i) && a[i] < b[i];
        let j = choose|j: int| first_difference(b, a, j) && b[j] < a[j];
        lemma_first_difference_unique(a, b, i, j);
    }
}

/// Two distinct keys of one length are ordered one way or the other, so
/// every unordered pair of mints has exactly one canonical arrangement.
pub proof fn lemma_lex_less_total(a: Seq<u8>, b: Seq<u8>)
    requires
        a.len() == b.len(),
        a != b,
    ensures
        lex_less(a, b) || lex_less(b, a),
{
    lemma_differ_from(a, b, 0);
    let i = choose|i: int| first_difference(a, b, i);
    assert(first_difference(b, a, i));
}

/// Sequences of one length that agree before `from` and are not equal have
/// a first difference.
proof fn lemma_differ_from(a: Seq<u8>, b: Seq<u8>, from: int)
    requires
        a.len() == b.len(),
        a != b,
        0 <= from <= a.len(),
        forall|j: int| 0 <= j < from ==> a[j] == b[j],
    ensures
        exists|i: int| first_difference(a, b, i),
    decreases a.len() - from,
{
    if from == a.len() {
        assert(a =~= b);
    } else if a[from] != b[from] {
        assert(first_difference(a, b, from));
    } else {
        lemma_differ_from(a, b, from + 1);
    }
}

impl View for Pubkey {
    type V = Seq<u8>;

    open spec fn view(&self) -> Seq<u8> {
        self.bytes@
    }
}

impl Pubkey {
    /// The key made of the given bytes.
    pub fn new(bytes: [u8; 32]) -> (key: Pubkey)
        ensures
            key@ == bytes@,
            key.bytes == bytes,
    {
        Pubkey { bytes }
    }

    /// The bytes of the key.
    pub fn to_bytes(&self) -> (bytes: [u8; 32])
        ensures
            bytes@ == self@,
    {
        self.bytes
    }

    /// Whether the two keys hold the same bytes.
    pub fn same_as(&self, other: &Pubkey) -> (same: bool)
        ensures
            same == (self@ == other@),
    {
        let mut i: usize = 0;
        while i < KEY_LEN
            invariant
                i <= KEY_LEN,
                forall|j: int| 0 <= j < i ==> self@[j] == other@[j],
            decreases KEY_LEN - i,
        {
            if self.bytes[i] != other.bytes[i] {
                return false;
            }
            i = i + 1;
        }
        assert(self@ =~= other@);
        true
    }

    /// Whether this key comes before `other` in the canonical order.
    pub fn precedes(&self, other: &Pubkey) -> (before: bool)
        ensures
            before == lex_less(self@, other@),
    {
        let mut i: usize = 0;
        while i < KEY_LEN
            invariant
                i <= KEY_LEN,
                forall|j: int| 0 <= j < i ==> self@[j] == other@[j],
            decreases KEY_LEN - i,
        {
            if self.bytes[i] != other.bytes[i] {
                let before: bool = self.bytes[i] < other.bytes[i];
                proof {
                    let at: int = i as int;
                    assert(first_difference(self@, other@, at));
                    if lex_less(self@, other@) {
                        let k = choose|k: int|
                            first_difference(self@, other@, k) && self@[k] < other@[k];
                        lemma_first_difference_unique(self@, other@, k, at);
                    }
                }
                return before;
            }
            i = i + 1;
        }
        assert(self@ =~= other@);
        proof {
            lemma_lex_less_asymmetric(self@, other@);
        }
        false
    }
}

} // verus!
