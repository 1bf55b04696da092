//! The order in which directory entries are kept and listed: names compared
//! byte by byte over their UTF-8 encoding (the order of `str`).

use vstd::prelude::*;
use vstd::utf8::encode_utf8;

verus! {

/// Outcome of comparing two names.
#[derive(Clone, Copy, Debug, PartialEq, Eq, Structural)]
pub enum NameOrder {
    Less,
    Equal,
    Greater,
}

/// `x` sorts strictly before `y`, given that they agree before position `i`.
pub open spec fn bytes_before_from(x: Seq<u8>, y: Seq<u8>, i: int) -> bool
    decreases x.len() - i,
{
    if i >= x.len() {
        i < y.len()
    } else if i >= y.len() {
        false
    } else if x[i] < y[i] {
        true
    } else if x[i] > y[i] {
        false
    } else {
        bytes_before_from(x, y, i + 1)
    }
}

/// Lexicographic strict order on byte strings.
pub open spec fn bytes_before(x: Seq<u8>, y: Seq<u8>) -> bool {
    bytes_before_from(x, y, 0)
}

/// Strict order on names: lexicographic on their UTF-8 bytes.
pub open spec fn name_before(a: Seq<char>, b: Seq<char>) -> bool {
    bytes_before(encode_utf8(a), encode_utf8(b))
}

/// No byte string sorts before itself.
pub proof fn lemma_bytes_before_irreflexive(x: Seq<u8>, i: int)
    requires
        0 <= i,
    ensures
        !bytes_before_from(x, x, i),
    decreases x.len() - i,
{
    if i < x.len() {
        lemma_bytes_before_irreflexive(x, i + 1);
    }
}

/// The order is transitive.
pub proof fn lemma_bytes_before_transitive(x: Seq<u8>, y: Seq<u8>, z: Seq<u8>, i: int)
    requires
        0 <= i,
        bytes_before_from(x, y, i),
        bytes_before_from(y, z, i),
    ensures
        bytes_before_from(x, z, i),
    decreases x.len() - i,
{
    if i < x.len() && i < y.len() && i < z.len() && x[i] == y[i] && y[i] == z[i] {
        lemma_bytes_before_transitive(x, y, z, i + 1);
    }
}

/// The order is asymmetric.
pub proof fn lemma_bytes_before_asymmetric(x: Seq<u8>, y: Seq<u8>, i: int)
    requires
        0 <= i,
        bytes_before_from(x, y, i),
    ensures
        !bytes_before_from(y, x, i),
    decreases x.len() - i,
{
    if i < x.len() && i < y.len() && x[i] == y[i] {
        lemma_bytes_before_asymmetric(x, y, i + 1);
    }
}

/// No name sorts before itself.
pub proof fn lemma_name_before_irreflexive(a: Seq<char>)
    ensures
        !name_before(a, a),
{
    lemma_bytes_before_irreflexive(encode_utf8(a), 0);
}

/// `name_before` is transitive.
pub proof fn lemma_name_before_transitive(a: Seq<char>, b: Seq<char>, c: Seq<char>)
    requires
        name_before(a, b),
        name_before(b, c),
    ensures
        name_before(a, c),
{
    lemma_bytes_before_transitive(encode_utf8(a), encode_utf8(b), encode_utf8(c), 0);
}

/// `name_before` is asymmetric.
pub proof fn lemma_name_before_asymmetric(a: Seq<char>, b: Seq<char>)
    requires
        name_before(a, b),
    ensures
        !name_before(b, a),
{
    lemma_bytes_before_asymmetric(encode_utf8(a), encode_utf8(b), 0);
}

/// Compares two byte strings lexicographically.
pub fn compare_bytes(x: &[u8], y: &[u8]) -> (r: NameOrder)
    ensures
        r == NameOrder::Less <==> bytes_before(x@, y@),
        r == NameOrder::Greater <==> bytes_before(y@, x@),
        r == NameOrder::Equal <==> x@ == y@,
{
    let mut i: usize = 0;
    while i < x.len() && i < y.len()
        invariant
            0 <= i <= x.len(),
            i <= y.len(),
            forall|j: int| 0 <= j < i ==> x@[j] == y@[j],
            bytes_before(x@, y@) == bytes_before_from(x@, y@, i as int),
            bytes_before(y@, x@) == bytes_before_from(y@, x@, i as int),
        decreases x.len() - i,
    {
        if x[i] < y[i] {
            proof {
                lemma_bytes_before_asymmetric(x@, y@, i as int);
            }
            return NameOrder::Less;
        }
        if x[i] > y[i] {
            proof {
                lemma_bytes_before_asymmetric(y@, x@, i as int);
            }
            return NameOrder::Greater;
        }
        i = i + 1;
    }
    proof {
        lemma_bytes_before_irreflexive(x@, 0);
    }
    if x.len() < y.len() {
        assert(x@ != y@);
        NameOrder::Less
    } else if y.len() < x.len() {
        assert(x@ != y@);
        NameOrder::Greater
    } else {
        assert(x@ =~= y@);
        NameOrder::Equal
    }
}

/// Compares two names in the order directory listings use.
pub fn compare_names(a: &str, b: &str) -> (r: NameOrder)
    ensures
        r == NameOrder::Less <==> name_before(a@, b@),
        r == NameOrder::Greater <==> name_before(b@, a@),
        r == NameOrder::Equal <==> a@ == b@,
{
    let r = compare_bytes(a.as_bytes(), b.as_bytes());
    proof {
        if a@ == b@ {
            lemma_name_before_irreflexive(a@);
        }
        if r == NameOrder::Equal {
            vstd::utf8::encode_utf8_decode_utf8(a@);
            vstd::utf8::encode_utf8_decode_utf8(b@);
        }
    }
    r
}

} // verus!
