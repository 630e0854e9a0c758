//! The order in which recipients are listed: strings compared byte by byte
//! in their UTF-8 encoding, as `str` compares.

use vstd::prelude::*;
use vstd::utf8::*;

verus! {

/// `a` comes before `b` when compared from position `from` on: the first
/// position at which they differ holds the smaller byte in `a`, or `a` ends
/// first.
pub open spec fn bytes_lt_from(a: Seq<u8>, b: Seq<u8>, from: int) -> bool
    decreases a.len() - from,
{
    if from < 0 || from >= b.len() {
        false
    } else if from >= a.len() {
        true
    } else if a[from] != b[from] {
        a[from] < b[from]
    } else {
        bytes_lt_from(a, b, from + 1)
    }
}

/// Lexicographic order on byte strings.
pub open spec fn bytes_lt(a: Seq<u8>, b: Seq<u8>) -> bool {
    bytes_lt_from(a, b, 0)
}

/// The order on texts: lexicographic on their UTF-8 bytes.
pub open spec fn str_lt(a: Seq<char>, b: Seq<char>) -> bool {
    bytes_lt(encode_utf8(a), encode_utf8(b))
}

/// The views of a sequence of strings.
pub open spec fn texts(v: Seq<String>) -> Seq<Seq<char>> {
    Seq::new(v.len(), |i: int| v[i]@)
}

/// `a` and `b` agree on every position in `from..upto`.
pub open spec fn agree_between(a: Seq<u8>, b: Seq<u8>, from: int, upto: int) -> bool {
    forall|k: int| from <= k < upto ==> a[k] == b[k]
}

proof fn lemma_bytes_lt_skip_common(a: Seq<u8>, b: Seq<u8>, from: int, upto: int)
    requires
        0 <= from <= upto,
        upto <= a.len(),
        upto <= b.len(),
        agree_between(a, b, from, upto),
    ensures
        bytes_lt_from(a, b, from) == bytes_lt_from(a, b, upto),
    decreases upto - from,
{
    if from < upto {
        lemma_bytes_lt_skip_common(a, b, from + 1, upto);
    }
}

proof fn lemma_bytes_from_irreflexive(a: Seq<u8>, from: int)
    requires
        0 <= from,
    ensures
        !bytes_lt_from(a, a, from),
    decreases a.len() - from,
{
    if from < a.len() {
        lemma_bytes_from_irreflexive(a, from + 1);
    }
}

proof fn lemma_bytes_from_transitive(a: Seq<u8>, b: Seq<u8>, c: Seq<u8>, from: int)
    requires
        0 <= from,
        bytes_lt_from(a, b, from),
        bytes_lt_from(b, c, from),
    ensures
        bytes_lt_from(a, c, from),
    decreases a.len() - from,
{
    if from < a.len() && a[from] == b[from] && b[from] == c[from] {
        lemma_bytes_from_transitive(a, b, c, from + 1);
    }
}

proof fn lemma_bytes_from_connected(a: Seq<u8>, b: Seq<u8>, from: int)
    requires
        0 <= from <= a.len(),
        from <= b.len(),
        agree_between(a, b, 0, from),
        !bytes_lt_from(a, b, from),
        !bytes_lt_from(b, a, from),
    ensures
        a == b,
    decreases a.len() - from,
{
    if from < a.len() && from < b.len() {
        assert(a[from] == b[from]);
        lemma_bytes_from_connected(a, b, from + 1);
    } else {
        assert(a.len() == b.len());
        assert(a =~= b);
    }
}

/// No byte string comes before itself.
pub proof fn lemma_bytes_lt_irreflexive(a: Seq<u8>)
    ensures
        !bytes_lt(a, a),
{
    lemma_bytes_from_irreflexive(a, 0);
}

/// The order on byte strings is transitive.
pub proof fn lemma_bytes_lt_transitive(a: Seq<u8>, b: Seq<u8>, c: Seq<u8>)
    requires
        bytes_lt(a, b),
        bytes_lt(b, c),
    ensures
        bytes_lt(a, c),
{
    lemma_bytes_from_transitive(a, b, c, 0);
}

/// Two byte strings of which neither comes before the other are equal.
pub proof fn lemma_bytes_lt_connected(a: Seq<u8>, b: Seq<u8>)
    requires
        !bytes_lt(a, b),
        !bytes_lt(b, a),
    ensures
        a == b,
{
    lemma_bytes_from_connected(a, b, 0);
}

/// Different texts have different UTF-8 encodings.
pub proof fn lemma_encoding_injective(a: Seq<char>, b: Seq<char>)
    requires
        encode_utf8(a) == encode_utf8(b),
    ensures
        a == b,
{
    encode_utf8_decode_utf8(a);
    encode_utf8_decode_utf8(b);
}

/// The order on texts is a strict total order: of `a == b`, `a` before `b`
/// and `b` before `a`, exactly one holds.
pub proof fn lemma_str_lt_trichotomy(a: Seq<char>, b: Seq<char>)
    ensures
        a == b || str_lt(a, b) || str_lt(b, a),
        !(a == b && str_lt(a, b)),
        !(a == b && str_lt(b, a)),
        !(str_lt(a, b) && str_lt(b, a)),
{
    let x = encode_utf8(a);
    let y = encode_utf8(b);
    lemma_bytes_lt_irreflexive(x);
    if bytes_lt(x, y) && bytes_lt(y, x) {
        lemma_bytes_lt_transitive(x, y, x);
    }
    if !bytes_lt(x, y) && !bytes_lt(y, x) {
        lemma_bytes_lt_connected(x, y);
        lemma_encoding_injective(a, b);
    }
}

/// The order on texts is transitive.
pub proof fn lemma_str_lt_transitive(a: Seq<char>, b: Seq<char>, c: Seq<char>)
    requires
        str_lt(a, b),
        str_lt(b, c),
    ensures
        str_lt(a, c),
{
    lemma_bytes_lt_transitive(encode_utf8(a), encode_utf8(b), encode_utf8(c));
}

/// Where one text stands with respect to another.
#[derive(Debug, Clone, Copy, PartialEq, Eq, Structural)]
pub enum Placement {
    Before,
    Same,
    After,
}

pub open spec fn placement_spec(a: Seq<char>, b: Seq<char>) -> Placement {
    if a == b {
        Placement::Same
    } else if str_lt(a, b) {
        Placement::Before
    } else {
        Placement::After
    }
}

/// Compares two strings byte by byte.
pub fn placement(a: &str, b: &str) -> (p: Placement)
    ensures
        p == placement_spec(a@, b@),
        p == Placement::After <==> str_lt(b@, a@),
{
    let x = a.as_bytes();
    let y = b.as_bytes();
    let mut i: usize = 0;
    while i < x.len() && i < y.len()
        invariant
            x@ == encode_utf8(a@),
            y@ == encode_utf8(b@),
            i <= x@.len(),
            i <= y@.len(),
            agree_between(x@, y@, 0, i as int),
        decreases x@.len() - i,
    {
        if x[i] != y[i] {
            proof {
                lemma_bytes_lt_skip_common(x@, y@, 0, i as int);
                lemma_bytes_lt_skip_common(y@, x@, 0, i as int);
                lemma_str_lt_trichotomy(a@, b@);
            }
            if x[i] < y[i] {
                return Placement::Before;
            } else {
                return Placement::After;
            }
        }
        i += 1;
    }
    proof {
        lemma_bytes_lt_skip_common(x@, y@, 0, i as int);
        lemma_bytes_lt_skip_common(y@, x@, 0, i as int);
        lemma_str_lt_trichotomy(a@, b@);
    }
    if x.len() < y.len() {
        Placement::Before
    } else if y.len() < x.len() {
        Placement::After
    } else {
        proof {
            lemma_bytes_from_connected(x@, y@, i as int);
            lemma_encoding_injective(a@, b@);
        }
        Placement::Same
    }
}

/// Whether two strings hold the same text.
pub fn same_text(a: &str, b: &str) -> (same: bool)
    ensures
        same == (a@ == b@),
{
    match placement(a, b) {
        Placement::Same => true,
        _ => false,
    }
}

/// A copy of a list of strings.
pub fn copy_strings(list: &Vec<String>) -> (copy: Vec<String>)
    ensures
        copy@ == list@,
{
    let copy = list.clone();
    assert(copy@ =~= list@);
    copy
}

} // verus!
