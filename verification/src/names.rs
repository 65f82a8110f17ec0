//! The order in which names are listed: that of a dictionary, by the bytes
//! of their UTF-8 form, which is the order of `String`.

use vstd::prelude::*;
use vstd::string::StringSliceAdditionalSpecFns;
use vstd::utf8::decode_utf8;
use vstd::utf8::encode_utf8;
use vstd::utf8::encode_utf8_decode_utf8;

verus! {

/// Whether, from their byte `from` on, the bytes `a` come before the bytes
/// `b`: whether `a` ends first, or has the smaller byte where the two differ
/// first.
pub open spec fn bytes_before_from(a: Seq<u8>, b: Seq<u8>, from: int) -> bool
    decreases a.len() - from,
{
    if from < 0 || from >= b.len() {
        false
    } else if from >= a.len() {
        true
    } else if a[from] != b[from] {
        a[from] < b[from]
    } else {
        bytes_before_from(a, b, from + 1)
    }
}

/// Whether the name `a` comes before the name `b`.
pub open spec fn name_before(a: Seq<char>, b: Seq<char>) -> bool {
    bytes_before_from(encode_utf8(a), encode_utf8(b), 0)
}

/// Of two texts neither comes before the other from the same byte on, or one
/// alone does.
proof fn lemma_one_way(a: Seq<u8>, b: Seq<u8>, from: int)
    requires
        bytes_before_from(a, b, from),
    ensures
        !bytes_before_from(b, a, from),
    decreases a.len() - from,
{
    if from < a.len() && a[from] == b[from] {
        lemma_one_way(a, b, from + 1);
    }
}

/// What comes before a text comes before all that the text comes before.
proof fn lemma_passes_on(a: Seq<u8>, b: Seq<u8>, c: Seq<u8>, from: int)
    requires
        bytes_before_from(a, b, from),
        bytes_before_from(b, c, from),
    ensures
        bytes_before_from(a, c, from),
    decreases a.len() - from,
{
    if from < a.len() && a[from] == b[from] && b[from] == c[from] {
        lemma_passes_on(a, b, c, from + 1);
    }
}

/// Of two texts that are alike up to a byte, one comes before the other from
/// that byte on unless they are alike throughout.
proof fn lemma_one_comes_first(a: Seq<u8>, b: Seq<u8>, from: int)
    requires
        0 <= from <= a.len(),
        from <= b.len(),
        forall|j: int| 0 <= j < from ==> a[j] == b[j],
    ensures
        bytes_before_from(a, b, from) || bytes_before_from(b, a, from) || a == b,
    decreases a.len() - from,
{
    if from < a.len() && from < b.len() {
        if a[from] == b[from] {
            lemma_one_comes_first(a, b, from + 1);
        }
    } else if from == a.len() && from == b.len() {
        assert(a =~= b);
    }
}

/// No name comes before itself, of two names one at most comes before the
/// other, of two different names one does, and what comes before a name
/// comes before all that the name comes before: the names are in a line.
pub proof fn lemma_names_are_ordered(a: Seq<char>, b: Seq<char>, c: Seq<char>)
    ensures
        !name_before(a, a),
        name_before(a, b) ==> !name_before(b, a),
        a != b ==> name_before(a, b) || name_before(b, a),
        name_before(a, b) && name_before(b, c) ==> name_before(a, c),
{
    if name_before(a, a) {
        lemma_one_way(encode_utf8(a), encode_utf8(a), 0);
    }
    if a != b {
        lemma_one_comes_first(encode_utf8(a), encode_utf8(b), 0);
        encode_utf8_decode_utf8(a);
        encode_utf8_decode_utf8(b);
        assert(encode_utf8(a) == encode_utf8(b) ==> decode_utf8(encode_utf8(a)) == decode_utf8(
            encode_utf8(b),
        ));
    }
    if name_before(a, b) {
        lemma_one_way(encode_utf8(a), encode_utf8(b), 0);
        if name_before(b, c) {
            lemma_passes_on(encode_utf8(a), encode_utf8(b), encode_utf8(c), 0);
        }
    }
}

/// Whether the name `a` comes before the name `b`.
pub fn comes_before(a: &str, b: &str) -> (before: bool)
    ensures
        before == name_before(a@, b@),
{
    let left = a.as_bytes();
    let right = b.as_bytes();
    let mut i: usize = 0;
    while i < left.len() && i < right.len()
        invariant
            left@ == encode_utf8(a@),
            right@ == encode_utf8(b@),
            i <= left@.len(),
            i <= right@.len(),
            name_before(a@, b@) == bytes_before_from(left@, right@, i as int),
        decreases left@.len() - i,
    {
        if left[i] != right[i] {
            return left[i] < right[i];
        }
        i = i + 1;
    }
    i < right.len()
}

} // verus!
