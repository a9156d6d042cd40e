//! Byte-level access to UTF-8 text: where a string may be cut, and the cuts
//! themselves.

use vstd::prelude::*;
use vstd::string::*;
use vstd::utf8::*;

verus! {

/// The UTF-8 bytes of a character sequence.
pub open spec fn utf8(chars: Seq<char>) -> Seq<u8> {
    encode_utf8(chars)
}

/// Position `i` of `s` is the start of a character or the end of `s`.
pub open spec fn at_boundary(s: Seq<u8>, i: int) -> bool {
    0 <= i <= s.len() && (i < s.len() ==> !is_continuation_byte(s[i]))
}

/// In valid UTF-8 an ASCII byte is a whole character: a character starts at
/// it, and the next one right behind it.
pub proof fn lemma_boundary_around_ascii(s: Seq<u8>, k: int)
    requires
        valid_utf8(s),
        0 <= k < s.len(),
        s[k] < 0x80,
    ensures
        at_boundary(s, k),
        at_boundary(s, k + 1),
{
    is_char_boundary_iff_not_is_continuation_byte(s, k);
    valid_utf8_split(s, k);
    let t = s.subrange(k, s.len() as int);
    assert(t[0] == s[k]);
    assert(valid_utf8(t));
    assert(valid_first_scalar(t) && valid_utf8(pop_first_scalar(t)));
    let u = pop_first_scalar(t);
    assert(u == t.subrange(1, t.len() as int));
    if k + 1 < s.len() {
        assert(u.len() > 0);
        assert(u[0] == s[k + 1]);
        assert(valid_first_scalar(u));
    }
}

/// Valid UTF-8 starts where a character starts.
pub proof fn lemma_boundary_at_start(s: Seq<u8>)
    requires
        valid_utf8(s),
    ensures
        at_boundary(s, 0),
{
    if s.len() > 0 {
        is_char_boundary_iff_not_is_continuation_byte(s, 0);
    }
}

/// The bytes of a string are valid UTF-8, and a character starts at the first.
pub proof fn lemma_str_bytes(s: &str)
    ensures
        valid_utf8(s.spec_bytes()),
        at_boundary(s.spec_bytes(), 0),
{
    encode_utf8_valid_utf8(s@);
    lemma_boundary_at_start(s.spec_bytes());
}

/// A boundary in the sense of [`at_boundary`] is a character boundary of
/// valid UTF-8.
pub proof fn lemma_boundary_is_char_boundary(s: Seq<u8>, i: int)
    requires
        valid_utf8(s),
        at_boundary(s, i),
    ensures
        is_char_boundary(s, i),
{
    if i < s.len() {
        is_char_boundary_iff_not_is_continuation_byte(s, i);
    } else {
        is_char_boundary_start_end_of_seq(s);
    }
}

/// Encoding distributes over concatenation.
pub proof fn lemma_utf8_concat(a: Seq<char>, b: Seq<char>)
    ensures
        utf8(a + b) == utf8(a) + utf8(b),
    decreases a.len(),
{
    if a.len() == 0 {
        assert(a + b =~= b);
        assert(utf8(a) + utf8(b) =~= utf8(b));
    } else {
        lemma_utf8_concat(a.drop_first(), b);
        assert((a + b).drop_first() =~= a.drop_first() + b);
        assert(utf8(a + b) =~= utf8(a) + utf8(b));
    }
}

/// Two character sequences with the same encoding are the same.
pub proof fn lemma_utf8_injective(a: Seq<char>, b: Seq<char>)
    requires
        utf8(a) == utf8(b),
    ensures
        a == b,
{
    encode_utf8_decode_utf8(a);
    encode_utf8_decode_utf8(b);
}

/// Whether two strings hold the same text.
pub fn same_text(a: &str, b: &str) -> (same: bool)
    ensures
        same == (a.spec_bytes() == b.spec_bytes()),
{
    let x = a.as_bytes();
    let y = b.as_bytes();
    if x.len() != y.len() {
        return false;
    }
    let mut i: usize = 0;
    while i < x.len()
        invariant
            i <= x@.len(),
            x@.len() == y@.len(),
            x@ == a.spec_bytes(),
            y@ == b.spec_bytes(),
            forall|k: int| 0 <= k < i ==> x@[k] == y@[k],
        decreases x@.len() - i,
    {
        if x[i] != y[i] {
            assert(x@[i as int] != y@[i as int]);
            return false;
        }
        i = i + 1;
    }
    assert(x@ =~= y@);
    true
}

/// The part of `s` from byte `i` on.
pub fn tail<'a>(s: &'a str, i: usize) -> (r: &'a str)
    requires
        at_boundary(s.spec_bytes(), i as int),
    ensures
        r.spec_bytes() == s.spec_bytes().subrange(i as int, s.spec_bytes().len() as int),
{
    proof {
        encode_utf8_valid_utf8(s@);
        lemma_boundary_is_char_boundary(s.spec_bytes(), i as int);
    }
    let (_, rest) = s.split_at(i);
    rest
}

/// The part of `s` from byte `i` up to byte `j`.
pub fn slice<'a>(s: &'a str, i: usize, j: usize) -> (r: &'a str)
    requires
        i <= j,
        at_boundary(s.spec_bytes(), i as int),
        at_boundary(s.spec_bytes(), j as int),
    ensures
        r.spec_bytes() == s.spec_bytes().subrange(i as int, j as int),
{
    proof {
        encode_utf8_valid_utf8(s@);
        lemma_boundary_is_char_boundary(s.spec_bytes(), j as int);
    }
    let (head, _) = s.split_at(j);
    proof {
        encode_utf8_valid_utf8(head@);
        assert(at_boundary(head.spec_bytes(), i as int));
        lemma_boundary_is_char_boundary(head.spec_bytes(), i as int);
    }
    let (_, part) = head.split_at(i);
    assert(part.spec_bytes() =~= s.spec_bytes().subrange(i as int, j as int));
    part
}

} // verus!
