//! Facts about cutting valid UTF-8 text next to ASCII bytes.
use vstd::prelude::*;
use vstd::utf8::{
    valid_utf8, pop_first_scalar, is_char_boundary_iff_not_is_continuation_byte,
    valid_utf8_split,
};

verus! {

/// A single ASCII byte is valid UTF-8.
pub proof fn lemma_ascii_byte_valid(b: u8)
    requires
        b < 0x80,
    ensures
        valid_utf8(seq![b]),
{
    let s = seq![b];
    assert(pop_first_scalar(s) =~= Seq::<u8>::empty());
    assert(valid_utf8(pop_first_scalar(s)));
    assert(((b & 0x7f) as u32) < 0xD800) by (bit_vector);
}

/// Stepping over ASCII bytes at the start of valid UTF-8 text leaves valid text.
pub proof fn lemma_skip_ascii(t: Seq<u8>, s: int, e: int)
    requires
        0 <= s <= e <= t.len(),
        valid_utf8(t.subrange(s, t.len() as int)),
        forall|i: int| s <= i < e ==> #[trigger] t[i] < 0x80,
    ensures
        valid_utf8(t.subrange(e, t.len() as int)),
    decreases e - s,
{
    if s < e {
        let u = t.subrange(s, t.len() as int);
        assert(u[0] == t[s]);
        assert(pop_first_scalar(u) =~= t.subrange(s + 1, t.len() as int));
        lemma_skip_ascii(t, s + 1, e);
    }
}

/// Valid UTF-8 text cut just before an ASCII byte (or at its end) gives two
/// valid pieces.
pub proof fn lemma_cut_before_ascii(t: Seq<u8>, c: int, s: int)
    requires
        0 <= c <= s <= t.len(),
        valid_utf8(t.subrange(c, t.len() as int)),
        s < t.len() ==> t[s] < 0x80,
    ensures
        valid_utf8(t.subrange(c, s)),
        valid_utf8(t.subrange(s, t.len() as int)),
{
    let u = t.subrange(c, t.len() as int);
    if s < t.len() {
        assert(u[s - c] == t[s]);
        is_char_boundary_iff_not_is_continuation_byte(u, s - c);
        valid_utf8_split(u, s - c);
        assert(u.subrange(0, s - c) =~= t.subrange(c, s));
        assert(u.subrange(s - c, u.len() as int) =~= t.subrange(s, t.len() as int));
    } else {
        assert(u =~= t.subrange(c, s));
        assert(t.subrange(s, t.len() as int).len() == 0);
    }
}

} // verus!
