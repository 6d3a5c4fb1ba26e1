//! Placeholder replacement for the formatting macros: `{}` takes the next
//! argument, `{n}` the count that selected a plural form.
use vstd::prelude::*;
use vstd::string::StringSliceAdditionalSpecFns;
use vstd::utf8::{encode_utf8, valid_utf8, valid_utf8_concat, encode_utf8_valid_utf8};
use crate::scanner::{OPEN, CLOSE};
use crate::engine::{arg_bytes, push_range, string_from_utf8};
use crate::utf8_facts::{lemma_ascii_byte_valid, lemma_skip_ascii, lemma_cut_before_ascii};

verus! {

/// The byte of `n`.
pub const LETTER_N: u8 = 0x6e;

/// The byte of `t` at `i`, if there is one.
pub open spec fn byte_at(t: Seq<u8>, i: int) -> Option<u8> {
    if 0 <= i < t.len() {
        Some(t[i])
    } else {
        None
    }
}

/// What the text `t` from offset `i` on becomes, when `args[k..]` are the
/// arguments still to be handed out and `n_arg` is the plural count.
///
/// `{{` and `}}` give a brace; `{}` gives the next argument, or stays `{}` when
/// none is left; `{n}` gives the count, or stays `{n}` without one. A `{` that
/// starts none of these is dropped, and so is `{n` not followed by `}`; a lone
/// `}` is dropped. Other bytes are copied.
pub open spec fn rt_render(
    t: Seq<u8>,
    i: int,
    args: Seq<Seq<u8>>,
    k: int,
    n_arg: Option<Seq<u8>>,
) -> Seq<u8>
    decreases t.len() - i,
{
    if i < 0 || i >= t.len() {
        seq![]
    } else if t[i] == OPEN {
        if byte_at(t, i + 1) == Some(OPEN) {
            seq![OPEN] + rt_render(t, i + 2, args, k, n_arg)
        } else if byte_at(t, i + 1) == Some(CLOSE) {
            if 0 <= k < args.len() {
                args[k] + rt_render(t, i + 2, args, k + 1, n_arg)
            } else {
                seq![OPEN, CLOSE] + rt_render(t, i + 2, args, k, n_arg)
            }
        } else if byte_at(t, i + 1) == Some(LETTER_N) {
            if byte_at(t, i + 2) == Some(CLOSE) {
                (match n_arg {
                    Some(v) => v,
                    None => seq![OPEN, LETTER_N, CLOSE],
                }) + rt_render(t, i + 3, args, k, n_arg)
            } else {
                rt_render(t, i + 2, args, k, n_arg)
            }
        } else {
            rt_render(t, i + 1, args, k, n_arg)
        }
    } else if t[i] == CLOSE {
        if byte_at(t, i + 1) == Some(CLOSE) {
            seq![CLOSE] + rt_render(t, i + 2, args, k, n_arg)
        } else {
            rt_render(t, i + 1, args, k, n_arg)
        }
    } else {
        seq![t[i]] + rt_render(t, i + 1, args, k, n_arg)
    }
}

/// The bytes of an optional value.
pub open spec fn opt_bytes(v: Option<String>) -> Option<Seq<u8>> {
    match v {
        Some(s) => Some(encode_utf8(s@)),
        None => None,
    }
}

fn push_ascii(out: &mut Vec<u8>, b: u8)
    requires
        b < 0x80,
        valid_utf8(old(out)@),
    ensures
        final(out)@ == old(out)@ + seq![b],
        valid_utf8(final(out)@),
{
    proof {
        lemma_ascii_byte_valid(b);
        valid_utf8_concat(out@, seq![b]);
    }
    out.push(b);
}

fn push_string(out: &mut Vec<u8>, s: &String)
    requires
        valid_utf8(old(out)@),
    ensures
        final(out)@ == old(out)@ + encode_utf8(s@),
        valid_utf8(final(out)@),
{
    let b = s.as_str().as_bytes();
    push_range(out, b, 0, b.len());
    proof {
        assert(b@.subrange(0, b@.len() as int) == b@);
        encode_utf8_valid_utf8(s@);
        valid_utf8_concat(old(out)@, b@);
    }
}

/// Replaces the placeholders of a translated message: each `{}` with the next
/// of `args`, each `{n}` with `n_arg`; `{{` and `}}` give single braces.
/// Placeholders without a value stay as they are; stray braces are dropped.
pub fn rt_format(msgstr: String, args: Vec<String>, n_arg: Option<String>) -> (r: String)
    ensures
        encode_utf8(r@) == rt_render(
            encode_utf8(msgstr@),
            0,
            arg_bytes(args@),
            0,
            opt_bytes(n_arg),
        ),
{
    let t = msgstr.as_str().as_bytes();
    let len = t.len();
    let ghost tb = t@;
    let ghost a = arg_bytes(args@);
    let ghost na = opt_bytes(n_arg);
    let ghost goal = rt_render(tb, 0, a, 0, na);
    let mut out: Vec<u8> = Vec::new();
    let mut seg: usize = 0;
    let mut i: usize = 0;
    let mut k: usize = 0;
    proof {
        encode_utf8_valid_utf8(msgstr@);
        assert(tb.subrange(0, tb.len() as int) == tb);
        assert(out@ + tb.subrange(0, 0) == Seq::<u8>::empty());
    }
    while i < len
        invariant
            t@ == tb,
            tb == encode_utf8(msgstr@),
            len == tb.len(),
            a == arg_bytes(args@),
            na == opt_bytes(n_arg),
            goal == rt_render(tb, 0, a, 0, na),
            seg <= i <= len,
            k <= args@.len(),
            out@ + tb.subrange(seg as int, i as int) + rt_render(tb, i as int, a, k as int, na)
                == goal,
            valid_utf8(out@),
            valid_utf8(tb.subrange(seg as int, tb.len() as int)),
        decreases len - i,
    {
        let b = t[i];
        if b != OPEN && b != CLOSE {
            assert(tb.subrange(seg as int, i + 1) == tb.subrange(seg as int, i as int) + seq![b]);
            i = i + 1;
        } else {
            let ghost before = out@;
            push_range(&mut out, t, seg, i);
            proof {
                lemma_cut_before_ascii(tb, seg as int, i as int);
                valid_utf8_concat(before, tb.subrange(seg as int, i as int));
            }
            let next: u8 = if i + 1 < len {
                t[i + 1]
            } else {
                0
            };
            let ghost mid = out@;
            let step: usize;
            if b == OPEN {
                if i + 1 < len && next == OPEN {
                    push_ascii(&mut out, OPEN);
                    step = 2;
                } else if i + 1 < len && next == CLOSE {
                    if k < args.len() {
                        push_string(&mut out, &args[k]);
                        k = k + 1;
                    } else {
                        push_ascii(&mut out, OPEN);
                        push_ascii(&mut out, CLOSE);
                        assert(out@ == mid + seq![OPEN, CLOSE]);
                    }
                    step = 2;
                } else if i + 1 < len && next == LETTER_N {
                    if i + 2 < len && t[i + 2] == CLOSE {
                        match &n_arg {
                            Some(v) => {
                                push_string(&mut out, v);
                            },
                            None => {
                                push_ascii(&mut out, OPEN);
                                push_ascii(&mut out, LETTER_N);
                                push_ascii(&mut out, CLOSE);
                                assert(out@ == mid + seq![OPEN, LETTER_N, CLOSE]);
                            },
                        }
                        step = 3;
                    } else {
                        step = 2;
                    }
                } else {
                    step = 1;
                }
            } else {
                if i + 1 < len && next == CLOSE {
                    push_ascii(&mut out, CLOSE);
                    step = 2;
                } else {
                    step = 1;
                }
            }
            proof {
                lemma_skip_ascii(tb, i as int, i + step);
                assert(tb.subrange(i + step, i + step) == Seq::<u8>::empty());
            }
            i = i + step;
            seg = i;
        }
    }
    let ghost before = out@;
    push_range(&mut out, t, seg, len);
    proof {
        valid_utf8_concat(before, tb.subrange(seg as int, tb.len() as int));
    }
    match string_from_utf8(out) {
        Some(s) => s,
        None => String::new(),
    }
}

} // verus!
