//! The substitution engine: replaces the placeholders of a template with
//! argument values, or reports that template and arguments disagree.
use vstd::prelude::*;
use vstd::string::StringSliceAdditionalSpecFns;
use vstd::utf8::{encode_utf8, valid_utf8, valid_utf8_concat, encode_utf8_valid_utf8};
use crate::scanner::{
    Argument, Brace, Formatter, Pattern, tokens, spans_ordered, lemma_tokens_spans, OPEN, CLOSE,
};
use crate::resolver::{PosArguments, all_marked};
use crate::utf8_facts::{lemma_ascii_byte_valid, lemma_skip_ascii, lemma_cut_before_ascii};

verus! {

/// The UTF-8 bytes of each argument.
pub open spec fn arg_bytes(args: Seq<String>) -> Seq<Seq<u8>> {
    args.map_values(|s: String| encode_utf8(s@))
}

/// The byte that an escaped brace stands for.
pub open spec fn brace_byte(b: Brace) -> u8 {
    match b {
        Brace::Opening => OPEN,
        Brace::Closing => CLOSE,
    }
}

/// Substitutes the tokens `toks` of the template `t`, given the output `out`
/// built so far, the offset `cursor` up to which `t` has been copied, the
/// sequential position `next` and the marks `used`. The result is the output,
/// cursor and marks after the last token, or `None` on the first token that
/// cannot be resolved.
pub open spec fn substitute(
    t: Seq<u8>,
    args: Seq<Seq<u8>>,
    toks: Seq<Pattern>,
    out: Seq<u8>,
    cursor: int,
    next: int,
    used: Seq<bool>,
) -> Option<(Seq<u8>, int, Seq<bool>)>
    decreases toks.len(),
{
    if toks.len() == 0 {
        Some((out, cursor, used))
    } else {
        let rest = toks.drop_first();
        match toks[0] {
            Pattern::Argument { arg: Argument::Ordered(None), start, end } => {
                if 0 <= next < args.len() {
                    substitute(
                        t,
                        args,
                        rest,
                        out + t.subrange(cursor, start as int) + args[next],
                        end as int,
                        next + 1,
                        used.update(next, true),
                    )
                } else {
                    None
                }
            },
            Pattern::Argument { arg: Argument::Ordered(Some(n)), start, end } => {
                if n < args.len() {
                    substitute(
                        t,
                        args,
                        rest,
                        out + t.subrange(cursor, start as int) + args[n as int],
                        end as int,
                        next,
                        used.update(n as int, true),
                    )
                } else {
                    None
                }
            },
            Pattern::Escaped { brace, start, end } => substitute(
                t,
                args,
                rest,
                out + t.subrange(cursor, start as int) + seq![brace_byte(brace)],
                end as int,
                next,
                used,
            ),
            Pattern::Unescaped(_) => None,
        }
    }
}

/// No argument is marked yet.
pub open spec fn unmarked(n: nat) -> Seq<bool> {
    Seq::new(n, |i: int| false)
}

/// The bytes that formatting the template `t` gives, with the arguments
/// `args` of which the sequential position `next` and the marks `used` say
/// where a resolver stands: every token substituted and the text between
/// copied as it is, provided every token resolves and in the end every
/// argument is marked.
pub open spec fn format_from(t: Seq<u8>, args: Seq<Seq<u8>>, next: int, used: Seq<bool>) -> Option<
    Seq<u8>,
> {
    match substitute(t, args, tokens(t), seq![], 0, next, used) {
        Some(r) => if all_marked(r.2) {
            Some(r.0 + t.subrange(r.1, t.len() as int))
        } else {
            None
        },
        None => None,
    }
}

/// The bytes that formatting the template `t` with `args` gives, starting
/// from a resolver that has handed out nothing.
pub open spec fn format_bytes(t: Seq<u8>, args: Seq<Seq<u8>>) -> Option<Seq<u8>> {
    format_from(t, args, 0, unmarked(args.len()))
}

/// Relies on `String::from_utf8`: it accepts exactly the byte vectors that are
/// valid UTF-8, and the string it returns holds those bytes.
#[verifier::external_body]
pub(crate) fn string_from_utf8(v: Vec<u8>) -> (r: Option<String>)
    ensures
        match r {
            Some(s) => encode_utf8(s@) == v@,
            None => !valid_utf8(v@),
        },
{
    String::from_utf8(v).ok()
}

/// Appends `src[from..to]` to `out`.
pub(crate) fn push_range(out: &mut Vec<u8>, src: &[u8], from: usize, to: usize)
    requires
        from <= to <= src@.len(),
    ensures
        final(out)@ == old(out)@ + src@.subrange(from as int, to as int),
{
    let mut i: usize = from;
    while i < to
        invariant
            from <= i <= to <= src@.len(),
            out@ == old(out)@ + src@.subrange(from as int, i as int),
        decreases to - i,
    {
        out.push(src[i]);
        assert(src@.subrange(from as int, i + 1) == src@.subrange(from as int, i as int) + seq![
            src@[i as int],
        ]);
        i = i + 1;
    }
}

/// Replaces each placeholder of `haystack` with an argument: `{}` takes the next
/// argument in sequence, `{n}` the argument at position `n`; `{{` and `}}` stand
/// for `{` and `}`. Gives `None` when a brace is unmatched, a placeholder has no
/// argument, or an argument is never used.
pub fn format(haystack: &str, args: &[String]) -> (r: Option<String>)
    ensures
        match r {
            Some(s) => format_bytes(haystack.spec_bytes(), arg_bytes(args@)) == Some(
                encode_utf8(s@),
            ),
            None => format_bytes(haystack.spec_bytes(), arg_bytes(args@)) is None,
        },
{
    try_format(haystack, PosArguments::new(args))
}

/// Formats `haystack` with the arguments of `resolver`, continuing from where
/// `resolver` stands.
pub fn try_format(haystack: &str, resolver: PosArguments) -> (r: Option<String>)
    requires
        resolver.wf(),
    ensures
        match r {
            Some(s) => format_from(
                haystack.spec_bytes(),
                arg_bytes(resolver.args()),
                resolver.cursor(),
                resolver.used(),
            ) == Some(encode_utf8(s@)),
            None => format_from(
                haystack.spec_bytes(),
                arg_bytes(resolver.args()),
                resolver.cursor(),
                resolver.used(),
            ) is None,
        },
{
    let ghost args = resolver.args();
    let ghost old_cursor = resolver.cursor();
    let ghost old_used = resolver.used();
    let mut pos = resolver;
    let t = haystack.as_bytes();
    let ghost tb = t@;
    let ghost a = arg_bytes(args);
    let len = t.len();
    let mut fmt = Formatter::new(haystack);
    let mut out: Vec<u8> = Vec::new();
    let mut cursor: usize = 0;
    proof {
        pos.lemma_wf();
        lemma_tokens_spans(tb);
        encode_utf8_valid_utf8(haystack@);
        assert(tb.subrange(0, tb.len() as int) == tb);
        assert(valid_utf8(out@));
    }
    let ghost goal = substitute(tb, a, tokens(tb), seq![], 0, pos.cursor(), pos.used());
    loop
        invariant
            fmt.wf(),
            fmt.text() == tb,
            tb == haystack.spec_bytes(),
            t@ == tb,
            goal == substitute(tb, a, tokens(tb), seq![], 0, old_cursor, old_used),
            args == resolver.args(),
            old_cursor == resolver.cursor(),
            old_used == resolver.used(),
            len == tb.len(),
            pos.wf(),
            pos.args() == args,
            a == arg_bytes(args),
            a.len() == args.len(),
            pos.used().len() == args.len(),
            0 <= pos.cursor() <= args.len(),
            spans_ordered(tb, fmt.remaining(), cursor as int),
            substitute(tb, a, fmt.remaining(), out@, cursor as int, pos.cursor(), pos.used())
                == goal,
            valid_utf8(out@),
            valid_utf8(tb.subrange(cursor as int, tb.len() as int)),
        ensures
            fmt.remaining().len() == 0,
            pos.wf(),
            pos.used().len() == args.len(),
            cursor <= len,
            substitute(tb, a, fmt.remaining(), out@, cursor as int, pos.cursor(), pos.used())
                == goal,
            valid_utf8(out@),
            valid_utf8(tb.subrange(cursor as int, tb.len() as int)),
        decreases fmt.remaining().len(),
    {
        let ghost toks = fmt.remaining();
        let tok = match fmt.next() {
            None => break,
            Some(tok) => tok,
        };
        let (start, end) = match tok {
            Pattern::Argument { start, end, .. } => (start, end),
            Pattern::Escaped { start, end, .. } => (start, end),
            Pattern::Unescaped(_) => {
                assert(toks[0] == tok);
                assert(goal is None);
                return None;
            },
        };
        assert(toks[0] == tok);
        assert(cursor <= start < end <= len);
        proof {
            lemma_cut_before_ascii(tb, cursor as int, start as int);
            lemma_skip_ascii(tb, start as int, end as int);
        }
        let ghost before = out@;
        match tok {
            Pattern::Argument { arg: Argument::Ordered(None), .. } => {
                match pos.next() {
                    Some(v) => {
                        push_range(&mut out, t, cursor, start);
                        let vb = v.as_str().as_bytes();
                        push_range(&mut out, vb, 0, vb.len());
                        proof {
                            assert(vb@.subrange(0, vb@.len() as int) == vb@);
                            encode_utf8_valid_utf8(v@);
                            valid_utf8_concat(before, tb.subrange(cursor as int, start as int));
                            valid_utf8_concat(before + tb.subrange(cursor as int, start as int), vb@);
                            assert(vb@ == encode_utf8(v@));
                            assert(out@ == before + tb.subrange(cursor as int, start as int) + vb@);
                            assert(valid_utf8(out@));
                        }
                    },
                    None => {
                        assert(goal is None);
                        return None;
                    },
                }
            },
            Pattern::Argument { arg: Argument::Ordered(Some(n)), .. } => {
                match pos.get(n) {
                    Some(v) => {
                        push_range(&mut out, t, cursor, start);
                        let vb = v.as_str().as_bytes();
                        push_range(&mut out, vb, 0, vb.len());
                        proof {
                            assert(vb@.subrange(0, vb@.len() as int) == vb@);
                            encode_utf8_valid_utf8(v@);
                            valid_utf8_concat(before, tb.subrange(cursor as int, start as int));
                            valid_utf8_concat(before + tb.subrange(cursor as int, start as int), vb@);
                            assert(vb@ == encode_utf8(v@));
                            assert(out@ == before + tb.subrange(cursor as int, start as int) + vb@);
                            assert(valid_utf8(out@));
                        }
                    },
                    None => {
                        assert(goal is None);
                        return None;
                    },
                }
            },
            Pattern::Escaped { brace, .. } => {
                push_range(&mut out, t, cursor, start);
                let b = match brace {
                    Brace::Opening => OPEN,
                    Brace::Closing => CLOSE,
                };
                out.push(b);
                proof {
                    lemma_ascii_byte_valid(b);
                    valid_utf8_concat(before, tb.subrange(cursor as int, start as int));
                    valid_utf8_concat(before + tb.subrange(cursor as int, start as int), seq![b]);
                    assert(out@ == before + tb.subrange(cursor as int, start as int) + seq![b]);
                    assert(valid_utf8(out@));
                }
            },
            Pattern::Unescaped(_) => {
                return None;
            },
        }
        cursor = end;
    }
    assert(substitute(tb, a, fmt.remaining(), out@, cursor as int, pos.cursor(), pos.used())
        == Some((out@, cursor as int, pos.used())));
    if !pos.is_empty() {
        return None;
    }
    let ghost before = out@;
    push_range(&mut out, t, cursor, len);
    proof {
        valid_utf8_concat(before, tb.subrange(cursor as int, tb.len() as int));
    }
    string_from_utf8(out)
}

/// Formats a translated template, and when it does not fit the arguments
/// formats the original template instead.
pub fn format_with_fallback(translated: &str, original: &str, args: &[String]) -> (r: Option<
    String,
>)
    ensures
        format_bytes(translated.spec_bytes(), arg_bytes(args@)) is Some ==> r is Some
            && format_bytes(translated.spec_bytes(), arg_bytes(args@)) == Some(
            encode_utf8(r->Some_0@),
        ),
        format_bytes(translated.spec_bytes(), arg_bytes(args@)) is None ==> match r {
            Some(s) => format_bytes(original.spec_bytes(), arg_bytes(args@)) == Some(
                encode_utf8(s@),
            ),
            None => format_bytes(original.spec_bytes(), arg_bytes(args@)) is None,
        },
{
    match format(translated, args) {
        Some(s) => Some(s),
        None => format(original, args),
    }
}

} // verus!
