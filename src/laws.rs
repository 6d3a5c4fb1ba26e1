//! Laws that relate the scanner, the engine and the validator.
use vstd::prelude::*;
use crate::scanner::{
    Pattern, OPEN, CLOSE, brace_matches_from, brace_matches, scan_from, tokens,
};
use crate::engine::{format_bytes, substitute, unmarked};
use crate::validator::{tally, validation};

verus! {

proof fn lemma_no_braces_no_matches(t: Seq<u8>, i: int)
    requires
        0 <= i,
        forall|j: int| 0 <= j < t.len() ==> #[trigger] t[j] != OPEN && t[j] != CLOSE,
    ensures
        brace_matches_from(t, i).len() == 0,
    decreases t.len() - i,
{
    if i < t.len() {
        lemma_no_braces_no_matches(t, i + 1);
    }
}

/// A template without tokens formats, with no arguments, to itself.
pub proof fn law_tokenless_text_unchanged(t: Seq<u8>)
    requires
        tokens(t).len() == 0,
    ensures
        format_bytes(t, seq![]) == Some(t),
{
    assert(unmarked(0).len() == 0);
    assert(seq![] + t.subrange(0, t.len() as int) == t);
}

/// A template with no brace at all needs no formatting: the validator accepts
/// it for zero arguments and says so, and formatting it with no arguments gives
/// it back unchanged.
pub proof fn law_plain_text(t: Seq<u8>)
    requires
        forall|j: int| 0 <= j < t.len() ==> #[trigger] t[j] != OPEN && t[j] != CLOSE,
    ensures
        validation(t, 0) == Ok::<bool, crate::validator::UiError>(false),
        format_bytes(t, seq![]) == Some(t),
{
    lemma_no_braces_no_matches(t, 0);
    assert(tokens(t) == scan_from(t, brace_matches(t), 0, None));
    assert(tokens(t).len() == 0);
    law_tokenless_text_unchanged(t);
}

proof fn lemma_unmatched_stops_substitution(
    t: Seq<u8>,
    args: Seq<Seq<u8>>,
    toks: Seq<Pattern>,
    out: Seq<u8>,
    cursor: int,
    next: int,
    used: Seq<bool>,
    j: int,
)
    requires
        0 <= j < toks.len(),
        toks[j] is Unescaped,
    ensures
        substitute(t, args, toks, out, cursor, next, used) is None,
    decreases toks.len(),
{
    if j > 0 {
        let rest = toks.drop_first();
        assert(rest[j - 1] == toks[j]);
        match toks[0] {
            Pattern::Argument { arg: crate::scanner::Argument::Ordered(None), start, end } => {
                if 0 <= next < args.len() {
                    lemma_unmatched_stops_substitution(
                        t,
                        args,
                        rest,
                        out + t.subrange(cursor, start as int) + args[next],
                        end as int,
                        next + 1,
                        used.update(next, true),
                        j - 1,
                    );
                }
            },
            Pattern::Argument { arg: crate::scanner::Argument::Ordered(Some(n)), start, end } => {
                if n < args.len() {
                    lemma_unmatched_stops_substitution(
                        t,
                        args,
                        rest,
                        out + t.subrange(cursor, start as int) + args[n as int],
                        end as int,
                        next,
                        used.update(n as int, true),
                        j - 1,
                    );
                }
            },
            Pattern::Escaped { brace, start, end } => {
                lemma_unmatched_stops_substitution(
                    t,
                    args,
                    rest,
                    out + t.subrange(cursor, start as int) + seq![crate::engine::brace_byte(brace)],
                    end as int,
                    next,
                    used,
                    j - 1,
                );
            },
            Pattern::Unescaped(_) => {},
        }
    }
}

proof fn lemma_unmatched_stops_tally(
    toks: Seq<Pattern>,
    declared: nat,
    count: nat,
    escapes: bool,
    j: int,
)
    requires
        0 <= j < toks.len(),
        toks[j] is Unescaped,
    ensures
        tally(toks, declared, count, escapes) is Err,
    decreases toks.len(),
{
    if j > 0 {
        let rest = toks.drop_first();
        assert(rest[j - 1] == toks[j]);
        lemma_unmatched_stops_tally(rest, declared, count + 1, escapes, j - 1);
        lemma_unmatched_stops_tally(rest, declared, count, escapes, j - 1);
        lemma_unmatched_stops_tally(rest, declared, count, true, j - 1);
    }
}

/// A template with an unmatched brace never formats, whatever the arguments,
/// and never validates, whatever the declared count.
pub proof fn law_unmatched_brace_fails(t: Seq<u8>, args: Seq<Seq<u8>>, declared: nat)
    requires
        exists|j: int| 0 <= j < tokens(t).len() && #[trigger] tokens(t)[j] is Unescaped,
    ensures
        format_bytes(t, args) is None,
        validation(t, declared) is Err,
{
    let j = choose|j: int| 0 <= j < tokens(t).len() && #[trigger] tokens(t)[j] is Unescaped;
    lemma_unmatched_stops_substitution(t, args, tokens(t), seq![], 0, 0, unmarked(args.len()), j);
    lemma_unmatched_stops_tally(tokens(t), declared, 0, false, j);
}

/// The escaped form of one byte: a brace doubled, any other byte as it is.
pub open spec fn escape_byte(b: u8) -> Seq<u8> {
    if b == OPEN {
        seq![OPEN, OPEN]
    } else if b == CLOSE {
        seq![CLOSE, CLOSE]
    } else {
        seq![b]
    }
}

/// The text `s` with every brace doubled.
pub open spec fn escape(s: Seq<u8>) -> Seq<u8>
    decreases s.len(),
{
    if s.len() == 0 {
        seq![]
    } else {
        escape_byte(s[0]) + escape(s.drop_first())
    }
}

proof fn lemma_scan_shift(t: Seq<u8>, ms: Seq<(int, int, int)>, k: int, p: Option<(int, int)>)
    requires
        1 <= k <= ms.len(),
    ensures
        scan_from(t, ms, k, p) == scan_from(t, ms.drop_first(), k - 1, p),
    decreases ms.len() - k,
{
    if k < ms.len() {
        let m = ms[k];
        assert(ms.drop_first()[k - 1] == m);
        lemma_scan_shift(t, ms, k + 1, None);
        lemma_scan_shift(t, ms, k + 1, Some((m.1, m.2)));
    }
}

proof fn lemma_escaped_substitution(
    t: Seq<u8>,
    i: int,
    u: Seq<u8>,
    out: Seq<u8>,
    cursor: int,
    used: Seq<bool>,
)
    requires
        t.len() <= usize::MAX,
        0 <= cursor <= i <= t.len(),
        t.subrange(i, t.len() as int) == escape(u),
    ensures
        ({
            let r = substitute(
                t,
                seq![],
                scan_from(t, brace_matches_from(t, i), 0, None),
                out,
                cursor,
                0,
                used,
            );
            &&& r is Some
            &&& r->Some_0.2 == used
            &&& cursor <= r->Some_0.1 <= t.len()
            &&& r->Some_0.0 + t.subrange(r->Some_0.1, t.len() as int) == out + t.subrange(
                cursor,
                i,
            ) + u
        }),
    decreases u.len(),
{
    let e = escape(u);
    if u.len() == 0 {
        assert(t.subrange(i, t.len() as int).len() == 0);
        assert(brace_matches_from(t, i).len() == 0);
        assert(t.subrange(cursor, i) == t.subrange(cursor, t.len() as int));
        assert(out + t.subrange(cursor, i) + u == out + t.subrange(cursor, i));
    } else {
        let b = u[0];
        let rest = u.drop_first();
        let eb = escape_byte(b);
        assert(e == eb + escape(rest));
        assert(e.len() == eb.len() + escape(rest).len());
        assert(i + e.len() == t.len());
        assert(t.subrange(i, t.len() as int)[0] == t[i]);
        assert(t[i] == e[0]);
        if b == OPEN || b == CLOSE {
            assert(eb.len() == 2);
            assert(t.subrange(i, t.len() as int)[1] == t[i + 1]);
            assert(t[i + 1] == e[1]);
            assert(e.subrange(2, e.len() as int) =~= escape(rest));
            assert(t.subrange(i + 2, t.len() as int) =~= e.subrange(2, e.len() as int));
            let ms = brace_matches_from(t, i);
            let m = ms[0];
            assert(ms.drop_first() == brace_matches_from(t, i + 2));
            lemma_scan_shift(t, ms, 1, None);
            let brace = if b == OPEN {
                crate::scanner::Brace::Opening
            } else {
                crate::scanner::Brace::Closing
            };
            assert(crate::engine::brace_byte(brace) == b);
            let out2 = out + t.subrange(cursor, i) + seq![b];
            let toks = scan_from(t, ms, 0, None);
            let tok = crate::scanner::Pattern::Escaped {
                brace,
                start: i as usize,
                end: (i + 2) as usize,
            };
            assert(m == (if b == OPEN { 1int } else { 2int }, i, i + 2));
            assert(toks == seq![tok] + scan_from(t, ms, 1, None));
            assert(toks[0] == tok);
            assert(toks.drop_first() == scan_from(t, brace_matches_from(t, i + 2), 0, None));
            assert(substitute(t, seq![], toks, out, cursor, 0, used) == substitute(
                t,
                seq![],
                scan_from(t, brace_matches_from(t, i + 2), 0, None),
                out2,
                i + 2,
                0,
                used,
            ));
            lemma_escaped_substitution(t, i + 2, rest, out2, i + 2, used);
            assert(t.subrange(i + 2, i + 2) =~= Seq::<u8>::empty());
            assert(out2 + t.subrange(i + 2, i + 2) + rest =~= out + t.subrange(cursor, i) + u);
        } else {
            assert(eb.len() == 1);
            assert(e.subrange(1, e.len() as int) =~= escape(rest));
            assert(t.subrange(i + 1, t.len() as int) =~= e.subrange(1, e.len() as int));
            assert(brace_matches_from(t, i) == brace_matches_from(t, i + 1));
            lemma_escaped_substitution(t, i + 1, rest, out, cursor, used);
            assert(t.subrange(cursor, i + 1) =~= t.subrange(cursor, i) + seq![b]);
            assert(out + t.subrange(cursor, i + 1) + rest =~= out + t.subrange(cursor, i) + u);
        }
    }
}

/// Escaping a text and formatting the result with no arguments gives the text
/// back: each doubled brace becomes one brace, and nothing else changes.
pub proof fn law_escape_round_trip(s: Seq<u8>)
    requires
        escape(s).len() <= usize::MAX,
    ensures
        format_bytes(escape(s), seq![]) == Some(s),
{
    let t = escape(s);
    assert(t.subrange(0, t.len() as int) == t);
    lemma_escaped_substitution(t, 0, s, seq![], 0, unmarked(0));
    assert(tokens(t) == scan_from(t, brace_matches_from(t, 0), 0, None));
    assert(t.subrange(0, 0) =~= Seq::<u8>::empty());
    assert(Seq::<u8>::empty() + Seq::<u8>::empty() + s =~= s);
}

} // verus!
