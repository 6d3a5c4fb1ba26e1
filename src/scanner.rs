//! Tokenizer for message templates.
//!
//! A template is read as UTF-8 bytes. The five brace patterns `{}`, `{{`, `}}`,
//! `{` and `}` are located by a leftmost-longest multi-pattern search; a small
//! state machine turns those matches into placeholder, escape and error tokens.
use vstd::prelude::*;
use vstd::string::StringSliceAdditionalSpecFns;
use aho_corasick::{AhoCorasickBuilder, MatchKind};

verus! {

/// The byte of `{`.
pub const OPEN: u8 = 0x7b;

/// The byte of `}`.
pub const CLOSE: u8 = 0x7d;

/// Which brace a token is about.
#[derive(PartialEq, Eq, Structural, Clone, Copy, Debug)]
pub enum Brace {
    Opening,
    Closing,
}

/// A reference to an argument: `Ordered(None)` is the next one in sequence,
/// `Ordered(Some(n))` the argument at position `n` (zero-based).
#[derive(PartialEq, Eq, Structural, Clone, Copy, Debug)]
pub enum Argument {
    Ordered(Option<usize>),
}

/// One token of a template. Spans are byte offsets, `start` inclusive and
/// `end` exclusive.
#[derive(PartialEq, Eq, Structural, Clone, Copy, Debug)]
pub enum Pattern {
    Argument { arg: Argument, start: usize, end: usize },
    Escaped { brace: Brace, start: usize, end: usize },
    Unescaped(Brace),
}

// Indices of the searched patterns, in the order they are handed to the search.
pub const PAT_PLACEHOLDER: usize = 0;

pub const PAT_ESCAPED_OPEN: usize = 1;

pub const PAT_ESCAPED_CLOSE: usize = 2;

pub const PAT_OPEN: usize = 3;

pub const PAT_CLOSE: usize = 4;

/// The leftmost-longest, non-overlapping matches of `{}`, `{{`, `}}`, `{`, `}`
/// in `t` from offset `i` on, as (pattern index, start, end).
pub open spec fn brace_matches_from(t: Seq<u8>, i: int) -> Seq<(int, int, int)>
    decreases t.len() - i,
{
    if i < 0 || i >= t.len() {
        seq![]
    } else if t[i] == OPEN {
        if i + 1 < t.len() && t[i + 1] == CLOSE {
            seq![(PAT_PLACEHOLDER as int, i, i + 2)] + brace_matches_from(t, i + 2)
        } else if i + 1 < t.len() && t[i + 1] == OPEN {
            seq![(PAT_ESCAPED_OPEN as int, i, i + 2)] + brace_matches_from(t, i + 2)
        } else {
            seq![(PAT_OPEN as int, i, i + 1)] + brace_matches_from(t, i + 1)
        }
    } else if t[i] == CLOSE {
        if i + 1 < t.len() && t[i + 1] == CLOSE {
            seq![(PAT_ESCAPED_CLOSE as int, i, i + 2)] + brace_matches_from(t, i + 2)
        } else {
            seq![(PAT_CLOSE as int, i, i + 1)] + brace_matches_from(t, i + 1)
        }
    } else {
        brace_matches_from(t, i + 1)
    }
}

/// The leftmost-longest, non-overlapping brace matches of the whole of `t`.
pub open spec fn brace_matches(t: Seq<u8>) -> Seq<(int, int, int)> {
    brace_matches_from(t, 0)
}

/// The patterns searched for, in the order of their indices.
pub open spec fn brace_patterns() -> Seq<&'static str> {
    seq!["{}", "{{", "}}", "{", "}"]
}

/// Relies on aho_corasick's `AhoCorasickBuilder::build` and `AhoCorasick::find_iter`:
/// with `MatchKind::LeftmostLongest` the search reports, left to right and without
/// overlap, the leftmost match, and among the matches that start there the longest,
/// as (pattern index, start, end).
#[verifier::external_body]
fn find_leftmost_longest(patterns: [&'static str; 5], haystack: &[u8]) -> (r: Vec<(usize, usize, usize)>)
    requires
        patterns@ == brace_patterns(),
    ensures
        r@.len() == brace_matches(haystack@).len(),
        forall|k: int|
            0 <= k < r@.len() ==> (#[trigger] r@[k].0 as int, r@[k].1 as int, r@[k].2 as int)
                == brace_matches(haystack@)[k],
{
    let ac = AhoCorasickBuilder::new().match_kind(MatchKind::LeftmostLongest).build(patterns);
    ac.find_iter(haystack).map(|m| (m.pattern(), m.start(), m.end())).collect()
}

/// `b` is `{` or `}`.
pub open spec fn is_brace(b: u8) -> bool {
    b == OPEN || b == CLOSE
}

/// What every list of brace matches looks like: each match lies in the text
/// after `i`, is one or two bytes long and made of braces, and the matches come
/// in order without overlap.
pub open spec fn well_shaped(t: Seq<u8>, ms: Seq<(int, int, int)>, i: int) -> bool {
    &&& forall|k: int|
        0 <= k < ms.len() ==> {
            let m = #[trigger] ms[k];
            &&& i <= m.1 < m.2 <= t.len()
            &&& 0 <= m.0 <= 4
            &&& (m.0 == PAT_PLACEHOLDER || m.0 == PAT_ESCAPED_OPEN || m.0 == PAT_ESCAPED_CLOSE)
                <==> m.2 == m.1 + 2
            &&& (m.0 == PAT_OPEN || m.0 == PAT_CLOSE) <==> m.2 == m.1 + 1
            &&& is_brace(t[m.1]) && is_brace(t[m.2 - 1])
        }
    &&& forall|k: int| 0 <= k < ms.len() - 1 ==> (#[trigger] ms[k]).2 <= ms[k + 1].1
}

pub proof fn lemma_matches_shape(t: Seq<u8>, i: int)
    requires
        0 <= i,
    ensures
        well_shaped(t, brace_matches_from(t, i), i),
    decreases t.len() - i,
{
    let ms = brace_matches_from(t, i);
    if i >= t.len() {
    } else {
        let j: int = if t[i] == OPEN || t[i] == CLOSE {
            ms[0].2
        } else {
            i + 1
        };
        lemma_matches_shape(t, j);
        let rest = brace_matches_from(t, j);
        if t[i] == OPEN || t[i] == CLOSE {
            assert(ms == seq![ms[0]] + rest);
            assert forall|k: int| 0 <= k < ms.len() - 1 implies (#[trigger] ms[k]).2 <= ms[k
                + 1].1 by {
                if k > 0 {
                    assert(ms[k] == rest[k - 1]);
                    assert(ms[k + 1] == rest[k]);
                }
            }
            assert forall|k: int| 0 <= k < ms.len() implies {
                let m = #[trigger] ms[k];
                &&& i <= m.1 < m.2 <= t.len()
                &&& 0 <= m.0 <= 4
                &&& (m.0 == PAT_PLACEHOLDER || m.0 == PAT_ESCAPED_OPEN || m.0
                    == PAT_ESCAPED_CLOSE) <==> m.2 == m.1 + 2
                &&& (m.0 == PAT_OPEN || m.0 == PAT_CLOSE) <==> m.2 == m.1 + 1
                &&& is_brace(t[m.1]) && is_brace(t[m.2 - 1])
            } by {
                if k > 0 {
                    assert(ms[k] == rest[k - 1]);
                }
            }
        } else {
            assert(ms == rest);
        }
    }
}

/// True when every byte of `s` is an ASCII decimal digit.
pub open spec fn all_digits(s: Seq<u8>) -> bool {
    forall|i: int| 0 <= i < s.len() ==> 0x30 <= #[trigger] s[i] <= 0x39
}

/// The number that the decimal digits `s` spell.
pub open spec fn decimal_value(s: Seq<u8>) -> nat
    decreases s.len(),
{
    if s.len() == 0 {
        0
    } else {
        decimal_value(s.drop_last()) * 10 + (s.last() - 0x30) as nat
    }
}

/// The index that the text between `{` and `}` names: a non-empty run of
/// decimal digits whose value fits in `usize`.
pub open spec fn parse_index(s: Seq<u8>) -> Option<nat> {
    if s.len() > 0 && all_digits(s) && decimal_value(s) <= usize::MAX {
        Some(decimal_value(s))
    } else {
        None
    }
}

proof fn lemma_decimal_grows(s: Seq<u8>, i: int)
    requires
        all_digits(s),
        0 <= i <= s.len(),
    ensures
        decimal_value(s.subrange(0, i)) <= decimal_value(s),
    decreases s.len() - i,
{
    if i < s.len() {
        lemma_decimal_grows(s, i + 1);
        let p = s.subrange(0, i + 1);
        assert(p.drop_last() == s.subrange(0, i));
        assert(decimal_value(p) == decimal_value(s.subrange(0, i)) * 10 + (p.last() - 0x30) as nat);
    } else {
        assert(s.subrange(0, i) == s);
    }
}

/// Reads the index between the braces of `{n}`: `Some(n)` exactly when
/// `s[from..to]` is a non-empty run of decimal digits whose value fits in `usize`.
pub fn parse_index_at(s: &[u8], from: usize, to: usize) -> (r: Option<usize>)
    requires
        from <= to <= s@.len(),
    ensures
        match parse_index(s@.subrange(from as int, to as int)) {
            Some(n) => r == Some(n as usize),
            None => r is None,
        },
{
    let ghost d = s@.subrange(from as int, to as int);
    if from == to {
        return None;
    }
    let mut value: usize = 0;
    let mut i: usize = from;
    while i < to
        invariant
            from <= i <= to <= s@.len(),
            d == s@.subrange(from as int, to as int),
            all_digits(d.subrange(0, i - from)),
            value as nat == decimal_value(d.subrange(0, i - from)),
        decreases to - i,
    {
        let b = s[i];
        if b < 0x30 || b > 0x39 {
            assert(!all_digits(d)) by {
                assert(d[i - from] == b);
            }
            return None;
        }
        let digit = (b - 0x30) as usize;
        let ghost next = d.subrange(0, i + 1 - from);
        assert(next.drop_last() == d.subrange(0, i - from));
        assert(next.last() == b);
        match value.checked_mul(10) {
            Some(v) => match v.checked_add(digit) {
                Some(w) => {
                    value = w;
                },
                None => {
                    proof {
                        assert(all_digits(next));
                        lemma_digits_prefix(d, next, i + 1 - from);
                    }
                    return None;
                },
            },
            None => {
                proof {
                    lemma_digits_prefix(d, next, i + 1 - from);
                }
                return None;
            },
        }
        i = i + 1;
    }
    assert(d.subrange(0, i - from) == d);
    Some(value)
}

/// Past a prefix whose value overflows `usize`, the whole of `d` parses to no index.
proof fn lemma_digits_prefix(d: Seq<u8>, p: Seq<u8>, len: int)
    requires
        0 < len <= d.len(),
        p == d.subrange(0, len),
        all_digits(d.subrange(0, len - 1)),
        decimal_value(p) > usize::MAX,
    ensures
        parse_index(d) is None,
{
    if all_digits(d) {
        lemma_decimal_grows(d, len);
    }
}

/// The tokens that the matches `ms[k..]` of `t` give. `pending` holds, while a
/// lone `{` waits for its `}`, the offset of that `{` and the offset just past it.
///
/// Inside a pending `{`, a `}` closes an explicit index when the text between
/// is one; otherwise the `{` is reported unmatched. A second lone `{` reports the
/// first one and takes its place; any other match reports the `{` and ends the
/// pending state.
pub open spec fn scan_from(
    t: Seq<u8>,
    ms: Seq<(int, int, int)>,
    k: int,
    pending: Option<(int, int)>,
) -> Seq<Pattern>
    decreases ms.len() - k,
{
    if k < 0 || k >= ms.len() {
        if pending is Some {
            seq![Pattern::Unescaped(Brace::Opening)]
        } else {
            seq![]
        }
    } else {
        let m = ms[k];
        match pending {
            None => {
                if m.0 == PAT_PLACEHOLDER {
                    seq![
                        Pattern::Argument {
                            arg: Argument::Ordered(None),
                            start: m.1 as usize,
                            end: m.2 as usize,
                        },
                    ] + scan_from(t, ms, k + 1, None)
                } else if m.0 == PAT_ESCAPED_OPEN {
                    seq![
                        Pattern::Escaped {
                            brace: Brace::Opening,
                            start: m.1 as usize,
                            end: m.2 as usize,
                        },
                    ] + scan_from(t, ms, k + 1, None)
                } else if m.0 == PAT_ESCAPED_CLOSE {
                    seq![
                        Pattern::Escaped {
                            brace: Brace::Closing,
                            start: m.1 as usize,
                            end: m.2 as usize,
                        },
                    ] + scan_from(t, ms, k + 1, None)
                } else if m.0 == PAT_OPEN {
                    scan_from(t, ms, k + 1, Some((m.1, m.2)))
                } else {
                    seq![Pattern::Unescaped(Brace::Closing)] + scan_from(t, ms, k + 1, None)
                }
            },
            Some(p) => {
                if m.0 == PAT_CLOSE {
                    match parse_index(t.subrange(p.1, m.1)) {
                        Some(n) => seq![
                            Pattern::Argument {
                                arg: Argument::Ordered(Some(n as usize)),
                                start: p.0 as usize,
                                end: m.2 as usize,
                            },
                        ] + scan_from(t, ms, k + 1, None),
                        None => seq![Pattern::Unescaped(Brace::Opening)] + scan_from(
                            t,
                            ms,
                            k + 1,
                            None,
                        ),
                    }
                } else if m.0 == PAT_OPEN {
                    seq![Pattern::Unescaped(Brace::Opening)] + scan_from(
                        t,
                        ms,
                        k + 1,
                        Some((m.1, m.2)),
                    )
                } else {
                    seq![Pattern::Unescaped(Brace::Opening)] + scan_from(t, ms, k + 1, None)
                }
            },
        }
    }
}

/// All tokens of the template `t`, in order.
pub open spec fn tokens(t: Seq<u8>) -> Seq<Pattern> {
    scan_from(t, brace_matches(t), 0, None)
}

/// Every byte of `t[s..e]` is ASCII.
pub open spec fn ascii_span(t: Seq<u8>, s: int, e: int) -> bool {
    forall|i: int| s <= i < e ==> #[trigger] t[i] < 0x80
}

/// The spans of `toks`, up to the first unmatched brace, lie in `t` in order from
/// offset `c` on, are not empty, and cover ASCII bytes only.
pub open spec fn spans_ordered(t: Seq<u8>, toks: Seq<Pattern>, c: int) -> bool
    decreases toks.len(),
{
    &&& 0 <= c <= t.len()
    &&& toks.len() > 0 ==> match toks[0] {
        Pattern::Argument { start, end, .. } => {
            &&& c <= start < end <= t.len()
            &&& ascii_span(t, start as int, end as int)
            &&& spans_ordered(t, toks.drop_first(), end as int)
        },
        Pattern::Escaped { start, end, .. } => {
            &&& c <= start < end <= t.len()
            &&& ascii_span(t, start as int, end as int)
            &&& spans_ordered(t, toks.drop_first(), end as int)
        },
        Pattern::Unescaped(_) => true,
    }
}

proof fn lemma_scan_spans(
    t: Seq<u8>,
    ms: Seq<(int, int, int)>,
    k: int,
    pending: Option<(int, int)>,
    c: int,
)
    requires
        t.len() <= usize::MAX,
        well_shaped(t, ms, 0),
        0 <= k <= ms.len(),
        0 <= c <= t.len(),
        pending is None ==> (k < ms.len() ==> c <= ms[k].1),
        pending matches Some(p) ==> {
            &&& c <= p.0
            &&& p.1 == p.0 + 1
            &&& p.1 <= t.len()
            &&& t[p.0] < 0x80
            &&& k < ms.len() ==> p.1 <= ms[k].1
        },
    ensures
        spans_ordered(t, scan_from(t, ms, k, pending), c),
    decreases ms.len() - k,
{
    let toks = scan_from(t, ms, k, pending);
    if k < ms.len() {
        let m = ms[k];
        if k + 1 < ms.len() {
            assert(ms[k].2 <= ms[k + 1].1);
        }
        match pending {
            None => {
                if m.0 == PAT_OPEN {
                    lemma_scan_spans(t, ms, k + 1, Some((m.1, m.2)), c);
                } else {
                    lemma_scan_spans(t, ms, k + 1, None, m.2);
                    assert(toks.drop_first() == scan_from(t, ms, k + 1, None));
                }
            },
            Some(p) => {
                if m.0 == PAT_OPEN {
                    assert(toks.drop_first() == scan_from(t, ms, k + 1, Some((m.1, m.2))));
                } else {
                    lemma_scan_spans(t, ms, k + 1, None, m.2);
                    assert(toks.drop_first() == scan_from(t, ms, k + 1, None));
                    if m.0 == PAT_CLOSE {
                        let d = t.subrange(p.1, m.1);
                        if let Some(n) = parse_index(d) {
                            assert forall|i: int| p.0 <= i < m.2 implies #[trigger] t[i] < 0x80 by {
                                if p.1 <= i < m.1 {
                                    assert(d[i - p.1] == t[i]);
                                }
                            }
                        }
                    }
                }
            },
        }
    }
}

/// The spans of a template's tokens are ordered, inside the template, and ASCII.
pub proof fn lemma_tokens_spans(t: Seq<u8>)
    requires
        t.len() <= usize::MAX,
    ensures
        spans_ordered(t, tokens(t), 0),
{
    lemma_matches_shape(t, 0);
    lemma_scan_spans(t, brace_matches(t), 0, None, 0);
}

/// A scan in progress over one template: it hands out the template's tokens
/// one at a time.
pub struct Formatter<'a> {
    haystack: &'a [u8],
    matches: Vec<(usize, usize, usize)>,
    next_match: usize,
    inside: Option<(usize, usize)>,
}

impl<'a> Formatter<'a> {
    /// The bytes of the template being scanned.
    pub closed spec fn text(&self) -> Seq<u8> {
        self.haystack@
    }

    /// The pending `{`, as offsets.
    closed spec fn pending(&self) -> Option<(int, int)> {
        match self.inside {
            Some(p) => Some((p.0 as int, p.1 as int)),
            None => None,
        }
    }

    /// The tokens not yet handed out.
    pub closed spec fn remaining(&self) -> Seq<Pattern> {
        scan_from(self.haystack@, brace_matches(self.haystack@), self.next_match as int, self.pending())
    }

    pub closed spec fn wf(&self) -> bool {
        let t = self.haystack@;
        let ms = brace_matches(t);
        &&& well_shaped(t, ms, 0)
        &&& self.matches@.len() == ms.len()
        &&& forall|k: int|
            0 <= k < ms.len() ==> (#[trigger] self.matches@[k].0 as int, self.matches@[k].1 as int,
            self.matches@[k].2 as int) == ms[k]
        &&& self.next_match <= ms.len()
        &&& match self.inside {
            Some(p) => {
                &&& p.0 < p.1 <= t.len()
                &&& self.next_match < ms.len() ==> p.1 <= ms[self.next_match as int].1
            },
            None => true,
        }
    }

    /// Starts a scan of `haystack` from its first byte.
    pub fn new(haystack: &'a str) -> (r: Self)
        ensures
            r.wf(),
            r.text() == haystack.spec_bytes(),
            r.remaining() == tokens(haystack.spec_bytes()),
    {
        let bytes = haystack.as_bytes();
        let patterns: [&'static str; 5] = ["{}", "{{", "}}", "{", "}"];
        assert(patterns@ == brace_patterns());
        let matches = find_leftmost_longest(patterns, bytes);
        proof {
            lemma_matches_shape(bytes@, 0);
        }
        Formatter { haystack: bytes, matches, next_match: 0, inside: None }
    }

    /// The next token of the template, or `None` once all have been handed out.
    pub fn next(&mut self) -> (r: Option<Pattern>)
        requires
            old(self).wf(),
        ensures
            final(self).wf(),
            final(self).text() == old(self).text(),
            match r {
                Some(p) => {
                    &&& old(self).remaining().len() > 0
                    &&& p == old(self).remaining()[0]
                    &&& final(self).remaining() == old(self).remaining().drop_first()
                },
                None => old(self).remaining().len() == 0 && final(self).remaining().len() == 0,
            },
    {
        let ghost t = self.haystack@;
        let ghost ms = brace_matches(t);
        let ghost all = self.remaining();
        while self.next_match < self.matches.len()
            invariant
                self.wf(),
                self.haystack@ == t,
                t == old(self).text(),
                ms == brace_matches(t),
                self.remaining() == all,
                all == old(self).remaining(),
            decreases self.matches@.len() - self.next_match,
        {
            let m = self.matches[self.next_match];
            let ghost k = self.next_match as int;
            assert((m.0 as int, m.1 as int, m.2 as int) == ms[k]);
            let (p, start, end) = m;
            self.next_match = self.next_match + 1;
            match self.inside {
                None => {
                    if p == PAT_PLACEHOLDER {
                        let tok = Pattern::Argument { arg: Argument::Ordered(None), start, end };
                        assert(all == seq![tok] + self.remaining());
                        return Some(tok);
                    } else if p == PAT_ESCAPED_OPEN {
                        let tok = Pattern::Escaped { brace: Brace::Opening, start, end };
                        assert(all == seq![tok] + self.remaining());
                        return Some(tok);
                    } else if p == PAT_ESCAPED_CLOSE {
                        let tok = Pattern::Escaped { brace: Brace::Closing, start, end };
                        assert(all == seq![tok] + self.remaining());
                        return Some(tok);
                    } else if p == PAT_OPEN {
                        self.inside = Some((start, end));
                        assert(k + 1 < ms.len() ==> ms[k].2 <= ms[k + 1].1);
                    } else {
                        let tok = Pattern::Unescaped(Brace::Closing);
                        assert(all == seq![tok] + self.remaining());
                        return Some(tok);
                    }
                },
                Some((open, digits)) => {
                    if p == PAT_CLOSE {
                        self.inside = None;
                        let tok = match parse_index_at(self.haystack, digits, start) {
                            Some(n) => Pattern::Argument {
                                arg: Argument::Ordered(Some(n)),
                                start: open,
                                end,
                            },
                            None => Pattern::Unescaped(Brace::Opening),
                        };
                        assert(all == seq![tok] + self.remaining());
                        return Some(tok);
                    } else if p == PAT_OPEN {
                        self.inside = Some((start, end));
                        assert(k + 1 < ms.len() ==> ms[k].2 <= ms[k + 1].1);
                        let tok = Pattern::Unescaped(Brace::Opening);
                        assert(all == seq![tok] + self.remaining());
                        return Some(tok);
                    } else {
                        self.inside = None;
                        let tok = Pattern::Unescaped(Brace::Opening);
                        assert(all == seq![tok] + self.remaining());
                        return Some(tok);
                    }
                },
            }
        }
        if self.inside.is_some() {
            self.inside = None;
            let tok = Pattern::Unescaped(Brace::Opening);
            assert(all == seq![tok] + self.remaining());
            Some(tok)
        } else {
            None
        }
    }
}

} // verus!
