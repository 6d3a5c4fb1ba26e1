//! Message lookup with a context: the context and the message are joined into
//! one key, and the plain message is looked up when the catalog has no entry
//! for that key.
use vstd::prelude::*;
use vstd::string::StringExecFns;

verus! {

/// The character that joins a context and a message into one key.
pub const CONTEXT_SEPARATOR: char = '\x04';

/// The key under which the catalog holds `s` in the context `ctx`.
pub open spec fn context_id(ctx: Seq<char>, s: Seq<char>) -> Seq<char> {
    ctx + seq![CONTEXT_SEPARATOR] + s
}

/// Joins a context and a message into the key that the catalog uses.
pub fn build_context_id(ctx: &str, s: &str) -> (r: String)
    ensures
        r@ == context_id(ctx@, s@),
{
    let mut r = String::from_str(ctx);
    proof {
        reveal_strlit("\x04");
    }
    r.append("\x04");
    r.append(s);
    r
}

/// True when `s` holds the character `c`.
pub fn contains_char(s: &str, c: char) -> (r: bool)
    ensures
        r == s@.contains(c),
{
    let n = s.unicode_len();
    let mut i: usize = 0;
    while i < n
        invariant
            n == s@.len(),
            i <= n,
            forall|j: int| 0 <= j < i ==> s@[j] != c,
        decreases n - i,
    {
        if s.get_char(i) == c {
            return true;
        }
        i = i + 1;
    }
    false
}

/// Looks up `s` in the context `ctx` through `gettext`, the catalog lookup of
/// one message. The key that joins context and message is looked up first;
/// when what comes back still holds the separator, the catalog had no entry
/// for it, and the plain message is looked up instead.
pub fn pgettext<F: Fn(String) -> String>(ctx: &str, s: &str, gettext: F) -> (r: String)
    requires
        !ctx@.contains('\0'),
        forall|m: String| gettext.requires((m,)),
    ensures
        exists|key: String, first: String|
            {
                &&& key@ == context_id(ctx@, s@)
                &&& #[trigger] gettext.ensures((key,), first)
                &&& !first@.contains(CONTEXT_SEPARATOR) ==> r == first
                &&& first@.contains(CONTEXT_SEPARATOR) ==> exists|msgid: String|
                    msgid@ == s@ && #[trigger] gettext.ensures((msgid,), r)
            },
{
    let key = build_context_id(ctx, s);
    let ghost k = key;
    let first = gettext(key);
    if contains_char(first.as_str(), CONTEXT_SEPARATOR) {
        let msgid = String::from_str(s);
        let ghost m = msgid;
        let r = gettext(msgid);
        assert(gettext.ensures((m,), r));
        assert(gettext.ensures((k,), first));
        r
    } else {
        assert(gettext.ensures((k,), first));
        first
    }
}

/// Looks up the form of `singular` / `plural` for the count `n` in the context
/// `ctx` through `ngettext`, the catalog lookup of one plural message. The keys
/// that join context and messages are looked up first; when what comes back
/// still holds the separator, the plain messages are looked up instead.
pub fn npgettext<F: Fn(String, String, u32) -> String>(
    ctx: &str,
    singular: &str,
    plural: &str,
    n: u32,
    ngettext: F,
) -> (r: String)
    requires
        !ctx@.contains('\0'),
        forall|a: String, b: String| ngettext.requires((a, b, n)),
    ensures
        exists|k1: String, k2: String, first: String|
            {
                &&& k1@ == context_id(ctx@, singular@)
                &&& k2@ == context_id(ctx@, plural@)
                &&& #[trigger] ngettext.ensures((k1, k2, n), first)
                &&& !first@.contains(CONTEXT_SEPARATOR) ==> r == first
                &&& first@.contains(CONTEXT_SEPARATOR) ==> exists|m1: String, m2: String|
                    m1@ == singular@ && m2@ == plural@ && #[trigger] ngettext.ensures(
                        (m1, m2, n),
                        r,
                    )
            },
{
    let k1 = build_context_id(ctx, singular);
    let k2 = build_context_id(ctx, plural);
    let ghost g1 = k1;
    let ghost g2 = k2;
    let first = ngettext(k1, k2, n);
    if contains_char(first.as_str(), CONTEXT_SEPARATOR) {
        let m1 = String::from_str(singular);
        let m2 = String::from_str(plural);
        let ghost h1 = m1;
        let ghost h2 = m2;
        let r = ngettext(m1, m2, n);
        assert(ngettext.ensures((h1, h2, n), r));
        assert(ngettext.ensures((g1, g2, n), first));
        r
    } else {
        assert(ngettext.ensures((g1, g2, n), first));
        first
    }
}

} // verus!
