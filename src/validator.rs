//! The static validator: checks a template against a declared number of
//! arguments, without argument values, and classifies what is wrong.
use vstd::prelude::*;
use vstd::string::{StringSliceAdditionalSpecFns, StringExecFns};
use crate::scanner::{Argument, Brace, Formatter, Pattern, tokens, spans_ordered, lemma_tokens_spans};

verus! {

/// What can be wrong with a template or a formatting macro's input.
#[derive(PartialEq, Eq, Structural, Clone, Copy, Debug)]
pub enum UiError {
    /// `{n}` names a position at or past the declared number of arguments.
    InvalidRefToPosArg(usize),
    /// The number of `{}` placeholders differs from the declared number of arguments.
    MismatchNumOfArgs { params: usize, args: usize },
    /// A brace that is neither part of a placeholder nor escaped.
    Unmatched(Brace),
    AtLeastMsgid,
    AtLeastDAndMsgid,
    MissingMsgid,
}

/// Walks the tokens `toks`, counting `{}` placeholders in `count` and noting
/// escapes in `escapes`; stops at the first out-of-range `{n}` or unmatched brace.
pub open spec fn tally(toks: Seq<Pattern>, declared: nat, count: nat, escapes: bool) -> Result<
    (nat, bool),
    UiError,
>
    decreases toks.len(),
{
    if toks.len() == 0 {
        Ok((count, escapes))
    } else {
        let rest = toks.drop_first();
        match toks[0] {
            Pattern::Argument { arg: Argument::Ordered(None), .. } => tally(
                rest,
                declared,
                count + 1,
                escapes,
            ),
            Pattern::Argument { arg: Argument::Ordered(Some(n)), .. } => {
                if n < declared {
                    tally(rest, declared, count, escapes)
                } else {
                    Err(UiError::InvalidRefToPosArg(n))
                }
            },
            Pattern::Escaped { .. } => tally(rest, declared, count, true),
            Pattern::Unescaped(b) => Err(UiError::Unmatched(b)),
        }
    }
}

/// The verdict on template `t` with `declared` arguments: an error, or whether
/// the template has any placeholder or escape and so needs formatting.
pub open spec fn validation(t: Seq<u8>, declared: nat) -> Result<bool, UiError> {
    match tally(tokens(t), declared, 0, false) {
        Err(e) => Err(e),
        Ok(r) => if r.0 != declared {
            Err(UiError::MismatchNumOfArgs { params: r.0 as usize, args: declared as usize })
        } else {
            Ok(r.0 > 0 || r.1)
        },
    }
}

/// Checks `haystack` against `args` declared arguments: every `{n}` must name
/// one of them, every brace must be matched or escaped, and the number of `{}`
/// placeholders must equal `args`. On success, tells whether the template
/// needs formatting at all (it has a placeholder or an escape).
pub fn validate(haystack: &str, args: usize) -> (r: Result<bool, UiError>)
    ensures
        r == validation(haystack.spec_bytes(), args as nat),
{
    let ghost t = haystack.spec_bytes();
    // Reading the length brings the fact that it fits in `usize`.
    let _len = haystack.as_bytes().len();
    let mut fmt = Formatter::new(haystack);
    let mut params: usize = 0;
    let mut escapes = false;
    let mut cursor: usize = 0;
    proof {
        lemma_tokens_spans(t);
    }
    let ghost goal = tally(tokens(t), args as nat, 0, false);
    loop
        invariant
            fmt.wf(),
            fmt.text() == t,
            t == haystack.spec_bytes(),
            goal == tally(tokens(t), args as nat, 0, false),
            spans_ordered(t, fmt.remaining(), cursor as int),
            params <= cursor,
            tally(fmt.remaining(), args as nat, params as nat, escapes) == goal,
        ensures
            goal == Ok::<(nat, bool), UiError>((params as nat, escapes)),
        decreases fmt.remaining().len(),
    {
        let ghost toks = fmt.remaining();
        match fmt.next() {
            None => break,
            Some(tok) => {
                assert(toks[0] == tok);
                match tok {
                    Pattern::Argument { arg: Argument::Ordered(None), end, .. } => {
                        params = params + 1;
                        cursor = end;
                    },
                    Pattern::Argument { arg: Argument::Ordered(Some(n)), end, .. } => {
                        if n >= args {
                            return Err(UiError::InvalidRefToPosArg(n));
                        }
                        cursor = end;
                    },
                    Pattern::Escaped { end, .. } => {
                        escapes = true;
                        cursor = end;
                    },
                    Pattern::Unescaped(b) => {
                        return Err(UiError::Unmatched(b));
                    },
                }
            },
        }
    }
    if params != args {
        return Err(UiError::MismatchNumOfArgs { params, args });
    }
    Ok(params > 0 || escapes)
}

/// The character of the decimal digit `d`.
pub open spec fn digit_char(d: nat) -> char {
    ((d + 48) as u8) as char
}

/// The decimal digits of `n`, most significant first.
pub open spec fn decimal(n: nat) -> Seq<char>
    decreases n,
{
    if n < 10 {
        seq![digit_char(n)]
    } else {
        decimal(n / 10) + seq![digit_char(n % 10)]
    }
}

fn digit_str(d: usize) -> (r: &'static str)
    requires
        d < 10,
    ensures
        r@ == seq![digit_char(d as nat)],
{
    proof {
        reveal_strlit("0");
        reveal_strlit("1");
        reveal_strlit("2");
        reveal_strlit("3");
        reveal_strlit("4");
        reveal_strlit("5");
        reveal_strlit("6");
        reveal_strlit("7");
        reveal_strlit("8");
        reveal_strlit("9");
    }
    match d {
        0 => "0",
        1 => "1",
        2 => "2",
        3 => "3",
        4 => "4",
        5 => "5",
        6 => "6",
        7 => "7",
        8 => "8",
        _ => "9",
    }
}

/// Appends the decimal digits of `n` to `s`.
fn push_decimal(s: &mut String, n: usize)
    ensures
        final(s)@ == old(s)@ + decimal(n as nat),
    decreases n,
{
    if n >= 10 {
        push_decimal(s, n / 10);
    }
    s.append(digit_str(n % 10));
}

/// How a message names a count of given arguments.
pub open spec fn given_phrase(n: nat) -> Seq<char> {
    if n == 0 {
        "no arguments were given"@
    } else if n == 1 {
        "there is 1 argument"@
    } else {
        "there are "@ + decimal(n) + " arguments"@
    }
}

fn push_given_phrase(s: &mut String, n: usize)
    ensures
        final(s)@ == old(s)@ + given_phrase(n as nat),
{
    if n == 0 {
        s.append("no arguments were given");
    } else if n == 1 {
        s.append("there is 1 argument");
    } else {
        s.append("there are ");
        push_decimal(s, n);
        s.append(" arguments");
        assert(final(s)@ == old(s)@ + given_phrase(n as nat));
    }
}

/// The message for `params` placeholders met by `args` arguments.
pub open spec fn mismatch_message(params: nat, args: nat) -> Seq<char> {
    decimal(params) + " positional "@ + (if params == 1 {
        "argument"@
    } else {
        "arguments"@
    }) + " in format string, but "@ + given_phrase(args)
}

fn mismatch_string(params: usize, args: usize) -> (r: String)
    ensures
        r@ == mismatch_message(params as nat, args as nat),
{
    let mut s = String::new();
    push_decimal(&mut s, params);
    s.append(" positional ");
    if params == 1 {
        s.append("argument");
    } else {
        s.append("arguments");
    }
    s.append(" in format string, but ");
    push_given_phrase(&mut s, args);
    s
}

/// Compares the number of format directives with the number of arguments:
/// `Ok` with the count when they agree, else the message that says how they differ.
pub fn check_amount(n_directives: usize, n_arguments: usize) -> (r: Result<usize, String>)
    ensures
        n_directives == n_arguments ==> r == Ok::<usize, String>(n_directives),
        n_directives != n_arguments ==> r is Err && r->Err_0@ == mismatch_message(
            n_directives as nat,
            n_arguments as nat,
        ),
{
    if n_directives != n_arguments {
        Err(mismatch_string(n_directives, n_arguments))
    } else {
        Ok(n_directives)
    }
}

/// The human-readable text of an error.
pub open spec fn message_of(e: UiError) -> Seq<char> {
    match e {
        UiError::InvalidRefToPosArg(n) => "invalid reference to positional argument "@ + decimal(
            n as nat,
        ) + " ("@ + given_phrase(n as nat) + ")\nnote: positional arguments are zero-based"@,
        UiError::MismatchNumOfArgs { params, args } => mismatch_message(params as nat, args as nat),
        UiError::Unmatched(Brace::Opening) => "unmatched `{` in format string\nnote: if you intended to print `{`, you can escape it using `{{`"@,
        UiError::Unmatched(Brace::Closing) => "unmatched `}` in format string\nnote: if you intended to print `}`, you can escape it using `}}`"@,
        UiError::AtLeastMsgid => "requires at least a msgid string argument"@,
        UiError::AtLeastDAndMsgid => "requires at least domainname and msgid string arguments"@,
        UiError::MissingMsgid => "missing msgid string argument"@,
    }
}

impl UiError {
    /// The human-readable text of this error.
    pub fn message(&self) -> (r: String)
        ensures
            r@ == message_of(*self),
    {
        match self {
            UiError::InvalidRefToPosArg(n) => {
                let mut s = String::from_str("invalid reference to positional argument ");
                push_decimal(&mut s, *n);
                s.append(" (");
                push_given_phrase(&mut s, *n);
                s.append(")\nnote: positional arguments are zero-based");
                s
            },
            UiError::MismatchNumOfArgs { params, args } => mismatch_string(*params, *args),
            UiError::Unmatched(Brace::Opening) => String::from_str(
                "unmatched `{` in format string\nnote: if you intended to print `{`, you can escape it using `{{`",
            ),
            UiError::Unmatched(Brace::Closing) => String::from_str(
                "unmatched `}` in format string\nnote: if you intended to print `}`, you can escape it using `}}`",
            ),
            UiError::AtLeastMsgid => String::from_str("requires at least a msgid string argument"),
            UiError::AtLeastDAndMsgid => String::from_str(
                "requires at least domainname and msgid string arguments",
            ),
            UiError::MissingMsgid => String::from_str("missing msgid string argument"),
        }
    }
}

} // verus!
