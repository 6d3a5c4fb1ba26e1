use gettextrs::scanner::{Argument, Brace, Formatter, Pattern};

fn collect_tokens(haystack: &str) -> Vec<Pattern> {
    let mut scan = Formatter::new(haystack);
    let mut tokens = Vec::new();
    while let Some(token) = scan.next() {
        tokens.push(token);
    }
    tokens
}

#[test]
fn single_ordered_none() {
    let haystack = "{}";
    let expected = [Pattern::Argument {
        arg: Argument::Ordered(None),
        start: 0,
        end: 2,
    }];

    let actual: Vec<_> = collect_tokens(haystack);

    assert_eq!(expected, actual[..])
}

#[test]
fn text_around_single_ordered_none() {
    let haystack = "Text {} text";
    let expected = [Pattern::Argument {
        arg: Argument::Ordered(None),
        start: 5,
        end: 7,
    }];

    let actual: Vec<_> = collect_tokens(haystack);

    assert_eq!(expected, actual[..])
}

#[test]
fn multiple_ordered_none() {
    let haystack = "{}{}";
    let expected = [
        Pattern::Argument {
            arg: Argument::Ordered(None),
            start: 0,
            end: 2,
        },
        Pattern::Argument {
            arg: Argument::Ordered(None),
            start: 2,
            end: 4,
        },
    ];

    let actual: Vec<_> = collect_tokens(haystack);

    assert_eq!(expected, actual[..])
}

#[test]
fn text_around_multiple_ordered_none() {
    let haystack = "Text {} text {} text";
    let expected = [
        Pattern::Argument {
            arg: Argument::Ordered(None),
            start: 5,
            end: 7,
        },
        Pattern::Argument {
            arg: Argument::Ordered(None),
            start: 13,
            end: 15,
        },
    ];

    let actual: Vec<_> = collect_tokens(haystack);

    assert_eq!(expected, actual[..])
}

#[test]
fn unicode_haystack_ordered_none() {
    let haystack = "私は{}です!";
    let expected = [Pattern::Argument {
        arg: Argument::Ordered(None),
        start: 6,
        end: 8,
    }];

    let actual: Vec<_> = collect_tokens(haystack);

    assert_eq!(expected, actual[..])
}

#[test]
fn escaped_opening() {
    let haystack = "{{";
    let expected = [Pattern::Escaped {
        brace: Brace::Opening,
        start: 0,
        end: 2,
    }];

    let actual: Vec<_> = collect_tokens(haystack);

    assert_eq!(expected, actual[..])
}

#[test]
fn text_around_escaped_opening() {
    let haystack = "Text {{ text";
    let expected = [Pattern::Escaped {
        brace: Brace::Opening,
        start: 5,
        end: 7,
    }];

    let actual: Vec<_> = collect_tokens(haystack);

    assert_eq!(expected, actual[..])
}

#[test]
fn multiple_escaped_opening() {
    let haystack = "{{{{";
    let expected = [
        Pattern::Escaped {
            brace: Brace::Opening,
            start: 0,
            end: 2,
        },
        Pattern::Escaped {
            brace: Brace::Opening,
            start: 2,
            end: 4,
        },
    ];

    let actual: Vec<_> = collect_tokens(haystack);

    assert_eq!(expected, actual[..])
}

#[test]
fn text_around_multiple_escaped_opening() {
    let haystack = "Text {{ text {{ text";
    let expected = [
        Pattern::Escaped {
            brace: Brace::Opening,
            start: 5,
            end: 7,
        },
        Pattern::Escaped {
            brace: Brace::Opening,
            start: 13,
            end: 15,
        },
    ];

    let actual: Vec<_> = collect_tokens(haystack);

    assert_eq!(expected, actual[..])
}

#[test]
fn escaped_closing() {
    let haystack = "}}";
    let expected = [Pattern::Escaped {
        brace: Brace::Closing,
        start: 0,
        end: 2,
    }];

    let actual: Vec<_> = collect_tokens(haystack);

    assert_eq!(expected, actual[..])
}

#[test]
fn text_around_escaped_closing() {
    let haystack = "Text }} text";
    let expected = [Pattern::Escaped {
        brace: Brace::Closing,
        start: 5,
        end: 7,
    }];

    let actual: Vec<_> = collect_tokens(haystack);

    assert_eq!(expected, actual[..])
}

#[test]
fn multiple_escaped_closing() {
    let haystack = "}}}}";
    let expected = [
        Pattern::Escaped {
            brace: Brace::Closing,
            start: 0,
            end: 2,
        },
        Pattern::Escaped {
            brace: Brace::Closing,
            start: 2,
            end: 4,
        },
    ];

    let actual: Vec<_> = collect_tokens(haystack);

    assert_eq!(expected, actual[..])
}

#[test]
fn text_around_multiple_escaped_closing() {
    let haystack = "Text }} text }} text";
    let expected = [
        Pattern::Escaped {
            brace: Brace::Closing,
            start: 5,
            end: 7,
        },
        Pattern::Escaped {
            brace: Brace::Closing,
            start: 13,
            end: 15,
        },
    ];

    let actual: Vec<_> = collect_tokens(haystack);

    assert_eq!(expected, actual[..])
}

#[test]
fn escaped_pair() {
    let haystack = "{{}}";
    let expected = [
        Pattern::Escaped {
            brace: Brace::Opening,
            start: 0,
            end: 2,
        },
        Pattern::Escaped {
            brace: Brace::Closing,
            start: 2,
            end: 4,
        },
    ];

    let actual: Vec<_> = collect_tokens(haystack);

    assert_eq!(expected, actual[..])
}

#[test]
fn text_around_escaped_pair() {
    let haystack = "Text {{}} text";
    let expected = [
        Pattern::Escaped {
            brace: Brace::Opening,
            start: 5,
            end: 7,
        },
        Pattern::Escaped {
            brace: Brace::Closing,
            start: 7,
            end: 9,
        },
    ];

    let actual: Vec<_> = collect_tokens(haystack);

    assert_eq!(expected, actual[..])
}

#[test]
fn unicode_haystack_escaped_pair() {
    let haystack = "私は{{}}です!";
    let expected = [
        Pattern::Escaped {
            brace: Brace::Opening,
            start: 6,
            end: 8,
        },
        Pattern::Escaped {
            brace: Brace::Closing,
            start: 8,
            end: 10,
        },
    ];

    let actual: Vec<_> = collect_tokens(haystack);

    assert_eq!(expected, actual[..])
}

#[test]
fn unescaped_opening() {
    let haystack = "{";
    let expected = [Pattern::Unescaped(Brace::Opening)];

    let actual: Vec<_> = collect_tokens(haystack);

    assert_eq!(expected, actual[..])
}

#[test]
fn text_around_unescaped_opening() {
    let haystack = "Text { text";
    let expected = [Pattern::Unescaped(Brace::Opening)];

    let actual: Vec<_> = collect_tokens(haystack);

    assert_eq!(expected, actual[..])
}

#[test]
fn multiple_unescaped_opening() {
    let haystack = "{ {";
    let expected = [
        Pattern::Unescaped(Brace::Opening),
        Pattern::Unescaped(Brace::Opening),
    ];

    let actual: Vec<_> = collect_tokens(haystack);

    assert_eq!(expected, actual[..])
}

#[test]
fn text_around_multiple_unescaped_opening() {
    let haystack = "Text { text { text";
    let expected = [
        Pattern::Unescaped(Brace::Opening),
        Pattern::Unescaped(Brace::Opening),
    ];

    let actual: Vec<_> = collect_tokens(haystack);

    assert_eq!(expected, actual[..])
}

#[test]
fn unescaped_closing() {
    let haystack = "}";
    let expected = [Pattern::Unescaped(Brace::Closing)];

    let actual: Vec<_> = collect_tokens(haystack);

    assert_eq!(expected, actual[..])
}

#[test]
fn text_around_unescaped_closing() {
    let haystack = "Text } text";
    let expected = [Pattern::Unescaped(Brace::Closing)];

    let actual: Vec<_> = collect_tokens(haystack);

    assert_eq!(expected, actual[..])
}

#[test]
fn multiple_unescaped_closing() {
    let haystack = "} }";
    let expected = [
        Pattern::Unescaped(Brace::Closing),
        Pattern::Unescaped(Brace::Closing),
    ];

    let actual: Vec<_> = collect_tokens(haystack);

    assert_eq!(expected, actual[..])
}

#[test]
fn text_around_multiple_unescaped_closing() {
    let haystack = "Text } text } text";
    let expected = [
        Pattern::Unescaped(Brace::Closing),
        Pattern::Unescaped(Brace::Closing),
    ];

    let actual: Vec<_> = collect_tokens(haystack);

    assert_eq!(expected, actual[..])
}

#[test]
fn unescaped_braces() {
    let haystack = "}{";
    let expected = [
        Pattern::Unescaped(Brace::Closing),
        Pattern::Unescaped(Brace::Opening),
    ];

    let actual: Vec<_> = collect_tokens(haystack);

    assert_eq!(expected, actual[..])
}

#[test]
fn text_around_unescaped_braces() {
    let haystack = "Text } text { text";
    let expected = [
        Pattern::Unescaped(Brace::Closing),
        Pattern::Unescaped(Brace::Opening),
    ];

    let actual: Vec<_> = collect_tokens(haystack);

    assert_eq!(expected, actual[..])
}

#[test]
fn unicode_haystack_unescaped_braces() {
    let haystack = "私は}{です!";
    let expected = [
        Pattern::Unescaped(Brace::Closing),
        Pattern::Unescaped(Brace::Opening),
    ];

    let actual: Vec<_> = collect_tokens(haystack);

    assert_eq!(expected, actual[..])
}

#[test]
fn single_ordered_some() {
    let haystack = "{0}";
    let expected = [Pattern::Argument {
        arg: Argument::Ordered(Some(0)),
        start: 0,
        end: 3,
    }];

    let actual: Vec<_> = collect_tokens(haystack);

    assert_eq!(expected, actual[..])
}

#[test]
fn text_around_single_ordered_some() {
    let haystack = "Text {0} text";
    let expected = [Pattern::Argument {
        arg: Argument::Ordered(Some(0)),
        start: 5,
        end: 8,
    }];

    let actual: Vec<_> = collect_tokens(haystack);

    assert_eq!(expected, actual[..])
}

#[test]
fn multiple_ordered_some() {
    let haystack = "{0}{1}";
    let expected = [
        Pattern::Argument {
            arg: Argument::Ordered(Some(0)),
            start: 0,
            end: 3,
        },
        Pattern::Argument {
            arg: Argument::Ordered(Some(1)),
            start: 3,
            end: 6,
        },
    ];

    let actual: Vec<_> = collect_tokens(haystack);

    assert_eq!(expected, actual[..])
}

#[test]
fn text_around_multiple_ordered_some() {
    let haystack = "Text {0} text {1} text";
    let expected = [
        Pattern::Argument {
            arg: Argument::Ordered(Some(0)),
            start: 5,
            end: 8,
        },
        Pattern::Argument {
            arg: Argument::Ordered(Some(1)),
            start: 14,
            end: 17,
        },
    ];

    let actual: Vec<_> = collect_tokens(haystack);

    assert_eq!(expected, actual[..])
}

#[test]
fn unicode_haystack_ordered_some() {
    let haystack = "私は{0}です!";
    let expected = [Pattern::Argument {
        arg: Argument::Ordered(Some(0)),
        start: 6,
        end: 9,
    }];

    let actual: Vec<_> = collect_tokens(haystack);

    assert_eq!(expected, actual[..])
}
