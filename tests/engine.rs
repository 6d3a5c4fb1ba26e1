use gettextrs::engine;

#[test]
fn tests_parameter() {
    let haystack = "{}";
    let args = ["There was no text"];
    let expected = "There was no text";

    assert_eq!(
        engine::format(haystack, &args.map(|s| s.to_string())),
        Some(expected.to_string())
    );
}

#[test]
fn tests_text_around_parameter() {
    let haystack = "There is some text {} parameter";
    let args = ["around"];
    let expected = "There is some text around parameter";

    assert_eq!(
        engine::format(haystack, &args.map(|s| s.to_string())),
        Some(expected.to_string())
    );
}

#[test]
fn tests_multiple_parameters() {
    let haystack = "{}{}";
    let args = ["There was", " no text"];
    let expected = "There was no text";

    assert_eq!(
        engine::format(haystack, &args.map(|s| s.to_string())),
        Some(expected.to_string())
    );
}

#[test]
fn tests_text_around_multiple_parameters() {
    let haystack = "There is {} text {} parameters";
    let args = ["some", "around"];
    let expected = "There is some text around parameters";

    assert_eq!(
        engine::format(haystack, &args.map(|s| s.to_string())),
        Some(expected.to_string())
    );
}

#[test]
fn tests_text_around_a_bunch_of_parameters() {
    let haystack = "There {} quite {} bunch {} text {} parameters";
    let args = ["is", "a", "of", "around"];
    let expected = "There is quite a bunch of text around parameters";

    assert_eq!(
        engine::format(haystack, &args.map(|s| s.to_string())),
        Some(expected.to_string())
    );
}

#[test]
fn tests_escaped_opening_brace() {
    let haystack = "{{";
    let args: [String; 0] = [];
    let expected = "{";

    assert_eq!(
        engine::format(haystack, &args),
        Some(expected.to_string())
    );
}

#[test]
fn tests_text_around_escaped_opening_brace() {
    let haystack = "There is an {{ escape";
    let args: [String; 0] = [];
    let expected = "There is an { escape";

    assert_eq!(
        engine::format(haystack, &args),
        Some(expected.to_string())
    );
}

#[test]
fn tests_escaped_closing_brace() {
    let haystack = "}}";
    let args: [String; 0] = [];
    let expected = "}";

    assert_eq!(
        engine::format(haystack, &args),
        Some(expected.to_string())
    );
}

#[test]
fn tests_text_around_escaped_closing_brace() {
    let haystack = "There is an }} escape";
    let args: [String; 0] = [];
    let expected = "There is an } escape";

    assert_eq!(
        engine::format(haystack, &args),
        Some(expected.to_string())
    );
}

#[test]
fn tests_unescaped_opening_brace() {
    let haystack = "{";
    let args: [String; 0] = [];

    assert_eq!(
        engine::format(haystack, &args),
        None
    );
}

#[test]
fn tests_text_around_unescaped_opening_brace() {
    let haystack = "There is an { escape";
    let args: [String; 0] = [];

    assert_eq!(
        engine::format(haystack, &args),
        None
    );
}

#[test]
fn tests_unescaped_closing_brace() {
    let haystack = "}";
    let args: [String; 0] = [];

    assert_eq!(
        engine::format(haystack, &args),
        None
    );
}

#[test]
fn tests_text_around_unescaped_closing_brace() {
    let haystack = "There is an } escape";
    let args: [String; 0] = [];

    assert_eq!(
        engine::format(haystack, &args),
        None
    );
}

#[test]
// The formatter is to be used on translated strings,
// primarily non-Ascii Unicode characters.
fn tests_unicode_haystack() {
    let haystack = "私は{}です!";
    let args = ["ウクライナ人"];
    let expected = "私はウクライナ人です!";

    assert_eq!(
        engine::format(haystack, &args.map(|s| s.to_string())),
        Some(expected.to_string())
    );
}

#[test]
fn tests_ordered_parameters() {
    let haystack = "{0}";
    let args = ["Single"];
    let expected = "Single";

    assert_eq!(
        engine::format(haystack, &args.map(|s| s.to_string())),
        Some(expected.to_string())
    );
}

#[test]
fn text_around_ordered_parameters() {
    let haystack = "There is some text {0} parameter";
    let args = ["around"];
    let expected = "There is some text around parameter";

    assert_eq!(
        engine::format(haystack, &args.map(|s| s.to_string())),
        Some(expected.to_string())
    );
}

#[test]
fn tests_multiple_ordered_parameters() {
    let haystack = "{0}{1}";
    let args = ["There was", " no text"];
    let expected = "There was no text";

    assert_eq!(
        engine::format(haystack, &args.map(|s| s.to_string())),
        Some(expected.to_string())
    );
}

#[test]
fn text_around_multiple_ordered_parameters() {
    let haystack = "There is {0} text {1} parameters";
    let args = ["some", "around"];
    let expected = "There is some text around parameters";

    assert_eq!(
        engine::format(haystack, &args.map(|s| s.to_string())),
        Some(expected.to_string())
    );
}

#[test]
fn text_around_a_bunch_of_ordered_parameters() {
    let haystack = "There {0} quite {1} bunch {2} text {3} parameters";
    let args = ["is", "a", "of", "around"];
    let expected = "There is quite a bunch of text around parameters";

    assert_eq!(
        engine::format(haystack, &args.map(|s| s.to_string())),
        Some(expected.to_string())
    );
}

#[test]
fn multiple_reversely_ordered_parameters() {
    let haystack = "{1}{0}";
    let args = [" there was", "No text"];
    let expected = "No text there was";

    assert_eq!(
        engine::format(haystack, &args.map(|s| s.to_string())),
        Some(expected.to_string())
    );
}

#[test]
fn text_around_multiple_reversely_ordered_parameters() {
    let haystack = "There is {1} text {0} parameters";
    let args = ["around", "some"];
    let expected = "There is some text around parameters";

    assert_eq!(
        engine::format(haystack, &args.map(|s| s.to_string())),
        Some(expected.to_string())
    );
}

#[test]
fn reversely_ordered_parameters() {
    let haystack = "{3}, {2}, {1}, {0}";
    let args = ["First", "Second", "Third", "Fourth"];
    let expected = "Fourth, Third, Second, First";

    assert_eq!(
        engine::format(haystack, &args.map(|s| s.to_string())),
        Some(expected.to_string())
    );
}

#[test]
fn randomly_ordered_parameters() {
    let haystack = "{2}, {1}, {3}, {0}";
    let args = ["First", "Second", "Third", "Fourth"];
    let expected = "Third, Second, Fourth, First";

    assert_eq!(
        engine::format(haystack, &args.map(|s| s.to_string())),
        Some(expected.to_string())
    );
}

#[test]
fn partially_ordered_parameters() {
    let haystack = "{2}, {3}, {}, {}";
    let args = ["First", "Second", "Third", "Fourth"];
    let expected = "Third, Fourth, First, Second";

    assert_eq!(
        engine::format(haystack, &args.map(|s| s.to_string())),
        Some(expected.to_string())
    );
}

#[test]
fn tests_extra_ordered_parameter() {
    let haystack = "{}, {}, {1}";
    let args = ["First", "Second"];
    let expected = "First, Second, Second";

    assert_eq!(
        engine::format(haystack, &args.map(|s| s.to_string())),
        Some(expected.to_string())
    );
}

#[test]
fn unused_ordered_parameter() {
    let haystack = "{0}, {}";
    let args = ["First", "Second"];

    assert_eq!(
        engine::format(haystack, &args.map(|s| s.to_string())),
        None
    );
}
