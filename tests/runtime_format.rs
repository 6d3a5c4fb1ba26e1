use gettextrs::runtime_format::rt_format;

#[test]
fn partial_escaping() {
    assert_eq!(
        rt_format(
            String::from("{{}, {}}, {{n}, {n}}"),
            vec!["smth".to_string()],
            Option::Some(5.to_string())
        ),
        "{, smth, {n, 5"
    );
}

#[test]
fn rt_format_fills_in_order() {
    assert_eq!(
        rt_format(
            String::from("{} and {}"),
            vec!["one".to_string(), "two".to_string()],
            None
        ),
        "one and two"
    );
}

#[test]
fn rt_format_keeps_placeholders_without_values() {
    assert_eq!(
        rt_format(String::from("{} of {n}"), vec![], None),
        "{} of {n}"
    );
}

#[test]
fn rt_format_drops_stray_braces() {
    assert_eq!(
        rt_format(String::from("a } b { c {nx"), vec![], None),
        "a  b  c x"
    );
}

#[test]
fn rt_format_ignores_extra_arguments() {
    assert_eq!(
        rt_format(
            String::from("only {}"),
            vec!["one".to_string(), "two".to_string()],
            None
        ),
        "only one"
    );
}

#[test]
fn rt_format_keeps_unicode() {
    assert_eq!(
        rt_format(
            String::from("私は{}です! {n}件"),
            vec!["ウクライナ人".to_string()],
            Some("3".to_string())
        ),
        "私はウクライナ人です! 3件"
    );
}
