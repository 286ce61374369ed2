use commit_filter::mask::FilterBy;
use commit_filter::revlog::Revlog;

#[test]
fn test_get_what_to_filter_by_flags() {
    assert_eq!(
        Revlog::get_what_to_filter_by("foo"),
        vec![vec![("foo".to_owned(), FilterBy::everywhere())]]
    );

    assert_eq!(
        Revlog::get_what_to_filter_by(":s foo"),
        vec![vec![("foo".to_owned(), FilterBy::sha())]]
    );

    assert_eq!(
        Revlog::get_what_to_filter_by(":sm foo"),
        vec![vec![("foo".to_owned(), FilterBy::sha().union(FilterBy::message()))]]
    );

    assert_eq!(
        Revlog::get_what_to_filter_by(":samt foo"),
        vec![vec![("foo".to_owned(), FilterBy::everywhere())]]
    );

    assert_eq!(
        Revlog::get_what_to_filter_by(":!csamt foo"),
        vec![vec![("foo".to_owned(), FilterBy::all())]]
    );

    assert_eq!(
        Revlog::get_what_to_filter_by(":!c foo"),
        vec![vec![("foo".to_owned(), FilterBy::all())]]
    );

    assert_eq!(
        Revlog::get_what_to_filter_by(":! foo"),
        vec![vec![("foo".to_owned(), FilterBy::everywhere().union(FilterBy::negate()))]]
    );

    assert_eq!(
        Revlog::get_what_to_filter_by(":c foo"),
        vec![vec![(
            "foo".to_owned(),
            FilterBy::everywhere().union(FilterBy::case_sensitive())
        )]]
    );

    assert_eq!(
        Revlog::get_what_to_filter_by(":!m foo"),
        vec![vec![("foo".to_owned(), FilterBy::message().union(FilterBy::negate()))]]
    );
}

#[test]
fn test_get_what_to_filter_by_log_op() {
    assert_eq!(
        Revlog::get_what_to_filter_by("foo && bar"),
        vec![vec![
            ("foo".to_owned(), FilterBy::everywhere()),
            ("bar".to_owned(), FilterBy::everywhere())
        ]]
    );

    assert_eq!(
        Revlog::get_what_to_filter_by("foo || bar"),
        vec![
            vec![("foo".to_owned(), FilterBy::everywhere())],
            vec![("bar".to_owned(), FilterBy::everywhere())]
        ]
    );

    assert_eq!(
        Revlog::get_what_to_filter_by("foo && bar || :m baz"),
        vec![
            vec![
                ("foo".to_owned(), FilterBy::everywhere()),
                ("bar".to_owned(), FilterBy::everywhere())
            ],
            vec![("baz".to_owned(), FilterBy::message())]
        ]
    );
}

#[test]
fn test_get_what_to_filter_by_spaces() {
    assert_eq!(
        Revlog::get_what_to_filter_by("foo&&bar"),
        vec![vec![
            ("foo".to_owned(), FilterBy::everywhere()),
            ("bar".to_owned(), FilterBy::everywhere())
        ]]
    );
    assert_eq!(
        Revlog::get_what_to_filter_by("  foo  &&  bar  "),
        vec![vec![
            ("foo".to_owned(), FilterBy::everywhere()),
            ("bar".to_owned(), FilterBy::everywhere())
        ]]
    );

    assert_eq!(
        Revlog::get_what_to_filter_by("  foo  bar   baz "),
        vec![vec![("foo  bar   baz".to_owned(), FilterBy::everywhere())]]
    );
    assert_eq!(
        Revlog::get_what_to_filter_by(" :m  foo  bar   baz "),
        vec![vec![("foo  bar   baz".to_owned(), FilterBy::message())]]
    );
    assert_eq!(
        Revlog::get_what_to_filter_by(" :m  foo  bar   baz && qwe   t "),
        vec![vec![
            ("foo  bar   baz".to_owned(), FilterBy::message()),
            ("qwe   t".to_owned(), FilterBy::everywhere())
        ]]
    );
}

#[test]
fn test_get_what_to_filter_by_invalid_flags_ignored() {
    assert_eq!(
        Revlog::get_what_to_filter_by(":q foo"),
        vec![vec![("foo".to_owned(), FilterBy::everywhere())]]
    );
    assert_eq!(
        Revlog::get_what_to_filter_by(":mq foo"),
        vec![vec![("foo".to_owned(), FilterBy::message())]]
    );
}

fn compile(raw: &str) -> Vec<Vec<(String, FilterBy)>> {
    let pre = Revlog::pre_process_string(raw.to_string());
    Revlog::get_what_to_filter_by(pre.trim())
}

#[test]
fn test_bracket_distribution() {
    assert_eq!(compile("x&&(a||b)"), compile("x&&a||x&&b"));
    assert_eq!(
        compile("x&&(a||b)"),
        vec![
            vec![
                ("x".to_owned(), FilterBy::everywhere()),
                ("a".to_owned(), FilterBy::everywhere())
            ],
            vec![
                ("x".to_owned(), FilterBy::everywhere()),
                ("b".to_owned(), FilterBy::everywhere())
            ]
        ]
    );
}

#[test]
fn test_pre_process_string_distributes() {
    assert_eq!(Revlog::pre_process_string("x&&(a||b)".to_string()), "x&&a||x&&b");
}

#[test]
fn test_pre_process_string_without_brackets_unchanged() {
    assert_eq!(Revlog::pre_process_string("foo && bar".to_string()), "foo && bar");
}

#[test]
fn test_pre_process_string_unbalanced_unchanged() {
    assert_eq!(Revlog::pre_process_string("a&&(b".to_string()), "a&&(b");
}

#[test]
fn test_pre_process_string_nested_brackets() {
    assert_eq!(
        Revlog::pre_process_string("a&&(b||c&&(d||e))".to_string()),
        "a&&b||a&&c&&d||a&&b||a&&c&&a&&e"
    );
}

#[test]
fn test_pre_process_string_pass_budget() {
    // Two multi-alternative groups in one conjunction make every pass
    // duplicate the second group without ever reducing the number of
    // markers, so the rewriting would go on without bound; when the pass
    // budget (one per opening bracket, spent only on such passes) runs out,
    // the input comes back unchanged rather than half rewritten.
    assert_eq!(
        Revlog::pre_process_string("a&&(b||c)&&(d||e)".to_string()),
        "a&&(b||c)&&(d||e)"
    );
}

#[test]
fn test_pre_process_string_trailing_group_expands() {
    // The first pass duplicates the single-alternative group without
    // reducing the marker count, but the two passes that expand the copies
    // do reduce it and spend no budget, so the string expands fully.
    assert_eq!(
        Revlog::pre_process_string("a&&(b||c)&&(d)e".to_string()),
        "a&&b&&de||a&&c&&de"
    );
}

#[test]
fn test_pre_process_string_idempotent() {
    // The output is always a fixpoint: fully expanded, at rest on an
    // unbalanced group, or — on the unboundedly duplicating inputs the
    // budget cuts off — the input itself.
    for raw in [
        "a&&(b||c)&&(d)e",
        "a&&(b||c&&(d||e))",
        "a&&(b",
        "x&&(a||b)",
        "plain",
        "a&&(b||c)&&(d||e)",
    ] {
        let once = Revlog::pre_process_string(raw.to_string());
        let twice = Revlog::pre_process_string(once.clone());
        assert_eq!(twice, once);
    }
}

#[test]
fn test_remove_out_brackets_single_pass() {
    assert_eq!(Revlog::remove_out_brackets("x&&(a||b)"), "x&&a||x&&b");
    assert_eq!(Revlog::remove_out_brackets("no brackets"), "no brackets");
}

#[test]
fn test_get_ending_bracket() {
    assert_eq!(Revlog::get_ending_bracket("ab)cd"), Some(2));
    assert_eq!(Revlog::get_ending_bracket("(a)b)"), Some(4));
    assert_eq!(Revlog::get_ending_bracket("abc"), None);
    assert_eq!(Revlog::get_ending_bracket("(a(b)c"), None);
}

#[test]
fn test_compile_empty_string() {
    assert_eq!(
        Revlog::get_what_to_filter_by(""),
        vec![vec![("".to_owned(), FilterBy::everywhere())]]
    );
}

#[test]
fn test_flags_without_text() {
    assert_eq!(
        Revlog::get_what_to_filter_by(":m"),
        vec![vec![("".to_owned(), FilterBy::message())]]
    );
}
