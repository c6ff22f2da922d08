use merlin::memory;
use merlin::messages::{self, Archived};
use merlin::query::{self, Term};
use merlin::search::{Lookup, Search};

fn said(body: &str) -> Archived {
    Archived {
        sender: "@x".into(),
        body: body.into(),
        at: "2026".into(),
    }
}

fn steps(mut search: Search) -> Vec<String> {
    let mut out = Vec::new();
    while let Some(l) = search.current() {
        out.push(match l {
            Lookup::Index { index, expr, .. } => format!("index {index} {expr}"),
            Lookup::Nearest { limit } => format!("nearest {limit}"),
            Lookup::Ranked { expr, cap, .. } => format!("ranked {expr} {cap}"),
            Lookup::Similar {
                index, expr, over, ..
            } => format!("similar {index} {expr} {over}"),
            Lookup::Like { pattern, .. } => format!("like {pattern}"),
        });
        search.found(0);
    }
    out
}

#[test]
fn quoted_and_bare_terms_are_told_apart() {
    let ts = query::parse("World cup \"2025 final\" a &");
    let shown: Vec<(&str, bool)> = ts.iter().map(|t| (t.text.as_str(), t.exact)).collect();
    assert_eq!(
        shown,
        vec![("world", false), ("cup", false), ("2025 final", true)]
    );
    assert_eq!(query::loose_text("moving \"the\" hardware"), "moving hardware");
    assert_eq!(query::loose_text("\"invoice\""), "");
}

#[test]
fn queries_side_by_side_have_the_terms_of_both() {
    for (a, b) in [
        ("World cup \"2025\"", "final \"x y\" cup"),
        ("\"one\"two", "\"open"),
        ("a-b", ""),
        ("", "cup cup"),
        ("\"\"", "\"\""),
    ] {
        let mut both = query::parse(a);
        both.extend(query::parse(b));
        assert_eq!(query::parse(&format!("{a} {b}")), both, "{a} {b}");
    }
    assert_eq!(query::parse("\"open a \"b\""), query::parse("\"open a\" b"));
}

#[test]
fn a_term_has_to_be_long_enough() {
    for (text, exact, kept) in [
        ("", true, false),
        ("a", true, true),
        ("ab", false, false),
        ("abc", false, true),
        ("\u{e9}\u{e9}", false, false),
        ("\u{e9}\u{e9}\u{e9}", false, true),
    ] {
        let term = query::term_of(text.into(), exact);
        assert_eq!(term, kept.then(|| Term { text: text.into(), exact }), "{text}");
    }
}

#[test]
fn text_is_put_in_lowercase() {
    assert_eq!(merlin::text::to_lowercase("AbZ @[`{ 09"), "abz @[`{ 09");
    assert_eq!(merlin::text::to_lowercase("\u{c9}T\u{c9} \u{39f}\u{3a3}"), "\u{e9}t\u{e9} \u{3bf}\u{3c2}");
    assert_eq!(merlin::text::from_utf8_lossy("caf\u{e9}".as_bytes()), "caf\u{e9}");
    assert_eq!(merlin::text::from_utf8_lossy(b"a\xffb"), "a\u{fffd}b");
}

#[test]
fn required_terms_are_all_required() {
    let a = Term { text: "a\"b".into(), exact: true };
    let b = Term { text: "c".into(), exact: true };
    assert_eq!(query::required_expr(&[&a, &b]), "\"a\"\"b\" AND \"c\"");
    assert_eq!(query::escape("\"\""), "\"\"\"\"");
    assert_eq!(query::quote("x"), "\"x\"");
}

#[test]
fn a_search_goes_by_meaning_first_and_by_text_at_last() {
    assert_eq!(
        steps(messages::search("cup \"2025\"", true, 5)),
        vec![
            "ranked \"2025\" 500",
            "similar messages_fts \"2025\" 40",
            "index messages_fts \"2025\""
        ]
    );
    assert_eq!(
        steps(messages::search("cups", true, 6)),
        vec!["nearest 6", "similar messages_trigram \"cup\" OR \"ups\" 48"]
    );
    assert_eq!(
        steps(messages::search("\"invoice\"", true, 5)),
        vec!["index messages_fts \"invoice\""]
    );
    assert!(steps(messages::search("", true, 5)).is_empty());
}

#[test]
fn a_recall_requires_what_is_quoted() {
    assert_eq!(
        steps(memory::recall("kettle \"x1\"", true, 5)),
        vec!["ranked \"x1\" 500", "index memories_fts \"x1\""]
    );
    assert_eq!(
        steps(memory::recall("kettle \"x1\"", false, 5)),
        vec!["index memories_fts \"x1\""]
    );
    for vector in [false, true] {
        assert_eq!(
            steps(memory::recall("\"x1\"", vector, 5)),
            vec!["index memories_fts \"x1\""]
        );
    }
}

#[test]
fn a_recall_without_quotes_ends_with_the_text_itself() {
    assert_eq!(
        steps(memory::recall("kettle X1", true, 5)),
        vec![
            "nearest 5",
            "index memories_fts \"kettle\" OR \"x1\"",
            "like %kettle X1%"
        ]
    );
    assert_eq!(steps(memory::recall("!", false, 5)), vec!["like %!%"]);
}

#[test]
fn a_search_stops_where_something_is_found() {
    let mut s = messages::search("cups", true, 5);
    s.found(1);
    assert!(s.current().is_none());
}

#[test]
fn words_that_are_nearly_alike_are_found_best_first() {
    let rows = vec![said("a shoe"), said("the shoelace"), said("a shoelase!")];
    let found = messages::rank_alike(&["shoelase".into()], rows, 5);
    let bodies: Vec<&str> = found.iter().map(|r| r.body.as_str()).collect();
    assert_eq!(bodies, vec!["a shoelase!", "the shoelace", "a shoe"]);
    assert!(messages::rank_alike(&["elephant".into()], vec![said("the boot")], 5).is_empty());
    assert_eq!(messages::best_similarity(&["boot".into()], "the BOOT"), 1.0f64.to_bits());
    assert_eq!(messages::best_similarity(&[], "the boot"), 0);
    assert_eq!(messages::ALIKE, 0.82f64.to_bits());
}
