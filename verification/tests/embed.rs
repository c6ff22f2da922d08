use merlin::embed::{self, EmbedError, Embedder};
use merlin::json::Json;

fn embedder() -> Embedder {
    Embedder::new("key".into(), "a/model".into(), 2, 10)
}

fn shown(v: &[Json]) -> Vec<String> {
    v.iter()
        .map(|n| match n {
            Json::Number(_, text) => text.clone(),
            _ => "other".into(),
        })
        .collect()
}

#[test]
fn texts_are_clipped_before_they_are_embedded() {
    let e = embedder();
    assert!(e.request(&[]).is_none(), "nothing is asked for nothing");
    let body = e.request(&["\u{e9}".repeat(5000), "short".into()]).unwrap();
    assert_eq!(body.str_at("model"), Some("a/model"));
    assert_eq!(body.u64_at("dimensions"), Some(2));
    let input = body.array_at("input").unwrap();
    assert_eq!(input[0].as_str().unwrap().chars().count(), 4000);
    assert_eq!(input[1].as_str(), Some("short"));
    assert_eq!((e.model(), e.dimensions(), e.timeout_s()), ("a/model", 2, 10));
}

#[test]
fn vectors_come_in_the_order_of_their_texts() {
    let raw = r#"{"data":[{"index":1,"embedding":[3,4.5]},{"index":0,"embedding":[1,"x"]}]}"#;
    let vs = embedder().embed("200 OK", true, raw, 2).unwrap();
    assert_eq!(shown(&vs[0]), vec!["1", "other"]);
    assert_eq!(shown(&vs[1]), vec!["3", "4.5"]);
}

#[test]
fn a_reply_without_the_vectors_says_why() {
    let e = embedder();
    let text = |success: bool, raw: &str| e.embed("500 X", success, raw, 1).err().unwrap().message();
    assert_eq!(text(false, "why"), "OpenRouter embeddings 500 X: why");
    assert!(text(true, "{").starts_with("decoding embeddings response: "));
    assert_eq!(text(true, "{}"), "embeddings response had no data array");
    assert_eq!(
        text(true, r#"{"data":[{}]}"#),
        "embedding item had no embedding array"
    );
    assert_eq!(
        text(true, r#"{"data":[{"embedding":[1]}]}"#),
        "model returned 1 dimensions, expected 2"
    );
    assert_eq!(text(true, r#"{"data":[]}"#), "asked for 1 embeddings, got 0");
    assert!(matches!(
        e.embed("200 OK", true, r#"{"data":[]}"#, 3),
        Err(EmbedError::Count { asked: 3, got: 0 })
    ));
}

#[test]
fn the_best_candidates_come_first_and_equals_keep_their_order() {
    let candidates = vec![
        (None, "none"),
        (Some(5), "a"),
        (Some(9), "b"),
        (Some(5), "c"),
    ];
    assert_eq!(embed::rank(candidates.clone(), 9), vec!["b", "a", "c", "none"]);
    assert_eq!(embed::rank(candidates, 2), vec!["b", "a"]);
    assert!(
        embed::rank(vec![(None, "x")], 5).is_empty(),
        "without a single vector there is nothing to go by"
    );
    assert_eq!(
        merlin::rank::rank_all(vec![(1, 'a'), (2, 'b'), (1, 'c')]),
        vec!['b', 'a', 'c']
    );
}

#[test]
fn the_loop_rests_longer_when_there_was_nothing_to_do() {
    assert_eq!(embed::rest_s(true), 2);
    assert_eq!(embed::rest_s(false), 60);
}
