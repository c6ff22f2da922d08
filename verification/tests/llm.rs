use merlin::json::{self, Json};
use merlin::llm::{
    self, Attachment, ChatStep, Completion, Failure, FunctionCall, ImageError, Llm, Message,
    Stream, ToolCall, Usage,
};

fn parse(text: &str) -> Json {
    match json::parse(text) {
        Ok(v) => v,
        Err(e) => panic!("{e}"),
    }
}

fn text_at(v: &Json, key: &str) -> String {
    v.str_at(key).unwrap().to_string()
}

#[test]
fn switching_model_returns_the_previous_slug() {
    let mut llm = Llm::new("key".into(), "old/model".into(), "medium".into(), 10);

    assert_eq!(llm.switch_model("new/model"), "old/model");
    assert_eq!(llm.model(), "new/model");
    assert_eq!(llm.switch_reasoning_effort("high"), "medium");
    assert_eq!(llm.reasoning_effort(), "high");
}

#[test]
fn a_switch_holds_for_the_requests_after_it() {
    let mut llm = Llm::new("key".into(), "old/model".into(), "medium".into(), 10);
    llm.switch_model("new/model");
    llm.switch_reasoning_effort("high");
    let body = llm.chat_body(&[Message::user("hi")], &[]);
    assert_eq!(text_at(&body, "model"), "new/model");
    assert_eq!(text_at(body.get("reasoning").unwrap(), "effort"), "high");
}

#[test]
fn tool_results_and_calls_match_the_openai_wire_format() {
    let result = Message::tool_result("call_1", "42").to_json();
    assert_eq!(text_at(&result, "role"), "tool");
    assert_eq!(text_at(&result, "tool_call_id"), "call_1");
    assert!(result.get("tool_calls").is_none());

    let parsed = Message::from_json(&parse(
        r#"{
        "role": "assistant",
        "content": null,
        "tool_calls": [{
            "id": "c1",
            "type": "function",
            "function": { "name": "memory_recall", "arguments": "{\"query\":\"kettle\"}" }
        }]
    }"#,
    ))
    .unwrap();
    assert_eq!(parsed.tool_calls[0].function.name, "memory_recall");
}

#[test]
fn a_message_with_images_serialises_as_multipart_content() {
    let m = Message::user_with_images(
        "look at this",
        &[Attachment {
            bytes: vec![1, 2, 3],
            media_type: "image/png".into(),
        }],
    );
    let v = m.to_json();
    let parts = v.array_at("content").expect("content must be an array");
    assert_eq!(text_at(&parts[0], "type"), "text");
    assert_eq!(text_at(&parts[0], "text"), "look at this");
    assert_eq!(text_at(&parts[1], "type"), "image_url");
    let url = text_at(parts[1].get("image_url").unwrap(), "url");
    assert!(url.starts_with("data:image/png;base64,"));
    assert_eq!(url, "data:image/png;base64,AQID");
    assert!(m.text().is_none());

    let plain = Message::user("hello").to_json();
    assert!(plain.str_at("content").is_some());
}

#[test]
fn a_message_sent_is_read_back() {
    let m = Message {
        role: "assistant".into(),
        content: Some(json::text("thinking")),
        tool_calls: vec![ToolCall {
            id: "c1".into(),
            kind: "function".into(),
            function: FunctionCall {
                name: "bash".into(),
                arguments: "{}".into(),
            },
        }],
        tool_call_id: Some("t".into()),
    };
    let back = Message::from_json(&m.to_json()).unwrap();
    assert_eq!(back.role, "assistant");
    assert_eq!(back.text(), Some("thinking"));
    assert_eq!(back.tool_calls.len(), 1);
    assert_eq!(back.tool_calls[0].id, "c1");
    assert_eq!(back.tool_calls[0].function.arguments, "{}");
    assert_eq!(back.tool_call_id, Some("t".to_string()));

    assert!(Message::from_json(&parse(r#"{"content":"no role"}"#)).is_none());
    assert!(Message::from_json(&parse(r#"{"role":"a","tool_calls":[{"id":"x"}]}"#)).is_none());
    let kind = Message::from_json(&parse(
        r#"{"role":"a","tool_calls":[{"id":"x","function":{"name":"n","arguments":""}}]}"#,
    ))
    .unwrap();
    assert_eq!(kind.tool_calls[0].kind, llm::default_tool_type());
}

#[test]
fn the_request_offers_tools_and_caps_reasoning() {
    let llm = Llm::new("key".into(), "m".into(), "low".into(), 10);
    let tools = [json::text("a tool")];
    let body = llm.chat_body(&[Message::system("s"), Message::user("u")], &tools);
    assert_eq!(text_at(&body, "model"), "m");
    assert_eq!(body.array_at("messages").unwrap().len(), 2);
    assert!(matches!(body.get("stream"), Some(Json::Bool(true))));
    assert!(matches!(
        body.get("stream_options").unwrap().get("include_usage"),
        Some(Json::Bool(true))
    ));
    assert_eq!(body.array_at("tools").unwrap().len(), 1);
    assert_eq!(text_at(&body, "tool_choice"), "auto");
    assert_eq!(text_at(body.get("reasoning").unwrap(), "effort"), "low");

    for effort in ["", "default"] {
        let llm = Llm::new("key".into(), "m".into(), effort.into(), 10);
        let body = llm.chat_body(&[], &[]);
        assert!(body.get("reasoning").is_none());
        assert!(body.get("tools").is_none());
        assert!(body.get("tool_choice").is_none());
    }
}

fn finish(chunks: &[&str]) -> Completion {
    let mut s = Stream::new();
    for chunk in chunks {
        s.feed(chunk.as_bytes());
    }
    s.finish()
}

const EVENTS: &str = "data: {\"choices\":[{\"delta\":{\"content\":\"Hel\"}}]}\n\
: a comment\n\
\n\
data: {\"choices\":[{\"delta\":{\"content\":\"lo\"}}]}\r\n\
data: not json\n\
data: {\"usage\":{\"prompt_tokens\":7,\"completion_tokens\":3},\"choices\":[]}\n\
data: [DONE]\n";

#[test]
fn an_answer_is_put_together_from_events() {
    let c = finish(&[EVENTS]);
    assert_eq!(c.message.role, "assistant");
    assert_eq!(c.message.text(), Some("Hello"));
    assert_eq!(c.usage.prompt, 7);
    assert_eq!(c.usage.completion, 3);
    assert_eq!(c.usage.total(), 10);
    assert!(c.message.tool_calls.is_empty());
}

#[test]
fn it_does_not_matter_where_the_stream_is_cut() {
    for at in 0..EVENTS.len() {
        let (a, b) = EVENTS.split_at(at);
        assert_eq!(finish(&[a, b]).message.text(), Some("Hello"), "cut at {at}");
    }
}

#[test]
fn an_answer_without_text_has_no_content() {
    let c = finish(&["data: {\"choices\":[]}\n", "data: {\"choices\":[{\"delta\":{\"content\":\"lost"]);
    assert!(c.message.content.is_none());
}

#[test]
fn bytes_that_are_no_text_do_not_stop_a_stream() {
    let mut s = Stream::new();
    s.feed(b"data: {\"choices\":[{\"delta\":{\"content\":\"a\xffb\"}}]}\n");
    assert_eq!(s.finish().message.text(), Some("a\u{fffd}b"));
}

#[test]
fn fragments_of_tool_calls_join_by_index() {
    let mut calls: Vec<ToolCall> = Vec::new();
    let parts = |text: &str| match parse(text) {
        Json::Array(v) => v,
        _ => panic!("an array"),
    };
    llm::merge_tool_calls(
        &mut calls,
        &parts(r#"[{"index":1,"id":"b","function":{"name":"ba","arguments":"{\"x\""}}]"#),
    );
    llm::merge_tool_calls(
        &mut calls,
        &parts(r#"[{"index":1,"function":{"name":"sh","arguments":":1}"}},{"id":"a"}]"#),
    );
    assert_eq!(calls.len(), 2);
    assert_eq!(calls[0].id, "a");
    assert_eq!(calls[0].kind, "function");
    assert_eq!(calls[0].function.name, "");
    assert_eq!(calls[1].id, "b");
    assert_eq!(calls[1].function.name, "bash");
    assert_eq!(calls[1].function.arguments, "{\"x\":1}");
}

#[test]
fn failures_that_pass_are_repeated_once() {
    let timeout = llm::classify(Failure::Timeout, "chat", "ignored");
    assert_eq!(
        timeout,
        "OpenRouter chat timed out; the model took too long to respond"
    );
    let connect = llm::classify(Failure::Connect, "chat", "refused");
    assert_eq!(connect, "could not reach OpenRouter chat: refused");
    let other = llm::classify(Failure::Other, "chat stream", "reset");
    assert_eq!(other, "OpenRouter chat stream request failed: reset");
    assert!(llm::is_transient(&timeout));
    assert!(llm::is_transient(&connect));
    assert!(!llm::is_transient(&other));

    for status in ["500 Internal Server Error", "502 Bad Gateway", "503 Service Unavailable", "504 Gateway Timeout"] {
        assert!(llm::is_transient(&llm::refusal(status, "")), "{status}");
    }
    for status in ["400 Bad Request", "401 Unauthorized", "429 Too Many Requests"] {
        for body in ["no", "timed out", "could not reach the backend", "chat 503"] {
            assert!(!llm::is_transient(&llm::refusal(status, body)), "{status}: {body}");
        }
    }
    assert!(llm::is_transient(&llm::refusal("503 Service Unavailable", "chat 400")));
    assert!(llm::is_transient("chat 503"));

    assert!(matches!(
        Llm::chat(Err(timeout.clone()), false),
        ChatStep::Again { after_s: 2 }
    ));
    assert!(matches!(Llm::chat(Err(timeout), true), ChatStep::Failed(_)));
    match Llm::chat(Err(other), false) {
        ChatStep::Failed(e) => assert!(e.contains("reset")),
        _ => panic!("must fail at once"),
    }
    let done = Completion {
        message: Message::user("x"),
        usage: Usage { prompt: 1, completion: 2 },
    };
    assert!(matches!(Llm::chat(Ok(done), false), ChatStep::Done(_)));
}

#[test]
fn a_refusal_shows_the_first_line_of_the_body() {
    assert_eq!(llm::refusal("400 Bad Request", "one\r\ntwo"), "OpenRouter chat 400 Bad Request: one");
    assert_eq!(llm::head(""), "(empty body)");
    assert_eq!(llm::head("\nsecond"), "(empty body)");
    assert_eq!(llm::head("bare\r"), "bare\r");
    assert_eq!(llm::head(&"x".repeat(300)).len(), 200);
}

#[test]
fn an_image_reply_is_decoded() {
    let ok = Llm::image(
        "200 OK",
        true,
        r#"{"data":[{"b64_json":"AQID","media_type":"image/webp"}]}"#,
    );
    match ok {
        Ok(image) => {
            assert_eq!(image.bytes, vec![1, 2, 3]);
            assert_eq!(image.media_type, "image/webp");
        }
        Err(e) => panic!("{}", e.message()),
    }
    let plain = Llm::image("200 OK", true, r#"{"data":[{"b64_json":""}]}"#);
    assert_eq!(plain.ok().unwrap().media_type, "image/png");
}

#[test]
fn an_image_reply_says_what_is_wrong_with_it() {
    let text = |success: bool, raw: &str| {
        Llm::image("500 Internal Server Error", success, raw)
            .err()
            .unwrap()
            .message()
    };
    assert!(text(true, "<html>")
        .starts_with("OpenRouter images returned non-JSON (500 Internal Server Error): "));
    assert!(text(true, "<html>").ends_with(": <html>"));
    assert_eq!(
        text(false, r#"{"error":{"message":"no credit"}}"#),
        "OpenRouter images 500 Internal Server Error: no credit"
    );
    assert_eq!(
        text(false, "{}"),
        "OpenRouter images 500 Internal Server Error: unknown error"
    );
    assert_eq!(text(true, "{}"), "image response had no data");
    assert_eq!(text(true, r#"{"data":[{}]}"#), "image response had no b64_json");
    assert!(text(true, r#"{"data":[{"b64_json":"%%"}]}"#).starts_with("decoding image base64: "));
    assert!(matches!(
        Llm::image("200 OK", true, r#"{"data":[]}"#),
        Err(ImageError::NoData)
    ));
    let body = Llm::image_body("a cat", "some/model");
    assert_eq!(text_at(&body, "prompt"), "a cat");
    assert_eq!(text_at(&body, "model"), "some/model");
}
