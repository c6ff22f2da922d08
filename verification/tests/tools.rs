use merlin::cron::Job;
use merlin::exec::Output;
use merlin::json::{self, Json};
use merlin::memory::Record;
use merlin::messages::Archived;
use merlin::tools::{
    self, definitions, Address, Ctx, Fetched, Ip, Outcome, Plan, Redirect, Request, ToolError,
    Tools,
};

fn parse(text: &str) -> Json {
    match json::parse(text) {
        Ok(v) => v,
        Err(e) => panic!("{e}"),
    }
}

fn tools() -> Tools {
    Tools {
        exa_key: Some("exa".into()),
        timezone: "Australia/Sydney".into(),
        max_response_bytes: 100,
    }
}

fn ctx() -> Ctx<'static> {
    Ctx {
        room_id: "!r:x",
        database: true,
        workspace: None,
        progress: true,
    }
}

fn plan(name: &str, args: &str) -> Request {
    match tools().run(name, &parse(args), &ctx()) {
        Ok(Plan::Perform(r)) => r,
        Ok(Plan::Answer(o)) => panic!("{}", o.for_model()),
        Err(e) => panic!("{}", e.message()),
    }
}

fn said(plan: Plan) -> String {
    match plan {
        Plan::Answer(o) => o.for_model(),
        Plan::Perform(_) => panic!("must be answered at once"),
    }
}

#[test]
fn every_tool_the_agent_is_offered_is_described() {
    let names: Vec<String> = definitions()
        .iter()
        .map(|d| {
            let f = d.get("function").unwrap();
            assert_eq!(f.get("parameters").unwrap().str_at("type"), Some("object"));
            assert!(f.str_at("description").unwrap().len() > 20);
            f.str_at("name").unwrap().to_string()
        })
        .collect();

    for expected in [
        "memory_store",
        "memory_recall",
        "memory_forget",
        "search_messages",
        "web_search",
        "web_fetch",
        "generate_image",
        "send_message",
        "write_file",
        "edit_file",
        "bash",
        "cron_create",
        "sql_query",
        "cron_delete",
    ] {
        assert!(names.contains(&expected.to_string()), "missing {expected}");
    }

    for gone in [
        "http_request",
        "time_now",
        "read_file",
        "list_files",
        "grep_files",
    ] {
        assert!(!names.contains(&gone.to_string()), "{gone} should be gone");
    }
}

#[test]
fn every_offered_tool_can_be_called() {
    for d in definitions() {
        let name = d.get("function").unwrap().str_at("name").unwrap().to_string();
        assert!(!matches!(
            tools().run(&name, &parse("{}"), &ctx()),
            Err(ToolError::Unknown(_))
        ));
    }
    assert_eq!(
        said(tools().dispatch("read_file", &parse("{}"), &ctx())),
        "Error from read_file: unknown tool 'read_file'"
    );
}

#[test]
fn fetches_are_refused_when_the_host_is_not_public() {
    for (attempt, ip) in [
        ("http://127.0.0.1:5000/v2/_catalog", Ip::V4(127, 0, 0, 1)),
        ("http://10.0.0.5/", Ip::V4(10, 0, 0, 5)),
        ("http://192.168.1.1/", Ip::V4(192, 168, 1, 1)),
        ("http://169.254.169.254/latest/meta-data/", Ip::V4(169, 254, 169, 254)),
        ("http://[::1]:3001/", Ip::V6(0, 0, 0, 0, 0, 0, 0, 1)),
        ("file:///etc/passwd", Ip::V4(8, 8, 8, 8)),
    ] {
        let resolved = Ok(vec![Address {
            ip,
            shown: "that".into(),
        }]);
        assert!(
            merlin::tools::public_url(attempt, &resolved).is_err(),
            "{attempt} should have been refused"
        );
    }
}

fn url_error(url: &str, resolved: Result<Vec<Address>, String>) -> String {
    tools::public_url(url, &resolved).err().unwrap().message()
}

#[test]
fn a_url_says_why_it_is_refused() {
    let public = || {
        vec![
            Address { ip: Ip::V4(8, 8, 8, 8), shown: "8.8.8.8".into() },
            Address { ip: Ip::V6(0x2606, 0, 0, 0, 0, 0, 0, 1), shown: "2606::1".into() },
        ]
    };
    assert!(tools::public_url("https://example.org/x", &Ok(public())).is_ok());
    assert_eq!(url_error("ftp://example.org", Ok(public())), "only http and https are permitted");
    assert!(url_error("not a url", Ok(public())).starts_with("invalid URL: "));
    assert_eq!(
        url_error("http://nowhere.invalid/", Err("no such host".into())),
        "resolving the host: no such host"
    );
    let mut mixed = public();
    mixed.push(Address { ip: Ip::V4(10, 1, 2, 3), shown: "10.1.2.3".into() });
    assert_eq!(
        url_error("http://sneaky.example/", Ok(mixed)),
        "that host resolves to 10.1.2.3, which is not public"
    );
}

#[test]
fn addresses_that_are_not_public_are_known() {
    for ip in [
        Ip::V4(172, 16, 0, 1),
        Ip::V4(172, 31, 255, 255),
        Ip::V4(0, 0, 0, 0),
        Ip::V6(0, 0, 0, 0, 0, 0, 0, 0),
        Ip::V6(0, 0, 0, 0, 0, 0xffff, 0x7f00, 1),
        Ip::V6(0, 0, 0, 0, 0, 0xffff, 0xc0a8, 0x0101),
        Ip::V6(0xfc00, 0, 0, 0, 0, 0, 0, 1),
        Ip::V6(0xfe80, 0, 0, 0, 0, 0, 0, 1),
    ] {
        assert!(tools::is_internal(ip), "{ip:?}");
    }
    for ip in [
        Ip::V4(172, 15, 0, 1),
        Ip::V4(172, 32, 0, 1),
        Ip::V4(192, 169, 0, 1),
        Ip::V4(0, 0, 0, 1),
        Ip::V6(0, 0, 0, 0, 0, 0xffff, 0x0808, 0x0808),
        Ip::V6(0xfbff, 0, 0, 0, 0, 0, 0, 1),
        Ip::V6(0, 0, 0, 0, 0, 0, 0, 2),
    ] {
        assert!(!tools::is_internal(ip), "{ip:?}");
    }
}

#[test]
fn redirects_are_followed_a_while_and_only_in_public() {
    assert!(matches!(tools::redirect(9, Ok(())), Redirect::Follow));
    assert!(matches!(tools::redirect(10, Ok(())), Redirect::Stop));
    match tools::redirect(0, Err(ToolError::BadScheme)) {
        Redirect::Refuse(why) => assert_eq!(why, "only http and https are permitted"),
        _ => panic!("must be refused"),
    }
}

#[test]
fn calls_are_planned_from_their_arguments() {
    match plan("memory_recall", r#"{"query":"kettle \"broken\"","limit":99}"#) {
        Request::Recall { query, embed, limit } => {
            assert_eq!(query, "kettle \"broken\"");
            assert_eq!(embed, Some("kettle".to_string()));
            assert_eq!(limit, 25);
        }
        _ => panic!("a recall"),
    }
    match plan("search_messages", r#"{"query":"\"invoice\"","limit":0}"#) {
        Request::SearchMessages { embed, limit, .. } => {
            assert_eq!(embed, None, "exact only, no embedding call");
            assert_eq!(limit, 1);
        }
        _ => panic!("a search"),
    }
    match plan("memory_store", r#"{"key":"k","content":"c"}"#) {
        Request::Store { key, content, category } => {
            assert_eq!((key.as_str(), content.as_str(), category.as_str()), ("k", "c", "core"));
        }
        _ => panic!("a note"),
    }
    assert!(matches!(plan("memory_forget", r#"{"key":"k"}"#), Request::Forget { .. }));
    match plan("sql_query", r#"{"query":"SELECT 1"}"#) {
        Request::Sql { limit, .. } => assert_eq!(limit, 50),
        _ => panic!("a query"),
    }
    assert!(matches!(plan("send_message", r#"{"text":"hi"}"#), Request::Send { .. }));
    match plan("web_search", r#"{"query":"rust","num_results":50}"#) {
        Request::WebSearch { query, key, body } => {
            assert_eq!((query.as_str(), key.as_str()), ("rust", "exa"));
            assert_eq!(body.u64_at("numResults"), Some(10));
            let text = body.get("contents").unwrap().get("text").unwrap();
            assert_eq!(text.u64_at("maxCharacters"), Some(1200));
        }
        _ => panic!("a web search"),
    }
    assert!(matches!(plan("web_fetch", r#"{"url":"u"}"#), Request::WebFetch { .. }));
    match plan("generate_image", r#"{"prompt":"p"}"#) {
        Request::GenerateImage { prompt, model } => {
            assert_eq!(prompt, "p");
            assert_eq!(model, None);
        }
        _ => panic!("an image"),
    }
    assert!(matches!(plan("bash", r#"{"script":"ls"}"#), Request::Bash { .. }));
    assert!(matches!(
        plan("write_file", r#"{"path":"a","content":"b"}"#),
        Request::WriteFile { .. }
    ));
    match plan(
        "edit_file",
        r#"{"path":"a","edits":[{"old_text":"x","new_text":"y"}]}"#,
    ) {
        Request::EditFile { path, edits } => {
            assert_eq!(path, "a");
            assert_eq!(edits.len(), 1);
            assert_eq!((edits[0].old.as_str(), edits[0].new.as_str()), ("x", "y"));
        }
        _ => panic!("an edit"),
    }
    match plan(
        "cron_create",
        r#"{"name":"hn","schedule":"0 7 * * *","prompt":"post"}"#,
    ) {
        Request::CronCreate { job } => {
            assert_eq!(job.timezone, "Australia/Sydney");
            assert_eq!(job.room_id, "!r:x");
            assert!(job.enabled);
        }
        _ => panic!("a job"),
    }
    assert!(matches!(plan("cron_delete", r#"{"name":"hn"}"#), Request::CronDelete { .. }));
}

#[test]
fn a_call_that_cannot_be_carried_out_says_why() {
    let say = |name: &str, args: &str| said(tools().dispatch(name, &parse(args), &ctx()));
    for (name, args, missing) in [
        ("memory_recall", "{}", "query"),
        ("memory_store", "{}", "key"),
        ("memory_store", r#"{"key":"k"}"#, "content"),
        ("memory_forget", "{}", "key"),
        ("search_messages", "{}", "query"),
        ("sql_query", r#"{"query":1}"#, "query"),
        ("send_message", "{}", "text"),
        ("web_search", "{}", "query"),
        ("web_fetch", "{}", "url"),
        ("generate_image", "{}", "prompt"),
        ("bash", "{}", "script"),
        ("write_file", "{}", "path"),
        ("write_file", r#"{"path":"p"}"#, "content"),
        ("edit_file", r#"{"path":"p"}"#, "edits"),
        ("edit_file", r#"{"edits":[]}"#, "path"),
        ("edit_file", r#"{"edits":[{"old_text":"x"}]}"#, "new_text"),
        ("edit_file", r#"{"edits":[{"new_text":"x"}]}"#, "old_text"),
        ("cron_create", "{}", "name"),
        ("cron_create", r#"{"name":"n"}"#, "schedule"),
        ("cron_create", r#"{"name":"n","schedule":"s"}"#, "prompt"),
        ("cron_delete", "{}", "name"),
    ] {
        assert_eq!(
            say(name, args),
            format!("Error from {name}: missing required argument '{missing}'")
        );
    }
    assert_eq!(
        say("cron_create", r#"{"name":" ","schedule":"0 7 * * *","prompt":"p"}"#),
        "Error from cron_create: job name cannot be empty"
    );

    let bare = Ctx {
        room_id: "!r:x",
        database: false,
        workspace: Some("creating it failed".into()),
        progress: false,
    };
    assert_eq!(
        said(tools().dispatch("memory_store", &parse(r#"{"key":"k"}"#), &bare)),
        "Error from memory_store: no database for room !r:x"
    );
    assert_eq!(
        said(tools().dispatch("write_file", &parse("{}"), &bare)),
        "Error from write_file: creating it failed"
    );
    assert_eq!(
        said(tools().dispatch("edit_file", &parse("{}"), &bare)),
        "Error from edit_file: missing required argument 'edits'"
    );
    assert_eq!(
        said(tools().dispatch("send_message", &parse(r#"{"text":"x"}"#), &bare)),
        "There is no room to send to from here."
    );
    let keyless = Tools { exa_key: None, ..tools() };
    assert_eq!(
        said(keyless.dispatch("web_search", &parse(r#"{"query":"x"}"#), &bare)),
        "Error from web_search: web search is unavailable: EXA_API_KEY is not set"
    );
}

#[test]
fn outcomes_are_put_into_words() {
    let note = Record {
        key: "kettle".into(),
        content: "is broken".into(),
        category: "core".into(),
        created_at: "2026-01-02T03:04:05Z".into(),
    };
    assert_eq!(
        tools::recalled("q", &[note.clone()]).for_model(),
        "[kettle] (core, 2026-01-02) is broken"
    );
    assert_eq!(
        tools::recalled("q", &[note.clone(), note]).for_model().lines().count(),
        2
    );
    assert_eq!(tools::recalled("q", &[]).for_model(), "No memories matched 'q'.");
    let message = Archived {
        sender: "@sam:x".into(),
        body: "hello".into(),
        at: "2026".into(),
    };
    assert_eq!(
        tools::searched("q", &[message]).for_model(),
        "[2026] @sam:x: hello"
    );
    assert_eq!(tools::searched("q", &[]).for_model(), "No messages matched 'q'.");
    assert_eq!(tools::stored("k").for_model(), "Stored under 'k'.");
    assert_eq!(tools::forgotten("k", true).for_model(), "Deleted 'k'.");
    assert_eq!(tools::forgotten("k", false).for_model(), "No memory under 'k'.");
    assert_eq!(tools::sent().for_model(), "Sent to the room.");
    let job = Job {
        name: "hn".into(),
        schedule: "0 7 * * *".into(),
        timezone: "UTC".into(),
        prompt: "p".into(),
        room_id: "!r".into(),
        enabled: true,
    };
    assert_eq!(
        tools::scheduled(&job).for_model(),
        "Scheduled 'hn' at '0 7 * * *'. The reconcile loop picks it up within a minute."
    );
    assert_eq!(tools::unscheduled("hn", true).for_model(), "Deleted job 'hn'.");
    assert_eq!(tools::unscheduled("hn", false).for_model(), "No job named 'hn'.");
    assert_eq!(
        Outcome::Image { bytes: vec![], media_type: "m".into(), caption: "c".into() }.for_model(),
        "Image generated and sent to the room: c"
    );
}

#[test]
fn the_body_of_a_web_search_is_read() {
    assert_eq!(
        tools::web_reply("q", r#"{"results":[{"title":"One","url":"https://a","text":"body"}]}"#)
            .unwrap_or_else(|e| panic!("{}", e.message()))
            .for_model(),
        "One\nhttps://a\nbody"
    );
    match tools::web_reply("q", "<html>") {
        Ok(_) => panic!("that is no JSON"),
        Err(e) => assert_eq!(
            e.message(),
            "decoding Exa response: error decoding response body: expected value at line 1 column 1"
        ),
    }
}

#[test]
fn web_results_are_put_into_words() {
    let payload = parse(
        r#"{"results":[{"title":"One","url":"https://a","text":"body"},{"url":"https://b"}]}"#,
    );
    assert_eq!(
        tools::web_found("q", &payload).for_model(),
        "One\nhttps://a\nbody\n\n---\n\n(untitled)\nhttps://b\n"
    );
    assert_eq!(tools::web_found("q", &parse("{}")).for_model(), "No results for 'q'.");
    assert_eq!(
        tools::web_found("q", &parse(r#"{"results":[]}"#)).for_model(),
        "No results for 'q'."
    );
}

fn output(stdout: &str, stderr: &str, exit_code: Option<i32>, timed_out: bool) -> Output {
    Output {
        stdout: stdout.into(),
        stderr: stderr.into(),
        exit_code,
        timed_out,
    }
}

#[test]
fn the_report_of_a_script_tells_how_it_ended() {
    assert_eq!(tools::ran(&output("42\n", "", Some(0), false)).for_model(), "42\n");
    assert_eq!(
        tools::ran(&output("", "bad", Some(2), false)).for_model(),
        "\n[stderr]\nbad\n[exit 2]"
    );
    assert_eq!(
        tools::ran(&output("", "", None, true)).for_model(),
        "\n[timed out]"
    );
    assert_eq!(tools::ran(&output(" \n", "", None, false)).for_model(), " \n(no output)");
    assert_eq!(
        tools::ran(&output("x", "", Some(-11), false)).for_model(),
        "x\n[exit -11]"
    );
}

#[test]
fn a_page_is_taken_in_up_to_the_cap() {
    assert!(matches!(
        tools::fetched("200 OK", true, &[0u8; 11], 10),
        Err(ToolError::TooLarge(10))
    ));
    match tools::fetched("404 Not Found", false, b"gone", 10) {
        Ok(Fetched::Answer(o)) => assert_eq!(o.for_model(), "HTTP 404 Not Found\ngone"),
        _ => panic!("shown as it is"),
    }
    match tools::fetched("200 OK", true, b"<p>hi</p>", 10) {
        Ok(Fetched::Render(page)) => assert_eq!(page, "<p>hi</p>"),
        _ => panic!("a page"),
    }
}

#[test]
fn a_plain_page_becomes_text() {
    let html = "<html><body><h1>Title</h1><p>one <b>two</b></p></body></html>";
    let text = tools::render_page(html).expect("a plain page");
    let text = text.expect("text");
    assert!(text.contains("Title"));
    assert!(text.contains("one"));
    assert!(!text.contains("<p>"));
    assert_eq!(tools::page(html, &Some(text.clone())).for_model(), text);
    assert_eq!(tools::page(html, &None).for_model(), html);

    let rendered = |html: &str| tools::render_page(html).expect(html).expect("text");
    assert_eq!(rendered("a &amp; b&nbsp;&#x2014; &#169;\r\n"), "a & b\u{a0}\u{2014} \u{a9}\n");
    assert_eq!(rendered("<p>caf\u{e9}\t\u{65e5}\u{672c} \u{1f600}</p>"), "caf\u{e9} \u{65e5}\u{672c} \u{1f600}\n");
    assert_eq!(rendered("<ol start=4><li>x<li>y</ol>"), "4. x\n5. y\n");
    assert!(rendered("<table><tr><td>a<td>b<tr><td>c</table>").contains("a\u{2502}b"));

    for html in [
        "<PRE>\t</PRE>",
        "<Table><tr><td ROWSPAN=2>a</table>",
        "<table><tr><td colspan=0>a</table>",
        "<OL START=9223372036854775807><li>x</ol>",
        "<ol start=&#57;><li>x</ol>",
        "\u{1f44d}\u{1f3fd}",
        "&#127995;",
        "&#x1F3fd",
        "&#x200D;",
        "&zwj;",
        "\u{644}\u{627}",
        "\u{2764}\u{fe0f}",
    ] {
        assert!(tools::render_page(html).is_none(), "{html}");
    }
    for html in [
        "start 1234567890123456789",
        "<ol start=999999999999999999><li>x</ol>",
        "<span colspan=2>a</span>",
        "<table></table>",
        "&#99999999999999999999;",
        "&zwnj;",
        "&#x;",
        "&#",
        "",
    ] {
        assert!(tools::render_page(html).is_some(), "{html}");
    }

    let long = "x".repeat(13_000);
    let shown = tools::page("", &Some(long)).for_model();
    assert_eq!(shown.chars().count(), 12_001);
    assert!(shown.ends_with('\u{2026}'));
}
