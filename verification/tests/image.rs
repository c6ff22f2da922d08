use merlin::image::{self, ImageGen, Picture, Provider};
use merlin::json;

fn generator(provider: Provider) -> ImageGen {
    match ImageGen::new(
        provider,
        "a/model".into(),
        "openrouter-key".into(),
        Some("fal-key".into()),
        60,
    ) {
        Ok(g) => g,
        Err(e) => panic!("{}", e.message()),
    }
}

#[test]
fn choosing_fal_without_a_key_fails_at_startup() {
    let err = match merlin::image::ImageGen::new(
        merlin::image::Provider::Fal,
        "fal-ai/z-image/turbo".into(),
        "openrouter-key".into(),
        None,
        60,
    ) {
        Ok(_) => panic!("fal with no key must not construct"),
        Err(e) => e.message(),
    };
    assert!(err.contains("FAL_API_KEY"), "got: {err}");

    assert!(merlin::image::ImageGen::new(
        merlin::image::Provider::OpenRouter,
        "meta/muse-image".into(),
        "openrouter-key".into(),
        None,
        60,
    )
    .is_ok());
}

#[test]
fn providers_are_known_by_name() {
    for name in ["openrouter", " OpenRouter\n"] {
        assert_eq!(Provider::from_str(name).ok(), Some(Provider::OpenRouter));
    }
    for name in ["fal", "FAL.ai", "fal-ai"] {
        assert_eq!(Provider::from_str(name).ok(), Some(Provider::Fal));
    }
    assert_eq!(
        Provider::from_str(" Dali ").err().unwrap().message(),
        "unknown image provider 'dali'; expected 'openrouter' or 'fal'"
    );
}

#[test]
fn each_provider_is_asked_in_its_own_way() {
    let r = generator(Provider::OpenRouter).generate("a cat", None);
    assert_eq!(r.url, "https://openrouter.ai/api/v1/images");
    assert_eq!(r.authorization, "Bearer openrouter-key");
    assert_eq!(r.who, "OpenRouter images");
    assert_eq!(r.body.str_at("model"), Some("a/model"));
    assert_eq!(r.body.str_at("prompt"), Some("a cat"));

    let r = generator(Provider::Fal).generate("a cat", Some("/fal-ai/other/"));
    assert_eq!(r.url, "https://fal.run/fal-ai/other");
    assert_eq!(r.authorization, "Key fal-key");
    assert_eq!(r.who, "fal");
    assert_eq!(r.body.u64_at("num_images"), Some(1));
    assert!(r.body.get("model").is_none());
    assert_eq!(image::fal_endpoint("//x/y/"), "https://fal.run/x/y");
}

#[test]
fn replies_become_pictures() {
    match generator(Provider::OpenRouter).reply(
        "200 OK",
        true,
        r#"{"data":[{"b64_json":"AQID"}]}"#,
    ) {
        Ok(Picture::Image(i)) => {
            assert_eq!(i.bytes, vec![1, 2, 3]);
            assert_eq!(i.media_type, "image/png");
        }
        _ => panic!("an image"),
    }
    match generator(Provider::Fal).reply(
        "200 OK",
        true,
        r#"{"images":[{"url":"https://x/y","content_type":"image/jpeg"}]}"#,
    ) {
        Ok(Picture::Link { url, media_type }) => {
            assert_eq!((url.as_str(), media_type.as_str()), ("https://x/y", "image/jpeg"));
        }
        _ => panic!("a link"),
    }
}

#[test]
fn replies_that_are_no_pictures_say_why() {
    let text = |provider: Provider, success: bool, raw: &str| {
        generator(provider)
            .reply("422 Unprocessable Entity", success, raw)
            .err()
            .unwrap()
            .message()
    };
    let fal = Provider::Fal;
    let open = Provider::OpenRouter;
    assert!(text(fal, true, "oops").starts_with("fal returned non-JSON (422 Unprocessable Entity): "));
    assert!(text(fal, true, "oops").ends_with(": oops"));
    assert_eq!(
        text(fal, false, r#"{"detail":"bad prompt"}"#),
        "fal 422 Unprocessable Entity: bad prompt"
    );
    assert_eq!(text(open, true, "{}"), "image response had no data");
    assert_eq!(text(open, true, r#"{"data":[{}]}"#), "image response had no b64_json");
    assert!(text(open, true, r#"{"data":[{"b64_json":"%"}]}"#).starts_with("decoding image base64: "));
    assert_eq!(text(fal, true, "{}"), "fal returned no images");
    assert_eq!(text(fal, true, r#"{"images":[{}]}"#), "fal image had no url");
}

#[test]
fn an_error_is_found_where_the_provider_puts_it() {
    let text = |raw: &str| match json::parse(raw) {
        Ok(v) => image::error_text(&v),
        Err(e) => panic!("{e}"),
    };
    assert_eq!(text(r#"{"error":{"message":"m"},"detail":"d"}"#), "m");
    assert_eq!(text(r#"{"detail":[{"msg":"a"},{"x":1}]}"#), "a; invalid request");
    assert_eq!(text(r#"{"detail":[]}"#), "unknown error");
    assert_eq!(text("3"), "unknown error");
}
