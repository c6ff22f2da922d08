//! Image generation: what is asked of which provider, and what its reply amounts to.
use vstd::prelude::*;
use vstd::string::StringExecFns;

use crate::json::{self, members, no_members, object, optional_text, with, Json, JsonView};
use crate::llm::{first_of, image_data, image_request, optional_string, Llm};
use crate::outside::{base64_bytes, base64_decode};
use crate::text::{
    join, joined, lowered, owned, same, strip, strip_of, to_ascii_lowercase, trim, trimmed, views,
    Class,
};
use crate::truncated;

verus! {

pub const OPENROUTER_URL: &'static str = "https://openrouter.ai/api/v1/images";

pub const FAL_URL: &'static str = "https://fal.run";

/// Who makes the images.
#[derive(Debug, Clone, Copy, PartialEq, Eq, Structural)]
pub enum Provider {
    OpenRouter,
    Fal,
}

/// Why there is no image.
#[derive(Debug)]
pub enum ImageError {
    /// The name of a provider that there is not.
    UnknownProvider(String),
    NoFalKey,
    /// Who replied, with which status, the complaint, and the beginning of the body.
    NotJson { who: String, status: String, complaint: String, head: String },
    /// Who refused, with which status, and why.
    Refused { who: String, status: String, message: String },
    NoData,
    NoBase64,
    BadBase64(String),
    NoImages,
    NoUrl,
}

impl ImageError {
    /// How the error reads.
    pub open spec fn words(self) -> Seq<char> {
        match self {
            ImageError::UnknownProvider(name) => "unknown image provider '"@ + name@
                + "'; expected 'openrouter' or 'fal'"@,
            ImageError::NoFalKey => "image provider is 'fal' but FAL_API_KEY is not set"@,
            ImageError::NotJson { who, status, complaint, head } => who@ + " returned non-JSON ("@
                + status@ + "): "@ + complaint@ + ": "@ + head@,
            ImageError::Refused { who, status, message } => who@ + " "@ + status@ + ": "@
                + message@,
            ImageError::NoData => "image response had no data"@,
            ImageError::NoBase64 => "image response had no b64_json"@,
            ImageError::BadBase64(complaint) => "decoding image base64: "@ + complaint@,
            ImageError::NoImages => "fal returned no images"@,
            ImageError::NoUrl => "fal image had no url"@,
        }
    }

    /// How the error reads.
    pub fn message(&self) -> (r: String)
        ensures
            r@ == self.words(),
    {
        match self {
            ImageError::UnknownProvider(name) => {
                let mut out = owned("unknown image provider '");
                out.append(name.as_str());
                out.append("'; expected 'openrouter' or 'fal'");
                out
            },
            ImageError::NoFalKey => owned("image provider is 'fal' but FAL_API_KEY is not set"),
            ImageError::NotJson { who, status, complaint, head } => {
                let mut out = who.clone();
                out.append(" returned non-JSON (");
                out.append(status.as_str());
                out.append("): ");
                out.append(complaint.as_str());
                out.append(": ");
                out.append(head.as_str());
                out
            },
            ImageError::Refused { who, status, message } => {
                let mut out = who.clone();
                out.append(" ");
                out.append(status.as_str());
                out.append(": ");
                out.append(message.as_str());
                out
            },
            ImageError::NoData => owned("image response had no data"),
            ImageError::NoBase64 => owned("image response had no b64_json"),
            ImageError::BadBase64(complaint) => {
                let mut out = owned("decoding image base64: ");
                out.append(complaint.as_str());
                out
            },
            ImageError::NoImages => owned("fal returned no images"),
            ImageError::NoUrl => owned("fal image had no url"),
        }
    }
}

/// The provider that a name stands for.
pub open spec fn provider_named(name: Seq<char>) -> Option<Provider> {
    let n = lowered(trimmed(name));
    if n == "openrouter"@ {
        Some(Provider::OpenRouter)
    } else if n == "fal"@ || n == "fal.ai"@ || n == "fal-ai"@ {
        Some(Provider::Fal)
    } else {
        None
    }
}

impl Provider {
    /// The provider that a name stands for.
    pub fn from_str(s: &str) -> (r: Result<Provider, ImageError>)
        ensures
            match r {
                Ok(p) => provider_named(s@) == Some(p),
                Err(e) => provider_named(s@) is None && (e matches ImageError::UnknownProvider(n)
                    && n@ == lowered(trimmed(s@))),
            },
    {
        proof {
            reveal_strlit("openrouter");
            reveal_strlit("fal");
            reveal_strlit("fal.ai");
            reveal_strlit("fal-ai");
        }
        let name = to_ascii_lowercase(trim(s));
        let n = name.as_str();
        if same(n, "openrouter") {
            Ok(Provider::OpenRouter)
        } else if same(n, "fal") || same(n, "fal.ai") || same(n, "fal-ai") {
            Ok(Provider::Fal)
        } else {
            Err(ImageError::UnknownProvider(name))
        }
    }
}

/// An image that a model made.
pub struct GeneratedImage {
    pub bytes: Vec<u8>,
    pub media_type: String,
}

/// Who makes images, with which model and which keys.
pub struct ImageGen {
    provider: Provider,
    model: String,
    openrouter_key: String,
    fal_key: Option<String>,
    timeout_s: u64,
}

/// A request for an image.
pub struct Request {
    pub url: String,
    pub body: Json,
    /// The value of the `Authorization` header.
    pub authorization: String,
    /// How the provider is called in messages.
    pub who: &'static str,
}

/// What a reply gives: the image itself, or where it can be fetched.
pub enum Picture {
    Image(GeneratedImage),
    Link { url: String, media_type: String },
}

/// Where a model of fal is called.
pub open spec fn endpoint(model: Seq<char>) -> Seq<char> {
    FAL_URL@ + "/"@ + strip(model, Class::Only('/'))
}

/// Where a model of fal is called.
pub fn fal_endpoint(model: &str) -> (r: String)
    ensures
        r@ == endpoint(model@),
{
    let mut out = owned(FAL_URL);
    out.append("/");
    out.append(strip_of(model, &Class::Only('/')));
    out
}

/// What is sent to fal.
pub open spec fn fal_request(prompt: Seq<char>) -> JsonView {
    JsonView::Object(
        no_members().push(("prompt"@, JsonView::Text(prompt))).push(
            ("num_images"@, json::uint_view(1)),
        ),
    )
}

/// What each part of a list of complaints says.
pub open spec fn complaints(parts: Seq<JsonView>) -> Seq<Seq<char>> {
    Seq::new(
        parts.len(),
        |i: int|
            match parts[i].text_member("msg"@) {
                Some(m) => m,
                None => "invalid request"@,
            },
    )
}

/// Why a request was refused, as far as the reply says.
pub open spec fn refusal_reason(payload: JsonView) -> Seq<char> {
    let message = match payload.member("error"@) {
        Some(e) => e.text_member("message"@),
        None => None,
    };
    match message {
        Some(m) => m,
        None => match payload.member("detail"@) {
            Some(JsonView::Text(d)) => d,
            Some(JsonView::Array(parts)) => if parts.len() > 0 {
                joined(complaints(parts), "; "@)
            } else {
                "unknown error"@
            },
            _ => "unknown error"@,
        },
    }
}

/// Why a request was refused, as far as the reply says.
pub fn error_text(payload: &Json) -> (r: String)
    ensures
        r@ == refusal_reason(payload@),
{
    broadcast use crate::json::lemma_views;

    match payload.get("error") {
        Some(e) => match e.str_at("message") {
            Some(m) => {
                return owned(m);
            },
            None => {},
        },
        None => {},
    }
    match payload.get("detail") {
        Some(Json::Text(d)) => d.clone(),
        Some(Json::Array(parts)) => {
            let ghost wanted = complaints(json::json_views(parts@));
            if parts.len() == 0 {
                return owned("unknown error");
            }
            let mut out: Vec<String> = Vec::new();
            for i in 0..parts.len()
                invariant
                    wanted == complaints(json::json_views(parts@)),
                    views(out@) == wanted.take(i as int),
            {
                let ghost before = views(out@);
                let text = match parts[i].str_at("msg") {
                    Some(m) => owned(m),
                    None => owned("invalid request"),
                };
                out.push(text);
                assert(views(out@) =~= before.push(text@));
                assert(wanted.take(i + 1) =~= before.push(text@));
            }
            assert(wanted.take(parts@.len() as int) =~= wanted);
            join(out.as_slice(), "; ")
        },
        _ => owned("unknown error"),
    }
}

/// How a provider is called in messages.
pub open spec fn name_of(p: Provider) -> Seq<char> {
    match p {
        Provider::OpenRouter => "OpenRouter images"@,
        Provider::Fal => "fal"@,
    }
}

/// How a provider is called in messages.
fn who(p: Provider) -> (r: &'static str)
    ensures
        r@ == name_of(p),
{
    match p {
        Provider::OpenRouter => "OpenRouter images",
        Provider::Fal => "fal",
    }
}

/// Whether `r` is what a successful reply of OpenRouter amounts to.
pub open spec fn openrouter_reply(payload: JsonView, r: Result<Picture, ImageError>) -> bool {
    match crate::llm::encoded_image(payload) {
        Some((b64, media_type)) => match base64_bytes(b64) {
            Ok(bytes) => r matches Ok(Picture::Image(image)) && image.bytes@ == bytes
                && image.media_type@ == media_type,
            Err(complaint) => r matches Err(ImageError::BadBase64(c)) && c@ == complaint,
        },
        None => if first_of(payload, "data"@) is None {
            r == Err::<Picture, ImageError>(ImageError::NoData)
        } else {
            r == Err::<Picture, ImageError>(ImageError::NoBase64)
        },
    }
}

/// Whether `r` is what a successful reply of fal amounts to.
pub open spec fn fal_reply(payload: JsonView, r: Result<Picture, ImageError>) -> bool {
    match first_of(payload, "images"@) {
        None => r == Err::<Picture, ImageError>(ImageError::NoImages),
        Some(first) => match first.text_member("url"@) {
            None => r == Err::<Picture, ImageError>(ImageError::NoUrl),
            Some(link) => r matches Ok(Picture::Link { url, media_type }) && url@ == link
                && media_type@ == (match first.text_member("content_type"@) {
                Some(t) => t,
                None => "image/png"@,
            }),
        },
    }
}

/// Whether `r` is what a successful reply of a provider amounts to.
pub open spec fn good_reply(
    provider: Provider,
    payload: JsonView,
    r: Result<Picture, ImageError>,
) -> bool {
    match provider {
        Provider::OpenRouter => openrouter_reply(payload, r),
        Provider::Fal => fal_reply(payload, r),
    }
}

/// Reads the image out of a successful reply of OpenRouter.
fn openrouter(payload: &Json) -> (r: Result<Picture, ImageError>)
    ensures
        openrouter_reply(payload@, r),
{
    match image_data(payload) {
        Ok((b64, media_type)) => match base64_decode(b64.as_str()) {
            Ok(bytes) => Ok(Picture::Image(GeneratedImage { bytes, media_type })),
            Err(complaint) => Err(ImageError::BadBase64(complaint)),
        },
        Err(crate::llm::ImageError::NoData) => Err(ImageError::NoData),
        Err(_) => Err(ImageError::NoBase64),
    }
}

/// Reads the link to the image out of a successful reply of fal.
fn fal(payload: &Json) -> (r: Result<Picture, ImageError>)
    ensures
        fal_reply(payload@, r),
{
    let list = match payload.get("images") {
        Some(list) => list,
        None => {
            return Err(ImageError::NoImages);
        },
    };
    let first = match list.zero() {
        Some(first) => first,
        None => {
            return Err(ImageError::NoImages);
        },
    };
    let url = match first.str_at("url") {
        Some(url) => url,
        None => {
            return Err(ImageError::NoUrl);
        },
    };
    let media_type = match first.str_at("content_type") {
        Some(t) => t,
        None => "image/png",
    };
    Ok(Picture::Link { url: owned(url), media_type: owned(media_type) })
}

/// The model that is asked: the one given, or else the default.
pub open spec fn model_or(model: Option<Seq<char>>, other: Seq<char>) -> Seq<char> {
    match model {
        Some(m) => m,
        None => other,
    }
}

impl ImageGen {
    /// Who makes the images.
    pub closed spec fn provider_view(&self) -> Provider {
        self.provider
    }

    /// The model that is asked by default.
    pub closed spec fn model_view(&self) -> Seq<char> {
        self.model@
    }

    /// The key for OpenRouter.
    pub closed spec fn openrouter_view(&self) -> Seq<char> {
        self.openrouter_key@
    }

    /// The key for fal.
    pub closed spec fn fal_view(&self) -> Option<Seq<char>> {
        optional_string(self.fal_key)
    }

    /// The seconds after which a silent connection is given up.
    pub closed spec fn timeout_view(&self) -> u64 {
        self.timeout_s
    }

    #[verifier::type_invariant]
    spec fn sound(&self) -> bool {
        self.provider == Provider::Fal ==> self.fal_key is Some
    }

    /// Sets up image generation. fal without a key is refused at once.
    pub fn new(
        provider: Provider,
        model: String,
        openrouter_key: String,
        fal_key: Option<String>,
        timeout_s: u64,
    ) -> (r: Result<Self, ImageError>)
        ensures
            match r {
                Ok(g) => (provider == Provider::Fal ==> fal_key is Some) && g.provider_view()
                    == provider && g.model_view() == model@ && g.openrouter_view()
                    == openrouter_key@ && g.fal_view() == optional_string(fal_key)
                    && g.timeout_view() == timeout_s,
                Err(e) => provider == Provider::Fal && fal_key is None && e
                    == ImageError::NoFalKey,
            },
    {
        if provider == Provider::Fal && fal_key.is_none() {
            return Err(ImageError::NoFalKey);
        }
        Ok(ImageGen { provider, model, openrouter_key, fal_key, timeout_s })
    }

    /// Who makes the images.
    pub fn provider(&self) -> (r: Provider)
        ensures
            r == self.provider_view(),
    {
        self.provider
    }

    /// The model that is asked by default.
    pub fn model(&self) -> (r: &str)
        ensures
            r@ == self.model_view(),
    {
        self.model.as_str()
    }

    /// The seconds after which a silent connection is given up.
    pub fn timeout_s(&self) -> (r: u64)
        ensures
            r == self.timeout_view(),
    {
        self.timeout_s
    }

    /// What to send in order to have an image made.
    pub fn generate(&self, prompt: &str, model: Option<&str>) -> (r: Request)
        ensures
            r.who@ == name_of(self.provider_view()),
            match self.provider_view() {
                Provider::OpenRouter => {
                    &&& r.url@ == OPENROUTER_URL@
                    &&& r.body@ == image_request(
                        model_or(optional_text(model), self.model_view()),
                        prompt@,
                    )
                    &&& r.authorization@ == "Bearer "@ + self.openrouter_view()
                },
                Provider::Fal => {
                    &&& r.url@ == endpoint(model_or(optional_text(model), self.model_view()))
                    &&& r.body@ == fal_request(prompt@)
                    &&& self.fal_view() matches Some(key) && r.authorization@ == "Key "@ + key
                },
            },
    {
        proof {
            use_type_invariant(self);
        }
        let model = match model {
            Some(m) => m,
            None => self.model.as_str(),
        };
        match self.provider {
            Provider::OpenRouter => {
                let mut authorization = owned("Bearer ");
                authorization.append(self.openrouter_key.as_str());
                Request {
                    url: owned(OPENROUTER_URL),
                    body: Llm::image_body(prompt, model),
                    authorization,
                    who: who(self.provider),
                }
            },
            Provider::Fal => {
                let mut authorization = owned("Key ");
                match &self.fal_key {
                    Some(key) => {
                        authorization.append(key.as_str());
                    },
                    None => {},
                }
                let mut ms = with(members(), "prompt", json::text(prompt));
                ms = with(ms, "num_images", json::uint(1));
                Request {
                    url: fal_endpoint(model),
                    body: object(ms),
                    authorization,
                    who: who(self.provider),
                }
            },
        }
    }

    /// Reads what a successful reply gives.
    pub fn picture(&self, payload: &Json) -> (r: Result<Picture, ImageError>)
        ensures
            good_reply(self.provider_view(), payload@, r),
    {
        match self.provider {
            Provider::OpenRouter => openrouter(payload),
            Provider::Fal => fal(payload),
        }
    }

    /// What came of the request.
    pub fn reply(&self, status: &str, success: bool, raw: &str) -> (r: Result<Picture, ImageError>)
        ensures
            match json::read(raw@) {
                Err(complaint) => r matches Err(
                    ImageError::NotJson { who: w, status: s, complaint: c, head: h },
                ) && w@ == name_of(self.provider_view()) && s@ == status@ && c@ == complaint && h@
                    == truncated(raw@, 300),
                Ok(payload) => if success {
                    good_reply(self.provider_view(), payload, r)
                } else {
                    r matches Err(ImageError::Refused { who: w, status: s, message: m }) && w@
                        == name_of(self.provider_view()) && s@ == status@ && m@
                        == refusal_reason(payload)
                },
            },
    {
        match json::parse(raw) {
            Err(complaint) => Err(
                ImageError::NotJson {
                    who: owned(who(self.provider)),
                    status: owned(status),
                    complaint,
                    head: crate::truncate(raw, 300),
                },
            ),
            Ok(payload) => if success {
                self.picture(&payload)
            } else {
                Err(
                    ImageError::Refused {
                        who: owned(who(self.provider)),
                        status: owned(status),
                        message: error_text(&payload),
                    },
                )
            },
        }
    }
}

// ---------------------------------------------------------------------------------------------
// Laws
// ---------------------------------------------------------------------------------------------

/// A provider is known by its name in whichever case, with white space around it or without. A name that
/// stands for none is refused and told.
pub proof fn law_a_provider_is_known_by_its_name(s: &str, r: Result<Provider, ImageError>)
    requires
        call_ensures(Provider::from_str, (s,), r),
    ensures
        lowered(trimmed(s@)) == "openrouter"@ <==> r == Ok::<Provider, ImageError>(
            Provider::OpenRouter,
        ),
        lowered(trimmed(s@)) == "fal"@ ==> r == Ok::<Provider, ImageError>(Provider::Fal),
        lowered(trimmed(s@)) == "fal.ai"@ ==> r == Ok::<Provider, ImageError>(Provider::Fal),
        lowered(trimmed(s@)) == "fal-ai"@ ==> r == Ok::<Provider, ImageError>(Provider::Fal),
        r matches Ok(Provider::Fal) ==> crate::text::begins(lowered(trimmed(s@)), "fal"@),
        r matches Err(e) ==> crate::text::contains(e.words(), lowered(trimmed(s@))),
{
    reveal_strlit("openrouter");
    reveal_strlit("fal");
    reveal_strlit("fal.ai");
    reveal_strlit("fal-ai");
    assert("openrouter"@.len() == 10 && "fal"@.len() == 3 && "fal.ai"@.len() == 6 && "fal-ai"@.len()
        == 6);
    assert("fal"@.subrange(0, 3) =~= "fal"@);
    assert("fal.ai"@.subrange(0, 3) =~= "fal"@);
    assert("fal-ai"@.subrange(0, 3) =~= "fal"@);
    crate::text::lemma_parts(
        "unknown image provider '"@,
        lowered(trimmed(s@)),
        "'; expected 'openrouter' or 'fal'"@,
    );
}

/// An image is asked for by its prompt, whoever makes it: of OpenRouter with the model in the body, of fal
/// with the model in the address and for one image. The model is the one given, or else the one set up;
/// and each provider is shown its own key.
pub proof fn law_an_image_is_asked_for_by_its_prompt(
    g: &ImageGen,
    prompt: &str,
    model: Option<&str>,
    r: Request,
)
    requires
        call_ensures(ImageGen::generate, (g, prompt, model), r),
    ensures
        r.body@.text_member("prompt"@) == Some(prompt@),
        g.provider_view() == Provider::OpenRouter ==> {
            &&& model matches Some(m) ==> r.body@.text_member("model"@) == Some(m@)
            &&& model is None ==> r.body@.text_member("model"@) == Some(g.model_view())
            &&& crate::text::ends(r.authorization@, g.openrouter_view())
            &&& crate::text::begins(r.url@, "https://openrouter.ai/"@)
        },
        g.provider_view() == Provider::Fal ==> {
            &&& model matches Some(m) ==> crate::text::ends(r.url@, strip(m@, Class::Only('/')))
            &&& model is None ==> crate::text::ends(r.url@, strip(g.model_view(), Class::Only('/')))
            &&& r.body@.uint_member("num_images"@) == Some(1u64)
            &&& g.fal_view() matches Some(key) && crate::text::ends(r.authorization@, key)
            &&& crate::text::begins(r.url@, "https://fal.run"@)
        },
{
    reveal_strlit("model");
    reveal_strlit("prompt");
    reveal_strlit("num_images");
    assert("model"@.len() == 5 && "prompt"@.len() == 6 && "num_images"@.len() == 10);
    reveal_with_fuel(json::member_in, 3);
    let asked = model_or(optional_text(model), g.model_view());
    match g.provider_view() {
        Provider::OpenRouter => {
            crate::text::lemma_added("Bearer "@, g.openrouter_view());
            assert(crate::text::begins(OPENROUTER_URL@, "https://openrouter.ai/"@)) by {
                reveal_strlit("https://openrouter.ai/api/v1/images");
                reveal_strlit("https://openrouter.ai/");
                assert(OPENROUTER_URL@.subrange(0, 22) =~= "https://openrouter.ai/"@);
            }
        },
        Provider::Fal => {
            let place = strip(asked, Class::Only('/'));
            crate::text::lemma_added("Key "@, g.fal_view()->0);
            crate::text::lemma_added(FAL_URL@, "/"@);
            crate::text::lemma_added(FAL_URL@ + "/"@, place);
            crate::text::lemma_grow(FAL_URL@ + "/"@, place, FAL_URL@);
        },
    }
}

/// What is set up is kept, and fal is refused without a key and only then.
pub proof fn law_image_generation_is_set_up_as_given(
    provider: Provider,
    model: String,
    openrouter_key: String,
    fal_key: Option<String>,
    timeout_s: u64,
    r: Result<ImageGen, ImageError>,
)
    requires
        call_ensures(ImageGen::new, (provider, model, openrouter_key, fal_key, timeout_s), r),
    ensures
        r is Err <==> provider == Provider::Fal && fal_key is None,
        r matches Ok(g) ==> g.provider_view() == provider && g.model_view() == model@
            && g.openrouter_view() == openrouter_key@ && g.timeout_view() == timeout_s && (
        fal_key matches Some(k) ==> g.fal_view() == Some(k@)),
{
}

/// A reply of fal that was served well gives the link of its first image, with the type that it names or
/// else as PNG.
pub proof fn law_the_first_image_of_fal_is_linked(
    g: &ImageGen,
    status: &str,
    raw: &str,
    r: Result<Picture, ImageError>,
    payload: JsonView,
    first: JsonView,
    others: Seq<JsonView>,
    link: Seq<char>,
)
    requires
        call_ensures(ImageGen::reply, (g, status, true, raw), r),
        g.provider_view() == Provider::Fal,
        json::read(raw@) == Ok::<JsonView, Seq<char>>(payload),
        payload.member("images"@) == Some(JsonView::Array(seq![first] + others)),
        first.text_member("url"@) == Some(link),
    ensures
        r matches Ok(Picture::Link { url, media_type }) && url@ == link && (first.text_member(
            "content_type"@,
        ) matches Some(t) ==> media_type@ == t) && (first.text_member("content_type"@) is None
            ==> media_type@ == "image/png"@),
{
    assert((seq![first] + others)[0] == first);
}

/// A reply of OpenRouter that was served well gives the bytes of its first image, where it holds them in
/// base64, with the type that it names or else as PNG.
pub proof fn law_the_first_image_of_openrouter_is_decoded(
    g: &ImageGen,
    status: &str,
    raw: &str,
    r: Result<Picture, ImageError>,
    payload: JsonView,
    first: JsonView,
    others: Seq<JsonView>,
    b64: Seq<char>,
    bytes: Seq<u8>,
)
    requires
        call_ensures(ImageGen::reply, (g, status, true, raw), r),
        g.provider_view() == Provider::OpenRouter,
        json::read(raw@) == Ok::<JsonView, Seq<char>>(payload),
        payload.member("data"@) == Some(JsonView::Array(seq![first] + others)),
        first.text_member("b64_json"@) == Some(b64),
        crate::outside::encodes(b64, bytes),
    ensures
        r matches Ok(Picture::Image(image)) && image.bytes@ == bytes && (first.text_member(
            "media_type"@,
        ) matches Some(t) ==> image.media_type@ == t) && (first.text_member("media_type"@) is None
            ==> image.media_type@ == "image/png"@),
{
    assert((seq![first] + others)[0] == first);
}

/// A reply that was not served well is no image, whatever it holds: who replied, the status and, where
/// the body gives one, the reason are told.
pub proof fn law_a_refusal_is_no_image(
    g: &ImageGen,
    status: &str,
    raw: &str,
    r: Result<Picture, ImageError>,
)
    requires
        call_ensures(ImageGen::reply, (g, status, false, raw), r),
    ensures
        r matches Err(e) && crate::text::contains(e.words(), status@) && crate::text::begins(
            e.words(),
            name_of(g.provider_view()),
        ) && (json::read(raw@) matches Ok(payload) ==> crate::text::ends(
            e.words(),
            refusal_reason(payload),
        )),
{
    let e = r->Err_0;
    match e {
        ImageError::NotJson { who, status: st, complaint, head } => {
            let a = who@ + " returned non-JSON ("@;
            crate::text::lemma_added(who@, " returned non-JSON ("@);
            crate::text::lemma_added(a, st@);
            crate::text::lemma_grow(a, st@, who@);
            crate::text::lemma_grow(a + st@, "): "@, st@);
            crate::text::lemma_grow(a + st@, "): "@, who@);
            crate::text::lemma_grow(a + st@ + "): "@, complaint@, st@);
            crate::text::lemma_grow(a + st@ + "): "@, complaint@, who@);
            crate::text::lemma_grow(a + st@ + "): "@ + complaint@, ": "@, st@);
            crate::text::lemma_grow(a + st@ + "): "@ + complaint@, ": "@, who@);
            crate::text::lemma_grow(a + st@ + "): "@ + complaint@ + ": "@, head@, st@);
            crate::text::lemma_grow(a + st@ + "): "@ + complaint@ + ": "@, head@, who@);
        },
        ImageError::Refused { who, status: st, message } => {
            let a = who@ + " "@;
            crate::text::lemma_added(who@, " "@);
            crate::text::lemma_added(a, st@);
            crate::text::lemma_grow(a, st@, who@);
            crate::text::lemma_grow(a + st@, ": "@, st@);
            crate::text::lemma_grow(a + st@, ": "@, who@);
            crate::text::lemma_grow(a + st@ + ": "@, message@, st@);
            crate::text::lemma_grow(a + st@ + ": "@, message@, who@);
            crate::text::lemma_added(a + st@ + ": "@, message@);
        },
        _ => {},
    }
}

/// The reason of a refusal is the message of its error, or else its detail: a text as it is, and of a list
/// every message in it.
pub proof fn law_the_reason_is_what_the_reply_says(
    payload: &Json,
    r: String,
    error: JsonView,
    parts: Seq<JsonView>,
    i: int,
    m: Seq<char>,
)
    requires
        call_ensures(error_text, (payload,), r),
    ensures
        payload@.member("error"@) == Some(error) && error.text_member("message"@) == Some(m) ==> r@
            == m,
        payload@.member("error"@) is None && payload@.member("detail"@) == Some(JsonView::Text(m))
            ==> r@ == m,
        payload@.member("error"@) is None && payload@.member("detail"@) == Some(
            JsonView::Array(parts),
        ) && 0 <= i < parts.len() && parts[i].text_member("msg"@) == Some(m)
            ==> crate::text::contains(r@, m),
        payload@.member("error"@) is None && payload@.member("detail"@) is None ==> r@
            == "unknown error"@,
{
    if payload@.member("error"@) is None && payload@.member("detail"@) == Some(
        JsonView::Array(parts),
    ) && 0 <= i < parts.len() && parts[i].text_member("msg"@) == Some(m) {
        crate::text::lemma_joined_holds(complaints(parts), "; "@, i);
    }
}

/// Who refused an image, with which status and why, can be read in the message.
pub proof fn law_what_is_wrong_with_an_image_is_told(e: &ImageError, r: String)
    requires
        call_ensures(ImageError::message, (e,), r),
    ensures
        *e matches ImageError::UnknownProvider(name) ==> crate::text::contains(r@, name@),
        *e matches ImageError::NotJson { who, status, complaint, head } ==> crate::text::begins(
            r@,
            who@,
        ) && crate::text::contains(r@, status@) && crate::text::contains(r@, complaint@)
            && crate::text::ends(r@, head@),
        *e matches ImageError::Refused { who, status, message } ==> crate::text::begins(r@, who@)
            && crate::text::contains(r@, status@) && crate::text::ends(r@, message@),
        *e matches ImageError::BadBase64(complaint) ==> crate::text::ends(r@, complaint@),
{
    match e {
        ImageError::UnknownProvider(name) => {
            crate::text::lemma_parts(
                "unknown image provider '"@,
                name@,
                "'; expected 'openrouter' or 'fal'"@,
            );
        },
        ImageError::NotJson { who, status, complaint, head } => {
            let a = who@ + " returned non-JSON ("@;
            let b = a + status@;
            let c = b + "): "@;
            let d = c + complaint@;
            let f = d + ": "@;
            crate::text::lemma_added(who@, " returned non-JSON ("@);
            crate::text::lemma_added(a, status@);
            crate::text::lemma_grow(a, status@, who@);
            crate::text::lemma_grow(b, "): "@, who@);
            crate::text::lemma_grow(b, "): "@, status@);
            crate::text::lemma_added(c, complaint@);
            crate::text::lemma_grow(c, complaint@, who@);
            crate::text::lemma_grow(c, complaint@, status@);
            crate::text::lemma_grow(d, ": "@, who@);
            crate::text::lemma_grow(d, ": "@, status@);
            crate::text::lemma_grow(d, ": "@, complaint@);
            crate::text::lemma_added(f, head@);
            crate::text::lemma_grow(f, head@, who@);
            crate::text::lemma_grow(f, head@, status@);
            crate::text::lemma_grow(f, head@, complaint@);
        },
        ImageError::Refused { who, status, message } => {
            let a = who@ + " "@;
            let b = a + status@;
            let c = b + ": "@;
            crate::text::lemma_added(who@, " "@);
            crate::text::lemma_added(a, status@);
            crate::text::lemma_grow(a, status@, who@);
            crate::text::lemma_grow(b, ": "@, who@);
            crate::text::lemma_grow(b, ": "@, status@);
            crate::text::lemma_added(c, message@);
            crate::text::lemma_grow(c, message@, who@);
            crate::text::lemma_grow(c, message@, status@);
        },
        ImageError::BadBase64(complaint) => {
            crate::text::lemma_added("decoding image base64: "@, complaint@);
        },
        _ => {},
    }
}

/// A model is asked for under its own name, below the address of the provider.
pub proof fn law_a_model_has_its_own_address(model: &str, r: String)
    requires
        call_ensures(fal_endpoint, (model,), r),
    ensures
        crate::text::begins(r@, FAL_URL@ + "/"@),
        crate::text::ends(r@, strip(model@, Class::Only('/'))),
        r@.len() == FAL_URL@.len() + 1 + strip(model@, Class::Only('/')).len(),
{
    reveal_strlit("/");
    crate::text::lemma_added(FAL_URL@ + "/"@, strip(model@, Class::Only('/')));
}

} // verus!
