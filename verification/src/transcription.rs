//! Turning recordings into text.
use crate::json;
use crate::json::JsonView;
use crate::message;
use crate::provider;
use crate::provider::{Access, AccessView, AuthError, AuthFault};
use crate::text;
use vstd::prelude::*;
use vstd::string::*;

verus! {

/// Where subscribers of ChatGPT are transcribed.
pub const CHATGPT_TRANSCRIBE_URL: &'static str = "https://chatgpt.com/backend-api/transcribe";

/// The model that transcribes.
pub const WHISPER_MODEL: &'static str = "whisper-1";

/// Who transcribes.
#[derive(Debug)]
pub enum TranscriptionBackend {
    ChatGptSubscription,
    ProviderApi { url: String, api_key: Option<String> },
}

/// The address at which a provider transcribes.
pub open spec fn url_of(base_url: Seq<char>) -> Seq<char> {
    provider::base_of(base_url) + "/audio/transcriptions"@
}

/// The address at which a provider transcribes.
pub fn provider_transcription_url(base_url: &str) -> (s: String)
    ensures
        s@ == url_of(base_url@),
{
    text::cat2(provider::trim_slashes(base_url), "/audio/transcriptions")
}

/// Who transcribes for a provider: `official` tells whether it is the official one, `logged_in`
/// whether there is a login to ChatGPT.
pub fn choose_backend(
    provider_name: &str,
    base_url: &str,
    auth: &str,
    api_key: &str,
    official: bool,
    logged_in: bool,
) -> (r: Result<TranscriptionBackend, AuthError>)
    ensures
        match provider::access_of(
            provider_name@,
            auth@,
            api_key@,
            official,
            logged_in,
            false,
        ) {
            Ok(AccessView::Subscription) => r
                == Ok::<TranscriptionBackend, AuthError>(TranscriptionBackend::ChatGptSubscription),
            Ok(AccessView::Api(key)) => r matches Ok(
                TranscriptionBackend::ProviderApi { url, api_key },
            ) && url@ == url_of(base_url@) && message::opt_view(api_key) == key,
            Err(f) => r matches Err(e) && e@ == f,
        },
{
    match provider::choose_access(provider_name, auth, api_key, official, logged_in, false) {
        Ok(Access::Subscription) => Ok(TranscriptionBackend::ChatGptSubscription),
        Ok(Access::Api(key)) => Ok(
            TranscriptionBackend::ProviderApi {
                url: provider_transcription_url(base_url),
                api_key: key,
            },
        ),
        Err(e) => Err(e),
    }
}

/// Whether recordings can be transcribed: only the official provider offers it, to those who can
/// prove who they are.
pub fn is_available_with_oauth(auth: &str, api_key: &str, official: bool, logged_in: bool) -> (r:
    Result<bool, AuthError>)
    ensures
        ({
            let mode = provider::mode_of(auth@);
            if !official {
                r == Ok::<bool, AuthError>(false)
            } else if mode == "auto"@ {
                r == Ok::<bool, AuthError>(api_key@.len() > 0 || logged_in)
            } else if mode == "oauth"@ {
                r == Ok::<bool, AuthError>(logged_in)
            } else if mode == "api_key"@ {
                r == Ok::<bool, AuthError>(api_key@.len() > 0)
            } else if mode == "none"@ {
                r == Ok::<bool, AuthError>(false)
            } else {
                r matches Err(e) && e@ == AuthFault::Mode(mode)
            }
        }),
{
    if !official {
        return Ok(false);
    }
    let mode = text::to_ascii_lowercase(text::trim(auth));
    if text::same(&mode, "auto") {
        Ok(!api_key.is_empty() || logged_in)
    } else if text::same(&mode, "oauth") {
        Ok(logged_in)
    } else if text::same(&mode, "api_key") {
        Ok(!api_key.is_empty())
    } else if text::same(&mode, "none") {
        Ok(false)
    } else {
        Err(AuthError::Mode(mode))
    }
}

/// The ending of the name of a recording.
pub open spec fn extension_of(content_type: Seq<char>) -> Seq<char> {
    let kind = text::trimmed(text::before_first(content_type, ';'));
    if kind == "audio/wav"@ || kind == "audio/x-wav"@ {
        "wav"@
    } else if kind == "audio/ogg"@ {
        "ogg"@
    } else if kind == "audio/mpeg"@ || kind == "audio/mp3"@ {
        "mp3"@
    } else if kind == "audio/mp4"@ || kind == "audio/x-m4a"@ {
        "m4a"@
    } else {
        "webm"@
    }
}

/// The ending of the name of a recording.
pub fn audio_extension(content_type: &str) -> (s: &'static str)
    ensures
        s@ == extension_of(content_type@),
{
    let kind = text::trim(text::before(content_type, ';'));
    if text::same(kind, "audio/wav") || text::same(kind, "audio/x-wav") {
        "wav"
    } else if text::same(kind, "audio/ogg") {
        "ogg"
    } else if text::same(kind, "audio/mpeg") || text::same(kind, "audio/mp3") {
        "mp3"
    } else if text::same(kind, "audio/mp4") || text::same(kind, "audio/x-m4a") {
        "m4a"
    } else {
        "webm"
    }
}

/// The name under which a recording is sent.
pub fn recording_name(content_type: &str) -> (s: String)
    ensures
        s@ == "codecrab."@ + extension_of(content_type@),
{
    text::cat2("codecrab.", audio_extension(content_type))
}

/// What an error says, where its body does: a message of the error, the detail, or a message.
pub open spec fn error_of(value: JsonView) -> Option<Seq<char>> {
    let found = match value.field_of_field("error"@, "message"@) {
        Some(m) => Some(m),
        None => match value.field("detail"@) {
            Some(d) => Some(d),
            None => value.field("message"@),
        },
    };
    match found {
        Some(m) => m.text(),
        None => None,
    }
}

/// What an error says, where its body does.
pub fn error_message(value: &json::Json) -> (r: Option<String>)
    ensures
        message::opt_view(r) == error_of(value@),
{
    let mut found = value.get_in("error", "message");
    if found.is_none() {
        found = value.get("detail");
    }
    if found.is_none() {
        found = value.get("message");
    }
    match found {
        Some(m) => match m.as_str() {
            Some(s) => Some(s.to_owned()),
            None => None,
        },
        None => None,
    }
}

/// What a person is told of an error.
pub fn compact_error(body: &str) -> (s: String)
    ensures
        s@ == provider::compact_of(body@, json::read_json(body@), |v: JsonView| error_of(v)),
{
    if let Ok(value) = json::parse_json(body) {
        if let Some(said) = error_message(&value) {
            return said;
        }
    }
    text::take_chars(body, 500).to_owned()
}

/// Whether a recording is sent again with a new login.
pub fn retries_with_new_login(backend: &TranscriptionBackend, status: u16, already_retried: bool) -> (r:
    bool)
    ensures
        r == (*backend is ChatGptSubscription && status == 401 && !already_retried),
{
    match backend {
        TranscriptionBackend::ChatGptSubscription => status == 401 && !already_retried,
        TranscriptionBackend::ProviderApi { .. } => false,
    }
}

/// Whether there is anything to transcribe.
pub fn check_recording(size: usize) -> (r: Result<(), String>)
    ensures
        r is Ok == (size > 0),
        r matches Err(e) ==> e@ == "recording is empty"@,
{
    if size == 0 {
        Err("recording is empty".to_owned())
    } else {
        Ok(())
    }
}

/// What was transcribed: `said` is the text that the body of the answer gives, or why it gives none.
pub fn transcribe(
    success: bool,
    status: &str,
    url: &str,
    body: &str,
    said: Result<String, String>,
) -> (r: Result<String, String>)
    ensures
        if !success {
            r matches Err(e) && e@ == "voice transcription returned "@ + status@ + " from "@ + url@
                + ": "@ + provider::compact_of(
                body@,
                json::read_json(body@),
                |v: JsonView| error_of(v),
            )
        } else {
            match said {
                Err(fault) => r matches Err(e) && e@
                    == "provider returned an invalid transcription: "@ + fault@,
                Ok(s) => if text::trimmed(s@).len() == 0 {
                    r matches Err(e) && e@ == "provider returned an empty transcription"@
                } else {
                    r matches Ok(t) && t@ == text::trimmed(s@)
                },
            }
        },
{
    if !success {
        let head = text::cat4("voice transcription returned ", status, " from ", url);
        return Err(text::cat3(&head, ": ", &compact_error(body)));
    }
    match said {
        Err(fault) => Err(text::cat2("provider returned an invalid transcription: ", &fault)),
        Ok(s) => {
            let trimmed = text::trim(&s);
            if trimmed.is_empty() {
                Err("provider returned an empty transcription".to_owned())
            } else {
                Ok(trimmed.to_owned())
            }
        },
    }
}

// ---------------------------------------------------------------------------
// Laws
/// A recording is named after its kind, whatever is said behind the kind.
pub proof fn recordings_are_named_after_their_kind(content_type: Seq<char>)
    ensures
        ({
            let kind = text::trimmed(text::before_first(content_type, ';'));
            &&& kind == "audio/wav"@ || kind == "audio/x-wav"@ ==> extension_of(content_type)
                == "wav"@
            &&& kind == "audio/ogg"@ ==> extension_of(content_type) == "ogg"@
            &&& kind == "audio/mpeg"@ || kind == "audio/mp3"@ ==> extension_of(content_type)
                == "mp3"@
            &&& kind == "audio/mp4"@ || kind == "audio/x-m4a"@ ==> extension_of(content_type)
                == "m4a"@
            &&& kind == "audio/webm"@ ==> extension_of(content_type) == "webm"@
        }),
{
    reveal_strlit("audio/wav");
    reveal_strlit("audio/x-wav");
    reveal_strlit("audio/ogg");
    reveal_strlit("audio/mpeg");
    reveal_strlit("audio/mp3");
    reveal_strlit("audio/mp4");
    reveal_strlit("audio/x-m4a");
    reveal_strlit("audio/webm");
    assert("audio/wav"@.len() == 9 && "audio/x-wav"@.len() == 11 && "audio/ogg"@.len() == 9
        && "audio/mpeg"@.len() == 10 && "audio/mp3"@.len() == 9 && "audio/mp4"@.len() == 9
        && "audio/x-m4a"@.len() == 11 && "audio/webm"@.len() == 10);
    assert("audio/wav"@[6] == 'w' && "audio/ogg"@[6] == 'o' && "audio/mp3"@[6] == 'm'
        && "audio/mp4"@[6] == 'm' && "audio/mpeg"@[6] == 'm' && "audio/webm"@[6] == 'w');
    assert("audio/mp3"@[8] == '3' && "audio/mp4"@[8] == '4' && "audio/x-wav"@[8] == 'w'
        && "audio/x-m4a"@[8] == 'm');
}

/// What an error of a transcription says is passed on: the message of the error, the detail, or the
/// message, whichever there is first.
pub proof fn what_an_error_says_is_passed_on(value: JsonView, said: Seq<char>)
    ensures
        ({
            let error = value.field_of_field("error"@, "message"@);
            &&& error == Some(JsonView::Text(said)) ==> error_of(value) == Some(said)
            &&& error is None && value.field("detail"@) == Some(JsonView::Text(said))
                ==> error_of(value) == Some(said)
            &&& error is None && value.field("detail"@) is None && value.field("message"@) == Some(
                JsonView::Text(said),
            ) ==> error_of(value) == Some(said)
            &&& error is None && value.field("detail"@) is None && value.field("message"@) is None
                ==> error_of(value) is None
        }),
{
}

/// A provider transcribes below its own address, and one slash leads there.
pub proof fn a_provider_transcribes_below_its_address(base: Seq<char>)
    requires
        base.len() > 0 ==> base.last() != '/',
    ensures
        url_of(base) == base + "/audio/transcriptions"@,
        url_of(base.push('/')) == base + "/audio/transcriptions"@,
{
    let p = |c: char| c == '/';
    let n = text::lemma_back_stripped(base, p);
    if n < base.len() {
        assert(p(base[base.len() - 1]));
    }
    assert(base.take(base.len() as int) == base);
    let with = base.push('/');
    let m = text::lemma_back_stripped(with, p);
    if m == with.len() {
        assert(!p(with[m - 1]));
    }
    if m < base.len() {
        assert(p(with[base.len() - 1]));
        assert(with[base.len() - 1] == base.last());
    }
    assert(with.take(base.len() as int) == base);
}

/// A recording becomes the text that was understood, without white space round it, unless that is
/// nothing; what went wrong is told.
pub proof fn a_recording_becomes_its_text(
    success: bool,
    status: &str,
    url: &str,
    body: &str,
    said: Result<String, String>,
    r: Result<String, String>,
)
    requires
        call_ensures(transcribe, (success, status, url, body, said), r),
    ensures
        r is Ok <==> success && (said matches Ok(s) && text::trimmed(s@).len() > 0),
        r matches Ok(t) ==> (said matches Ok(s) && t@ == text::trimmed(s@)),
{
}

/// Recordings can be transcribed only by the official provider, with a key or a login that its way to
/// prove who asks makes use of.
pub proof fn recordings_need_who_transcribes_them(
    auth: &str,
    key: &str,
    official: bool,
    logged_in: bool,
    r: Result<bool, AuthError>,
)
    requires
        call_ensures(is_available_with_oauth, (auth, key, official, logged_in), r),
    ensures
        r == Ok::<bool, AuthError>(true) <==> official && ((provider::mode_of(auth@) == "auto"@ && (
        key@.len() > 0 || logged_in)) || (provider::mode_of(auth@) == "oauth"@ && logged_in) || (
        provider::mode_of(auth@) == "api_key"@ && key@.len() > 0)),
        !official ==> r == Ok::<bool, AuthError>(false),
{
    reveal_strlit("auto");
    reveal_strlit("oauth");
    reveal_strlit("api_key");
    assert("auto"@.len() == 4 && "oauth"@.len() == 5 && "api_key"@.len() == 7);
}

/// A recording is sent again once, and only where a subscriber was not let in.
pub proof fn a_recording_is_sent_again_once(
    backend: TranscriptionBackend,
    status: u16,
    retried: bool,
    r: bool,
)
    requires
        call_ensures(retries_with_new_login, (&backend, status, retried), r),
    ensures
        r ==> backend is ChatGptSubscription && status == 401 && !retried,
        !r ==> backend is ProviderApi || status != 401 || retried,
{
}

} // verus!
