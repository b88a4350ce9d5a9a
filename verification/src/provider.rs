//! Reaching a provider: how it is asked, and what its answers mean.
use crate::catalog;
use crate::catalog::{EntryView, ModelCapabilitiesConfig, ModelCatalogEntry};
use crate::json;
use crate::json::JsonView;
use crate::message;
use crate::message::Message;
use crate::sort;
use crate::sort::SmallestFirst;
use crate::table;
use crate::table::Table;
use crate::text;
use vstd::prelude::*;
use vstd::string::*;

verus! {

/// Where subscribers of ChatGPT are served.
pub const CHATGPT_CODEX_BASE: &'static str = "https://chatgpt.com/backend-api/codex";

/// Where subscribers of ChatGPT are answered.
pub const CHATGPT_CODEX_RESPONSES: &'static str =
    "https://chatgpt.com/backend-api/codex/responses";

/// What is configured of a provider.
#[derive(Debug)]
pub struct ProviderConfig {
    pub model: String,
    pub base_url: String,
    pub auth: String,
    pub api_key: String,
    pub fetch_models: bool,
    pub allowed_models: Option<Vec<String>>,
    pub model_capabilities: Table<ModelCapabilitiesConfig>,
}

/// Why a provider cannot be asked.
#[derive(Debug)]
pub enum AuthError {
    /// A login to ChatGPT does not help with this provider.
    ForeignOAuth,
    /// There is no login to ChatGPT.
    NotSignedIn,
    /// There is no such way to prove who asks.
    Mode(String),
    /// There is neither a login to ChatGPT nor a key.
    NotAuthenticated(String),
    /// There is no key.
    NoKey(String),
}

/// Why a provider cannot be asked.
pub enum AuthFault {
    ForeignOAuth,
    NotSignedIn,
    Mode(Seq<char>),
    NotAuthenticated(Seq<char>),
    NoKey(Seq<char>),
}

impl View for AuthError {
    type V = AuthFault;

    open spec fn view(&self) -> AuthFault {
        match *self {
            AuthError::ForeignOAuth => AuthFault::ForeignOAuth,
            AuthError::NotSignedIn => AuthFault::NotSignedIn,
            AuthError::Mode(m) => AuthFault::Mode(m@),
            AuthError::NotAuthenticated(p) => AuthFault::NotAuthenticated(p@),
            AuthError::NoKey(p) => AuthFault::NoKey(p@),
        }
    }
}

impl AuthFault {
    /// What a person is told.
    pub open spec fn text(self) -> Seq<char> {
        match self {
            AuthFault::ForeignOAuth =>
                "ChatGPT OAuth can only be used with the official OpenAI provider"@,
            AuthFault::NotSignedIn =>
                "not signed in with ChatGPT; run `codecrab auth login` first"@,
            AuthFault::Mode(m) => "invalid auth mode "@ + text::quoted(m)
                + "; expected auto, oauth, api_key, or none"@,
            AuthFault::NotAuthenticated(p) =>
                "not authenticated; run `codecrab auth login` to use ChatGPT Pro, or configure providers."@
                + p + ".api_key"@,
            AuthFault::NoKey(p) => "provider "@ + text::quoted(p)
                + " does not have an API key configured"@,
        }
    }
}

impl AuthError {
    /// What a person is told.
    pub fn message(&self) -> (s: String)
        ensures
            s@ == self@.text(),
    {
        match self {
            AuthError::ForeignOAuth =>
                "ChatGPT OAuth can only be used with the official OpenAI provider".to_owned(),
            AuthError::NotSignedIn =>
                "not signed in with ChatGPT; run `codecrab auth login` first".to_owned(),
            AuthError::Mode(m) => text::cat3(
                "invalid auth mode ",
                &text::quote(m),
                "; expected auto, oauth, api_key, or none",
            ),
            AuthError::NotAuthenticated(p) => text::cat3(
                "not authenticated; run `codecrab auth login` to use ChatGPT Pro, or configure providers.",
                p,
                ".api_key",
            ),
            AuthError::NoKey(p) => text::cat3(
                "provider ",
                &text::quote(p),
                " does not have an API key configured",
            ),
        }
    }
}

/// How a provider is asked.
#[derive(Debug)]
pub enum Access {
    /// As a subscriber of ChatGPT.
    Subscription,
    /// By its own interface, with a key or without one.
    Api(Option<String>),
}

/// How a provider is asked.
pub enum AccessView {
    Subscription,
    Api(Option<Seq<char>>),
}

impl View for Access {
    type V = AccessView;

    open spec fn view(&self) -> AccessView {
        match *self {
            Access::Subscription => AccessView::Subscription,
            Access::Api(key) => AccessView::Api(message::opt_view(key)),
        }
    }
}

/// The way to prove who asks, in small letters.
pub open spec fn mode_of(auth: Seq<char>) -> Seq<char> {
    text::ascii_lower(text::trimmed(auth))
}

/// How a provider is asked with its key: where there is none, `login_helps` tells whether a login
/// to ChatGPT is worth naming.
pub open spec fn key_access(
    provider: Seq<char>,
    mode: Seq<char>,
    api_key: Seq<char>,
    login_helps: bool,
) -> Result<AccessView, AuthFault> {
    if mode == "none"@ {
        Ok(AccessView::Api(None))
    } else if api_key.len() > 0 {
        Ok(AccessView::Api(Some(api_key)))
    } else if mode == "auto"@ && login_helps {
        Err(AuthFault::NotAuthenticated(provider))
    } else {
        Err(AuthFault::NoKey(provider))
    }
}

/// How a provider is asked. The official one is asked as a subscriber where there is a login and
/// nothing else is configured.
pub open spec fn access_of(
    provider: Seq<char>,
    auth: Seq<char>,
    api_key: Seq<char>,
    official: bool,
    logged_in: bool,
    names_login: bool,
) -> Result<AccessView, AuthFault> {
    let mode = mode_of(auth);
    if mode == "oauth"@ {
        if !official {
            Err(AuthFault::ForeignOAuth)
        } else if !logged_in {
            Err(AuthFault::NotSignedIn)
        } else {
            Ok(AccessView::Subscription)
        }
    } else if mode == "auto"@ && official && logged_in {
        Ok(AccessView::Subscription)
    } else if mode == "auto"@ || mode == "api_key"@ || mode == "none"@ {
        key_access(provider, mode, api_key, official && names_login)
    } else {
        Err(AuthFault::Mode(mode))
    }
}

/// How a provider is asked: `official` tells whether it is the official one, `logged_in` whether
/// there is a login to ChatGPT, and `names_login` whether such a login is worth naming where a key is
/// missing.
pub fn choose_access(
    provider_name: &str,
    auth: &str,
    api_key: &str,
    official: bool,
    logged_in: bool,
    names_login: bool,
) -> (r: Result<Access, AuthError>)
    ensures
        match r {
            Ok(access) => access_of(
                provider_name@,
                auth@,
                api_key@,
                official,
                logged_in,
                names_login,
            ) == Ok::<AccessView, AuthFault>(access@),
            Err(e) => access_of(
                provider_name@,
                auth@,
                api_key@,
                official,
                logged_in,
                names_login,
            ) == Err::<AccessView, AuthFault>(e@),
        },
{
    let mode = text::to_ascii_lowercase(text::trim(auth));
    if text::same(&mode, "oauth") {
        if !official {
            return Err(AuthError::ForeignOAuth);
        }
        if !logged_in {
            return Err(AuthError::NotSignedIn);
        }
        return Ok(Access::Subscription);
    }
    let automatic = text::same(&mode, "auto");
    if automatic && official && logged_in {
        return Ok(Access::Subscription);
    }
    if text::same(&mode, "none") {
        return Ok(Access::Api(None));
    }
    if !automatic && !text::same(&mode, "api_key") {
        return Err(AuthError::Mode(mode));
    }
    if !api_key.is_empty() {
        return Ok(Access::Api(Some(api_key.to_owned())));
    }
    if automatic && official && names_login {
        return Err(AuthError::NotAuthenticated(provider_name.to_owned()));
    }
    Err(AuthError::NoKey(provider_name.to_owned()))
}

/// The address of a provider without slashes at its end.
pub open spec fn base_of(base_url: Seq<char>) -> Seq<char> {
    text::strip_back(base_url, |c: char| c == '/')
}

/// The version of the catalog that a provider is asked for, as the `client_version` of a request.
pub const CATALOG_VERSION: &'static str = "0.0.0";

/// The address at which a provider lists its models.
pub fn models_url(access: &Access, base_url: &str) -> (s: String)
    ensures
        s@ == (match access@ {
            AccessView::Subscription => CHATGPT_CODEX_BASE@ + "/models"@,
            AccessView::Api(_) => base_of(base_url@) + "/models"@,
        }),
{
    match access {
        Access::Subscription => text::cat2(CHATGPT_CODEX_BASE, "/models"),
        Access::Api(_) => text::cat2(trim_slashes(base_url), "/models"),
    }
}

/// The address at which a provider answers.
pub fn completion_url(access: &Access, base_url: &str) -> (s: String)
    ensures
        s@ == (match access@ {
            AccessView::Subscription => CHATGPT_CODEX_RESPONSES@,
            AccessView::Api(_) => base_of(base_url@) + "/chat/completions"@,
        }),
{
    match access {
        Access::Subscription => CHATGPT_CODEX_RESPONSES.to_owned(),
        Access::Api(_) => text::cat2(trim_slashes(base_url), "/chat/completions"),
    }
}

/// The address without slashes at its end.
pub fn trim_slashes<'a>(base_url: &'a str) -> (r: &'a str)
    ensures
        r@ == base_of(base_url@),
{
    let r = text::trim_end_of(base_url, '/', '/');
    proof {
        let f = |c: char| c == '/' || c == '/';
        let g = |c: char| c == '/';
        assert(f =~= g);
    }
    r
}

/// Whether a request to a subscription is made again with a new login.
pub fn retries_with_new_login(access: &Access, status: u16, already_retried: bool) -> (r: bool)
    ensures
        r == (access@ is Subscription && status == 401 && !already_retried),
{
    match access {
        Access::Subscription => status == 401 && !already_retried,
        Access::Api(_) => false,
    }
}

/// Whether a kind of content is a stream of events.
pub fn is_event_stream(content_type: Option<&str>) -> (r: bool)
    ensures
        r == (content_type matches Some(t) && text::begins_with(t@, "text/event-stream"@)),
{
    match content_type {
        Some(t) => text::starts_with(t, "text/event-stream"),
        None => false,
    }
}

/// What a person is told where nothing came for too long.
pub fn idle_message(description: &str, seconds: u64) -> (s: String)
    ensures
        s@ == description@ + " received no data for "@ + text::decimal(seconds as nat)
            + " seconds"@,
{
    text::cat4(description, " received no data for ", &text::to_decimal(seconds), " seconds")
}

// ---------------------------------------------------------------------------
// Errors of providers

/// What an error says, where its body does: a message of the error, or else of the detail.
pub open spec fn error_of(value: JsonView) -> Option<Seq<char>> {
    let found = match value.field_of_field("error"@, "message"@) {
        Some(m) => Some(m),
        None => value.field_of_field("detail"@, "message"@),
    };
    match found {
        Some(m) => m.text(),
        None => None,
    }
}

/// What a person is told of an error: what its body says, or else the beginning of the body.
pub open spec fn compact_of(
    body: Seq<char>,
    read: Result<JsonView, Seq<char>>,
    says: spec_fn(JsonView) -> Option<Seq<char>>,
) -> Seq<char> {
    let said = match read {
        Ok(value) => says(value),
        Err(_) => None,
    };
    match said {
        Some(s) => s,
        None => text::first_chars(body, 500),
    }
}

/// What an error says, where its body does.
pub fn error_message(value: &json::Json) -> (r: Option<String>)
    ensures
        message::opt_view(r) == error_of(value@),
{
    let mut found = value.get_in("error", "message");
    if found.is_none() {
        found = value.get_in("detail", "message");
    }
    match found {
        Some(m) => match m.as_str() {
            Some(s) => Some(s.to_owned()),
            None => None,
        },
        None => None,
    }
}

/// What a person is told of an error.
pub fn compact_error(body: &str) -> (s: String)
    ensures
        s@ == compact_of(body@, json::read_json(body@), |v: JsonView| error_of(v)),
{
    if let Ok(value) = json::parse_json(body) {
        if let Some(said) = error_message(&value) {
            return said;
        }
    }
    text::take_chars(body, 500).to_owned()
}

// ---------------------------------------------------------------------------
// The list of models

/// Whether a model can be chosen.
pub open spec fn selectable(e: EntryView, chatgpt_mode: bool) -> bool {
    e.visibility == "list"@ && (chatgpt_mode || e.supported_in_api)
}

/// The positions of the models among the first `n` that can be chosen.
pub open spec fn selectable_at(models: Seq<EntryView>, chatgpt_mode: bool, n: nat) -> Seq<int>
    decreases n,
{
    if n == 0 {
        Seq::empty()
    } else {
        let before = selectable_at(models, chatgpt_mode, (n - 1) as nat);
        if selectable(models[n - 1], chatgpt_mode) {
            before.push(n - 1)
        } else {
            before
        }
    }
}

/// The rank of every model.
pub open spec fn priorities(models: Seq<EntryView>) -> Seq<SmallestFirst> {
    Seq::new(models.len(), |i: int| SmallestFirst { number: models[i].priority as i128 })
}

/// The models that can be chosen, in the order of their ranks.
pub open spec fn selectable_models(models: Seq<EntryView>, chatgpt_mode: bool) -> Seq<EntryView> {
    let order = sort::sort_by(
        priorities(models),
        selectable_at(models, chatgpt_mode, models.len()),
    );
    Seq::new(order.len(), |i: int| models[order[i]])
}

/// How many of the first `n` models can be used by a program.
pub open spec fn api_count(models: Seq<EntryView>, n: nat) -> nat
    decreases n,
{
    if n == 0 {
        0
    } else {
        api_count(models, (n - 1) as nat) + (if models[n - 1].supported_in_api {
            1nat
        } else {
            0nat
        })
    }
}

/// Whether a list names every visibility that a model has, in order and once.
pub open spec fn lists_visibilities(v: Seq<Seq<char>>, models: Seq<EntryView>) -> bool {
    &&& table::strictly_sorted(v)
    &&& forall|x: Seq<char>| #[trigger]
        v.contains(x) <==> exists|i: int|
            0 <= i < models.len() && (#[trigger] models[i]).visibility == x
}

/// What a person is told where no model can be chosen.
pub open spec fn nothing_selectable(models: Seq<EntryView>, visibilities: Seq<Seq<char>>) -> Seq<char> {
    "the model catalog contains no selectable models ("@ + text::decimal(models.len())
        + " entries, "@ + text::decimal(api_count(models, models.len()))
        + " API-supported, visibility: "@ + text::joined(visibilities, "/"@) + ")"@
}

fn visibilities_of(models: &Vec<ModelCatalogEntry>) -> (r: Vec<String>)
    ensures
        lists_visibilities(text::views(r@), catalog::entry_views(models@)),
{
    let ghost all = catalog::entry_views(models@);
    let mut seen: Table<()> = Table::new();
    let mut i: usize = 0;
    while i < models.len()
        invariant
            i <= models@.len(),
            all == catalog::entry_views(models@),
            seen.wf(),
            forall|x: Seq<char>| #[trigger]
                seen.map().contains_key(x) <==> exists|j: int|
                    0 <= j < i && (#[trigger] all[j]).visibility == x,
        decreases models@.len() - i,
    {
        let ghost before = seen.map();
        assert(all[i as int].visibility == models@[i as int].visibility@);
        let _ = seen.insert(&models[i].visibility, ());
        assert forall|x: Seq<char>| #[trigger] seen.map().contains_key(x) <==> exists|j: int|
            0 <= j < i + 1 && (#[trigger] all[j]).visibility == x by {
            if before.contains_key(x) {
                let j = choose|j: int| 0 <= j < i && (#[trigger] all[j]).visibility == x;
                assert(0 <= j < i + 1);
            }
            if x == all[i as int].visibility {
                assert(seen.map().contains_key(x));
            } else if exists|j: int| 0 <= j < i + 1 && (#[trigger] all[j]).visibility == x {
                let j = choose|j: int| 0 <= j < i + 1 && (#[trigger] all[j]).visibility == x;
                assert(j < i);
                assert(before.contains_key(x));
            }
        }
        i += 1;
    }
    let ghost names = seen.names();
    let mut r = text::no_texts();
    let mut i: usize = 0;
    assert(names.take(0) == Seq::<Seq<char>>::empty());
    while i < seen.len()
        invariant
            i <= names.len(),
            names == seen.names(),
            text::views(r@) == names.take(i as int),
        decreases names.len() - i,
    {
        r = text::with(r, seen.name_at(i));
        assert(names.take(i + 1) == names.take(i as int).push(names[i as int]));
        i += 1;
    }
    assert(names.take(names.len() as int) == names);
    proof {
        assert forall|x: Seq<char>| #[trigger] names.contains(x) <==> exists|j: int|
            0 <= j < all.len() && (#[trigger] all[j]).visibility == x by {
            table::table_entries_are_its_map(seen, x);
        }
    }
    r
}

fn count_api(models: &Vec<ModelCatalogEntry>) -> (n: usize)
    ensures
        n == api_count(catalog::entry_views(models@), models@.len()),
{
    let ghost all = catalog::entry_views(models@);
    let mut n: usize = 0;
    let mut i: usize = 0;
    while i < models.len()
        invariant
            i <= models@.len(),
            all == catalog::entry_views(models@),
            n <= i,
            n == api_count(all, i as nat),
        decreases models@.len() - i,
    {
        assert(all[i as int].supported_in_api == models@[i as int].supported_in_api);
        if models[i].supported_in_api {
            n += 1;
        }
        i += 1;
    }
    n
}

/// The models of a detailed list that can be chosen.
pub fn select_models(models: &Vec<ModelCatalogEntry>, chatgpt_mode: bool) -> (r: Result<
    Vec<ModelCatalogEntry>,
    String,
>)
    ensures
        match r {
            Ok(v) => v@.len() > 0 && catalog::entry_views(v@) == selectable_models(
                catalog::entry_views(models@),
                chatgpt_mode,
            ),
            Err(e) => selectable_models(catalog::entry_views(models@), chatgpt_mode).len() == 0
                && exists|visibilities: Seq<Seq<char>>| #[trigger]
                lists_visibilities(visibilities, catalog::entry_views(models@)) && e@
                    == nothing_selectable(catalog::entry_views(models@), visibilities),
        },
{
    let ghost all = catalog::entry_views(models@);
    let mut keys: Vec<SmallestFirst> = Vec::new();
    let mut kept: Vec<usize> = Vec::new();
    let mut i: usize = 0;
    assert(sort::ints(kept@) == Seq::<int>::empty());
    while i < models.len()
        invariant
            i <= models@.len(),
            all == catalog::entry_views(models@),
            keys@.len() == i,
            forall|j: int|
                0 <= j < i ==> #[trigger] keys@[j] == (SmallestFirst {
                    number: all[j].priority as i128,
                }),
            forall|j: int| 0 <= j < kept@.len() ==> #[trigger] kept@[j] < i,
            sort::ints(kept@) == selectable_at(all, chatgpt_mode, i as nat),
        decreases models@.len() - i,
    {
        let ghost before = sort::ints(kept@);
        assert(all[i as int] == models@[i as int]@);
        keys.push(SmallestFirst { number: models[i].priority as i128 });
        if text::same(&models[i].visibility, "list") && (chatgpt_mode
            || models[i].supported_in_api) {
            kept.push(i);
            assert(sort::ints(kept@) == before.push(i as int));
        }
        i += 1;
    }
    assert(keys@ == priorities(all));
    let order = sort::sort_indexes(&keys, &kept);
    let mut r: Vec<ModelCatalogEntry> = Vec::new();
    let mut i: usize = 0;
    while i < order.len()
        invariant
            i <= order@.len(),
            r@.len() == i,
            all == catalog::entry_views(models@),
            forall|j: int| 0 <= j < order@.len() ==> #[trigger] order@[j] < models@.len(),
            forall|j: int| 0 <= j < i ==> (#[trigger] r@[j])@ == all[order@[j] as int],
        decreases order@.len() - i,
    {
        r.push(models[order[i]].copy());
        i += 1;
    }
    assert(catalog::entry_views(r@) == selectable_models(all, chatgpt_mode));
    assert(selectable_models(all, chatgpt_mode).len() == r@.len());
    if r.len() == 0 {
        let visibilities = visibilities_of(models);
        let head = text::cat3(
            "the model catalog contains no selectable models (",
            &text::to_decimal(models.len() as u64),
            " entries, ",
        );
        let counts = text::cat3(
            &head,
            &text::to_decimal(count_api(models) as u64),
            " API-supported, visibility: ",
        );
        let told = text::cat3(&counts, &text::join(&visibilities, "/"), ")");
        assert(lists_visibilities(text::views(visibilities@), all));
        assert(told@ == nothing_selectable(all, text::views(visibilities@)));
        return Err(told);
    }
    Ok(r)
}

/// Models of which only the names are known.
pub open spec fn bare_models(ids: Seq<Seq<char>>) -> Seq<EntryView> {
    Seq::new(ids.len(), |i: int| catalog::bare_entry(ids[i]))
}

/// The models of a list of names.
pub fn name_models(ids: Vec<String>) -> (r: Result<Vec<ModelCatalogEntry>, String>)
    ensures
        match r {
            Ok(v) => ids@.len() > 0 && catalog::entry_views(v@) == bare_models(
                text::views(ids@),
            ),
            Err(e) => ids@.len() == 0 && e@ == "the model catalog contains no models"@,
        },
{
    let ghost all = text::views(ids@);
    let mut r: Vec<ModelCatalogEntry> = Vec::new();
    let mut i: usize = 0;
    while i < ids.len()
        invariant
            i <= ids@.len(),
            all == text::views(ids@),
            r@.len() == i,
            forall|j: int| 0 <= j < i ==> (#[trigger] r@[j])@ == catalog::bare_entry(all[j]),
        decreases ids@.len() - i,
    {
        r.push(ModelCatalogEntry::from_id(ids[i].clone()));
        i += 1;
    }
    assert(catalog::entry_views(r@) == bare_models(all));
    if r.len() == 0 {
        return Err("the model catalog contains no models".to_owned());
    }
    Ok(r)
}

/// The list of models in an answer: `detailed` is what the body says as a detailed list, `ids` what
/// it says as a list of names, where it says either.
pub fn parse_models_response(
    success: bool,
    status: &str,
    body: &str,
    detailed: Option<Vec<ModelCatalogEntry>>,
    ids: Option<Vec<String>>,
    chatgpt_mode: bool,
) -> (r: Result<Vec<ModelCatalogEntry>, String>)
    ensures
        ({
            let compact = compact_of(
                body@,
                json::read_json(body@),
                |v: JsonView| error_of(v),
            );
            if !success {
                r matches Err(e) && e@ == "model catalog returned "@ + status@ + ": "@ + compact
            } else if detailed is Some {
                let models = catalog::entry_views(detailed->0@);
                match r {
                    Ok(v) => v@.len() > 0 && catalog::entry_views(v@) == selectable_models(
                        models,
                        chatgpt_mode,
                    ),
                    Err(e) => selectable_models(models, chatgpt_mode).len() == 0 && exists|
                        visibilities: Seq<Seq<char>>,
                    | #[trigger]
                        lists_visibilities(visibilities, models) && e@ == nothing_selectable(
                            models,
                            visibilities,
                        ),
                }
            } else if ids is Some {
                match r {
                    Ok(v) => ids->0@.len() > 0 && catalog::entry_views(v@) == bare_models(
                        text::views(ids->0@),
                    ),
                    Err(e) => ids->0@.len() == 0 && e@ == "the model catalog contains no models"@,
                }
            } else {
                r matches Err(e) && e@ == "model catalog has an unsupported response shape: "@
                    + compact
            }
        }),
{
    if !success {
        return Err(text::cat4("model catalog returned ", status, ": ", &compact_error(body)));
    }
    if let Some(models) = detailed {
        return select_models(&models, chatgpt_mode);
    }
    if let Some(names) = ids {
        return name_models(names);
    }
    Err(text::cat2("model catalog has an unsupported response shape: ", &compact_error(body)))
}

/// What a person is told of a request that was refused.
pub fn refusal(who: &str, status: &str, body: &str) -> (s: String)
    ensures
        s@ == who@ + " returned "@ + status@ + ": "@ + compact_of(
            body@,
            json::read_json(body@),
            |v: JsonView| error_of(v),
        ),
{
    text::cat5(who, " returned ", status, ": ", &compact_error(body))
}

/// The answer that comes first, where there is one.
pub fn first_choice(choices: Vec<Message>) -> (r: Result<Message, String>)
    ensures
        match r {
            Ok(m) => choices@.len() > 0 && m@ == choices@[0]@,
            Err(e) => choices@.len() == 0 && e@ == "model returned no choices"@,
        },
{
    if choices.len() == 0 {
        Err("model returned no choices".to_owned())
    } else {
        Ok(choices[0].clone())
    }
}

/// Only the official provider is asked as a subscriber, and only where there is a login.
pub proof fn a_subscription_needs_a_login(
    provider: Seq<char>,
    auth: Seq<char>,
    api_key: Seq<char>,
    official: bool,
    logged_in: bool,
    names_login: bool,
)
    ensures
        access_of(provider, auth, api_key, official, logged_in, names_login)
            == Ok::<AccessView, AuthFault>(AccessView::Subscription) ==> official && logged_in,
{
}

/// A provider is asked as is configured: without a key where none is wanted, with the key where
/// there is one, and as a subscriber only where it is the official one and there is a login.
pub proof fn a_provider_is_asked_as_configured(
    provider: Seq<char>,
    auth: Seq<char>,
    key: Seq<char>,
    official: bool,
    logged_in: bool,
    names_login: bool,
)
    ensures
        ({
            let mode = text::ascii_lower(text::trimmed(auth));
            let known = mode == "auto"@ || mode == "oauth"@ || mode == "api_key"@ || mode
                == "none"@;
            let r = access_of(provider, auth, key, official, logged_in, names_login);
            &&& r == Ok::<AccessView, AuthFault>(AccessView::Subscription) <==> official && logged_in
                && (mode == "oauth"@ || mode == "auto"@)
            &&& r == Ok::<AccessView, AuthFault>(AccessView::Api(None)) <==> mode == "none"@
            &&& mode == "api_key"@ && key.len() > 0 ==> r == Ok::<AccessView, AuthFault>(
                AccessView::Api(Some(key)),
            )
            &&& mode == "auto"@ && !(official && logged_in) && key.len() > 0 ==> r == Ok::<
                AccessView,
                AuthFault,
            >(AccessView::Api(Some(key)))
            &&& (r matches Err(AuthFault::Mode(m)) ==> m == mode)
            &&& (r matches Err(AuthFault::Mode(m))) <==> !known
            &&& mode == "oauth"@ && !official ==> r == Err::<AccessView, AuthFault>(
                AuthFault::ForeignOAuth,
            )
            &&& mode == "oauth"@ && official && !logged_in ==> r == Err::<AccessView, AuthFault>(
                AuthFault::NotSignedIn,
            )
            &&& mode == "api_key"@ && key.len() == 0 ==> r == Err::<AccessView, AuthFault>(
                AuthFault::NoKey(provider),
            )
            &&& mode == "auto"@ && key.len() == 0 && !(official && logged_in) ==> r == Err::<
                AccessView,
                AuthFault,
            >(
                if official && names_login {
                    AuthFault::NotAuthenticated(provider)
                } else {
                    AuthFault::NoKey(provider)
                },
            )
        }),
{
    reveal_strlit("auto");
    reveal_strlit("oauth");
    reveal_strlit("api_key");
    reveal_strlit("none");
    assert("auto"@.len() == 4 && "oauth"@.len() == 5 && "api_key"@.len() == 7 && "none"@.len()
        == 4);
    assert("auto"@[0] == 'a' && "none"@[0] == 'n');
}

/// Nothing but slashes at the end is taken off an address.
pub proof fn an_address_ends_without_slashes(url: Seq<char>)
    ensures
        exists|n: int| #![trigger url.take(n)]
            0 <= n <= url.len() && base_of(url) == url.take(n) && (n > 0 ==> url[n - 1] != '/')
                && forall|i: int| n <= i < url.len() ==> (#[trigger] url[i]) == '/',
{
    let p = |c: char| c == '/';
    let n = text::lemma_back_stripped(url, p);
    assert(base_of(url) == url.take(n));
    assert forall|i: int| n <= i < url.len() implies (#[trigger] url[i]) == '/' by {
        assert(p(url[i]));
    }
}

/// What a provider says of an error is passed on, and else the beginning of its answer.
pub proof fn what_an_error_says_is_passed_on(body: Seq<char>, value: JsonView, said: Seq<char>)
    requires
        json::read_json(body) == Ok::<JsonView, Seq<char>>(value),
    ensures
        ({
            let compact = compact_of(body, json::read_json(body), |v: JsonView| error_of(v));
            let error = value.field_of_field("error"@, "message"@);
            let detail = value.field_of_field("detail"@, "message"@);
            &&& error == Some(JsonView::Text(said)) ==> compact == said
            &&& error is None && detail == Some(JsonView::Text(said)) ==> compact == said
            &&& error is None && detail is None && body.len() <= 500 ==> compact == body
            &&& error is None && detail is None && body.len() > 500 ==> compact == body.take(500)
        }),
{
}

/// Of an answer that cannot be read, the beginning is passed on.
pub proof fn an_unreadable_error_is_passed_on(body: Seq<char>)
    requires
        json::read_json(body) is Err,
    ensures
        ({
            let compact = compact_of(body, json::read_json(body), |v: JsonView| error_of(v));
            &&& body.len() <= 500 ==> compact == body
            &&& body.len() > 500 ==> compact == body.take(500)
        }),
{
}

proof fn lemma_selectable_at(models: Seq<EntryView>, chatgpt_mode: bool, n: nat)
    requires
        n <= models.len(),
    ensures
        forall|i: int|
            selectable_at(models, chatgpt_mode, n).contains(i) <==> 0 <= i < n && selectable(
                models[i],
                chatgpt_mode,
            ),
    decreases n,
{
    if n > 0 {
        let before = selectable_at(models, chatgpt_mode, (n - 1) as nat);
        lemma_selectable_at(models, chatgpt_mode, (n - 1) as nat);
        let now = selectable_at(models, chatgpt_mode, n);
        assert forall|i: int|
            now.contains(i) <==> 0 <= i < n && selectable(models[i], chatgpt_mode) by {
            if selectable(models[n - 1], chatgpt_mode) {
                assert(now == before.push(n - 1));
                assert(now[before.len() as int] == n - 1);
                if before.contains(i) {
                    let k = choose|k: int| 0 <= k < before.len() && before[k] == i;
                    assert(now[k] == i);
                }
                if now.contains(i) && i != n - 1 {
                    let k = choose|k: int| 0 <= k < now.len() && now[k] == i;
                    assert(before[k] == i);
                }
            }
        }
    }
}

/// A model of a detailed list can be chosen where it is listed, and where it can be used by
/// programs or by subscribers; no other can.
pub proof fn listed_models_can_be_chosen(models: Seq<EntryView>, chatgpt_mode: bool, m: EntryView)
    ensures
        selectable_models(models, chatgpt_mode).contains(m) <==> models.contains(m) && m.visibility
            == "list"@ && (m.supported_in_api || chatgpt_mode),
{
    let list = selectable_at(models, chatgpt_mode, models.len());
    let keys = priorities(models);
    let order = sort::sort_by(keys, list);
    let r = selectable_models(models, chatgpt_mode);
    lemma_selectable_at(models, chatgpt_mode, models.len());
    if r.contains(m) {
        let i = choose|i: int| 0 <= i < r.len() && r[i] == m;
        assert(order.contains(order[i]));
        sort::lemma_sort_contains(keys, list, order[i]);
        assert(list.contains(order[i]));
        assert(models[order[i]] == m);
    }
    if models.contains(m) && selectable(m, chatgpt_mode) {
        let x = choose|x: int| 0 <= x < models.len() && models[x] == m;
        assert(list.contains(x));
        sort::lemma_sort_contains(keys, list, x);
        let i = choose|i: int| 0 <= i < order.len() && order[i] == x;
        assert(r[i] == m);
    }
}

/// The models that can be chosen stand in the order of their ranks, the smallest first.
pub proof fn models_stand_by_rank(models: Seq<EntryView>, chatgpt_mode: bool, i: int, j: int)
    requires
        0 <= i < j < selectable_models(models, chatgpt_mode).len(),
    ensures
        selectable_models(models, chatgpt_mode)[i].priority <= selectable_models(
            models,
            chatgpt_mode,
        )[j].priority,
{
    let list = selectable_at(models, chatgpt_mode, models.len());
    let keys = priorities(models);
    let order = sort::sort_by(keys, list);
    lemma_selectable_at(models, chatgpt_mode, models.len());
    sort::lemma_sort_in_order(keys, list);
    assert(order.contains(order[i]) && order.contains(order[j]));
    sort::lemma_sort_contains(keys, list, order[i]);
    sort::lemma_sort_contains(keys, list, order[j]);
    assert(!sort::Rank::before(keys[order[j]], keys[order[i]]));
}

/// One more model counts as usable by programs exactly where it is.
pub proof fn models_for_programs_are_counted(models: Seq<EntryView>, m: EntryView)
    ensures
        api_count(Seq::empty(), 0) == 0,
        api_count(models.push(m), models.len() + 1) == api_count(models, models.len()) + (
        if m.supported_in_api {
            1int
        } else {
            0int
        }),
{
    lemma_api_count(models, m, models.len());
}

proof fn lemma_api_count(models: Seq<EntryView>, m: EntryView, n: nat)
    requires
        n <= models.len(),
    ensures
        api_count(models.push(m), n) == api_count(models, n),
    decreases n,
{
    if n > 0 {
        lemma_api_count(models, m, (n - 1) as nat);
    }
}

/// Where a provider lists its models, for a subscriber at ChatGPT and else below its own address.
pub proof fn models_are_listed_below_the_address(access: Access, base: &str, url: String)
    requires
        call_ensures(models_url, (&access, base), url),
    ensures
        access is Subscription ==> url@ == CHATGPT_CODEX_BASE@ + "/models"@,
        access is Api && base@.len() > 0 && base@.last() != '/' ==> url@ == base@ + "/models"@,
{
    if base@.len() > 0 && base@.last() != '/' {
        let p = |c: char| c == '/';
        let n = text::lemma_back_stripped(base@, p);
        if n < base@.len() {
            assert(p(base@[base@.len() - 1]));
        }
        assert(base@.take(base@.len() as int) == base@);
    }
}

/// Where a provider answers, for a subscriber at ChatGPT and else below its own address.
pub proof fn answers_come_from_below_the_address(access: Access, base: &str, url: String)
    requires
        call_ensures(completion_url, (&access, base), url),
    ensures
        access is Subscription ==> url@ == CHATGPT_CODEX_RESPONSES@,
        access is Api ==> text::finishes_with(url@, "/chat/completions"@),
        access is Api && base@.len() > 0 && base@.last() != '/' ==> url@ == base@
            + "/chat/completions"@,
{
    if access is Api {
        let e = "/chat/completions"@;
        assert(url@.subrange(url@.len() - e.len(), url@.len() as int) == e);
    }
    if base@.len() > 0 && base@.last() != '/' {
        let p = |c: char| c == '/';
        let n = text::lemma_back_stripped(base@, p);
        if n < base@.len() {
            assert(p(base@[base@.len() - 1]));
        }
        assert(base@.take(base@.len() as int) == base@);
    }
}

/// A login is renewed once, and only where a subscriber was not let in.
pub proof fn a_login_is_renewed_where_it_is_refused(
    access: Access,
    status: u16,
    retried: bool,
    r: bool,
)
    requires
        call_ensures(retries_with_new_login, (&access, status, retried), r),
    ensures
        r ==> access is Subscription,
        r ==> status == 401,
        r ==> !retried,
        !r ==> access is Api || status != 401 || retried,
{
}

/// The first of several answers is taken, and there is none where none came.
pub proof fn the_first_answer_is_taken(choices: Vec<Message>, r: Result<Message, String>)
    requires
        call_ensures(first_choice, (choices,), r),
    ensures
        r is Ok <==> choices@.len() > 0,
        r matches Ok(m) ==> m@ == choices@[0]@,
{
}

/// The list of models is that of the answer: a refused one is told, a detailed one is sifted, and of
/// one of names alone every name is taken.
pub proof fn the_models_of_an_answer_are_listed(
    success: bool,
    status: &str,
    body: &str,
    detailed: Option<Vec<ModelCatalogEntry>>,
    ids: Option<Vec<String>>,
    chatgpt_mode: bool,
    r: Result<Vec<ModelCatalogEntry>, String>,
)
    requires
        call_ensures(parse_models_response, (success, status, body, detailed, ids, chatgpt_mode), r),
    ensures
        !success ==> r is Err,
        detailed is None && ids is None ==> r is Err,
        success && detailed is None ==> (ids matches Some(names) ==> names@.len() > 0 ==> (
        r matches Ok(v) && v@.len() == names@.len() && forall|i: int|
            0 <= i < v@.len() ==> (#[trigger] catalog::entry_views(v@)[i]).slug == names@[i]@)),
        success ==> (detailed matches Some(models) ==> r matches Ok(v) ==> forall|i: int|
            0 <= i < v@.len() ==> catalog::entry_views(models@).contains(
                #[trigger] catalog::entry_views(v@)[i],
            ) && catalog::entry_views(v@)[i].visibility == "list"@),
{
    if success && detailed is Some {
        let models = catalog::entry_views(detailed->0@);
        if let Ok(v) = r {
            let shown = catalog::entry_views(v@);
            assert forall|i: int| 0 <= i < v@.len() implies models.contains(#[trigger] shown[i])
                && shown[i].visibility == "list"@ by {
                assert(shown.contains(shown[i]));
                listed_models_can_be_chosen(models, chatgpt_mode, shown[i]);
            }
        }
    } else if success && ids is Some {
        if let Ok(v) = r {
            let shown = catalog::entry_views(v@);
            let names = text::views(ids->0@);
            assert(shown.len() == v@.len());
            assert forall|i: int| 0 <= i < v@.len() implies (#[trigger] shown[i]).slug
                == ids->0@[i]@ by {
                assert(shown[i] == bare_models(names)[i]);
                assert(names[i] == ids->0@[i]@);
            }
        }
    }
}

} // verus!
