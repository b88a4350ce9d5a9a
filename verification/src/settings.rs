//! Settings: the profiles of providers, and what the command line asks for.
use crate::paths;
use crate::paths::Platform;
use crate::provider::ProviderConfig;
use crate::table::Table;
use crate::text;
use vstd::prelude::*;
use vstd::string::*;

verus! {

/// The profiles of providers, and which of them is used for new sessions.
#[derive(Debug)]
pub struct Config {
    pub providers: Table<ProviderConfig>,
    pub active_provider: String,
}

/// Why profiles cannot be changed so.
#[derive(Debug)]
pub enum ManageError {
    /// There is no such profile.
    Unknown(String),
    /// The profile is in use.
    Active,
}

impl Config {
    /// Whether the table of profiles is sound.
    pub open spec fn wf(self) -> bool {
        self.providers.wf()
    }

    /// Whether there is the profile that is used for new sessions.
    pub open spec fn active_exists(self) -> bool {
        self.providers.map().contains_key(self.active_provider@)
    }
}

/// Where the key of a provider comes from.
#[derive(Debug)]
pub enum KeySource {
    /// It was given.
    Given(String),
    /// It is read from the input.
    Input,
    /// A person is asked for it.
    Prompt,
    /// There is none.
    Nothing,
}

/// The way to prove who asks, as stored.
pub fn normalized_auth(auth: &str) -> (s: String)
    ensures
        s@ == text::ascii_lower(text::trimmed(auth@)),
{
    text::to_ascii_lowercase(text::trim(auth))
}

/// Where the key of a provider comes from. A person is asked only where a key is of use and there is
/// someone to ask.
pub fn key_source(api_key: Option<String>, api_key_stdin: bool, auth: &str, input_is_terminal: bool) -> (r:
    KeySource)
    ensures
        match api_key {
            Some(key) => r == KeySource::Given(key),
            None => if api_key_stdin {
                r is Input
            } else if (auth@ == "auto"@ || auth@ == "api_key"@) && input_is_terminal {
                r is Prompt
            } else {
                r is Nothing
            },
        },
{
    match api_key {
        Some(key) => KeySource::Given(key),
        None => if api_key_stdin {
            KeySource::Input
        } else if (text::same(auth, "auto") || text::same(auth, "api_key"))
            && input_is_terminal {
            KeySource::Prompt
        } else {
            KeySource::Nothing
        },
    }
}

/// The key in an input: all of it, but for the end of the last line.
pub fn key_from_input<'a>(input: &'a str) -> (r: &'a str)
    ensures
        r@ == text::strip_back(input@, |c: char| c == '\r' || c == '\n'),
{
    text::trim_end_of(input, '\r', '\n')
}

/// A profile with new settings; what is configured of its models stays.
pub fn changed_provider(
    existing: ProviderConfig,
    base_url: &str,
    auth: &str,
    model: &str,
    api_key: &str,
) -> (r: ProviderConfig)
    ensures
        r.model@ == model@,
        r.base_url@ == base_url@,
        r.auth@ == text::ascii_lower(text::trimmed(auth@)),
        r.api_key@ == api_key@,
        r.fetch_models == existing.fetch_models,
        r.allowed_models == existing.allowed_models,
        r.model_capabilities == existing.model_capabilities,
{
    ProviderConfig {
        model: model.to_owned(),
        base_url: base_url.to_owned(),
        auth: normalized_auth(auth),
        api_key: api_key.to_owned(),
        fetch_models: existing.fetch_models,
        allowed_models: existing.allowed_models,
        model_capabilities: existing.model_capabilities,
    }
}

impl Config {
    /// Takes a profile out, where there is one.
    pub fn take_provider(&mut self, name: &str) -> (r: Option<ProviderConfig>)
        requires
            old(self).wf(),
        ensures
            final(self).wf(),
            final(self).active_provider == old(self).active_provider,
            final(self).providers.map() == old(self).providers.map().remove(name@),
            r == (if old(self).providers.map().contains_key(name@) {
                Some(old(self).providers.map()[name@])
            } else {
                None
            }),
    {
        self.providers.remove(name)
    }

    /// Stores a profile. It is used for new sessions where that is asked for, and where it is the
    /// only one.
    pub fn add_provider(&mut self, name: &str, provider: ProviderConfig, activate: bool)
        requires
            old(self).wf(),
        ensures
            final(self).wf(),
            final(self).providers.map() == old(self).providers.map().insert(name@, provider),
            old(self).active_exists() ==> final(self).active_exists(),
            final(self).active_provider@ == (if activate || final(self).providers.names().len()
                == 1 {
                name@
            } else {
                old(self).active_provider@
            }),
    {
        let _ = self.providers.insert(name, provider);
        if activate || self.providers.len() == 1 {
            self.active_provider = name.to_owned();
        }
    }

    /// Uses a profile for new sessions.
    pub fn use_provider(&mut self, name: &str) -> (r: Result<(), ManageError>)
        requires
            old(self).wf(),
        ensures
            final(self).providers == old(self).providers,
            old(self).active_exists() ==> final(self).active_exists(),
            match r {
                Ok(()) => old(self).providers.map().contains_key(name@)
                    && final(self).active_provider@ == name@,
                Err(e) => !old(self).providers.map().contains_key(name@) && (e matches ManageError::Unknown(
                    n,
                ) && n@ == name@) && *final(self) == *old(self),
            },
    {
        if !self.providers.contains(name) {
            return Err(ManageError::Unknown(name.to_owned()));
        }
        self.active_provider = name.to_owned();
        Ok(())
    }

    /// Removes a profile, unless it is in use.
    pub fn remove_provider(&mut self, name: &str) -> (r: Result<(), ManageError>)
        requires
            old(self).wf(),
        ensures
            final(self).wf(),
            final(self).active_provider == old(self).active_provider,
            old(self).active_exists() ==> final(self).active_exists(),
            match r {
                Ok(()) => old(self).providers.map().contains_key(name@)
                    && old(self).active_provider@ != name@ && final(self).providers.map()
                    == old(self).providers.map().remove(name@),
                Err(ManageError::Unknown(n)) => !old(self).providers.map().contains_key(name@)
                    && n@ == name@ && *final(self) == *old(self),
                Err(ManageError::Active) => old(self).providers.map().contains_key(name@)
                    && old(self).active_provider@ == name@ && *final(self) == *old(self),
            },
    {
        if !self.providers.contains(name) {
            return Err(ManageError::Unknown(name.to_owned()));
        }
        if text::same(&self.active_provider, name) {
            return Err(ManageError::Active);
        }
        let _ = self.providers.remove(name);
        Ok(())
    }

    /// The lines that list the profiles, without their keys.
    pub fn provider_lines(&self) -> (r: Vec<String>)
        requires
            self.wf(),
        ensures
            r@.len() == self.providers.names().len(),
            forall|i: int|
                0 <= i < r@.len() ==> (#[trigger] r@[i])@ == line_of(
                    self.providers.names()[i],
                    self.providers.values()[i],
                    self.active_provider@,
                ),
    {
        let ghost names = self.providers.names();
        let ghost values = self.providers.values();
        let mut r: Vec<String> = Vec::new();
        let mut i: usize = 0;
        while i < self.providers.len()
            invariant
                i <= names.len(),
                names == self.providers.names(),
                values == self.providers.values(),
                names.len() == values.len(),
                r@.len() == i,
                forall|j: int|
                    0 <= j < i ==> (#[trigger] r@[j])@ == line_of(
                        names[j],
                        values[j],
                        self.active_provider@,
                    ),
            decreases names.len() - i,
        {
            let name = self.providers.name_at(i);
            let provider = self.providers.value_at(i);
            let mark = if text::same(name, &self.active_provider) {
                "* "
            } else {
                "  "
            };
            let key = if provider.api_key.as_str().is_empty() {
                "none"
            } else {
                "configured"
            };
            let head = text::cat5(mark, name, "  ", &provider.model, "  ");
            r.push(text::cat4(&head, &provider.base_url, "  key: ", key));
            i += 1;
        }
        r
    }

    /// The lines that show a profile, without its key.
    pub fn show_provider(&self, name: &str) -> (r: Result<Vec<String>, ManageError>)
        requires
            self.wf(),
        ensures
            match r {
                Ok(lines) => self.providers.map().contains_key(name@) && text::views(lines@)
                    == shown_lines(name@, self.providers.map()[name@], self.active_provider@),
                Err(e) => !self.providers.map().contains_key(name@) && (e matches ManageError::Unknown(
                    n,
                ) && n@ == name@),
            },
    {
        let provider = match self.providers.get(name) {
            Some(p) => p,
            None => {
                return Err(ManageError::Unknown(name.to_owned()));
            },
        };
        let active = if text::same(&self.active_provider, name) {
            "active: true"
        } else {
            "active: false"
        };
        let key = if provider.api_key.as_str().is_empty() {
            "API key: not configured"
        } else {
            "API key: configured"
        };
        let lines = text::with(text::no_texts(), &text::cat2("name: ", name));
        let lines = text::with(lines, active);
        let lines = text::with(lines, &text::cat2("base URL: ", &provider.base_url));
        let lines = text::with(lines, &text::cat2("model: ", &provider.model));
        let lines = text::with(lines, &text::cat2("auth: ", &provider.auth));
        let lines = text::with(lines, key);
        assert(text::views(lines@) == shown_lines(name@, *provider, self.active_provider@));
        Ok(lines)
    }
}

/// The line that lists a profile.
pub open spec fn line_of(name: Seq<char>, provider: ProviderConfig, active: Seq<char>) -> Seq<char> {
    (if name == active {
        "* "@
    } else {
        "  "@
    }) + name + "  "@ + provider.model@ + "  "@ + provider.base_url@ + "  key: "@ + (
    if provider.api_key@.len() == 0 {
        "none"@
    } else {
        "configured"@
    })
}

/// The lines that show a profile.
pub open spec fn shown_lines(name: Seq<char>, provider: ProviderConfig, active: Seq<char>) -> Seq<
    Seq<char>,
> {
    seq![
        "name: "@ + name,
        if active == name {
            "active: true"@
        } else {
            "active: false"@
        },
        "base URL: "@ + provider.base_url@,
        "model: "@ + provider.model@,
        "auth: "@ + provider.auth@,
        if provider.api_key@.len() == 0 {
            "API key: not configured"@
        } else {
            "API key: configured"@
        },
    ]
}

/// A change of the profiles.
#[derive(Debug)]
pub enum ProviderChange {
    Saved(String),
    Used(String),
    Removed(String),
}

/// What a person is told of a change of the profiles; `path` is where they are stored.
pub fn change_message(change: &ProviderChange, path: &str) -> (s: String)
    ensures
        s@ == (match *change {
            ProviderChange::Saved(name) => "Provider "@ + text::quoted(name@) + " saved in "@
                + path@ + "."@,
            ProviderChange::Used(name) => "Provider "@ + text::quoted(name@)
                + " will be used for new sessions."@,
            ProviderChange::Removed(name) => "Provider "@ + text::quoted(name@) + " removed."@,
        }),
{
    match change {
        ProviderChange::Saved(name) => text::cat5(
            "Provider ",
            &text::quote(name),
            " saved in ",
            path,
            ".",
        ),
        ProviderChange::Used(name) => text::cat3(
            "Provider ",
            &text::quote(name),
            " will be used for new sessions.",
        ),
        ProviderChange::Removed(name) => text::cat3(
            "Provider ",
            &text::quote(name),
            " removed.",
        ),
    }
}

/// Where the instructions are kept that hold for every session, by the directory of settings.
pub fn default_instructions_path(platform: Platform, config_dir: &str) -> (r: String)
    ensures
        r@ == paths::joined(platform, config_dir@, "AGENTS.md"@),
{
    paths::join(platform, config_dir, "AGENTS.md")
}

// ---------------------------------------------------------------------------
// The command line

/// The settings, with where they are stored, as printed.
pub fn format_config_output(path: &str, contents: &str) -> (s: String)
    ensures
        s@ == "Configuration file path:\n"@ + path@ + "\n\nEffective configuration content:\n"@
            + text::trim_back(contents@),
{
    text::cat4(
        "Configuration file path:\n",
        path,
        "\n\nEffective configuration content:\n",
        text::trim_end(contents),
    )
}

/// The prompt of a single run: what was given, what was piped in, or both. `piped` is what was piped
/// in, where the input is not a terminal.
pub fn one_shot_prompt(prompt: Option<String>, piped: Option<&str>) -> (r: Result<String, String>)
    ensures
        ({
            let input = match piped {
                Some(p) => text::trimmed(p@),
                None => Seq::empty(),
            };
            match prompt {
                Some(p) => r matches Ok(s) && s@ == (if input.len() == 0 {
                    p@
                } else {
                    p@ + "\n\nThe following content was provided on stdin:\n\n"@ + input
                }),
                None => if piped is None {
                    r matches Err(e) && e@
                        == "provide a prompt or pipe input to `codecrab run`"@
                } else {
                    r matches Ok(s) && s@ == input
                },
            }
        }),
{
    let input = match piped {
        Some(p) => text::trim(p),
        None => {
            match prompt {
                Some(p) => {
                    return Ok(p);
                },
                None => {
                    return Err("provide a prompt or pipe input to `codecrab run`".to_owned());
                },
            }
        },
    };
    match prompt {
        Some(p) => if input.is_empty() {
            Ok(p)
        } else {
            Ok(text::cat3(&p, "\n\nThe following content was provided on stdin:\n\n", input))
        },
        None => Ok(input.to_owned()),
    }
}

/// What a person is told who they are signed in as.
pub fn identity_suffix(email: Option<&str>, plan: Option<&str>) -> (s: String)
    ensures
        s@ == (match email {
            Some(e) => " as "@ + e@,
            None => Seq::empty(),
        }) + (match plan {
            Some(p) => " ("@ + p@ + ")"@,
            None => Seq::empty(),
        }),
{
    let who = match email {
        Some(e) => text::cat2(" as ", e),
        None => String::new(),
    };
    let what = match plan {
        Some(p) => text::cat3(" (", p, ")"),
        None => String::new(),
    };
    text::cat2(&who, &what)
}

// ---------------------------------------------------------------------------
// Laws
/// The line of a profile marks the one in use, and says whether there is a key without showing it.
pub proof fn a_line_marks_the_profile_in_use(
    name: Seq<char>,
    provider: ProviderConfig,
    active: Seq<char>,
)
    ensures
        text::occurs_at(line_of(name, provider, active), name, 2),
        line_of(name, provider, active)[0] == (if name == active {
            '*'
        } else {
            ' '
        }),
        provider.api_key@.len() == 0 ==> text::finishes_with(
            line_of(name, provider, active),
            "  key: none"@,
        ),
        provider.api_key@.len() > 0 ==> text::finishes_with(
            line_of(name, provider, active),
            "  key: configured"@,
        ),
{
    reveal_strlit("* ");
    reveal_strlit("  ");
    reveal_strlit("none");
    reveal_strlit("configured");
    reveal_strlit("  key: ");
    reveal_strlit("  key: none");
    reveal_strlit("  key: configured");
    let s = line_of(name, provider, active);
    assert(s.subrange(2, (2 + name.len()) as int) == name);
    let none = "  key: none"@;
    let some = "  key: configured"@;
    assert(none == "  key: "@ + "none"@);
    assert(some == "  key: "@ + "configured"@);
    if provider.api_key@.len() == 0 {
        assert(s.subrange(s.len() - none.len(), s.len() as int) == none);
    } else {
        assert(s.subrange(s.len() - some.len(), s.len() as int) == some);
    }
}

/// Two profiles that differ in their keys alone are listed and shown alike, unless only one has a key.
pub proof fn keys_are_not_shown(
    name: Seq<char>,
    one: ProviderConfig,
    other: ProviderConfig,
    active: Seq<char>,
)
    requires
        one.model@ == other.model@,
        one.base_url@ == other.base_url@,
        one.auth@ == other.auth@,
        (one.api_key@.len() == 0) == (other.api_key@.len() == 0),
    ensures
        line_of(name, one, active) == line_of(name, other, active),
        shown_lines(name, one, active) == shown_lines(name, other, active),
{
}

/// A profile is shown with its name, whether it is in use, its address, its model and how it is asked.
pub proof fn a_profile_is_shown(name: Seq<char>, provider: ProviderConfig, active: Seq<char>)
    ensures
        ({
            let lines = shown_lines(name, provider, active);
            &&& lines.contains("name: "@ + name)
            &&& lines.contains(
                if name == active {
                    "active: true"@
                } else {
                    "active: false"@
                },
            )
            &&& lines.contains("base URL: "@ + provider.base_url@)
            &&& lines.contains("model: "@ + provider.model@)
            &&& lines.contains("auth: "@ + provider.auth@)
            &&& lines.contains(
                if provider.api_key@.len() > 0 {
                    "API key: configured"@
                } else {
                    "API key: not configured"@
                },
            )
        }),
{
    let lines = shown_lines(name, provider, active);
    assert(lines[0] == "name: "@ + name);
    assert(lines.contains(lines[0]) && lines.contains(lines[1]) && lines.contains(lines[2]));
    assert(lines.contains(lines[3]) && lines.contains(lines[4]) && lines.contains(lines[5]));
}

/// A key that is given is used, and else the input where that is asked for; a person is asked only
/// where a key is of use and somebody is there.
pub proof fn a_key_comes_from_where_it_is_given(
    key: Option<String>,
    stdin: bool,
    auth: &str,
    terminal: bool,
    r: KeySource,
)
    requires
        call_ensures(key_source, (key, stdin, auth, terminal), r),
    ensures
        key matches Some(k) ==> r == KeySource::Given(k),
        r is Given ==> key is Some,
        r is Input <==> key is None && stdin,
        r is Prompt ==> terminal && key is None && !stdin,
        key is None && !stdin && !terminal ==> r is Nothing,
        key is None && !stdin && terminal && (auth@ == "auto"@ || auth@ == "api_key"@) ==> r is Prompt,
{
}

/// The key in an input is all of it but the ends of the last lines.
pub proof fn only_line_ends_are_taken_off_a_key(input: &str, r: &str)
    requires
        call_ensures(key_from_input, (input,), r),
    ensures
        exists|n: int|
            #![trigger input@.take(n)]
            0 <= n <= input@.len() && r@ == input@.take(n) && (n > 0 ==> input@[n - 1] != '\r'
                && input@[n - 1] != '\n') && forall|i: int|
                n <= i < input@.len() ==> (#[trigger] input@[i]) == '\r' || input@[i] == '\n',
{
    let p = |c: char| c == '\r' || c == '\n';
    let n = text::lemma_back_stripped(input@, p);
    assert(r@ == input@.take(n));
    assert forall|i: int| n <= i < input@.len() implies (#[trigger] input@[i]) == '\r' || input@[i]
        == '\n' by {
        assert(p(input@[i]));
    }
}

/// A single run gets what was asked and what was piped in, whole; nothing of either is lost.
pub proof fn a_single_run_gets_all_that_is_given(
    prompt: Option<String>,
    piped: Option<&str>,
    r: Result<String, String>,
)
    requires
        call_ensures(one_shot_prompt, (prompt, piped), r),
    ensures
        r is Err <==> prompt is None && piped is None,
        prompt matches Some(p) ==> (r matches Ok(s) && text::begins_with(s@, p@)),
        piped matches Some(p) ==> (r matches Ok(s) && text::finishes_with(s@, text::trimmed(p@))),
        prompt matches Some(p) ==> piped is None ==> (r matches Ok(s) && s@ == p@),
{
    if let Some(p) = prompt {
        if let Ok(s) = r {
            assert(s@.subrange(0, p@.len() as int) == p@);
        }
    }
    if let Some(p) = piped {
        let t = text::trimmed(p@);
        if let Ok(s) = r {
            assert(s@.subrange(s@.len() - t.len(), s@.len() as int) == t);
        }
    }
}

/// A changed profile has the settings that are given, and keeps what is configured of its models.
pub proof fn a_changed_profile_keeps_its_models(
    existing: ProviderConfig,
    base_url: &str,
    auth: &str,
    model: &str,
    key: &str,
    r: ProviderConfig,
)
    requires
        call_ensures(changed_provider, (existing, base_url, auth, model, key), r),
    ensures
        r.model@ == model@ && r.base_url@ == base_url@ && r.api_key@ == key@,
        r.fetch_models == existing.fetch_models,
        r.allowed_models == existing.allowed_models,
        r.model_capabilities == existing.model_capabilities,
        text::trimmed(auth@) == auth@ && text::ascii_lower(auth@) == auth@ ==> r.auth@ == auth@,
{
}

/// A profile that is stored is there as it was given, and every other one stays; it is used where that
/// is asked for.
pub proof fn a_stored_profile_is_there(
    config: &mut Config,
    name: &str,
    provider: ProviderConfig,
    activate: bool,
    other: Seq<char>,
)
    requires
        call_ensures(Config::add_provider, (config, name, provider, activate), ()),
        old(config).wf(),
        other != name@,
    ensures
        final(config).providers.map().contains_key(name@),
        final(config).providers.map()[name@] == provider,
        final(config).providers.map().contains_key(other) == old(config).providers.map().contains_key(
            other,
        ),
        old(config).providers.map().contains_key(other) ==> final(config).providers.map()[other]
            == old(config).providers.map()[other],
        activate ==> final(config).active_provider@ == name@,
{
}

/// The profile that is named is used from then on, where there is one; no profile changes.
pub proof fn the_profile_named_is_used(
    config: &mut Config,
    name: &str,
    r: Result<(), ManageError>,
)
    requires
        call_ensures(Config::use_provider, (config, name), r),
        old(config).wf(),
    ensures
        r is Ok <==> old(config).providers.map().contains_key(name@),
        r is Ok ==> final(config).active_provider@ == name@,
        r is Err ==> final(config).active_provider == old(config).active_provider,
        final(config).providers == old(config).providers,
{
}

/// The profile in use is never removed; any other that there is, is, and the rest stays.
pub proof fn the_profile_in_use_stays(
    config: &mut Config,
    name: &str,
    r: Result<(), ManageError>,
    other: Seq<char>,
)
    requires
        call_ensures(Config::remove_provider, (config, name), r),
        old(config).wf(),
        other != name@,
    ensures
        r is Ok <==> old(config).providers.map().contains_key(name@) && old(
            config,
        ).active_provider@ != name@,
        r is Ok ==> !final(config).providers.map().contains_key(name@),
        old(config).providers.map().contains_key(other) ==> final(config).providers.map().contains_key(
            other,
        ) && final(config).providers.map()[other] == old(config).providers.map()[other],
        final(config).active_provider == old(config).active_provider,
{
}

} // verus!
