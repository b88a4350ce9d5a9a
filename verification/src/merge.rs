//! Merging what a provider offers with what is configured of its models.
use crate::catalog;
use crate::catalog::{
    CatalogOptionConfig, EntryView, ModelCapabilitiesConfig, ModelCatalogEntry, OptionView,
    ReasoningOption, ServiceTierOption,
};
use crate::message;
use crate::sort;
use crate::sort::{Rank, SmallestFirst};
use crate::table::Table;
use crate::text;
use vstd::prelude::*;
use vstd::string::*;

verus! {

// ---------------------------------------------------------------------------
// Options

/// The text of an option, or `other` where it is not configured.
pub open spec fn configured_or(configured: Option<String>, other: Seq<char>) -> Seq<char> {
    match configured {
        Some(s) => s@,
        None => other,
    }
}

/// The options with one more configured: what is configured of an option that is there replaces
/// what it says, and another option is added.
pub open spec fn with_option(v: Seq<OptionView>, option: CatalogOptionConfig) -> Seq<OptionView> {
    let p = catalog::option_at(v, option.id@, 0);
    if p < v.len() {
        v.update(
            p,
            OptionView {
                id: v[p].id,
                name: configured_or(option.name, v[p].name),
                description: configured_or(option.description, v[p].description),
            },
        )
    } else {
        v.push(
            OptionView {
                id: option.id@,
                name: configured_or(option.name, option.id@),
                description: configured_or(option.description, Seq::empty()),
            },
        )
    }
}

/// The options with the first `n` configured ones.
pub open spec fn with_options(v: Seq<OptionView>, configured: Seq<CatalogOptionConfig>, n: nat) -> Seq<
    OptionView,
>
    decreases n,
{
    if n == 0 {
        v
    } else {
        with_option(with_options(v, configured, (n - 1) as nat), configured[n - 1])
    }
}

fn or_text(configured: &Option<String>, other: &str) -> (r: String)
    ensures
        r@ == configured_or(*configured, other@),
{
    match configured {
        Some(s) => s.clone(),
        None => other.to_owned(),
    }
}

fn no_text() -> (r: String)
    ensures
        r@ == Seq::<char>::empty(),
{
    String::new()
}

/// Merges configured options of thinking into what is there.
pub fn merge_reasoning_options(
    existing: &mut Vec<ReasoningOption>,
    configured: &Vec<CatalogOptionConfig>,
)
    ensures
        catalog::level_views(final(existing)@) == with_options(
            catalog::level_views(old(existing)@),
            configured@,
            configured@.len(),
        ),
{
    let ghost start = catalog::level_views(existing@);
    let mut i: usize = 0;
    while i < configured.len()
        invariant
            i <= configured@.len(),
            start == catalog::level_views(old(existing)@),
            catalog::level_views(existing@) == with_options(start, configured@, i as nat),
        decreases configured@.len() - i,
    {
        let option = &configured[i];
        let ghost all = catalog::level_views(existing@);
        let mut p: usize = 0;
        while p < existing.len() && !text::same(&existing[p].effort, &option.id)
            invariant
                p <= existing@.len(),
                all == catalog::level_views(existing@),
                catalog::option_at(all, option.id@, 0) == catalog::option_at(
                    all,
                    option.id@,
                    p as int,
                ),
            decreases existing@.len() - p,
        {
            assert(all[p as int].id == existing@[p as int].effort@);
            p += 1;
        }
        if p < existing.len() {
            assert(all[p as int] == existing@[p as int]@);
            let name = or_text(&option.name, &existing[p].name);
            let description = or_text(&option.description, &existing[p].description);
            existing[p].name = name;
            existing[p].description = description;
        } else {
            existing.push(
                ReasoningOption {
                    effort: option.id.clone(),
                    name: or_text(&option.name, &option.id),
                    description: or_text(&option.description, &no_text()),
                },
            );
        }
        assert(catalog::level_views(existing@) == with_option(all, *option));
        i += 1;
    }
}

/// Merges configured options of speed into what is there.
pub fn merge_service_tiers(
    existing: &mut Vec<ServiceTierOption>,
    configured: &Vec<CatalogOptionConfig>,
)
    ensures
        catalog::tier_views(final(existing)@) == with_options(
            catalog::tier_views(old(existing)@),
            configured@,
            configured@.len(),
        ),
{
    let ghost start = catalog::tier_views(existing@);
    let mut i: usize = 0;
    while i < configured.len()
        invariant
            i <= configured@.len(),
            start == catalog::tier_views(old(existing)@),
            catalog::tier_views(existing@) == with_options(start, configured@, i as nat),
        decreases configured@.len() - i,
    {
        let option = &configured[i];
        let ghost all = catalog::tier_views(existing@);
        let mut p: usize = 0;
        while p < existing.len() && !text::same(&existing[p].id, &option.id)
            invariant
                p <= existing@.len(),
                all == catalog::tier_views(existing@),
                catalog::option_at(all, option.id@, 0) == catalog::option_at(
                    all,
                    option.id@,
                    p as int,
                ),
            decreases existing@.len() - p,
        {
            assert(all[p as int].id == existing@[p as int].id@);
            p += 1;
        }
        if p < existing.len() {
            assert(all[p as int] == existing@[p as int]@);
            let name = or_text(&option.name, &existing[p].name);
            let description = or_text(&option.description, &existing[p].description);
            existing[p].name = name;
            existing[p].description = description;
        } else {
            existing.push(
                ServiceTierOption {
                    id: option.id.clone(),
                    name: or_text(&option.name, &option.id),
                    description: or_text(&option.description, &no_text()),
                },
            );
        }
        assert(catalog::tier_views(existing@) == with_option(all, *option));
        i += 1;
    }
}

/// The texts, and those of the first `n` configured ones that were not there.
pub open spec fn with_texts(v: Seq<Seq<char>>, configured: Seq<Seq<char>>, n: nat) -> Seq<Seq<char>>
    decreases n,
{
    if n == 0 {
        v
    } else {
        let before = with_texts(v, configured, (n - 1) as nat);
        if before.contains(configured[n - 1]) {
            before
        } else {
            before.push(configured[n - 1])
        }
    }
}

/// Adds the configured texts that are not there.
pub fn merge_strings(existing: &mut Vec<String>, configured: &Vec<String>)
    ensures
        text::views(final(existing)@) == with_texts(
            text::views(old(existing)@),
            text::views(configured@),
            configured@.len(),
        ),
{
    let ghost start = text::views(existing@);
    let ghost new = text::views(configured@);
    let mut i: usize = 0;
    while i < configured.len()
        invariant
            i <= configured@.len(),
            start == text::views(old(existing)@),
            new == text::views(configured@),
            text::views(existing@) == with_texts(start, new, i as nat),
        decreases configured@.len() - i,
    {
        let ghost before = text::views(existing@);
        assert(new[i as int] == configured@[i as int]@);
        if !catalog::contains_name(existing, &configured[i]) {
            existing.push(configured[i].clone());
            assert(text::views(existing@) == before.push(new[i as int]));
        }
        i += 1;
    }
}

/// The options, named by their ids where they have no names.
pub open spec fn named_options(v: Seq<OptionView>) -> Seq<OptionView> {
    Seq::new(
        v.len(),
        |i: int|
            OptionView {
                name: if v[i].name.len() == 0 {
                    v[i].id
                } else {
                    v[i].name
                },
                ..v[i]
            },
    )
}

/// The model, its options named by their ids where they have no names.
pub open spec fn normalized(e: EntryView) -> EntryView {
    EntryView {
        reasoning_levels: named_options(e.reasoning_levels),
        service_tiers: named_options(e.service_tiers),
        ..e
    }
}

/// Names the options of a model by their ids where they have no names.
pub fn normalize_catalog_options(model: &mut ModelCatalogEntry)
    ensures
        final(model)@ == normalized(old(model)@),
{
    let ghost before = model@;
    let mut i: usize = 0;
    while i < model.supported_reasoning_levels.len()
        invariant
            i <= model.supported_reasoning_levels@.len(),
            model.supported_reasoning_levels@.len() == before.reasoning_levels.len(),
            model@ == (EntryView { reasoning_levels: model@.reasoning_levels, ..before }),
            forall|j: int|
                0 <= j < before.reasoning_levels.len()
                    ==> #[trigger] model.supported_reasoning_levels@[j]@ == (if j < i {
                    named_options(before.reasoning_levels)[j]
                } else {
                    before.reasoning_levels[j]
                }),
        decreases model.supported_reasoning_levels@.len() - i,
    {
        assert(model.supported_reasoning_levels@[i as int]@ == before.reasoning_levels[i as int]);
        if model.supported_reasoning_levels[i].name.as_str().is_empty() {
            let name = model.supported_reasoning_levels[i].effort.clone();
            model.supported_reasoning_levels[i].name = name;
        }
        i += 1;
    }
    assert(model@.reasoning_levels == named_options(before.reasoning_levels));
    let ghost middle = model@;
    let mut i: usize = 0;
    while i < model.service_tiers.len()
        invariant
            i <= model.service_tiers@.len(),
            model.service_tiers@.len() == middle.service_tiers.len(),
            model@ == (EntryView { service_tiers: model@.service_tiers, ..middle }),
            forall|j: int|
                0 <= j < middle.service_tiers.len() ==> #[trigger] model.service_tiers@[j]@ == (
                if j < i {
                    named_options(middle.service_tiers)[j]
                } else {
                    middle.service_tiers[j]
                }),
        decreases model.service_tiers@.len() - i,
    {
        assert(model.service_tiers@[i as int]@ == middle.service_tiers[i as int]);
        if model.service_tiers[i].name.as_str().is_empty() {
            let name = model.service_tiers[i].id.clone();
            model.service_tiers[i].name = name;
        }
        i += 1;
    }
    assert(model@.service_tiers == named_options(middle.service_tiers));
}

// ---------------------------------------------------------------------------
// One model

/// A configured text, or else what is there.
pub open spec fn replaced(configured: Option<String>, there: Option<Seq<char>>) -> Option<Seq<char>> {
    match configured {
        Some(s) => Some(s@),
        None => there,
    }
}

/// The model with what is configured of it.
pub open spec fn configured_entry(e: EntryView, c: ModelCapabilitiesConfig) -> EntryView {
    normalized(
        EntryView {
            display_name: configured_or(c.display_name, e.display_name),
            description: replaced(c.description, e.description),
            default_reasoning_level: replaced(
                c.default_reasoning_level,
                e.default_reasoning_level,
            ),
            reasoning_levels: with_options(
                e.reasoning_levels,
                c.reasoning_levels@,
                c.reasoning_levels@.len(),
            ),
            service_tiers: with_options(
                e.service_tiers,
                c.service_tiers@,
                c.service_tiers@.len(),
            ),
            default_service_tier: replaced(c.default_service_tier, e.default_service_tier),
            input_modalities: with_texts(
                e.input_modalities,
                text::views(c.input_modalities@),
                c.input_modalities@.len(),
            ),
            output_modalities: with_texts(
                e.output_modalities,
                text::views(c.output_modalities@),
                c.output_modalities@.len(),
            ),
            ..e
        },
    )
}

/// Merges what is configured of a model into it.
pub fn merge_model_capabilities(model: &mut ModelCatalogEntry, configured: &ModelCapabilitiesConfig)
    ensures
        final(model)@ == configured_entry(old(model)@, *configured),
{
    if let Some(name) = &configured.display_name {
        model.display_name = name.clone();
    }
    if let Some(description) = &configured.description {
        model.description = Some(description.clone());
    }
    if let Some(level) = &configured.default_reasoning_level {
        model.default_reasoning_level = Some(level.clone());
    }
    merge_reasoning_options(&mut model.supported_reasoning_levels, &configured.reasoning_levels);
    if let Some(tier) = &configured.default_service_tier {
        model.default_service_tier = Some(tier.clone());
    }
    merge_service_tiers(&mut model.service_tiers, &configured.service_tiers);
    merge_strings(&mut model.input_modalities, &configured.input_modalities);
    merge_strings(&mut model.output_modalities, &configured.output_modalities);
    normalize_catalog_options(model);
}

/// What is wrong with what is configured of a model.
pub enum DefaultFault {
    Reasoning(Seq<char>),
    Tier(Seq<char>),
}

/// What is wrong with what is configured of a model, where anything is: a setting that the model
/// does not have.
pub open spec fn default_fault(e: EntryView, c: ModelCapabilitiesConfig) -> Option<DefaultFault> {
    if c.default_reasoning_level matches Some(level) && !has_option(e.reasoning_levels, level@) {
        Some(DefaultFault::Reasoning(c.default_reasoning_level->0@))
    } else if c.default_service_tier matches Some(tier) && tier@ != "default"@ && !has_option(
        e.service_tiers,
        tier@,
    ) {
        Some(DefaultFault::Tier(c.default_service_tier->0@))
    } else {
        None
    }
}

/// Whether an option with an id is there.
pub open spec fn has_option(v: Seq<OptionView>, id: Seq<char>) -> bool {
    exists|i: int| 0 <= i < v.len() && (#[trigger] v[i]).id == id
}

/// What a person is told of a setting that a model does not have.
pub open spec fn default_text(slug: Seq<char>, fault: DefaultFault) -> Seq<char> {
    match fault {
        DefaultFault::Reasoning(level) => "model "@ + text::quoted(slug)
            + " configures default_reasoning_level "@ + text::quoted(level)
            + ", but that reasoning level does not exist in the merged catalog"@,
        DefaultFault::Tier(tier) => "model "@ + text::quoted(slug)
            + " configures default_service_tier "@ + text::quoted(tier)
            + ", but that service tier does not exist in the merged catalog"@,
    }
}

fn has_level(v: &Vec<ReasoningOption>, id: &str) -> (r: bool)
    ensures
        r == has_option(catalog::level_views(v@), id@),
{
    let ghost all = catalog::level_views(v@);
    let mut i: usize = 0;
    while i < v.len()
        invariant
            i <= v@.len(),
            all == catalog::level_views(v@),
            forall|j: int| 0 <= j < i ==> (#[trigger] all[j]).id != id@,
        decreases v@.len() - i,
    {
        assert(all[i as int].id == v@[i as int].effort@);
        if text::same(&v[i].effort, id) {
            return true;
        }
        i += 1;
    }
    false
}

fn has_tier(v: &Vec<ServiceTierOption>, id: &str) -> (r: bool)
    ensures
        r == has_option(catalog::tier_views(v@), id@),
{
    let ghost all = catalog::tier_views(v@);
    let mut i: usize = 0;
    while i < v.len()
        invariant
            i <= v@.len(),
            all == catalog::tier_views(v@),
            forall|j: int| 0 <= j < i ==> (#[trigger] all[j]).id != id@,
        decreases v@.len() - i,
    {
        assert(all[i as int].id == v@[i as int].id@);
        if text::same(&v[i].id, id) {
            return true;
        }
        i += 1;
    }
    false
}

impl ModelCatalogEntry {
    /// Whether the model can think as hard as named.
    pub fn supports_reasoning(&self, effort: &str) -> (r: bool)
        ensures
            r == has_option(self@.reasoning_levels, effort@),
    {
        has_level(&self.supported_reasoning_levels, effort)
    }

    /// Whether the model can answer as fast as named.
    pub fn supports_tier(&self, id: &str) -> (r: bool)
        ensures
            r == has_option(self@.service_tiers, id@),
    {
        has_tier(&self.service_tiers, id)
    }
}

/// Whether a model has the settings that are configured of it, and what a person is told where not.
pub fn validate_configured_defaults(model: &ModelCatalogEntry, configured: &ModelCapabilitiesConfig) -> (r:
    Result<(), String>)
    ensures
        r is Ok == default_fault(model@, *configured) is None,
        r matches Err(e) ==> e@ == default_text(
            model@.slug,
            default_fault(model@, *configured)->0,
        ),
{
    if let Some(level) = &configured.default_reasoning_level {
        if !has_level(&model.supported_reasoning_levels, level) {
            let head = text::cat3(
                "model ",
                &text::quote(&model.slug),
                " configures default_reasoning_level ",
            );
            return Err(
                text::cat3(
                    &head,
                    &text::quote(level),
                    ", but that reasoning level does not exist in the merged catalog",
                ),
            );
        }
    }
    if let Some(tier) = &configured.default_service_tier {
        if !text::same(tier, "default") && !has_tier(&model.service_tiers, tier) {
            let head = text::cat3(
                "model ",
                &text::quote(&model.slug),
                " configures default_service_tier ",
            );
            return Err(
                text::cat3(
                    &head,
                    &text::quote(tier),
                    ", but that service tier does not exist in the merged catalog",
                ),
            );
        }
    }
    Ok(())
}

// ---------------------------------------------------------------------------
// The whole catalog

/// Why a catalog cannot be used.
#[derive(Debug)]
pub enum CatalogError {
    /// Allowed models that there are not.
    Missing(Vec<String>),
    /// A model is configured with a setting that it does not have; this is what a person is told.
    Default(String),
    /// There are no models.
    Empty,
}

/// Why a catalog cannot be used.
pub enum CatalogFault {
    Missing(Seq<Seq<char>>),
    Default(Seq<char>),
    Empty,
}

impl View for CatalogError {
    type V = CatalogFault;

    open spec fn view(&self) -> CatalogFault {
        match *self {
            CatalogError::Missing(names) => CatalogFault::Missing(text::views(names@)),
            CatalogError::Default(s) => CatalogFault::Default(s@),
            CatalogError::Empty => CatalogFault::Empty,
        }
    }
}

impl CatalogFault {
    /// What a person is told.
    pub open spec fn text(self) -> Seq<char> {
        match self {
            CatalogFault::Missing(names) =>
                "allowed_models references models that were neither returned by the provider nor declared in model_capabilities: "@
                + text::joined(names, ", "@),
            CatalogFault::Default(s) => s,
            CatalogFault::Empty => "the provider catalog contains no configured models"@,
        }
    }
}

impl CatalogError {
    /// What a person is told.
    pub fn message(&self) -> (s: String)
        ensures
            s@ == self@.text(),
    {
        match self {
            CatalogError::Missing(names) => text::cat2(
                "allowed_models references models that were neither returned by the provider nor declared in model_capabilities: ",
                &text::join(names, ", "),
            ),
            CatalogError::Default(s) => s.clone(),
            CatalogError::Empty => "the provider catalog contains no configured models".to_owned(),
        }
    }
}

/// A model that was offered, with what is configured of it.
pub open spec fn offered_entry(e: EntryView, configured: Map<Seq<char>, ModelCapabilitiesConfig>) -> EntryView {
    if configured.contains_key(e.slug) {
        configured_entry(normalized(e), configured[e.slug])
    } else {
        normalized(e)
    }
}

/// The models that were offered, with what is configured of them.
pub open spec fn offered_entries(
    models: Seq<EntryView>,
    configured: Map<Seq<char>, ModelCapabilitiesConfig>,
) -> Seq<EntryView> {
    Seq::new(models.len(), |i: int| offered_entry(models[i], configured))
}

/// Whether a model with a name is there.
pub open spec fn has_model(models: Seq<EntryView>, slug: Seq<char>) -> bool {
    exists|i: int| 0 <= i < models.len() && (#[trigger] models[i]).slug == slug
}

/// The models, and the first `n` configured ones that were not offered.
pub open spec fn with_configured(
    models: Seq<EntryView>,
    names: Seq<Seq<char>>,
    capabilities: Seq<ModelCapabilitiesConfig>,
    n: nat,
) -> Seq<EntryView>
    decreases n,
{
    if n == 0 {
        models
    } else {
        let before = with_configured(models, names, capabilities, (n - 1) as nat);
        if has_model(before, names[n - 1]) {
            before
        } else {
            before.push(
                configured_entry(catalog::bare_entry(names[n - 1]), capabilities[n - 1]),
            )
        }
    }
}

/// The first `n` allowed models that there are not.
pub open spec fn missing_models(models: Seq<EntryView>, allowed: Seq<Seq<char>>, n: nat) -> Seq<
    Seq<char>,
>
    decreases n,
{
    if n == 0 {
        Seq::empty()
    } else {
        let before = missing_models(models, allowed, (n - 1) as nat);
        if has_model(models, allowed[n - 1]) {
            before
        } else {
            before.push(allowed[n - 1])
        }
    }
}

/// The positions of allowed models among the first `n`.
pub open spec fn kept_models(models: Seq<EntryView>, allowed: Seq<Seq<char>>, n: nat) -> Seq<int>
    decreases n,
{
    if n == 0 {
        Seq::empty()
    } else {
        let before = kept_models(models, allowed, (n - 1) as nat);
        if allowed.contains(models[n - 1].slug) {
            before.push(n - 1)
        } else {
            before
        }
    }
}

/// The position of the first text that is `name`, at or after `from`.
pub open spec fn name_at(v: Seq<Seq<char>>, name: Seq<char>, from: int) -> int
    decreases v.len() - from,
{
    if from >= v.len() {
        v.len() as int
    } else if v[from] == name {
        from
    } else {
        name_at(v, name, from + 1)
    }
}

/// The rank of every model: its place among the allowed ones.
pub open spec fn ranks(models: Seq<EntryView>, allowed: Seq<Seq<char>>) -> Seq<SmallestFirst> {
    Seq::new(
        models.len(),
        |i: int| SmallestFirst { number: name_at(allowed, models[i].slug, 0) as i128 },
    )
}

/// The models at some positions.
pub open spec fn models_at(models: Seq<EntryView>, list: Seq<int>) -> Seq<EntryView> {
    Seq::new(list.len(), |i: int| models[list[i]])
}

/// The allowed models, in the order in which they are allowed.
pub open spec fn allowed_entries(models: Seq<EntryView>, allowed: Seq<Seq<char>>) -> Seq<EntryView> {
    models_at(
        models,
        sort::sort_by(ranks(models, allowed), kept_models(models, allowed, models.len())),
    )
}

/// What is wrong with the settings of the models from position `i` on, where anything is.
pub open spec fn defaults_fault(
    models: Seq<EntryView>,
    configured: Map<Seq<char>, ModelCapabilitiesConfig>,
    i: int,
) -> Option<Seq<char>>
    decreases models.len() - i,
{
    if i >= models.len() {
        None
    } else if configured.contains_key(models[i].slug) && default_fault(
        models[i],
        configured[models[i].slug],
    ) is Some {
        Some(
            default_text(
                models[i].slug,
                default_fault(models[i], configured[models[i].slug])->0,
            ),
        )
    } else {
        defaults_fault(models, configured, i + 1)
    }
}

/// The models that can be chosen: what is offered and what is configured, merged; where models are
/// allowed by name, only those, in that order.
pub open spec fn merged(
    models: Seq<EntryView>,
    configured: Table<ModelCapabilitiesConfig>,
    allowed: Option<Seq<Seq<char>>>,
) -> Result<Seq<EntryView>, CatalogFault> {
    let all = with_configured(
        offered_entries(models, configured.map()),
        configured.names(),
        configured.values(),
        configured.names().len(),
    );
    if allowed matches Some(names) && missing_models(all, names, names.len()).len() > 0 {
        Err(CatalogFault::Missing(missing_models(all, allowed->0, allowed->0.len())))
    } else {
        let chosen = match allowed {
            Some(names) => allowed_entries(all, names),
            None => all,
        };
        match defaults_fault(chosen, configured.map(), 0) {
            Some(told) => Err(CatalogFault::Default(told)),
            None => if chosen.len() == 0 {
                Err(CatalogFault::Empty)
            } else {
                Ok(chosen)
            },
        }
    }
}

fn model_exists(models: &Vec<ModelCatalogEntry>, slug: &str) -> (r: bool)
    ensures
        r == has_model(catalog::entry_views(models@), slug@),
{
    let ghost all = catalog::entry_views(models@);
    let mut i: usize = 0;
    while i < models.len()
        invariant
            i <= models@.len(),
            all == catalog::entry_views(models@),
            forall|j: int| 0 <= j < i ==> (#[trigger] all[j]).slug != slug@,
        decreases models@.len() - i,
    {
        assert(all[i as int].slug == models@[i as int].slug@);
        if text::same(&models[i].slug, slug) {
            return true;
        }
        i += 1;
    }
    false
}

fn merge_offered(models: &mut Vec<ModelCatalogEntry>, configured: &Table<ModelCapabilitiesConfig>)
    requires
        configured.wf(),
    ensures
        catalog::entry_views(final(models)@) == offered_entries(
            catalog::entry_views(old(models)@),
            configured.map(),
        ),
{
    let ghost before = catalog::entry_views(models@);
    let ghost map = configured.map();
    let mut i: usize = 0;
    while i < models.len()
        invariant
            i <= models@.len(),
            models@.len() == before.len(),
            before == catalog::entry_views(old(models)@),
            map == configured.map(),
            configured.wf(),
            forall|j: int|
                0 <= j < models@.len() ==> #[trigger] models@[j]@ == (if j < i {
                    offered_entry(before[j], map)
                } else {
                    before[j]
                }),
        decreases models@.len() - i,
    {
        assert(models@[i as int]@ == before[i as int]);
        let model = &mut models[i];
        normalize_catalog_options(model);
        if let Some(capabilities) = configured.get(&model.slug) {
            merge_model_capabilities(model, capabilities);
        }
        i += 1;
    }
    assert(catalog::entry_views(models@) == offered_entries(before, map));
}

fn add_configured(models: &mut Vec<ModelCatalogEntry>, configured: &Table<ModelCapabilitiesConfig>)
    requires
        configured.wf(),
    ensures
        catalog::entry_views(final(models)@) == with_configured(
            catalog::entry_views(old(models)@),
            configured.names(),
            configured.values(),
            configured.names().len(),
        ),
{
    let ghost before = catalog::entry_views(models@);
    let ghost names = configured.names();
    let ghost capabilities = configured.values();
    let mut i: usize = 0;
    while i < configured.len()
        invariant
            i <= names.len(),
            names == configured.names(),
            capabilities == configured.values(),
            names.len() == capabilities.len(),
            before == catalog::entry_views(old(models)@),
            catalog::entry_views(models@) == with_configured(
                before,
                names,
                capabilities,
                i as nat,
            ),
        decreases names.len() - i,
    {
        let ghost now = catalog::entry_views(models@);
        let id = configured.name_at(i);
        if !model_exists(models, id) {
            let mut model = ModelCatalogEntry::from_id(id.to_owned());
            merge_model_capabilities(&mut model, configured.value_at(i));
            let ghost added = model@;
            models.push(model);
            assert(catalog::entry_views(models@) == now.push(added));
        }
        i += 1;
    }
}

fn missing_names(models: &Vec<ModelCatalogEntry>, allowed: &Vec<String>) -> (r: Vec<String>)
    ensures
        text::views(r@) == missing_models(
            catalog::entry_views(models@),
            text::views(allowed@),
            allowed@.len(),
        ),
{
    let ghost all = catalog::entry_views(models@);
    let ghost names = text::views(allowed@);
    let mut r: Vec<String> = Vec::new();
    let mut i: usize = 0;
    assert(text::views(r@) == Seq::<Seq<char>>::empty());
    while i < allowed.len()
        invariant
            i <= allowed@.len(),
            all == catalog::entry_views(models@),
            names == text::views(allowed@),
            text::views(r@) == missing_models(all, names, i as nat),
        decreases allowed@.len() - i,
    {
        let ghost before = text::views(r@);
        assert(names[i as int] == allowed@[i as int]@);
        if !model_exists(models, &allowed[i]) {
            r.push(allowed[i].clone());
            assert(text::views(r@) == before.push(names[i as int]));
        }
        i += 1;
    }
    r
}

fn place_in(names: &Vec<String>, name: &str) -> (r: usize)
    ensures
        r as int == name_at(text::views(names@), name@, 0),
{
    let ghost all = text::views(names@);
    let mut i: usize = 0;
    while i < names.len() && !text::same(&names[i], name)
        invariant
            i <= names@.len(),
            all == text::views(names@),
            name_at(all, name@, 0) == name_at(all, name@, i as int),
        decreases names@.len() - i,
    {
        assert(all[i as int] == names@[i as int]@);
        i += 1;
    }
    assert(i < all.len() ==> all[i as int] == names@[i as int]@);
    i
}

fn keep_allowed(models: &Vec<ModelCatalogEntry>, allowed: &Vec<String>) -> (r: Vec<
    ModelCatalogEntry,
>)
    ensures
        catalog::entry_views(r@) == allowed_entries(
            catalog::entry_views(models@),
            text::views(allowed@),
        ),
{
    let ghost all = catalog::entry_views(models@);
    let ghost names = text::views(allowed@);
    let mut keys: Vec<SmallestFirst> = Vec::new();
    let mut kept: Vec<usize> = Vec::new();
    let mut i: usize = 0;
    assert(sort::ints(kept@) == Seq::<int>::empty());
    while i < models.len()
        invariant
            i <= models@.len(),
            all == catalog::entry_views(models@),
            names == text::views(allowed@),
            keys@.len() == i,
            forall|j: int|
                0 <= j < i ==> #[trigger] keys@[j] == (SmallestFirst {
                    number: name_at(names, all[j].slug, 0) as i128,
                }),
            forall|j: int| 0 <= j < kept@.len() ==> #[trigger] kept@[j] < i,
            sort::ints(kept@) == kept_models(all, names, i as nat),
        decreases models@.len() - i,
    {
        let ghost before = sort::ints(kept@);
        assert(all[i as int].slug == models@[i as int].slug@);
        keys.push(SmallestFirst { number: place_in(allowed, &models[i].slug) as i128 });
        if catalog::contains_name(allowed, &models[i].slug) {
            kept.push(i);
            assert(sort::ints(kept@) == before.push(i as int));
        }
        i += 1;
    }
    assert(keys@ == ranks(all, names));
    let order = sort::sort_indexes(&keys, &kept);
    let mut r: Vec<ModelCatalogEntry> = Vec::new();
    let mut i: usize = 0;
    while i < order.len()
        invariant
            i <= order@.len(),
            r@.len() == i,
            all == catalog::entry_views(models@),
            forall|j: int| 0 <= j < order@.len() ==> #[trigger] order@[j] < models@.len(),
            forall|j: int| 0 <= j < i ==> (#[trigger] r@[j])@ == all[order@[j] as int],
        decreases order@.len() - i,
    {
        r.push(models[order[i]].copy());
        i += 1;
    }
    assert(catalog::entry_views(r@) == models_at(all, sort::ints(order@)));
    r
}

/// The models that can be chosen.
pub fn merge_model_catalog(
    models: Vec<ModelCatalogEntry>,
    configured: &Table<ModelCapabilitiesConfig>,
    allowed_models: &Option<Vec<String>>,
) -> (r: Result<Vec<ModelCatalogEntry>, CatalogError>)
    requires
        configured.wf(),
    ensures
        match r {
            Ok(v) => merged(
                catalog::entry_views(models@),
                *configured,
                catalog::allowed_views(*allowed_models),
            ) == Ok::<Seq<EntryView>, CatalogFault>(catalog::entry_views(v@)),
            Err(e) => merged(
                catalog::entry_views(models@),
                *configured,
                catalog::allowed_views(*allowed_models),
            ) == Err::<Seq<EntryView>, CatalogFault>(e@),
        },
{
    let mut all = models;
    merge_offered(&mut all, configured);
    add_configured(&mut all, configured);
    let ghost whole = catalog::entry_views(all@);
    if let Some(allowed) = allowed_models {
        let missing = missing_names(&all, allowed);
        if missing.len() > 0 {
            assert(text::views(missing@).len() > 0);
            return Err(CatalogError::Missing(missing));
        }
        assert(text::views(missing@).len() == 0);
        all = keep_allowed(&all, allowed);
    }
    let ghost chosen = catalog::entry_views(all@);
    let ghost map = configured.map();
    let mut i: usize = 0;
    while i < all.len()
        invariant
            i <= all@.len(),
            chosen == catalog::entry_views(all@),
            map == configured.map(),
            configured.wf(),
            merged(
                catalog::entry_views(models@),
                *configured,
                catalog::allowed_views(*allowed_models),
            ) == (match defaults_fault(chosen, map, 0) {
                Some(told) => Err::<Seq<EntryView>, CatalogFault>(CatalogFault::Default(told)),
                None => if chosen.len() == 0 {
                    Err(CatalogFault::Empty)
                } else {
                    Ok(chosen)
                },
            }),
            defaults_fault(chosen, map, 0) == defaults_fault(chosen, map, i as int),
        decreases all@.len() - i,
    {
        assert(chosen[i as int] == all@[i as int]@);
        if let Some(capabilities) = configured.get(&all[i].slug) {
            match validate_configured_defaults(&all[i], capabilities) {
                Ok(()) => {},
                Err(e) => {
                    return Err(CatalogError::Default(e));
                },
            }
        }
        i += 1;
    }
    if all.len() == 0 {
        return Err(CatalogError::Empty);
    }
    Ok(all)
}

// ---------------------------------------------------------------------------
// What always holds

proof fn lemma_kept(models: Seq<EntryView>, allowed: Seq<Seq<char>>, n: nat)
    requires
        n <= models.len(),
    ensures
        forall|x: int| #[trigger]
            kept_models(models, allowed, n).contains(x) <==> 0 <= x < n && allowed.contains(
                models[x].slug,
            ),
    decreases n,
{
    if n > 0 {
        lemma_kept(models, allowed, (n - 1) as nat);
        let before = kept_models(models, allowed, (n - 1) as nat);
        let after = kept_models(models, allowed, n);
        assert forall|x: int| #[trigger] after.contains(x) <==> 0 <= x < n && allowed.contains(
            models[x].slug,
        ) by {
            if allowed.contains(models[n - 1].slug) {
                assert(after[after.len() - 1] == n - 1);
                if before.contains(x) {
                    let k = choose|k: int| 0 <= k < before.len() && before[k] == x;
                    assert(after[k] == x);
                }
                if after.contains(x) && x != n - 1 {
                    let k = choose|k: int| 0 <= k < after.len() && after[k] == x;
                    assert(before[k] == x);
                }
            }
        }
    }
}

proof fn lemma_missing(models: Seq<EntryView>, allowed: Seq<Seq<char>>, n: nat)
    requires
        n <= allowed.len(),
    ensures
        missing_models(models, allowed, n).len() == 0 ==> forall|i: int|
            0 <= i < n ==> has_model(models, #[trigger] allowed[i]),
    decreases n,
{
    if n > 0 {
        lemma_missing(models, allowed, (n - 1) as nat);
    }
}

/// Where models are allowed by name, exactly those can be chosen.
pub proof fn exactly_the_allowed_models_can_be_chosen(
    models: Seq<EntryView>,
    configured: Table<ModelCapabilitiesConfig>,
    allowed: Seq<Seq<char>>,
    slug: Seq<char>,
)
    requires
        merged(models, configured, Some(allowed)) is Ok,
    ensures
        has_model(merged(models, configured, Some(allowed))->Ok_0, slug) <==> allowed.contains(
            slug,
        ),
{
    let all = with_configured(
        offered_entries(models, configured.map()),
        configured.names(),
        configured.values(),
        configured.names().len(),
    );
    let list = kept_models(all, allowed, all.len());
    let order = sort::sort_by(ranks(all, allowed), list);
    let r = models_at(all, order);
    lemma_kept(all, allowed, all.len());
    lemma_missing(all, allowed, allowed.len());
    if has_model(r, slug) {
        let i = choose|i: int| 0 <= i < r.len() && (#[trigger] r[i]).slug == slug;
        assert(order.contains(order[i]));
        sort::lemma_sort_contains(ranks(all, allowed), list, order[i]);
        assert(list.contains(order[i]));
    }
    if allowed.contains(slug) {
        let k = choose|k: int| 0 <= k < allowed.len() && allowed[k] == slug;
        assert(has_model(all, allowed[k]));
        let x = choose|x: int| 0 <= x < all.len() && (#[trigger] all[x]).slug == slug;
        assert(list.contains(x));
        sort::lemma_sort_contains(ranks(all, allowed), list, x);
        let i = choose|i: int| 0 <= i < order.len() && order[i] == x;
        assert(r[i].slug == slug);
    }
}

/// Where models are allowed by name, they stand in the order in which they are allowed.
pub proof fn models_stand_in_the_order_allowed(
    models: Seq<EntryView>,
    configured: Table<ModelCapabilitiesConfig>,
    allowed: Seq<Seq<char>>,
    i: int,
    j: int,
)
    requires
        merged(models, configured, Some(allowed)) is Ok,
        0 <= i < j < merged(models, configured, Some(allowed))->Ok_0.len(),
        allowed.len() <= i128::MAX,
    ensures
        name_at(allowed, merged(models, configured, Some(allowed))->Ok_0[i].slug, 0) <= name_at(
            allowed,
            merged(models, configured, Some(allowed))->Ok_0[j].slug,
            0,
        ),
{
    let all = with_configured(
        offered_entries(models, configured.map()),
        configured.names(),
        configured.values(),
        configured.names().len(),
    );
    let list = kept_models(all, allowed, all.len());
    let keys = ranks(all, allowed);
    let order = sort::sort_by(keys, list);
    lemma_kept(all, allowed, all.len());
    sort::lemma_sort_in_order(keys, list);
    assert(order.contains(order[i]));
    assert(order.contains(order[j]));
    sort::lemma_sort_contains(keys, list, order[i]);
    sort::lemma_sort_contains(keys, list, order[j]);
    lemma_name_at(allowed, all[order[i]].slug, 0);
    lemma_name_at(allowed, all[order[j]].slug, 0);
    assert(!keys[order[j]].before(keys[order[i]]));
}

proof fn lemma_name_at(v: Seq<Seq<char>>, name: Seq<char>, from: int)
    requires
        0 <= from <= v.len(),
    ensures
        from <= name_at(v, name, from) <= v.len(),
    decreases v.len() - from,
{
    if from < v.len() && v[from] != name {
        lemma_name_at(v, name, from + 1);
    }
}

// ---------------------------------------------------------------------------
// Merging options once more

/// The ids of options.
pub open spec fn option_ids(v: Seq<OptionView>) -> Seq<Seq<char>> {
    Seq::new(v.len(), |i: int| v[i].id)
}

/// The ids of configured options.
pub open spec fn configured_ids(configured: Seq<CatalogOptionConfig>) -> Seq<Seq<char>> {
    Seq::new(configured.len(), |i: int| configured[i].id@)
}

proof fn lemma_option_at(v: Seq<OptionView>, id: Seq<char>, from: int)
    requires
        0 <= from <= v.len(),
    ensures
        ({
            let p = catalog::option_at(v, id, from);
            &&& from <= p <= v.len()
            &&& p < v.len() ==> v[p].id == id
            &&& forall|q: int| from <= q < p ==> (#[trigger] v[q]).id != id
        }),
    decreases v.len() - from,
{
    if from < v.len() && v[from].id != id {
        lemma_option_at(v, id, from + 1);
    }
}

/// Whether an option is the first with its id.
spec fn is_first(v: Seq<OptionView>, p: int) -> bool {
    &&& 0 <= p < v.len()
    &&& forall|q: int| 0 <= q < p ==> (#[trigger] v[q]).id != v[p].id
}

/// The last name that the first `n` configured options give to an id.
spec fn last_name(configured: Seq<CatalogOptionConfig>, id: Seq<char>, n: nat) -> Option<Seq<char>>
    decreases n,
{
    if n == 0 {
        None
    } else if configured[n - 1].id@ == id && configured[n - 1].name is Some {
        Some(configured[n - 1].name->0@)
    } else {
        last_name(configured, id, (n - 1) as nat)
    }
}

/// The last description that the first `n` configured options give to an id.
spec fn last_description(
    configured: Seq<CatalogOptionConfig>,
    id: Seq<char>,
    n: nat,
) -> Option<Seq<char>>
    decreases n,
{
    if n == 0 {
        None
    } else if configured[n - 1].id@ == id && configured[n - 1].description is Some {
        Some(configured[n - 1].description->0@)
    } else {
        last_description(configured, id, (n - 1) as nat)
    }
}

proof fn lemma_not_configured(configured: Seq<CatalogOptionConfig>, id: Seq<char>, n: nat)
    requires
        n <= configured.len(),
        forall|i: int| 0 <= i < n ==> (#[trigger] configured[i]).id@ != id,
    ensures
        last_name(configured, id, n) is None,
        last_description(configured, id, n) is None,
    decreases n,
{
    if n > 0 {
        lemma_not_configured(configured, id, (n - 1) as nat);
    }
}

/// Whether options say what the first `n` configured ones say last, and all of these are there.
spec fn says_last(v: Seq<OptionView>, configured: Seq<CatalogOptionConfig>, n: nat) -> bool {
    &&& forall|p: int|
        #[trigger] is_first(v, p) ==> {
            &&& last_name(configured, v[p].id, n) matches Some(x) ==> v[p].name == x
            &&& last_description(configured, v[p].id, n) matches Some(x) ==> v[p].description == x
        }
    &&& forall|i: int| 0 <= i < n ==> has_option(v, (#[trigger] configured[i]).id@)
}

proof fn lemma_says_last(v: Seq<OptionView>, configured: Seq<CatalogOptionConfig>, n: nat)
    requires
        n <= configured.len(),
    ensures
        says_last(with_options(v, configured, n), configured, n),
    decreases n,
{
    if n > 0 {
        let m = (n - 1) as nat;
        lemma_says_last(v, configured, m);
        let before = with_options(v, configured, m);
        let after = with_options(v, configured, n);
        let option = configured[n - 1];
        lemma_option_at(before, option.id@, 0);
        let at = catalog::option_at(before, option.id@, 0);
        assert forall|q: int| 0 <= q < before.len() implies (#[trigger] after[q]).id
            == before[q].id by {}
        assert forall|p: int| #[trigger] is_first(after, p) implies {
            &&& last_name(configured, after[p].id, n) matches Some(x) ==> after[p].name == x
            &&& last_description(configured, after[p].id, n) matches Some(x)
                ==> after[p].description == x
        } by {
            if p < before.len() {
                assert forall|q: int| 0 <= q < p implies (#[trigger] before[q]).id
                    != before[p].id by {
                    assert(after[q].id != after[p].id);
                }
                assert(is_first(before, p));
                if p != at && before[p].id == option.id@ {
                    assert(before[at].id == option.id@);
                    if at < p {
                        assert(before[at].id != before[p].id);
                    }
                }
            } else {
                assert forall|i: int| 0 <= i < m implies (#[trigger] configured[i]).id@
                    != option.id@ by {
                    if configured[i].id@ == option.id@ {
                        assert(has_option(before, configured[i].id@));
                        let q = choose|q: int|
                            0 <= q < before.len() && (#[trigger] before[q]).id == option.id@;
                        assert(before[q].id != option.id@);
                    }
                }
                lemma_not_configured(configured, option.id@, m);
            }
        }
        assert forall|i: int| 0 <= i < n implies has_option(
            after,
            (#[trigger] configured[i]).id@,
        ) by {
            if i < m {
                assert(has_option(before, configured[i].id@));
                let q = choose|q: int|
                    0 <= q < before.len() && (#[trigger] before[q]).id == configured[i].id@;
                assert(after[q].id == configured[i].id@);
            } else if at < before.len() {
                assert(after[at].id == option.id@);
            } else {
                assert(after[before.len() as int].id == option.id@);
            }
        }
    }
}

/// How an option stands where the first `m` configured ones are merged into options that hold them.
spec fn stands(
    now: OptionView,
    before: OptionView,
    first: bool,
    configured: Seq<CatalogOptionConfig>,
    m: nat,
) -> bool {
    &&& now.id == before.id
    &&& now.name == (match last_name(configured, before.id, m) {
        Some(x) if first => x,
        _ => before.name,
    })
    &&& now.description == (match last_description(configured, before.id, m) {
        Some(x) if first => x,
        _ => before.description,
    })
}

proof fn lemma_stands(v: Seq<OptionView>, configured: Seq<CatalogOptionConfig>, m: nat)
    requires
        m <= configured.len(),
        forall|i: int| 0 <= i < m ==> has_option(v, (#[trigger] configured[i]).id@),
    ensures
        with_options(v, configured, m).len() == v.len(),
        forall|p: int|
            0 <= p < v.len() ==> stands(
                #[trigger] with_options(v, configured, m)[p],
                v[p],
                is_first(v, p),
                configured,
                m,
            ),
    decreases m,
{
    if m > 0 {
        let l = (m - 1) as nat;
        lemma_stands(v, configured, l);
        let before = with_options(v, configured, l);
        let after = with_options(v, configured, m);
        let option = configured[m - 1];
        lemma_option_at(before, option.id@, 0);
        let at = catalog::option_at(before, option.id@, 0);
        assert(has_option(v, option.id@));
        let q = choose|q: int| 0 <= q < v.len() && (#[trigger] v[q]).id == option.id@;
        assert(stands(before[q], v[q], is_first(v, q), configured, l));
        assert(at < before.len());
        assert(stands(before[at], v[at], is_first(v, at), configured, l));
        assert(is_first(v, at)) by {
            assert forall|r: int| 0 <= r < at implies (#[trigger] v[r]).id != v[at].id by {
                assert(stands(before[r], v[r], is_first(v, r), configured, l));
                assert(before[r].id != option.id@);
            }
        }
        assert forall|p: int| 0 <= p < v.len() implies stands(
            #[trigger] after[p],
            v[p],
            is_first(v, p),
            configured,
            m,
        ) by {
            assert(stands(before[p], v[p], is_first(v, p), configured, l));
            if p != at && is_first(v, p) && v[p].id == option.id@ {
                assert(v[at].id == v[p].id);
                if at < p {
                    assert(v[at].id != v[p].id);
                } else {
                    assert(v[p].id != v[at].id);
                }
            }
        }
    }
}

/// Merging the same options a second time changes nothing.
pub proof fn merging_twice_changes_nothing(
    v: Seq<OptionView>,
    configured: Seq<CatalogOptionConfig>,
)
    ensures
        ({
            let once = with_options(v, configured, configured.len());
            with_options(once, configured, configured.len()) == once
        }),
{
    let n = configured.len();
    let once = with_options(v, configured, n);
    let twice = with_options(once, configured, n);
    lemma_says_last(v, configured, n);
    lemma_stands(once, configured, n);
    assert forall|p: int| 0 <= p < once.len() implies #[trigger] twice[p] == once[p] by {
        assert(stands(twice[p], once[p], is_first(once, p), configured, n));
    }
    assert(twice == once);
}

/// Merging keeps the options that are there at their places, and adds each other id once, in the order
/// in which the ids come first.
pub proof fn merging_adds_each_new_option_once(
    v: Seq<OptionView>,
    configured: Seq<CatalogOptionConfig>,
    n: nat,
)
    requires
        n <= configured.len(),
    ensures
        option_ids(with_options(v, configured, n)) == with_texts(
            option_ids(v),
            configured_ids(configured),
            n,
        ),
        option_ids(v).is_prefix_of(option_ids(with_options(v, configured, n))),
    decreases n,
{
    if n > 0 {
        let m = (n - 1) as nat;
        merging_adds_each_new_option_once(v, configured, m);
        let before = with_options(v, configured, m);
        let after = with_options(v, configured, n);
        let id = configured[n - 1].id@;
        let at = catalog::option_at(before, id, 0);
        lemma_option_at(before, id, 0);
        assert(configured_ids(configured)[n - 1] == id);
        if at < before.len() {
            assert(option_ids(before)[at] == id);
            assert(option_ids(after) == option_ids(before));
        } else {
            if option_ids(before).contains(id) {
                let q = choose|q: int|
                    0 <= q < option_ids(before).len() && option_ids(before)[q] == id;
                assert(before[q].id == id);
            }
            assert(option_ids(after) == option_ids(before).push(id));
        }
        let ids = option_ids(v);
        assert(option_ids(before).subrange(0, ids.len() as int) == ids);
        assert(option_ids(after).subrange(0, ids.len() as int) == ids);
    } else {
        assert(option_ids(v).subrange(0, v.len() as int) == option_ids(v));
    }
}

// ---------------------------------------------------------------------------
// What is merged

/// What is configured of an option that is there replaces what it says, as far as it is configured; an
/// option that is not there is added behind the others, named by its id where it has no name. Every
/// other option stays.
pub proof fn a_configured_option_replaces_or_adds(
    v: Seq<OptionView>,
    option: CatalogOptionConfig,
    p: int,
)
    ensures
        0 <= p < v.len() && v[p].id == option.id@ && (forall|i: int|
            0 <= i < p ==> (#[trigger] v[i]).id != option.id@) ==> {
            let after = with_option(v, option);
            &&& after.len() == v.len()
            &&& forall|i: int| 0 <= i < v.len() && i != p ==> #[trigger] after[i] == v[i]
            &&& after[p].id == option.id@
            &&& option.name is Some ==> after[p].name == option.name->0@
            &&& option.name is None ==> after[p].name == v[p].name
            &&& option.description is Some ==> after[p].description == option.description->0@
            &&& option.description is None ==> after[p].description == v[p].description
        },
        !has_option(v, option.id@) ==> {
            let after = with_option(v, option);
            &&& after.len() == v.len() + 1
            &&& forall|i: int| 0 <= i < v.len() ==> #[trigger] after[i] == v[i]
            &&& after.last().id == option.id@
            &&& option.name is Some ==> after.last().name == option.name->0@
            &&& option.name is None ==> after.last().name == option.id@
            &&& option.description is Some ==> after.last().description
                == option.description->0@
            &&& option.description is None ==> after.last().description.len() == 0
        },
{
    lemma_option_at(v, option.id@, 0);
    let at = catalog::option_at(v, option.id@, 0);
    if at < v.len() {
        assert(v[at].id == option.id@);
    }
}

/// What is configured of a model wins over what is offered, and what is not configured stays; what the
/// model is called stays in any case.
pub proof fn what_is_configured_wins(e: EntryView, c: ModelCapabilitiesConfig)
    ensures
        ({
            let after = configured_entry(e, c);
            &&& after.slug == e.slug
            &&& after.priority == e.priority
            &&& after.visibility == e.visibility
            &&& after.supported_in_api == e.supported_in_api
            &&& c.display_name is Some ==> after.display_name == c.display_name->0@
            &&& c.display_name is None ==> after.display_name == e.display_name
            &&& c.description is Some ==> after.description == Some(c.description->0@)
            &&& c.description is None ==> after.description == e.description
            &&& c.default_reasoning_level is Some ==> after.default_reasoning_level == Some(
                c.default_reasoning_level->0@,
            )
            &&& c.default_reasoning_level is None ==> after.default_reasoning_level
                == e.default_reasoning_level
            &&& c.default_service_tier is Some ==> after.default_service_tier == Some(
                c.default_service_tier->0@,
            )
            &&& c.default_service_tier is None ==> after.default_service_tier
                == e.default_service_tier
        }),
{
}

/// Texts that are there stay in their places, and those that are configured are there in the end.
pub proof fn configured_texts_are_there(v: Seq<Seq<char>>, configured: Seq<Seq<char>>, n: nat)
    requires
        n <= configured.len(),
    ensures
        ({
            let after = with_texts(v, configured, n);
            &&& after.len() >= v.len()
            &&& forall|i: int| 0 <= i < v.len() ==> #[trigger] after[i] == v[i]
            &&& forall|i: int| 0 <= i < n ==> after.contains(#[trigger] configured[i])
            &&& forall|i: int|
                v.len() <= i < after.len() ==> configured.contains(#[trigger] after[i])
        }),
    decreases n,
{
    if n > 0 {
        configured_texts_are_there(v, configured, (n - 1) as nat);
        let before = with_texts(v, configured, (n - 1) as nat);
        let after = with_texts(v, configured, n);
        assert forall|i: int| 0 <= i < n implies after.contains(#[trigger] configured[i]) by {
            if i < n - 1 {
                assert(before.contains(configured[i]));
                let k = choose|k: int| 0 <= k < before.len() && before[k] == configured[i];
                assert(after[k] == configured[i]);
            } else if !before.contains(configured[i]) {
                assert(after[before.len() as int] == configured[i]);
            }
        }
    }
}

/// Options that have no names are called by their ids; nothing else of a model changes with it.
pub proof fn nameless_options_are_called_by_their_ids(v: Seq<OptionView>, i: int)
    requires
        0 <= i < v.len(),
    ensures
        named_options(v).len() == v.len(),
        named_options(v)[i].id == v[i].id,
        named_options(v)[i].description == v[i].description,
        v[i].name.len() > 0 ==> named_options(v)[i].name == v[i].name,
        v[i].name.len() == 0 ==> named_options(v)[i].name == v[i].id,
{
}

/// Every model that is offered stays in its place, and every model that is configured is there in the
/// end; what is added is configured and was not offered.
pub proof fn offered_and_configured_models_are_there(
    models: Seq<EntryView>,
    names: Seq<Seq<char>>,
    capabilities: Seq<ModelCapabilitiesConfig>,
    n: nat,
)
    requires
        n <= names.len(),
        names.len() == capabilities.len(),
    ensures
        ({
            let after = with_configured(models, names, capabilities, n);
            &&& after.len() >= models.len()
            &&& forall|i: int| 0 <= i < models.len() ==> #[trigger] after[i] == models[i]
            &&& forall|i: int| 0 <= i < n ==> has_model(after, #[trigger] names[i])
            &&& forall|i: int|
                models.len() <= i < after.len() ==> names.contains((#[trigger] after[i]).slug)
                    && !has_model(models, after[i].slug)
        }),
    decreases n,
{
    if n > 0 {
        offered_and_configured_models_are_there(models, names, capabilities, (n - 1) as nat);
        let before = with_configured(models, names, capabilities, (n - 1) as nat);
        let after = with_configured(models, names, capabilities, n);
        assert forall|i: int| 0 <= i < n implies has_model(after, #[trigger] names[i]) by {
            if i < n - 1 {
                assert(has_model(before, names[i]));
                let k = choose|k: int| 0 <= k < before.len() && (#[trigger] before[k]).slug
                    == names[i];
                assert(after[k].slug == names[i]);
            } else if !has_model(before, names[i]) {
                assert(after[before.len() as int].slug == names[i]);
            }
        }
        assert forall|i: int| models.len() <= i < after.len() implies names.contains(
            (#[trigger] after[i]).slug,
        ) && !has_model(models, after[i].slug) by {
            if i < before.len() {
                assert(after[i] == before[i]);
            } else {
                assert(after[i].slug == names[n - 1]);
                if has_model(models, names[n - 1]) {
                    let k = choose|k: int| 0 <= k < models.len() && (#[trigger] models[k]).slug
                        == names[n - 1];
                    assert(before[k].slug == names[n - 1]);
                }
            }
        }
    }
}

/// The models that are told to be missing are exactly those that are allowed and not there.
pub proof fn missing_models_are_those_not_there(
    models: Seq<EntryView>,
    allowed: Seq<Seq<char>>,
    n: nat,
)
    requires
        n <= allowed.len(),
    ensures
        forall|i: int|
            0 <= i < n && !has_model(models, #[trigger] allowed[i]) ==> missing_models(
                models,
                allowed,
                n,
            ).contains(allowed[i]),
        forall|i: int|
            0 <= i < missing_models(models, allowed, n).len() ==> !has_model(
                models,
                #[trigger] missing_models(models, allowed, n)[i],
            ) && allowed.contains(missing_models(models, allowed, n)[i]),
    decreases n,
{
    if n > 0 {
        missing_models_are_those_not_there(models, allowed, (n - 1) as nat);
        let before = missing_models(models, allowed, (n - 1) as nat);
        let after = missing_models(models, allowed, n);
        assert forall|i: int| 0 <= i < n && !has_model(
            models,
            #[trigger] allowed[i],
        ) implies after.contains(allowed[i]) by {
            if i < n - 1 {
                let k = choose|k: int| 0 <= k < before.len() && before[k] == allowed[i];
                assert(before.contains(allowed[i]));
                assert(after[k] == allowed[i]);
            } else {
                assert(after[before.len() as int] == allowed[i]);
            }
        }
        assert forall|i: int| 0 <= i < after.len() implies !has_model(models, #[trigger] after[i])
            && allowed.contains(after[i]) by {
            if i < before.len() {
                assert(after[i] == before[i]);
            }
        }
    }
}

/// Where no models are named, every model that is offered or configured can be chosen, unless one is
/// configured with a setting that it does not have; a catalog without models cannot be used.
pub proof fn all_models_can_be_chosen(
    models: Seq<EntryView>,
    configured: Table<ModelCapabilitiesConfig>,
)
    requires
        configured.names().len() == configured.values().len(),
    ensures
        merged(models, configured, None) matches Ok(all) ==> {
            &&& all.len() > 0
            &&& forall|i: int|
                #![trigger all[i]]
                0 <= i < models.len() ==> all[i].slug == models[i].slug
            &&& forall|i: int|
                0 <= i < configured.names().len() ==> has_model(
                    all,
                    #[trigger] configured.names()[i],
                )
        },
        models.len() > 0 ==> (merged(models, configured, None) matches Err(fault) ==> fault is Default),
{
    let offered = offered_entries(models, configured.map());
    offered_and_configured_models_are_there(
        offered,
        configured.names(),
        configured.values(),
        configured.names().len(),
    );
    assert forall|i: int| 0 <= i < models.len() implies (#[trigger] offered[i]).slug
        == models[i].slug by {}
}

/// A setting that is configured as the usual one has to be one that the model has.
pub proof fn usual_settings_have_to_be_there(e: EntryView, c: ModelCapabilitiesConfig)
    ensures
        default_fault(e, c) is None <==> {
            &&& c.default_reasoning_level is Some ==> exists|i: int|
                0 <= i < e.reasoning_levels.len() && (#[trigger] e.reasoning_levels[i]).id
                    == c.default_reasoning_level->0@
            &&& c.default_service_tier is Some && c.default_service_tier->0@ != "default"@
                ==> exists|i: int|
                0 <= i < e.service_tiers.len() && (#[trigger] e.service_tiers[i]).id
                    == c.default_service_tier->0@
        },
{
}

} // verus!
