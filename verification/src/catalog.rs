//! The models that a provider offers, and what is configured of them.
use crate::message;
use crate::text;
use vstd::prelude::*;
use vstd::string::*;

verus! {

/// The model that is chosen where nothing is configured.
pub const PREFERRED_DEFAULT_MODEL: &'static str = "gpt-5.6-sol";

/// How hard the preferred model thinks where nothing is configured.
pub const PREFERRED_DEFAULT_REASONING: &'static str = "high";

/// How fast the preferred model answers where nothing is configured.
pub const PREFERRED_DEFAULT_SPEED: &'static str = "fast";

/// How hard a model can think.
#[derive(Debug)]
pub struct ReasoningOption {
    pub effort: String,
    pub name: String,
    pub description: String,
}

/// How fast a model can answer.
#[derive(Debug)]
pub struct ServiceTierOption {
    pub id: String,
    pub name: String,
    pub description: String,
}

/// A model that can be chosen.
#[derive(Debug)]
pub struct ModelCatalogEntry {
    pub slug: String,
    pub display_name: String,
    pub description: Option<String>,
    pub default_reasoning_level: Option<String>,
    pub supported_reasoning_levels: Vec<ReasoningOption>,
    pub visibility: String,
    pub supported_in_api: bool,
    pub priority: i32,
    pub service_tiers: Vec<ServiceTierOption>,
    pub default_service_tier: Option<String>,
    pub input_modalities: Vec<String>,
    pub output_modalities: Vec<String>,
}

/// What is configured of an option of a model.
#[derive(Debug)]
pub struct CatalogOptionConfig {
    pub id: String,
    pub name: Option<String>,
    pub description: Option<String>,
}

/// What is configured of a model.
#[derive(Debug)]
pub struct ModelCapabilitiesConfig {
    pub display_name: Option<String>,
    pub description: Option<String>,
    pub default_reasoning_level: Option<String>,
    pub reasoning_levels: Vec<CatalogOptionConfig>,
    pub default_service_tier: Option<String>,
    pub service_tiers: Vec<CatalogOptionConfig>,
    pub input_modalities: Vec<String>,
    pub output_modalities: Vec<String>,
}

impl Default for ModelCapabilitiesConfig {
    fn default() -> (r: Self)
        ensures
            r.display_name is None,
            r.description is None,
            r.default_reasoning_level is None,
            r.reasoning_levels@.len() == 0,
            r.default_service_tier is None,
            r.service_tiers@.len() == 0,
            r.input_modalities@.len() == 0,
            r.output_modalities@.len() == 0,
    {
        ModelCapabilitiesConfig {
            display_name: None,
            description: None,
            default_reasoning_level: None,
            reasoning_levels: Vec::new(),
            default_service_tier: None,
            service_tiers: Vec::new(),
            input_modalities: Vec::new(),
            output_modalities: Vec::new(),
        }
    }
}

/// A model with its settings, as chosen.
#[derive(Debug)]
pub struct ModelSelection {
    pub model: String,
    pub reasoning_effort: Option<String>,
    pub service_tier: Option<String>,
}

impl Clone for ReasoningOption {
    fn clone(&self) -> (r: Self)
        ensures
            r == *self,
    {
        ReasoningOption {
            effort: self.effort.clone(),
            name: self.name.clone(),
            description: self.description.clone(),
        }
    }
}

impl Clone for ServiceTierOption {
    fn clone(&self) -> (r: Self)
        ensures
            r == *self,
    {
        ServiceTierOption {
            id: self.id.clone(),
            name: self.name.clone(),
            description: self.description.clone(),
        }
    }
}

impl Clone for ModelSelection {
    fn clone(&self) -> (r: Self)
        ensures
            r == *self,
    {
        ModelSelection {
            model: self.model.clone(),
            reasoning_effort: message::copy_text(&self.reasoning_effort),
            service_tier: message::copy_text(&self.service_tier),
        }
    }
}

// ---------------------------------------------------------------------------
// The model

/// An option of a model.
#[verifier::ext_equal]
pub struct OptionView {
    pub id: Seq<char>,
    pub name: Seq<char>,
    pub description: Seq<char>,
}

/// A model that can be chosen.
#[verifier::ext_equal]
pub struct EntryView {
    pub slug: Seq<char>,
    pub display_name: Seq<char>,
    pub description: Option<Seq<char>>,
    pub default_reasoning_level: Option<Seq<char>>,
    pub reasoning_levels: Seq<OptionView>,
    pub visibility: Seq<char>,
    pub supported_in_api: bool,
    pub priority: i32,
    pub service_tiers: Seq<OptionView>,
    pub default_service_tier: Option<Seq<char>>,
    pub input_modalities: Seq<Seq<char>>,
    pub output_modalities: Seq<Seq<char>>,
}

/// A model with its settings, as chosen.
pub struct SelectionView {
    pub model: Seq<char>,
    pub reasoning_effort: Option<Seq<char>>,
    pub service_tier: Option<Seq<char>>,
}

impl View for ReasoningOption {
    type V = OptionView;

    open spec fn view(&self) -> OptionView {
        OptionView { id: self.effort@, name: self.name@, description: self.description@ }
    }
}

impl View for ServiceTierOption {
    type V = OptionView;

    open spec fn view(&self) -> OptionView {
        OptionView { id: self.id@, name: self.name@, description: self.description@ }
    }
}

/// What options of thinking say.
pub open spec fn level_views(v: Seq<ReasoningOption>) -> Seq<OptionView> {
    Seq::new(v.len(), |i: int| v[i]@)
}

/// What options of speed say.
pub open spec fn tier_views(v: Seq<ServiceTierOption>) -> Seq<OptionView> {
    Seq::new(v.len(), |i: int| v[i]@)
}

impl View for ModelCatalogEntry {
    type V = EntryView;

    open spec fn view(&self) -> EntryView {
        EntryView {
            slug: self.slug@,
            display_name: self.display_name@,
            description: message::opt_view(self.description),
            default_reasoning_level: message::opt_view(self.default_reasoning_level),
            reasoning_levels: level_views(self.supported_reasoning_levels@),
            visibility: self.visibility@,
            supported_in_api: self.supported_in_api,
            priority: self.priority,
            service_tiers: tier_views(self.service_tiers@),
            default_service_tier: message::opt_view(self.default_service_tier),
            input_modalities: text::views(self.input_modalities@),
            output_modalities: text::views(self.output_modalities@),
        }
    }
}

/// What models say.
pub open spec fn entry_views(v: Seq<ModelCatalogEntry>) -> Seq<EntryView> {
    Seq::new(v.len(), |i: int| v[i]@)
}

impl View for ModelSelection {
    type V = SelectionView;

    open spec fn view(&self) -> SelectionView {
        SelectionView {
            model: self.model@,
            reasoning_effort: message::opt_view(self.reasoning_effort),
            service_tier: message::opt_view(self.service_tier),
        }
    }
}

/// A model of which only its name is known.
pub open spec fn bare_entry(id: Seq<char>) -> EntryView {
    EntryView {
        slug: id,
        display_name: id,
        description: None,
        default_reasoning_level: None,
        reasoning_levels: Seq::empty(),
        visibility: "list"@,
        supported_in_api: true,
        priority: 0,
        service_tiers: Seq::empty(),
        default_service_tier: None,
        input_modalities: Seq::empty(),
        output_modalities: Seq::empty(),
    }
}

/// The position of the first option with an id, at or after `from`.
pub open spec fn option_at(v: Seq<OptionView>, id: Seq<char>, from: int) -> int
    decreases v.len() - from,
{
    if from >= v.len() {
        v.len() as int
    } else if v[from].id == id {
        from
    } else {
        option_at(v, id, from + 1)
    }
}

/// The options of speed that are shown: all but the one that is in force anyway.
pub open spec fn offered_tiers(v: Seq<OptionView>, n: nat) -> Seq<OptionView>
    decreases n,
{
    if n == 0 {
        Seq::empty()
    } else if v[n - 1].id != "default"@ {
        offered_tiers(v, (n - 1) as nat).push(v[n - 1])
    } else {
        offered_tiers(v, (n - 1) as nat)
    }
}

fn copy_levels(v: &Vec<ReasoningOption>) -> (r: Vec<ReasoningOption>)
    ensures
        r@ == v@,
{
    let mut r: Vec<ReasoningOption> = Vec::new();
    let mut i: usize = 0;
    while i < v.len()
        invariant
            i <= v@.len(),
            r@ == v@.take(i as int),
        decreases v@.len() - i,
    {
        r.push(v[i].clone());
        i += 1;
    }
    r
}

fn copy_tiers(v: &Vec<ServiceTierOption>) -> (r: Vec<ServiceTierOption>)
    ensures
        r@ == v@,
{
    let mut r: Vec<ServiceTierOption> = Vec::new();
    let mut i: usize = 0;
    while i < v.len()
        invariant
            i <= v@.len(),
            r@ == v@.take(i as int),
        decreases v@.len() - i,
    {
        r.push(v[i].clone());
        i += 1;
    }
    r
}

/// A copy of a list of texts.
pub fn copy_texts(v: &Vec<String>) -> (r: Vec<String>)
    ensures
        r@ == v@,
{
    let mut r: Vec<String> = Vec::new();
    let mut i: usize = 0;
    while i < v.len()
        invariant
            i <= v@.len(),
            r@ == v@.take(i as int),
        decreases v@.len() - i,
    {
        r.push(v[i].clone());
        i += 1;
    }
    r
}

impl ModelCatalogEntry {
    /// A model of which only its name is known.
    pub fn from_id(id: String) -> (r: ModelCatalogEntry)
        ensures
            r@ == bare_entry(id@),
    {
        let r = ModelCatalogEntry {
            display_name: id.clone(),
            slug: id,
            description: None,
            default_reasoning_level: None,
            supported_reasoning_levels: Vec::new(),
            visibility: "list".to_owned(),
            supported_in_api: true,
            priority: 0,
            service_tiers: Vec::new(),
            default_service_tier: None,
            input_modalities: Vec::new(),
            output_modalities: Vec::new(),
        };
        assert(r@.reasoning_levels == Seq::<OptionView>::empty());
        assert(r@.service_tiers == Seq::<OptionView>::empty());
        assert(r@.input_modalities == Seq::<Seq<char>>::empty());
        assert(r@.output_modalities == Seq::<Seq<char>>::empty());
        r
    }

    /// A copy of the entry.
    pub fn copy(&self) -> (r: ModelCatalogEntry)
        ensures
            r@ == self@,
    {
        ModelCatalogEntry {
            slug: self.slug.clone(),
            display_name: self.display_name.clone(),
            description: message::copy_text(&self.description),
            default_reasoning_level: message::copy_text(&self.default_reasoning_level),
            supported_reasoning_levels: copy_levels(&self.supported_reasoning_levels),
            visibility: self.visibility.clone(),
            supported_in_api: self.supported_in_api,
            priority: self.priority,
            service_tiers: copy_tiers(&self.service_tiers),
            default_service_tier: message::copy_text(&self.default_service_tier),
            input_modalities: copy_texts(&self.input_modalities),
            output_modalities: copy_texts(&self.output_modalities),
        }
    }

    /// What a person sees of the model.
    pub fn label(&self) -> (r: &str)
        ensures
            r@ == self@.display_name,
    {
        self.display_name.as_str()
    }

    /// The options of speed that are shown.
    pub fn available_service_tiers(&self) -> (r: Vec<ServiceTierOption>)
        ensures
            tier_views(r@) == offered_tiers(self@.service_tiers, self@.service_tiers.len()),
    {
        let ghost all = self@.service_tiers;
        let mut r: Vec<ServiceTierOption> = Vec::new();
        let mut i: usize = 0;
        assert(tier_views(r@) == Seq::<OptionView>::empty());
        while i < self.service_tiers.len()
            invariant
                i <= self.service_tiers@.len(),
                all == tier_views(self.service_tiers@),
                tier_views(r@) == offered_tiers(all, i as nat),
            decreases self.service_tiers@.len() - i,
        {
            let ghost before = tier_views(r@);
            assert(all[i as int] == self.service_tiers@[i as int]@);
            if !text::same(&self.service_tiers[i].id, "default") {
                r.push(self.service_tiers[i].clone());
                assert(tier_views(r@) == before.push(all[i as int]));
            }
            i += 1;
        }
        r
    }
}

// ---------------------------------------------------------------------------
// Choosing a model

/// The position of the first model with a name, at or after `from`.
pub open spec fn entry_at(v: Seq<EntryView>, slug: Seq<char>, from: int) -> int
    decreases v.len() - from,
{
    if from >= v.len() {
        v.len() as int
    } else if v[from].slug == slug {
        from
    } else {
        entry_at(v, slug, from + 1)
    }
}

/// The id of the first option whose id is `wanted` in some case of letters, from `from` on.
pub open spec fn effort_like(v: Seq<OptionView>, wanted: Seq<char>, from: int) -> Option<Seq<char>>
    decreases v.len() - from,
{
    if from >= v.len() {
        None
    } else if text::ascii_lower(v[from].id) == text::ascii_lower(wanted) {
        Some(v[from].id)
    } else {
        effort_like(v, wanted, from + 1)
    }
}

/// The id of the first option whose name is `wanted` in some case of letters, from `from` on.
pub open spec fn named_like(v: Seq<OptionView>, wanted: Seq<char>, from: int) -> Option<Seq<char>>
    decreases v.len() - from,
{
    if from >= v.len() {
        None
    } else if text::ascii_lower(v[from].name) == text::ascii_lower(wanted) {
        Some(v[from].id)
    } else {
        named_like(v, wanted, from + 1)
    }
}

/// `a`, or else `b`.
pub open spec fn or_else(a: Option<Seq<char>>, b: Option<Seq<char>>) -> Option<Seq<char>> {
    match a {
        Some(_) => a,
        None => b,
    }
}

/// The speed that a model has by itself, where that is worth naming.
pub open spec fn own_tier(e: EntryView) -> Option<Seq<char>> {
    if e.default_service_tier == Some("default"@) {
        None
    } else {
        e.default_service_tier
    }
}

/// What is chosen of a model: the preferred settings of the preferred model, where it has them, and
/// else what the model has by itself.
pub open spec fn chosen_of(e: EntryView) -> SelectionView {
    let preferred = e.slug == PREFERRED_DEFAULT_MODEL@;
    SelectionView {
        model: e.slug,
        reasoning_effort: if preferred {
            or_else(
                effort_like(e.reasoning_levels, PREFERRED_DEFAULT_REASONING@, 0),
                e.default_reasoning_level,
            )
        } else {
            e.default_reasoning_level
        },
        service_tier: if preferred {
            or_else(
                named_like(
                    offered_tiers(e.service_tiers, e.service_tiers.len()),
                    PREFERRED_DEFAULT_SPEED@,
                    0,
                ),
                own_tier(e),
            )
        } else {
            own_tier(e)
        },
    }
}

/// What is chosen of a catalog: the preferred model, or else the first.
pub open spec fn default_choice(catalog: Seq<EntryView>) -> Option<SelectionView> {
    let p = entry_at(catalog, PREFERRED_DEFAULT_MODEL@, 0);
    if p < catalog.len() {
        Some(chosen_of(catalog[p]))
    } else if catalog.len() > 0 {
        Some(chosen_of(catalog[0]))
    } else {
        None
    }
}

pub fn find_entry(catalog: &Vec<ModelCatalogEntry>, slug: &str) -> (r: usize)
    ensures
        r as int == entry_at(entry_views(catalog@), slug@, 0),
        r <= catalog@.len(),
{
    let ghost all = entry_views(catalog@);
    let mut i: usize = 0;
    while i < catalog.len() && !text::same(&catalog[i].slug, slug)
        invariant
            i <= catalog@.len(),
            all == entry_views(catalog@),
            entry_at(all, slug@, 0) == entry_at(all, slug@, i as int),
        decreases catalog@.len() - i,
    {
        assert(all[i as int].slug == catalog@[i as int].slug@);
        i += 1;
    }
    assert(i < all.len() ==> all[i as int].slug == catalog@[i as int].slug@);
    i
}

fn effort_named(v: &Vec<ReasoningOption>, wanted: &str) -> (r: Option<String>)
    ensures
        message::opt_view(r) == effort_like(level_views(v@), wanted@, 0),
{
    let ghost all = level_views(v@);
    let mut i: usize = 0;
    while i < v.len()
        invariant
            i <= v@.len(),
            all == level_views(v@),
            effort_like(all, wanted@, 0) == effort_like(all, wanted@, i as int),
        decreases v@.len() - i,
    {
        assert(all[i as int] == v@[i as int]@);
        if text::same_ignoring_ascii_case(&v[i].effort, wanted) {
            return Some(v[i].effort.clone());
        }
        i += 1;
    }
    None
}

fn tier_named(v: &Vec<ServiceTierOption>, wanted: &str) -> (r: Option<String>)
    ensures
        message::opt_view(r) == named_like(tier_views(v@), wanted@, 0),
{
    let ghost all = tier_views(v@);
    let mut i: usize = 0;
    while i < v.len()
        invariant
            i <= v@.len(),
            all == tier_views(v@),
            named_like(all, wanted@, 0) == named_like(all, wanted@, i as int),
        decreases v@.len() - i,
    {
        assert(all[i as int] == v@[i as int]@);
        if text::same_ignoring_ascii_case(&v[i].name, wanted) {
            return Some(v[i].id.clone());
        }
        i += 1;
    }
    None
}

/// What is chosen of a catalog where nothing is configured.
pub fn default_model_selection(catalog: &Vec<ModelCatalogEntry>) -> (r: Option<ModelSelection>)
    ensures
        match r {
            Some(s) => default_choice(entry_views(catalog@)) == Some(s@),
            None => default_choice(entry_views(catalog@)) is None,
        },
{
    if catalog.len() == 0 {
        return None;
    }
    let found: usize = find_entry(catalog, PREFERRED_DEFAULT_MODEL);
    let at: usize = if found < catalog.len() {
        found
    } else {
        0
    };
    let model = &catalog[at];
    assert(entry_views(catalog@)[at as int] == model@);
    let preferred = text::same(&model.slug, PREFERRED_DEFAULT_MODEL);
    let mut effort: Option<String> = None;
    let mut tier: Option<String> = None;
    if preferred {
        effort = effort_named(&model.supported_reasoning_levels, PREFERRED_DEFAULT_REASONING);
        tier = tier_named(&model.available_service_tiers(), PREFERRED_DEFAULT_SPEED);
    }
    if effort.is_none() {
        effort = message::copy_text(&model.default_reasoning_level);
    }
    if tier.is_none() {
        if let Some(own) = &model.default_service_tier {
            if !text::same(own, "default") {
                tier = Some(own.clone());
            }
        }
    }
    Some(
        ModelSelection { model: model.slug.clone(), reasoning_effort: effort, service_tier: tier },
    )
}

/// Whether a model may be used: where models are allowed by name, only those and the automatic
/// choice.
pub open spec fn may_use(model: Seq<char>, allowed: Option<Seq<Seq<char>>>) -> bool {
    match allowed {
        Some(names) => model == "auto"@ || names.contains(model),
        None => true,
    }
}

/// Whether a list of texts contains a text.
pub fn contains_name(names: &Vec<String>, name: &str) -> (r: bool)
    ensures
        r == text::views(names@).contains(name@),
{
    let ghost all = text::views(names@);
    let mut i: usize = 0;
    while i < names.len()
        invariant
            i <= names@.len(),
            all == text::views(names@),
            forall|j: int| 0 <= j < i ==> #[trigger] all[j] != name@,
        decreases names@.len() - i,
    {
        assert(all[i as int] == names@[i as int]@);
        if text::same(&names[i], name) {
            return true;
        }
        i += 1;
    }
    false
}

/// The allowed names, where there are any.
pub open spec fn allowed_views(allowed: Option<Vec<String>>) -> Option<Seq<Seq<char>>> {
    match allowed {
        Some(names) => Some(text::views(names@)),
        None => None,
    }
}

/// Whether a model may be used, and what a person is told where not.
pub fn selected_model_is_allowed(model: &str, allowed: &Option<Vec<String>>) -> (r: Result<(), String>)
    ensures
        r is Ok == may_use(model@, allowed_views(*allowed)),
        r matches Err(e) ==> e@ == "model "@ + text::quoted(model@)
            + " is not present in this provider's allowed_models"@,
{
    if let Some(names) = allowed {
        if !text::same(model, "auto") && !contains_name(names, model) {
            return Err(
                text::cat3(
                    "model ",
                    &text::quote(model),
                    " is not present in this provider's allowed_models",
                ),
            );
        }
    }
    Ok(())
}

// ---------------------------------------------------------------------------
// What is chosen

proof fn lemma_entry_at(v: Seq<EntryView>, slug: Seq<char>, from: int)
    requires
        0 <= from <= v.len(),
    ensures
        from <= entry_at(v, slug, from) <= v.len(),
        entry_at(v, slug, from) < v.len() ==> v[entry_at(v, slug, from)].slug == slug,
        forall|i: int| from <= i < entry_at(v, slug, from) ==> (#[trigger] v[i]).slug != slug,
    decreases v.len() - from,
{
    if from < v.len() && v[from].slug != slug {
        lemma_entry_at(v, slug, from + 1);
    }
}

/// Where nothing is configured, the preferred model is chosen where there is one, else the first, and
/// none only where there are no models.
pub proof fn the_preferred_model_is_chosen(catalog: Seq<EntryView>)
    ensures
        default_choice(catalog) is None <==> catalog.len() == 0,
        default_choice(catalog) matches Some(s) ==> {
            &&& (exists|i: int|
                0 <= i < catalog.len() && (#[trigger] catalog[i]).slug == PREFERRED_DEFAULT_MODEL@)
                ==> s.model == PREFERRED_DEFAULT_MODEL@
            &&& (forall|i: int|
                0 <= i < catalog.len() ==> (#[trigger] catalog[i]).slug != PREFERRED_DEFAULT_MODEL@)
                ==> s.model == catalog[0].slug
        },
{
    lemma_entry_at(catalog, PREFERRED_DEFAULT_MODEL@, 0);
}

proof fn lemma_effort_like(v: Seq<OptionView>, wanted: Seq<char>, from: int)
    requires
        0 <= from <= v.len(),
    ensures
        effort_like(v, wanted, from) matches Some(id) ==> exists|i: int|
            from <= i < v.len() && (#[trigger] v[i]).id == id && text::ascii_lower(id)
                == text::ascii_lower(wanted),
        effort_like(v, wanted, from) is None ==> forall|i: int|
            from <= i < v.len() ==> text::ascii_lower((#[trigger] v[i]).id) != text::ascii_lower(
                wanted,
            ),
        named_like(v, wanted, from) matches Some(id) ==> exists|i: int|
            from <= i < v.len() && (#[trigger] v[i]).id == id && text::ascii_lower(v[i].name)
                == text::ascii_lower(wanted),
        named_like(v, wanted, from) is None ==> forall|i: int|
            from <= i < v.len() ==> text::ascii_lower((#[trigger] v[i]).name) != text::ascii_lower(
                wanted,
            ),
    decreases v.len() - from,
{
    if from < v.len() {
        lemma_effort_like(v, wanted, from + 1);
        if text::ascii_lower(v[from].id) == text::ascii_lower(wanted) {
            assert(v[from].id == effort_like(v, wanted, from)->0);
        }
        if text::ascii_lower(v[from].name) == text::ascii_lower(wanted) {
            assert(v[from].id == named_like(v, wanted, from)->0);
        }
    }
}

/// A model is used with the settings that it has by itself, the speed that is in force anyway being
/// none. Only the preferred model is used with the preferred settings, and only where it has them.
pub proof fn a_model_is_used_as_it_is_by_itself(e: EntryView)
    ensures
        chosen_of(e).model == e.slug,
        e.slug != PREFERRED_DEFAULT_MODEL@ ==> {
            &&& chosen_of(e).reasoning_effort == e.default_reasoning_level
            &&& e.default_service_tier == Some("default"@) ==> chosen_of(e).service_tier is None
            &&& e.default_service_tier != Some("default"@) ==> chosen_of(e).service_tier
                == e.default_service_tier
        },
        e.slug == PREFERRED_DEFAULT_MODEL@ ==> {
            &&& (forall|i: int|
                0 <= i < e.reasoning_levels.len() ==> text::ascii_lower(
                    (#[trigger] e.reasoning_levels[i]).id,
                ) != text::ascii_lower(PREFERRED_DEFAULT_REASONING@)) ==> chosen_of(
                e,
            ).reasoning_effort == e.default_reasoning_level
            &&& (exists|i: int|
                0 <= i < e.reasoning_levels.len() && text::ascii_lower(
                    (#[trigger] e.reasoning_levels[i]).id,
                ) == text::ascii_lower(PREFERRED_DEFAULT_REASONING@)) ==> chosen_of(
                e,
            ).reasoning_effort is Some && text::ascii_lower(chosen_of(e).reasoning_effort->0)
                == text::ascii_lower(PREFERRED_DEFAULT_REASONING@)
        },
{
    lemma_effort_like(e.reasoning_levels, PREFERRED_DEFAULT_REASONING@, 0);
}

proof fn lemma_tiers_prefix(a: Seq<OptionView>, b: Seq<OptionView>, n: nat)
    requires
        n <= a.len(),
        n <= b.len(),
        forall|i: int| 0 <= i < n ==> a[i] == b[i],
    ensures
        offered_tiers(a, n) == offered_tiers(b, n),
    decreases n,
{
    if n > 0 {
        lemma_tiers_prefix(a, b, (n - 1) as nat);
    }
}

/// Every speed is shown but the one that is in force anyway, in the order in which they stand.
pub proof fn every_other_speed_is_shown(v: Seq<OptionView>, option: OptionView)
    ensures
        option.id != "default"@ ==> offered_tiers(v.push(option), v.len() + 1) == offered_tiers(
            v,
            v.len(),
        ).push(option),
        option.id == "default"@ ==> offered_tiers(v.push(option), v.len() + 1) == offered_tiers(
            v,
            v.len(),
        ),
        offered_tiers(Seq::empty(), 0).len() == 0,
{
    lemma_tiers_prefix(v, v.push(option), v.len());
}

/// Where models are allowed by name, one may be used exactly where it is named or left to choose.
pub proof fn only_allowed_models_may_be_used(model: Seq<char>, names: Seq<Seq<char>>)
    ensures
        may_use(model, None),
        may_use(model, Some(names)) <==> model == "auto"@ || exists|i: int|
            0 <= i < names.len() && #[trigger] names[i] == model,
{
    if names.contains(model) {
        let i = choose|i: int| 0 <= i < names.len() && names[i] == model;
        assert(names[i] == model);
    }
}

} // verus!
