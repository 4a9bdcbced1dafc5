//! Bringing the controller's block rules in line with what is wanted of each client.
use vstd::prelude::*;

use crate::ids::{uuid_of, uuid_text, Uuid};
use crate::json::{field, items_view, json_view, lemma_items_view, text_of, with_field, Json, JsonView};
use crate::text::{chars_of, join, optional, same, string_of, with_removed, without};
use crate::unifi::config::{holds, Config, ConfigView};
use crate::unifi::{law_own_rule_is_owned, lemma_rule_keys, owned, owned_matches, rule, rule_view};

verus! {

/// What was asked of the store so far.
#[derive(Debug)]
pub struct Facts {
    /// Whether the profile of the client exists.
    pub profile_exists: Option<bool>,
    /// Whether that profile is blocked now.
    pub profile_blocked: Option<bool>,
    /// The rule name that is stored for the client, if it was asked for.
    pub saved_name: Option<Option<String>>,
}

/// What to do for a client.
#[derive(Debug)]
pub enum Decision {
    /// Ask whether the profile exists.
    AskProfile(Uuid),
    /// Ask whether the profile is blocked now.
    AskBlocked(Uuid),
    /// Ask for the stored rule name.
    AskName,
    /// Report this, and change nothing.
    Report(String),
    /// Report this as an error, and change nothing.
    Fail(String),
    /// Delete the rule with this identifier.
    Delete(String),
    /// Store the identifier of the rule that was found.
    Observe(String),
    /// Forget the rule: there is none.
    Clear,
    /// Create this rule under this name.
    Create(String, Json),
}

/// What a decision says.
pub enum DecisionView {
    AskProfile(Uuid),
    AskBlocked(Uuid),
    AskName,
    Report(Seq<char>),
    Fail(Seq<char>),
    Delete(Seq<char>),
    Observe(Seq<char>),
    Clear,
    Create(Seq<char>, JsonView),
}

impl View for Decision {
    type V = DecisionView;

    open spec fn view(&self) -> DecisionView {
        match *self {
            Decision::AskProfile(id) => DecisionView::AskProfile(id),
            Decision::AskBlocked(id) => DecisionView::AskBlocked(id),
            Decision::AskName => DecisionView::AskName,
            Decision::Report(s) => DecisionView::Report(s@),
            Decision::Fail(s) => DecisionView::Fail(s@),
            Decision::Delete(s) => DecisionView::Delete(s@),
            Decision::Observe(s) => DecisionView::Observe(s@),
            Decision::Clear => DecisionView::Clear,
            Decision::Create(s, j) => DecisionView::Create(s@, j@),
        }
    }
}

impl DecisionView {
    /// Whether a decision changes the controller.
    pub open spec fn writes(self) -> bool {
        self is Delete || self is Create
    }

    /// Whether a decision asks for more.
    pub open spec fn asks(self) -> bool {
        self is AskProfile || self is AskBlocked || self is AskName
    }
}

/// Whether a client is to be blocked, or what has to be asked to know.
#[derive(Clone, Copy, Debug, PartialEq, Eq, Structural)]
pub enum Want {
    AskProfile(Uuid),
    AskBlocked(Uuid),
    Known(bool),
}

/// The identifier of the profile that a client follows, if one can be read.
pub open spec fn profile_of(client: JsonView) -> Option<Uuid> {
    match text_of(field(client, "profile_id"@)) {
        Some(text) => match uuid_of(text) {
            Ok(id) => Some(id),
            Err(_) => None,
        },
        None => None,
    }
}

/// Whether a client is exempt from blocking: by its own setting, or because its address
/// is protected.
pub open spec fn exempt(client: JsonView, mac: Seq<char>, protected: Seq<Seq<char>>) -> bool {
    field(client, "excluded"@) == JsonView::Bool(true) || protected.contains(mac)
}

/// Whether a client is to be blocked, given its profile. One that is exempt or has no
/// profile that exists is not; else its mode decides, and in the mode that follows the
/// profile the profile does.
pub open spec fn wanted(
    client: JsonView,
    exempted: bool,
    profile: Option<Uuid>,
    profile_exists: Option<bool>,
    profile_blocked: Option<bool>,
) -> Want {
    match profile {
        None => Want::Known(false),
        Some(id) => match profile_exists {
            None => Want::AskProfile(id),
            Some(false) => Want::Known(false),
            Some(true) => if exempted {
                Want::Known(false)
            } else if text_of(field(client, "mode"@)) == Some("block"@) {
                Want::Known(true)
            } else if text_of(field(client, "mode"@)) == Some("follow"@) {
                match profile_blocked {
                    None => Want::AskBlocked(id),
                    Some(b) => Want::Known(b),
                }
            } else {
                Want::Known(false)
            },
        },
    }
}

/// The name of the rule that blocks an address.
pub open spec fn rule_name(owner: Seq<char>, mac: Seq<char>) -> Seq<char> {
    "ScreenGuard-"@ + owner + "-"@ + without(mac, ':')
}

/// The first rule with an identifier.
pub open spec fn with_id(policies: Seq<JsonView>, id: Seq<char>) -> Option<JsonView>
    decreases policies.len(),
{
    if policies.len() == 0 {
        None
    } else if text_of(field(policies[0], "id"@)) == Some(id) {
        Some(policies[0])
    } else {
        with_id(policies.drop_first(), id)
    }
}

/// The first rule with a name.
pub open spec fn with_name(policies: Seq<JsonView>, name: Seq<char>) -> Option<JsonView>
    decreases policies.len(),
{
    if policies.len() == 0 {
        None
    } else if field(policies[0], "name"@) == JsonView::Text(name) {
        Some(policies[0])
    } else {
        with_name(policies.drop_first(), name)
    }
}

/// The rule of a client: the one whose identifier is stored, else the one that has the
/// client's rule name, provided that this name is stored.
pub open spec fn found_rule(
    policies: Seq<JsonView>,
    policy_id: Option<Seq<char>>,
    saved_name: Option<Seq<char>>,
    name: Seq<char>,
) -> Option<JsonView> {
    let by_id = match policy_id {
        Some(id) => with_id(policies, id),
        None => None,
    };
    if by_id is Some {
        by_id
    } else if saved_name == Some(name) {
        with_name(policies, name)
    } else {
        None
    }
}

/// What is done with the rule that was found for a client, given what its identifier
/// reads as.
pub open spec fn on_found(
    actual: JsonView,
    expected: JsonView,
    want: bool,
    id_error: Option<Seq<char>>,
) -> DecisionView {
    if !owned(actual, expected) {
        DecisionView::Fail("Rule ownership or contents changed; manual review required"@)
    } else {
        match text_of(field(actual, "id"@)) {
            None => DecisionView::Fail("Rule ID missing"@),
            Some(id) => if id_error is Some {
                DecisionView::Fail(id_error->Some_0)
            } else if want {
                DecisionView::Observe(id)
            } else {
                DecisionView::Delete(id)
            },
        }
    }
}

/// What is wrong with a text as an identifier.
pub open spec fn id_error(text: Option<Seq<char>>) -> Option<Seq<char>> {
    match text {
        None => None,
        Some(t) => match uuid_of(t) {
            Ok(_) => None,
            Err(e) => Some(e),
        },
    }
}

/// What is reported where rules are not enforced.
pub open spec fn preview(has_rule: bool, want: bool) -> Seq<char> {
    if has_rule {
        "disabled: existing rule may still block; enable enforcement and release first"@
    } else if want {
        "preview: would block internet"@
    } else {
        "preview: allow"@
    }
}

/// What is done for a client whose want is known, while rules are enforced.
pub open spec fn enforced(
    zones: Option<(Uuid, Uuid)>,
    owner: Seq<char>,
    client: JsonView,
    mac: Seq<char>,
    want: bool,
    policies: Option<Seq<JsonView>>,
    saved_name: Option<Option<Seq<char>>>,
) -> DecisionView {
    match policies {
        None => DecisionView::Fail("Firewall API unavailable; no changes made"@),
        Some(rules) => match zones {
            None => DecisionView::Fail("Select source and external destination zone IDs"@),
            Some((source, destination)) => if source == destination {
                DecisionView::Fail("Source and destination zones must differ"@)
            } else {
                match saved_name {
                    None => DecisionView::AskName,
                    Some(saved) => {
                        let name = rule_name(owner, mac);
                        let expected = rule_view(
                            name,
                            mac,
                            uuid_text(source.bits),
                            uuid_text(destination.bits),
                        );
                        match found_rule(rules, text_of(field(client, "policy_id"@)), saved, name) {
                            Some(actual) => on_found(
                                actual,
                                expected,
                                want,
                                id_error(text_of(field(actual, "id"@))),
                            ),
                            None => if want {
                                DecisionView::Create(name, expected)
                            } else {
                                DecisionView::Clear
                            },
                        }
                    },
                }
            },
        },
    }
}

/// The zones between which rules block, if both are named.
pub open spec fn zones_of(cfg: ConfigView) -> Option<(Uuid, Uuid)> {
    match (cfg.source, cfg.destination) {
        (Some(s), Some(d)) => Some((s, d)),
        _ => None,
    }
}

/// What was asked of the store so far, as it is said.
pub open spec fn saved_view(facts: Facts) -> Option<Option<Seq<char>>> {
    match facts.saved_name {
        None => None,
        Some(s) => Some(optional(s)),
    }
}

/// What is done for a client.
pub open spec fn decision(
    cfg: ConfigView,
    owner: Seq<char>,
    client: JsonView,
    policies: Option<Seq<JsonView>>,
    facts: Facts,
) -> DecisionView {
    match text_of(field(client, "mac"@)) {
        None => DecisionView::Fail("Missing MAC"@),
        Some(mac) => match wanted(
            client,
            exempt(client, mac, cfg.protected),
            profile_of(client),
            facts.profile_exists,
            facts.profile_blocked,
        ) {
            Want::AskProfile(id) => DecisionView::AskProfile(id),
            Want::AskBlocked(id) => DecisionView::AskBlocked(id),
            Want::Known(want) => if !cfg.enforce {
                DecisionView::Report(preview(text_of(field(client, "policy_id"@)) is Some, want))
            } else {
                enforced(zones_of(cfg), owner, client, mac, want, policies, saved_view(facts))
            },
        },
    }
}

/// Whether a client is to be blocked, or what has to be asked to know.
pub fn want_block(
    client: &Json,
    exempted: bool,
    profile: Option<Uuid>,
    profile_exists: Option<bool>,
    profile_blocked: Option<bool>,
) -> (r: Want)
    ensures
        r == wanted(client@, exempted, profile, profile_exists, profile_blocked),
{
    match profile {
        None => Want::Known(false),
        Some(id) => match profile_exists {
            None => Want::AskProfile(id),
            Some(present) => if !present || exempted {
                Want::Known(false)
            } else {
                let mode = client.field("mode");
                if mode.is_text("block") {
                    Want::Known(true)
                } else if mode.is_text("follow") {
                    match profile_blocked {
                        None => Want::AskBlocked(id),
                        Some(b) => Want::Known(b),
                    }
                } else {
                    Want::Known(false)
                }
            },
        },
    }
}

/// The profile that a client follows.
fn read_profile(client: &Json) -> (r: Option<Uuid>)
    ensures
        r == profile_of(client@),
{
    match client.field("profile_id").as_str() {
        Some(text) => match Uuid::parse_str(text) {
            Ok(id) => Some(id),
            Err(_) => None,
        },
        None => None,
    }
}

/// The name of the rule that blocks an address.
pub fn name_for(owner: &str, mac: &str) -> (r: String)
    ensures
        r@ == rule_name(owner@, mac@),
{
    let a = join("ScreenGuard-", owner);
    let b = join(a.as_str(), "-");
    let bare = string_of(&with_removed(&chars_of(mac), ':'));
    join(b.as_str(), bare.as_str())
}

/// The rule of a client among the rules of the controller.
pub fn find_rule<'a>(
    policies: &'a Vec<Json>,
    policy_id: Option<&str>,
    saved_name: &Option<String>,
    name: &str,
) -> (r: Option<&'a Json>)
    ensures
        found_rule(
            items_view(policies@),
            crate::text::optional_str(policy_id),
            optional(*saved_name),
            name@,
        ) == match r {
            Some(p) => Some(p@),
            None => None,
        },
{
    let ghost rules = items_view(policies@);
    proof {
        lemma_items_view(policies@);
        assert(rules.skip(0) == rules);
    }
    if let Some(id) = policy_id {
        let mut i: usize = 0;
        while i < policies.len()
            invariant
                i <= policies.len(),
                rules == items_view(policies@),
                rules.len() == policies.len(),
                forall|j: int| 0 <= j < policies.len() ==> #[trigger] rules[j] == json_view(policies@[j]),
                with_id(rules.skip(i as int), id@) == with_id(rules, id@),
                policy_id == Some(id),
            decreases policies.len() - i,
        {
            let p = &policies[i];
            assert(rules[i as int] == p@);
            assert(rules.skip(i as int)[0] == rules[i as int]);
            assert(rules.skip(i as int).drop_first() == rules.skip(i + 1));
            if p.field("id").is_text(id) {
                return Some(p);
            }
            i += 1;
        }
    }
    let stored = match saved_name {
        Some(s) => same(s.as_str(), name),
        None => false,
    };
    if stored {
        let mut i: usize = 0;
        while i < policies.len()
            invariant
                i <= policies.len(),
                rules == items_view(policies@),
                rules.len() == policies.len(),
                forall|j: int| 0 <= j < policies.len() ==> #[trigger] rules[j] == json_view(policies@[j]),
                with_name(rules.skip(i as int), name@) == with_name(rules, name@),
                stored,
                optional(*saved_name) == Some(name@),
                policy_id matches Some(id) ==> with_id(rules, id@) is None,
            decreases policies.len() - i,
        {
            let p = &policies[i];
            assert(rules[i as int] == p@);
            assert(rules.skip(i as int)[0] == rules[i as int]);
            assert(rules.skip(i as int).drop_first() == rules.skip(i + 1));
            if p.field("name").is_text(name) {
                return Some(p);
            }
            i += 1;
        }
    }
    None
}

/// What is done with the rule that was found for a client, given what is wrong with its
/// identifier.
pub fn use_found(actual: &Json, expected: &Json, want: bool, problem: Option<String>) -> (r: Decision)
    ensures
        r@ == on_found(actual@, expected@, want, optional(problem)),
{
    if !owned_matches(actual, expected) {
        return Decision::Fail("Rule ownership or contents changed; manual review required".to_owned());
    }
    match actual.field("id").as_str() {
        None => Decision::Fail("Rule ID missing".to_owned()),
        Some(id) => match problem {
            Some(e) => Decision::Fail(e),
            None => if want {
                Decision::Observe(id.to_owned())
            } else {
                Decision::Delete(id.to_owned())
            },
        },
    }
}

/// What is wrong with a text as an identifier.
fn check_id(text: Option<&str>) -> (r: Option<String>)
    ensures
        optional(r) == id_error(crate::text::optional_str(text)),
{
    match text {
        None => None,
        Some(t) => match Uuid::parse_str(t) {
            Ok(_) => None,
            Err(e) => Some(e),
        },
    }
}

/// What is done for a client, given what was asked so far. The rule's name is stored
/// before the rule is created, so that a rule whose identifier was never learnt is found
/// again by its name.
pub fn reconcile(
    cfg: &Config,
    owner: &str,
    client: &Json,
    policies: Option<&Vec<Json>>,
    facts: &Facts,
) -> (r: Decision)
    ensures
        r@ == decision(
            cfg@,
            owner@,
            client@,
            match policies {
                Some(p) => Some(items_view(p@)),
                None => None,
            },
            *facts,
        ),
{
    let mac = match client.field("mac").as_str() {
        None => {
            return Decision::Fail("Missing MAC".to_owned());
        },
        Some(mac) => mac,
    };
    let exempted = client.field("excluded").is_true() || holds(&cfg.protected, mac);
    let profile = read_profile(client);
    let want = match want_block(client, exempted, profile, facts.profile_exists, facts.profile_blocked) {
        Want::AskProfile(id) => {
            return Decision::AskProfile(id);
        },
        Want::AskBlocked(id) => {
            return Decision::AskBlocked(id);
        },
        Want::Known(want) => want,
    };
    let policy_id = client.field("policy_id").as_str();
    if !cfg.enforce {
        let report = if policy_id.is_some() {
            "disabled: existing rule may still block; enable enforcement and release first"
        } else if want {
            "preview: would block internet"
        } else {
            "preview: allow"
        };
        return Decision::Report(report.to_owned());
    }
    let rules = match policies {
        None => {
            return Decision::Fail("Firewall API unavailable; no changes made".to_owned());
        },
        Some(rules) => rules,
    };
    match (cfg.source, cfg.destination) {
        (Some(source), Some(destination)) => {
            if source == destination {
                return Decision::Fail("Source and destination zones must differ".to_owned());
            }
            let name = name_for(owner, mac);
            let expected = rule(name.as_str(), mac, source, destination);
            match &facts.saved_name {
                None => Decision::AskName,
                Some(saved) => match find_rule(rules, policy_id, saved, name.as_str()) {
                    Some(actual) => {
                        let problem = check_id(actual.field("id").as_str());
                        use_found(actual, &expected, want, problem)
                    },
                    None => if want {
                        Decision::Create(name, expected)
                    } else {
                        Decision::Clear
                    },
                },
            }
        },
        _ => Decision::Fail("Select source and external destination zone IDs".to_owned()),
    }
}

/// The identifier of a rule that was created, or what is wrong with the reply; the rule is
/// then found by its name later.
pub open spec fn created_id(reply: JsonView, problem: Option<Seq<char>>) -> Result<Seq<char>, Seq<char>> {
    match text_of(field(reply, "id"@)) {
        None => Err("Create response has no rule ID; will reconcile by name"@),
        Some(id) => match problem {
            Some(e) => Err(e),
            None => Ok(id),
        },
    }
}

/// The identifier of a rule that was created, given what is wrong with its form.
pub fn use_created(reply: &Json, problem: Option<String>) -> (r: Result<String, String>)
    ensures
        created_id(reply@, optional(problem)) == match r {
            Ok(id) => Ok::<Seq<char>, Seq<char>>(id@),
            Err(e) => Err::<Seq<char>, Seq<char>>(e@),
        },
{
    match reply.field("id").as_str() {
        None => Err("Create response has no rule ID; will reconcile by name".to_owned()),
        Some(id) => match problem {
            Some(e) => Err(e),
            None => Ok(id.to_owned()),
        },
    }
}

/// The identifier of a rule that was created.
pub fn after_create(reply: &Json) -> (r: Result<String, String>)
    ensures
        created_id(reply@, id_error(text_of(field(reply@, "id"@)))) == match r {
            Ok(id) => Ok::<Seq<char>, Seq<char>>(id@),
            Err(e) => Err::<Seq<char>, Seq<char>>(e@),
        },
{
    let problem = check_id(reply.field("id").as_str());
    use_created(reply, problem)
}

/// One thing that is done to carry out a decision.
#[derive(Debug)]
pub enum Effect {
    /// Store the name of the rule.
    StoreName(String),
    /// Have the controller create the rule.
    CreateRule(Json),
    /// Store the identifier that the controller gave the rule.
    StoreCreatedId,
    /// Store this identifier of the rule.
    StoreId(String),
    /// Have the controller delete the rule with this identifier.
    DeleteRule(String),
    /// Forget the name and the identifier of the rule.
    Forget,
}

/// One thing that is done, as it is said.
pub enum EffectView {
    StoreName(Seq<char>),
    CreateRule(JsonView),
    StoreCreatedId,
    StoreId(Seq<char>),
    DeleteRule(Seq<char>),
    Forget,
}

impl View for Effect {
    type V = EffectView;

    open spec fn view(&self) -> EffectView {
        match *self {
            Effect::StoreName(s) => EffectView::StoreName(s@),
            Effect::CreateRule(j) => EffectView::CreateRule(j@),
            Effect::StoreCreatedId => EffectView::StoreCreatedId,
            Effect::StoreId(s) => EffectView::StoreId(s@),
            Effect::DeleteRule(s) => EffectView::DeleteRule(s@),
            Effect::Forget => EffectView::Forget,
        }
    }
}

/// What is done to carry out a decision, in order.
pub open spec fn effects_of(d: DecisionView) -> Seq<EffectView> {
    match d {
        DecisionView::Delete(id) => seq![EffectView::DeleteRule(id), EffectView::Forget],
        DecisionView::Observe(id) => seq![EffectView::StoreId(id)],
        DecisionView::Clear => seq![EffectView::Forget],
        DecisionView::Create(name, rule) => seq![
            EffectView::StoreName(name),
            EffectView::CreateRule(rule),
            EffectView::StoreCreatedId,
        ],
        _ => Seq::empty(),
    }
}

/// What effects say.
pub open spec fn effect_views(effects: Seq<Effect>) -> Seq<EffectView> {
    Seq::new(effects.len(), |i: int| effects[i]@)
}

/// What is done to carry out a decision, in order.
pub fn effects(decision: &Decision) -> (r: Vec<Effect>)
    ensures
        effect_views(r@) == effects_of(decision@),
{
    let mut out: Vec<Effect> = Vec::new();
    match decision {
        Decision::Delete(id) => {
            out.push(Effect::DeleteRule(id.clone()));
            out.push(Effect::Forget);
        },
        Decision::Observe(id) => {
            out.push(Effect::StoreId(id.clone()));
        },
        Decision::Clear => {
            out.push(Effect::Forget);
        },
        Decision::Create(name, rule) => {
            out.push(Effect::StoreName(name.clone()));
            out.push(Effect::CreateRule(rule.copy()));
            out.push(Effect::StoreCreatedId);
        },
        _ => {},
    }
    assert(effect_views(out@) =~= effects_of(decision@));
    out
}

/// What is stored of a client's rule, and the rules of the controller.
pub struct RuleState {
    pub saved_name: Option<Seq<char>>,
    pub policy_id: Option<Seq<char>>,
    pub rules: Seq<JsonView>,
}

/// The state after one effect, where the controller gives a rule that it creates the
/// identifier `new_id`.
pub open spec fn after_effect(s: RuleState, e: EffectView, new_id: Seq<char>) -> RuleState {
    match e {
        EffectView::StoreName(name) => RuleState { saved_name: Some(name), ..s },
        EffectView::CreateRule(rule) => RuleState {
            rules: s.rules.push(with_field(rule, "id"@, JsonView::Text(new_id))),
            ..s
        },
        EffectView::StoreCreatedId => RuleState { policy_id: Some(new_id), ..s },
        EffectView::StoreId(id) => RuleState { policy_id: Some(id), ..s },
        EffectView::DeleteRule(id) => RuleState {
            rules: s.rules.filter(|r: JsonView| text_of(field(r, "id"@)) != Some(id)),
            ..s
        },
        EffectView::Forget => RuleState { saved_name: None, policy_id: None, ..s },
    }
}

/// The state after the first effects, so many of them.
pub open spec fn after_effects(s: RuleState, effects: Seq<EffectView>, n: nat, new_id: Seq<char>) -> RuleState
    decreases n,
{
    if n == 0 {
        s
    } else {
        after_effect(after_effects(s, effects, (n - 1) as nat, new_id), effects[n - 1], new_id)
    }
}

/// Wherever carrying out a creation is interrupted: as soon as the controller has the rule,
/// no second one is created, since the name was stored before.
pub proof fn law_interrupted_creation_is_not_repeated(
    s: RuleState,
    zones: (Uuid, Uuid),
    owner: Seq<char>,
    client: JsonView,
    mac: Seq<char>,
    want: bool,
    new_id: Seq<char>,
    done: nat,
)
    requires
        zones.0 != zones.1,
        2 <= done <= 3,
    ensures
        ({
            let name = rule_name(owner, mac);
            let rule = rule_view(name, mac, uuid_text(zones.0.bits), uuid_text(zones.1.bits));
            let creation = effects_of(DecisionView::Create(name, rule));
            let then = after_effects(s, creation, done, new_id);
            &&& then.saved_name == Some(name)
            &&& then.rules == s.rules.push(with_field(rule, "id"@, JsonView::Text(new_id)))
            &&& !(enforced(Some(zones), owner, client, mac, want, Some(then.rules), Some(then.saved_name)) is Create)
        }),
{
    let name = rule_name(owner, mac);
    let rule = rule_view(name, mac, uuid_text(zones.0.bits), uuid_text(zones.1.bits));
    let creation = effects_of(DecisionView::Create(name, rule));
    assert(creation.len() == 3);
    reveal_with_fuel(after_effects, 4);
    let then = after_effects(s, creation, done, new_id);
    let last = then.rules.len() - 1;
    lemma_rule_keys();
    assert(field(then.rules[last], "name"@) == JsonView::Text(name));
    lemma_named_is_found(then.rules, name, last);
}

/// Rules of which none has an identifier are all left when that identifier is deleted.
proof fn lemma_nothing_to_delete(rules: Seq<JsonView>, id: Seq<char>)
    requires
        forall|i: int| 0 <= i < rules.len() ==> text_of(field(#[trigger] rules[i], "id"@)) != Some(id),
    ensures
        rules.filter(|r: JsonView| text_of(field(r, "id"@)) != Some(id)) == rules,
    decreases rules.len(),
{
    reveal(Seq::filter);
    if rules.len() > 0 {
        let front = rules.drop_last();
        assert forall|i: int| 0 <= i < front.len() implies text_of(field(#[trigger] front[i], "id"@)) != Some(id) by {
            assert(front[i] == rules[i]);
        }
        lemma_nothing_to_delete(front, id);
        assert(rules[rules.len() - 1] == rules.last());
        assert(front.push(rules.last()) == rules);
    }
}

/// The only rule with an identifier is the one that is found by it.
proof fn lemma_last_is_found(rules: Seq<JsonView>, last: JsonView, id: Seq<char>)
    requires
        forall|i: int| 0 <= i < rules.len() ==> text_of(field(#[trigger] rules[i], "id"@)) != Some(id),
        text_of(field(last, "id"@)) == Some(id),
    ensures
        with_id(rules.push(last), id) == Some(last),
    decreases rules.len(),
{
    if rules.len() > 0 {
        assert(rules.push(last).drop_first() == rules.drop_first().push(last));
        assert(rules.push(last)[0] == rules[0]);
        assert forall|i: int| 0 <= i < rules.drop_first().len() implies text_of(
            field(#[trigger] rules.drop_first()[i], "id"@),
        ) != Some(id) by {
            assert(rules.drop_first()[i] == rules[i + 1]);
        }
        lemma_last_is_found(rules.drop_first(), last, id);
    } else {
        assert(rules.push(last)[0] == last);
    }
}

/// A rule that was created is observed as long as the client is to be blocked, and deleted
/// once it is not; then everything is as it was before, and other rules are never touched.
pub proof fn law_release_undoes_creation(
    s: RuleState,
    zones: (Uuid, Uuid),
    owner: Seq<char>,
    client: JsonView,
    mac: Seq<char>,
    new_id: Seq<char>,
)
    requires
        zones.0 != zones.1,
        uuid_of(new_id) is Ok,
        text_of(field(client, "policy_id"@)) == Some(new_id),
        forall|i: int| 0 <= i < s.rules.len() ==> text_of(field(#[trigger] s.rules[i], "id"@)) != Some(new_id),
    ensures
        ({
            let name = rule_name(owner, mac);
            let rule = rule_view(name, mac, uuid_text(zones.0.bits), uuid_text(zones.1.bits));
            let creation = effects_of(DecisionView::Create(name, rule));
            let then = after_effects(s, creation, creation.len(), new_id);
            let release = effects_of(DecisionView::Delete(new_id));
            let end = after_effects(then, release, release.len(), new_id);
            &&& then.policy_id == Some(new_id)
            &&& enforced(Some(zones), owner, client, mac, true, Some(then.rules), Some(then.saved_name))
                == DecisionView::Observe(new_id)
            &&& enforced(Some(zones), owner, client, mac, false, Some(then.rules), Some(then.saved_name))
                == DecisionView::Delete(new_id)
            &&& end.rules == s.rules
            &&& end.saved_name is None && end.policy_id is None
        }),
{
    let name = rule_name(owner, mac);
    let rule = rule_view(name, mac, uuid_text(zones.0.bits), uuid_text(zones.1.bits));
    let numbered = with_field(rule, "id"@, JsonView::Text(new_id));
    let creation = effects_of(DecisionView::Create(name, rule));
    let release = effects_of(DecisionView::Delete(new_id));
    assert(creation.len() == 3 && release.len() == 2);
    reveal_with_fuel(after_effects, 4);
    let then = after_effects(s, creation, 3, new_id);
    assert(then.rules == s.rules.push(numbered));
    law_own_rule_is_owned(
        name,
        mac,
        uuid_text(zones.0.bits),
        uuid_text(zones.1.bits),
        JsonView::Text(new_id),
    );
    assert(text_of(field(numbered, "id"@)) == Some(new_id));
    lemma_last_is_found(s.rules, numbered, new_id);
    lemma_nothing_to_delete(s.rules, new_id);
    reveal(Seq::filter);
    assert(then.rules.drop_last() == s.rules);
}

/// What is reported once a decision was carried out.
pub open spec fn done_text(d: DecisionView) -> Option<Seq<char>> {
    match d {
        DecisionView::Delete(_) => Some("own rule removed; other UniFi restrictions unchanged"@),
        DecisionView::Observe(_) => Some("block rule observed; traffic test required"@),
        DecisionView::Clear => Some("no ScreenGuard block rule"@),
        DecisionView::Create(_, _) => Some("block rule created; verification pending"@),
        _ => None,
    }
}

/// What is reported once a decision was carried out; nothing for one that only asks,
/// reports or fails.
pub fn report_done(decision: &Decision) -> (r: Option<String>)
    ensures
        optional(r) == done_text(decision@),
{
    match decision {
        Decision::Delete(_) => Some("own rule removed; other UniFi restrictions unchanged".to_owned()),
        Decision::Observe(_) => Some("block rule observed; traffic test required".to_owned()),
        Decision::Clear => Some("no ScreenGuard block rule".to_owned()),
        Decision::Create(_, _) => Some("block rule created; verification pending".to_owned()),
        _ => None,
    }
}

/// Where the rules of a site are.
pub open spec fn policies_place(root: Seq<char>) -> Seq<char> {
    root + "/firewall/policies"@
}

/// Where one rule of a site is.
pub open spec fn policy_place(root: Seq<char>, id: Seq<char>) -> Seq<char> {
    root + "/firewall/policies"@ + "/"@ + id
}

/// Rules are below the firewall of their site, and each rule below them by its identifier, so that
/// two rules are in different places.
pub proof fn law_rules_have_their_place(root: Seq<char>, id: Seq<char>, other: Seq<char>)
    ensures
        policies_place(root) == root + "/firewall/policies"@,
        policy_place(root, id) == policies_place(root) + ("/"@ + id),
        policy_place(root, id) == policy_place(root, other) ==> id == other,
{
    assert(policy_place(root, id) =~= policies_place(root) + ("/"@ + id));
    let front = root + "/firewall/policies"@ + "/"@;
    if policy_place(root, id) == policy_place(root, other) {
        assert((front + id).skip(front.len() as int) =~= id);
        assert((front + other).skip(front.len() as int) =~= other);
    }
}

/// Where the rules of a site are.
pub fn policies_path(root: &str) -> (r: String)
    ensures
        r@ == policies_place(root@),
{
    join(root, "/firewall/policies")
}

/// Where one rule of a site is.
pub fn policy_path(root: &str, id: &str) -> (r: String)
    ensures
        r@ == policy_place(root@, id@),
{
    let a = policies_path(root);
    let b = join(a.as_str(), "/");
    join(b.as_str(), id)
}

/// Without enforcement nothing is written, neither to the controller nor to the store.
pub proof fn law_preview_never_writes(
    cfg: ConfigView,
    owner: Seq<char>,
    client: JsonView,
    policies: Option<Seq<JsonView>>,
    facts: Facts,
)
    requires
        !cfg.enforce,
    ensures
        ({
            let d = decision(cfg, owner, client, policies, facts);
            d.asks() || d is Report || d is Fail
        }),
{
}

/// A client that is excluded or protected, or whose profile is missing or gone, never
/// gets a rule.
pub proof fn law_exempt_clients_are_never_blocked(
    cfg: ConfigView,
    owner: Seq<char>,
    client: JsonView,
    policies: Option<Seq<JsonView>>,
    facts: Facts,
)
    requires
        ({
            ||| profile_of(client) is None
            ||| facts.profile_exists == Some(false)
            ||| field(client, "excluded"@) == JsonView::Bool(true)
            ||| (text_of(field(client, "mac"@)) matches Some(mac) && cfg.protected.contains(mac))
        }),
    ensures
        !(decision(cfg, owner, client, policies, facts) is Create),
        !(decision(cfg, owner, client, policies, facts) is Observe),
{
}

/// A rule is deleted only where it says exactly what this server writes for the client,
/// and where it is in the list that the controller gave.
pub proof fn law_only_own_rules_are_deleted(
    cfg: ConfigView,
    owner: Seq<char>,
    client: JsonView,
    policies: Option<Seq<JsonView>>,
    facts: Facts,
)
    requires
        decision(cfg, owner, client, policies, facts) is Delete,
    ensures
        policies is Some,
        zones_of(cfg) is Some,
        text_of(field(client, "mac"@)) is Some,
        ({
            let mac = text_of(field(client, "mac"@))->Some_0;
            let (source, destination) = zones_of(cfg)->Some_0;
            let expected = rule_view(
                rule_name(owner, mac),
                mac,
                uuid_text(source.bits),
                uuid_text(destination.bits),
            );
            exists|i: int|
                #![trigger policies->Some_0[i]]
                {
                    &&& 0 <= i < policies->Some_0.len()
                    &&& owned(policies->Some_0[i], expected)
                    &&& decision(cfg, owner, client, policies, facts) == DecisionView::Delete(
                        text_of(field(policies->Some_0[i], "id"@))->Some_0,
                    )
                    &&& text_of(field(policies->Some_0[i], "id"@)) is Some
                }
        }),
{
    let mac = text_of(field(client, "mac"@))->Some_0;
    let rules = policies->Some_0;
    let name = rule_name(owner, mac);
    let saved = saved_view(facts)->Some_0;
    let policy_id = text_of(field(client, "policy_id"@));
    let i = lemma_found_is_listed(rules, policy_id, saved, name);
    assert(rules[i] == found_rule(rules, policy_id, saved, name)->Some_0);
}

/// A rule that is found is one of the list.
proof fn lemma_found_is_listed(
    rules: Seq<JsonView>,
    policy_id: Option<Seq<char>>,
    saved: Option<Seq<char>>,
    name: Seq<char>,
) -> (i: int)
    requires
        found_rule(rules, policy_id, saved, name) is Some,
    ensures
        0 <= i < rules.len(),
        rules[i] == found_rule(rules, policy_id, saved, name)->Some_0,
{
    if policy_id is Some && with_id(rules, policy_id->Some_0) is Some {
        lemma_with_id_is_listed(rules, policy_id->Some_0)
    } else {
        lemma_with_name_is_listed(rules, name)
    }
}

proof fn lemma_with_id_is_listed(rules: Seq<JsonView>, id: Seq<char>) -> (i: int)
    requires
        with_id(rules, id) is Some,
    ensures
        0 <= i < rules.len(),
        rules[i] == with_id(rules, id)->Some_0,
        text_of(field(rules[i], "id"@)) == Some(id),
    decreases rules.len(),
{
    if text_of(field(rules[0], "id"@)) == Some(id) {
        0
    } else {
        let i = lemma_with_id_is_listed(rules.drop_first(), id);
        assert(rules[i + 1] == rules.drop_first()[i]);
        i + 1
    }
}

proof fn lemma_with_name_is_listed(rules: Seq<JsonView>, name: Seq<char>) -> (i: int)
    requires
        with_name(rules, name) is Some,
    ensures
        0 <= i < rules.len(),
        rules[i] == with_name(rules, name)->Some_0,
        field(rules[i], "name"@) == JsonView::Text(name),
    decreases rules.len(),
{
    if field(rules[0], "name"@) == JsonView::Text(name) {
        0
    } else {
        let i = lemma_with_name_is_listed(rules.drop_first(), name);
        assert(rules[i + 1] == rules.drop_first()[i]);
        i + 1
    }
}

/// Where the controller's rules cannot be read, or the zones are not chosen or are one and
/// the same, nothing is changed.
pub proof fn law_missing_capability_changes_nothing(
    cfg: ConfigView,
    owner: Seq<char>,
    client: JsonView,
    policies: Option<Seq<JsonView>>,
    facts: Facts,
)
    requires
        policies is None || zones_of(cfg) is None || cfg.source == cfg.destination,
    ensures
        ({
            let d = decision(cfg, owner, client, policies, facts);
            d.asks() || d is Report || d is Fail
        }),
{
}

/// Once the name of a client's rule is stored, a rule of that name is never created a
/// second time.
pub proof fn law_no_rule_is_created_twice(
    cfg: ConfigView,
    owner: Seq<char>,
    client: JsonView,
    policies: Seq<JsonView>,
    facts: Facts,
    i: int,
)
    requires
        text_of(field(client, "mac"@)) is Some,
        saved_view(facts) == Some(Some(rule_name(owner, text_of(field(client, "mac"@))->Some_0))),
        0 <= i < policies.len(),
        field(policies[i], "name"@) == JsonView::Text(
            rule_name(owner, text_of(field(client, "mac"@))->Some_0),
        ),
    ensures
        !(decision(cfg, owner, client, Some(policies), facts) is Create),
{
    lemma_named_is_found(policies, rule_name(owner, text_of(field(client, "mac"@))->Some_0), i);
}

proof fn lemma_named_is_found(rules: Seq<JsonView>, name: Seq<char>, i: int)
    requires
        0 <= i < rules.len(),
        field(rules[i], "name"@) == JsonView::Text(name),
    ensures
        with_name(rules, name) is Some,
    decreases rules.len(),
{
    if !(field(rules[0], "name"@) == JsonView::Text(name)) {
        assert(rules.drop_first()[i - 1] == rules[i]);
        lemma_named_is_found(rules.drop_first(), name, i - 1);
    }
}

/// Where rules are enforced and everything is known, a client gets what is wanted: a rule
/// of its own where it is to be blocked, and none of its own where it is not. A rule that
/// was found and is its own is kept or deleted accordingly.
pub proof fn law_enforcement_follows_the_want(
    zones: (Uuid, Uuid),
    owner: Seq<char>,
    client: JsonView,
    mac: Seq<char>,
    want: bool,
    rules: Seq<JsonView>,
    saved: Option<Seq<char>>,
)
    requires
        zones.0 != zones.1,
    ensures
        ({
            let name = rule_name(owner, mac);
            let expected = rule_view(name, mac, uuid_text(zones.0.bits), uuid_text(zones.1.bits));
            let found = found_rule(rules, text_of(field(client, "policy_id"@)), saved, name);
            let d = enforced(Some(zones), owner, client, mac, want, Some(rules), Some(saved));
            match found {
                None => d == (if want {
                    DecisionView::Create(name, expected)
                } else {
                    DecisionView::Clear
                }),
                Some(actual) => owned(actual, expected) && (text_of(field(actual, "id"@)) matches Some(id)
                    && uuid_of(id) is Ok) ==> d == (if want {
                    DecisionView::Observe(text_of(field(actual, "id"@))->Some_0)
                } else {
                    DecisionView::Delete(text_of(field(actual, "id"@))->Some_0)
                }),
            }
        }),
{
}

/// At most three questions are asked before something is decided, and none twice.
pub proof fn law_questions_end(
    cfg: ConfigView,
    owner: Seq<char>,
    client: JsonView,
    policies: Option<Seq<JsonView>>,
    facts: Facts,
)
    ensures
        decision(cfg, owner, client, policies, facts) is AskProfile ==> facts.profile_exists is None,
        decision(cfg, owner, client, policies, facts) is AskBlocked ==> facts.profile_blocked is None,
        decision(cfg, owner, client, policies, facts) is AskName ==> facts.saved_name is None,
{
}

/// Whether nothing is stored of a client's rule that the controller has: no rule has the stored
/// identifier, and the stored name is not that of the client, or no rule has it.
pub open spec fn no_rule_known(
    client: JsonView,
    rules: Seq<JsonView>,
    saved: Option<Seq<char>>,
    name: Seq<char>,
) -> bool {
    &&& forall|i: int|
        0 <= i < rules.len() ==> text_of(field(#[trigger] rules[i], "id"@)) is None || text_of(
            field(rules[i], "id"@),
        ) != text_of(field(client, "policy_id"@))
    &&& saved == Some(name) ==> forall|i: int|
        0 <= i < rules.len() ==> field(#[trigger] rules[i], "name"@) != JsonView::Text(name)
}

proof fn lemma_no_rule_known(client: JsonView, rules: Seq<JsonView>, saved: Option<Seq<char>>, name: Seq<char>)
    requires
        no_rule_known(client, rules, saved, name),
    ensures
        found_rule(rules, text_of(field(client, "policy_id"@)), saved, name) is None,
{
    if found_rule(rules, text_of(field(client, "policy_id"@)), saved, name) is Some {
        let id = text_of(field(client, "policy_id"@));
        if id is Some && with_id(rules, id->Some_0) is Some {
            let i = lemma_with_id_is_listed(rules, id->Some_0);
            assert(text_of(field(rules[i], "id"@)) == id);
        } else {
            let i = lemma_with_name_is_listed(rules, name);
            assert(field(rules[i], "name"@) == JsonView::Text(name));
        }
    }
}

/// A client that is neither excluded nor protected, whose profile exists, and that is to be
/// blocked, or follows a profile that is blocked now, gets a rule where none of its own is
/// known: under the name of this server and its address, for this address, between the zones.
pub proof fn law_blocked_clients_get_a_rule(
    cfg: ConfigView,
    owner: Seq<char>,
    client: JsonView,
    mac: Seq<char>,
    rules: Seq<JsonView>,
    facts: Facts,
    saved: Option<Seq<char>>,
)
    requires
        cfg.enforce,
        cfg.source is Some && cfg.destination is Some && cfg.source != cfg.destination,
        text_of(field(client, "mac"@)) == Some(mac),
        text_of(field(client, "profile_id"@)) is Some,
        uuid_of(text_of(field(client, "profile_id"@))->Some_0) is Ok,
        facts.profile_exists == Some(true),
        field(client, "excluded"@) != JsonView::Bool(true),
        !cfg.protected.contains(mac),
        ({
            ||| field(client, "mode"@) == JsonView::Text("block"@)
            ||| field(client, "mode"@) == JsonView::Text("follow"@) && facts.profile_blocked == Some(true)
        }),
        saved_view(facts) == Some(saved),
        no_rule_known(client, rules, saved, "ScreenGuard-"@ + owner + "-"@ + without(mac, ':')),
    ensures
        decision(cfg, owner, client, Some(rules), facts) == DecisionView::Create(
            "ScreenGuard-"@ + owner + "-"@ + without(mac, ':'),
            rule_view(
                "ScreenGuard-"@ + owner + "-"@ + without(mac, ':'),
                mac,
                uuid_text(cfg.source->Some_0.bits),
                uuid_text(cfg.destination->Some_0.bits),
            ),
        ),
{
    lemma_no_rule_known(client, rules, saved, "ScreenGuard-"@ + owner + "-"@ + without(mac, ':'));
}

/// A client in another mode, or one that follows a profile that is not blocked, never gets or
/// keeps a rule: one of its own that is found is deleted, and where none is known that is noted.
pub proof fn law_allowed_clients_keep_no_rule(
    cfg: ConfigView,
    owner: Seq<char>,
    client: JsonView,
    rules: Seq<JsonView>,
    facts: Facts,
    saved: Option<Seq<char>>,
)
    requires
        ({
            ||| field(client, "mode"@) == JsonView::Text("follow"@) && facts.profile_blocked == Some(false)
            ||| field(client, "mode"@) != JsonView::Text("follow"@) && field(client, "mode"@) != JsonView::Text(
                "block"@,
            )
        }),
    ensures
        !(decision(cfg, owner, client, Some(rules), facts) is Create),
        !(decision(cfg, owner, client, Some(rules), facts) is Observe),
        cfg.enforce && cfg.source is Some && cfg.destination is Some && cfg.source != cfg.destination && text_of(
            field(client, "mac"@),
        ) is Some && facts.profile_exists == Some(true) && saved_view(facts) == Some(saved) && no_rule_known(
            client,
            rules,
            saved,
            "ScreenGuard-"@ + owner + "-"@ + without(text_of(field(client, "mac"@))->Some_0, ':'),
        ) ==> decision(cfg, owner, client, Some(rules), facts) == DecisionView::Clear,
{
    lemma_modes_differ();
    if text_of(field(client, "mac"@)) is Some {
        let name = "ScreenGuard-"@ + owner + "-"@ + without(text_of(field(client, "mac"@))->Some_0, ':');
        if no_rule_known(client, rules, saved, name) {
            lemma_no_rule_known(client, rules, saved, name);
        }
    }
}

/// A rule that has the stored identifier, and says what this server writes for the client, is
/// observed where the client is to be blocked and deleted where it is not; one that says
/// anything else is left alone, whatever is wanted.
pub proof fn law_rules_are_found_by_identifier(
    zones: (Uuid, Uuid),
    owner: Seq<char>,
    client: JsonView,
    mac: Seq<char>,
    want: bool,
    rules: Seq<JsonView>,
    saved: Option<Seq<char>>,
    id: Seq<char>,
    i: int,
)
    requires
        zones.0 != zones.1,
        field(client, "policy_id"@) == JsonView::Text(id),
        0 <= i < rules.len(),
        field(rules[i], "id"@) == JsonView::Text(id),
        forall|k: int| 0 <= k < i ==> field(#[trigger] rules[k], "id"@) != JsonView::Text(id),
        uuid_of(id) is Ok,
    ensures
        ({
            let expected = rule_view(
                "ScreenGuard-"@ + owner + "-"@ + without(mac, ':'),
                mac,
                uuid_text(zones.0.bits),
                uuid_text(zones.1.bits),
            );
            let d = enforced(Some(zones), owner, client, mac, want, Some(rules), Some(saved));
            &&& owned(rules[i], expected) && want ==> d == DecisionView::Observe(id)
            &&& owned(rules[i], expected) && !want ==> d == DecisionView::Delete(id)
            &&& !owned(rules[i], expected) ==> d == DecisionView::Fail(
                "Rule ownership or contents changed; manual review required"@,
            )
        }),
{
    lemma_first_with_id(rules, id, i);
}

proof fn lemma_first_with_id(rules: Seq<JsonView>, id: Seq<char>, i: int)
    requires
        0 <= i < rules.len(),
        field(rules[i], "id"@) == JsonView::Text(id),
        forall|k: int| 0 <= k < i ==> field(#[trigger] rules[k], "id"@) != JsonView::Text(id),
    ensures
        with_id(rules, id) == Some(rules[i]),
    decreases rules.len(),
{
    if i > 0 {
        let rest = rules.drop_first();
        assert(field(rules[0], "id"@) != JsonView::Text(id));
        assert(text_of(field(rules[0], "id"@)) != Some(id));
        assert(rest[i - 1] == rules[i]);
        assert forall|k: int| 0 <= k < i - 1 implies field(#[trigger] rest[k], "id"@) != JsonView::Text(id) by {
            assert(field(rules[k + 1], "id"@) != JsonView::Text(id));
        }
        lemma_first_with_id(rest, id, i - 1);
    }
}

/// Without enforcement it is reported what would be done: that a rule which is stored may still
/// block, else whether the client would be blocked.
pub proof fn law_previews_say_what_would_be_done(
    cfg: ConfigView,
    owner: Seq<char>,
    client: JsonView,
    policies: Option<Seq<JsonView>>,
    facts: Facts,
)
    requires
        !cfg.enforce,
        text_of(field(client, "mac"@)) is Some,
        facts.profile_exists is Some,
        facts.profile_blocked is Some,
    ensures
        ({
            let blocks = {
                &&& text_of(field(client, "profile_id"@)) matches Some(id) && uuid_of(id) is Ok
                &&& facts.profile_exists == Some(true)
                &&& field(client, "excluded"@) != JsonView::Bool(true)
                &&& !cfg.protected.contains(text_of(field(client, "mac"@))->Some_0)
                &&& field(client, "mode"@) == JsonView::Text("block"@) || (field(client, "mode"@) == JsonView::Text(
                    "follow"@,
                ) && facts.profile_blocked == Some(true))
            };
            decision(cfg, owner, client, policies, facts) == DecisionView::Report(
                if field(client, "policy_id"@) is Text {
                    "disabled: existing rule may still block; enable enforcement and release first"@
                } else if blocks {
                    "preview: would block internet"@
                } else {
                    "preview: allow"@
                },
            )
        }),
{
    lemma_modes_differ();
}

proof fn lemma_modes_differ()
    ensures
        "follow"@ != "block"@,
{
    reveal_strlit("follow");
    reveal_strlit("block");
    assert("follow"@.len() == 6 && "block"@.len() == 5);
}

/// The name of a rule is stored before the rule is created, and its identifier afterwards; a
/// rule is deleted before it is forgotten. So, wherever it is interrupted, no rule of this
/// server is left that nothing is stored of.
pub proof fn law_nothing_is_left_unknown(s: RuleState, name: Seq<char>, rule: JsonView, id: Seq<char>, n: nat)
    ensures
        ({
            let creation = effects_of(DecisionView::Create(name, rule));
            let then = after_effects(s, creation, n, id);
            &&& creation.len() == 3
            &&& n == 1 ==> then.rules == s.rules && then.saved_name == Some(name)
            &&& n == 2 ==> then.rules == s.rules.push(with_field(rule, "id"@, JsonView::Text(id))) && then.saved_name
                == Some(name)
            &&& n == 3 ==> then.policy_id == Some(id) && then.saved_name == Some(name)
        }),
        ({
            let release = effects_of(DecisionView::Delete(id));
            let then = after_effects(s, release, n, id);
            &&& release.len() == 2
            &&& n == 1 ==> then.saved_name == s.saved_name && then.policy_id == s.policy_id
            &&& n == 1 ==> then.rules == s.rules.filter(|r: JsonView| text_of(field(r, "id"@)) != Some(id))
            &&& n == 2 ==> then.saved_name is None && then.policy_id is None
        }),
        effects_of(DecisionView::Observe(id)).len() == 1 && after_effects(
            s,
            effects_of(DecisionView::Observe(id)),
            1,
            id,
        ) == (RuleState { policy_id: Some(id), ..s }),
        effects_of(DecisionView::Clear).len() == 1 && after_effects(s, effects_of(DecisionView::Clear), 1, id) == (
        RuleState { policy_id: None, saved_name: None, ..s }),
        effects_of(DecisionView::Report(name)).len() == 0 && effects_of(DecisionView::Fail(name)).len() == 0,
{
    reveal_with_fuel(after_effects, 4);
}

/// The identifier of a created rule is what the controller gave it, where that reads as one.
pub proof fn law_created_rules_are_known_by_their_identifier(reply: JsonView, id: Seq<char>)
    ensures
        field(reply, "id"@) == JsonView::Text(id) && uuid_of(id) is Ok ==> created_id(
            reply,
            id_error(text_of(field(reply, "id"@))),
        ) == Ok::<Seq<char>, Seq<char>>(id),
        field(reply, "id"@) == JsonView::Text(id) && uuid_of(id) is Err ==> created_id(
            reply,
            id_error(text_of(field(reply, "id"@))),
        ) is Err,
        !(field(reply, "id"@) is Text) ==> created_id(reply, id_error(text_of(field(reply, "id"@)))) == Err::<
            Seq<char>,
            Seq<char>,
        >("Create response has no rule ID; will reconcile by name"@),
{
}

/// Something is reported as done exactly of a decision that changes the controller or the store.
pub proof fn law_only_changes_are_reported_as_done(d: DecisionView)
    ensures
        done_text(d) is Some <==> effects_of(d).len() > 0,
        d is Delete ==> done_text(d) == Some("own rule removed; other UniFi restrictions unchanged"@),
        d is Create ==> done_text(d) == Some("block rule created; verification pending"@),
        d is Observe ==> done_text(d) == Some("block rule observed; traffic test required"@),
        d is Clear ==> done_text(d) == Some("no ScreenGuard block rule"@),
{
}

/// Where a rule cannot be looked for, nothing is written, and the first thing that is missing is said:
/// the rules, then the zones, then that they differ. A rule that was changed, or has no identifier, is
/// left alone, and that is said.
pub proof fn law_what_is_missing_is_said(
    zones: Option<(Uuid, Uuid)>,
    owner: Seq<char>,
    client: JsonView,
    mac: Seq<char>,
    want: bool,
    policies: Option<Seq<JsonView>>,
    saved_name: Option<Option<Seq<char>>>,
    actual: JsonView,
    expected: JsonView,
    problem: Option<Seq<char>>,
)
    ensures
        ({
            let d = enforced(zones, owner, client, mac, want, policies, saved_name);
            &&& policies is None ==> d == DecisionView::Fail("Firewall API unavailable; no changes made"@)
            &&& policies is Some && zones is None ==> d == DecisionView::Fail(
                "Select source and external destination zone IDs"@,
            )
            &&& policies is Some && zones is Some && zones->Some_0.0 == zones->Some_0.1 ==> d
                == DecisionView::Fail("Source and destination zones must differ"@)
        }),
        !owned(actual, expected) ==> on_found(actual, expected, want, problem) == DecisionView::Fail(
            "Rule ownership or contents changed; manual review required"@,
        ),
        owned(actual, expected) && !(field(actual, "id"@) is Text) ==> on_found(actual, expected, want, problem)
            == DecisionView::Fail("Rule ID missing"@),
        owned(actual, expected) && field(actual, "id"@) is Text && problem is Some ==> on_found(
            actual,
            expected,
            want,
            problem,
        ) == DecisionView::Fail(problem->Some_0),
{
}

/// A client without an address is not looked at further.
pub proof fn law_clients_have_an_address(
    cfg: ConfigView,
    owner: Seq<char>,
    client: JsonView,
    policies: Option<Seq<JsonView>>,
    facts: Facts,
)
    ensures
        !(field(client, "mac"@) is Text) ==> decision(cfg, owner, client, policies, facts) == DecisionView::Fail(
            "Missing MAC"@,
        ),
{
}

} // verus!
