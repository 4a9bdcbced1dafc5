//! The clients and events of the store, and how a client is linked to a profile.
use vstd::prelude::*;

use crate::ids::Uuid;
use crate::json::{items_view, with_field, Json, JsonView};
use crate::text::{optional, same};
use crate::unifi::empty_object;
use crate::unifi::sync::signed_view;

verus! {

/// How a client is linked: to which profile, how it is treated, and whether it is left
/// alone.
#[derive(Debug)]
pub struct Binding {
    pub profile_id: Option<Uuid>,
    pub mode: String,
    pub excluded: bool,
}

/// What linking a client needs next.
#[derive(Debug)]
pub enum BindStep {
    /// Ask whether the profile exists.
    AskProfile(Uuid),
    /// Store the link.
    Update,
    Fail(String),
}

/// What linking a client needs next, as it is said.
pub enum BindStepView {
    AskProfile(Uuid),
    Update,
    Fail(Seq<char>),
}

impl View for BindStep {
    type V = BindStepView;

    open spec fn view(&self) -> BindStepView {
        match *self {
            BindStep::AskProfile(id) => BindStepView::AskProfile(id),
            BindStep::Update => BindStepView::Update,
            BindStep::Fail(e) => BindStepView::Fail(e@),
        }
    }
}

/// Whether a mode is known.
pub open spec fn known_mode(mode: Seq<char>) -> bool {
    mode == "observe"@ || mode == "follow"@ || mode == "block"@
}

/// What linking a client needs next, given whether its profile exists, once that is
/// known. Only observing needs no profile.
pub open spec fn bind_next(binding: Binding, profile_exists: Option<bool>) -> BindStepView {
    if !known_mode(binding.mode@) {
        BindStepView::Fail("Unknown mode"@)
    } else {
        match binding.profile_id {
            Some(id) => match profile_exists {
                None => BindStepView::AskProfile(id),
                Some(false) => BindStepView::Fail("Profile does not exist"@),
                Some(true) => BindStepView::Update,
            },
            None => if binding.mode@ != "observe"@ {
                BindStepView::Fail("A profile is required for enforcement"@)
            } else {
                BindStepView::Update
            },
        }
    }
}

/// What linking a client needs next.
pub fn bind(binding: &Binding, profile_exists: Option<bool>) -> (r: BindStep)
    ensures
        r@ == bind_next(*binding, profile_exists),
{
    let mode = binding.mode.as_str();
    if !(same(mode, "observe") || same(mode, "follow") || same(mode, "block")) {
        return BindStep::Fail("Unknown mode".to_owned());
    }
    match binding.profile_id {
        Some(id) => match profile_exists {
            None => BindStep::AskProfile(id),
            Some(present) => if present {
                BindStep::Update
            } else {
                BindStep::Fail("Profile does not exist".to_owned())
            },
        },
        None => if !same(mode, "observe") {
            BindStep::Fail("A profile is required for enforcement".to_owned())
        } else {
            BindStep::Update
        },
    }
}

/// What came of storing a link, by the number of clients that it changed.
pub open spec fn bound_outcome(changed: u64) -> Result<Seq<char>, Seq<char>> {
    if changed > 0 {
        Ok("binding_changed"@)
    } else {
        Err("Discover the client before linking it"@)
    }
}

/// A link is stored exactly where a client was changed by it.
pub proof fn law_only_known_clients_are_linked(changed: u64)
    ensures
        bound_outcome(changed) == Ok::<Seq<char>, Seq<char>>("binding_changed"@) <==> changed >= 1,
        bound_outcome(0) == Err::<Seq<char>, Seq<char>>("Discover the client before linking it"@),
{
}

/// What came of storing a link, by the number of clients that it changed.
pub fn bound(changed: u64) -> (r: Result<String, String>)
    ensures
        bound_outcome(changed) == match r {
            Ok(event) => Ok::<Seq<char>, Seq<char>>(event@),
            Err(e) => Err::<Seq<char>, Seq<char>>(e@),
        },
{
    if changed == 0 {
        Err("Discover the client before linking it".to_owned())
    } else {
        Ok("binding_changed".to_owned())
    }
}

/// No client is linked for blocking without a profile that exists.
pub proof fn law_blocking_needs_a_profile(binding: Binding, profile_exists: Option<bool>)
    requires
        bind_next(binding, profile_exists) == BindStepView::Update,
    ensures
        known_mode(binding.mode@),
        binding.mode@ == "observe"@ || (binding.profile_id is Some && profile_exists == Some(true)),
{
}

/// A client as it is stored.
#[derive(Debug)]
pub struct ClientRow {
    pub mac: String,
    pub data: Json,
    pub last_seen: i64,
    pub profile_id: Option<String>,
    pub mode: String,
    pub excluded: i32,
    pub policy_id: Option<String>,
    pub result: String,
}

/// A text or null.
pub open spec fn optional_view(s: Option<Seq<char>>) -> JsonView {
    match s {
        Some(t) => JsonView::Text(t),
        None => JsonView::Null,
    }
}

/// A client as it is shown and decided on.
pub open spec fn client_view(row: ClientRow) -> JsonView {
    let a = with_field(empty_object(), "mac"@, JsonView::Text(row.mac@));
    let b = with_field(a, "data"@, row.data@);
    let c = with_field(b, "last_seen"@, signed_view(row.last_seen));
    let d = with_field(c, "profile_id"@, optional_view(optional(row.profile_id)));
    let e = with_field(d, "mode"@, JsonView::Text(row.mode@));
    let f = with_field(e, "excluded"@, JsonView::Bool(row.excluded != 0));
    let g = with_field(f, "policy_id"@, optional_view(optional(row.policy_id)));
    with_field(g, "result"@, JsonView::Text(row.result@))
}

fn client_json(row: &ClientRow) -> (r: Json)
    ensures
        r@ == client_view(*row),
{
    Json::object().with("mac", Json::text(row.mac.as_str())).with("data", row.data.copy()).with(
        "last_seen",
        Json::signed(row.last_seen),
    ).with("profile_id", Json::optional_text(&row.profile_id)).with("mode", Json::text(row.mode.as_str())).with(
        "excluded",
        Json::Bool(row.excluded != 0),
    ).with("policy_id", Json::optional_text(&row.policy_id)).with("result", Json::text(row.result.as_str()))
}

/// The clients as they are shown, in the order of the store.
pub fn clients(rows: &Vec<ClientRow>) -> (r: Vec<Json>)
    ensures
        items_view(r@) == Seq::new(rows@.len(), |i: int| client_view(rows@[i])),
{
    let mut out: Vec<Json> = Vec::new();
    for i in 0..rows.len()
        invariant
            items_view(out@) == Seq::new(i as nat, |j: int| client_view(rows@[j])),
    {
        let ghost before = out@;
        out.push(client_json(&rows[i]));
        assert(out@.drop_last() == before);
        assert(items_view(out@) == Seq::new((i + 1) as nat, |j: int| client_view(rows@[j])));
    }
    out
}

/// An event as it is stored.
#[derive(Debug)]
pub struct EventRow {
    pub at: i64,
    pub mac: String,
    pub action: String,
}

/// An event as it is shown.
pub open spec fn event_view(row: EventRow) -> JsonView {
    with_field(
        with_field(with_field(empty_object(), "at"@, signed_view(row.at)), "mac"@, JsonView::Text(row.mac@)),
        "action"@,
        JsonView::Text(row.action@),
    )
}

/// The events as they are shown, in the order of the store.
pub fn events(rows: &Vec<EventRow>) -> (r: Vec<Json>)
    ensures
        items_view(r@) == Seq::new(rows@.len(), |i: int| event_view(rows@[i])),
{
    let mut out: Vec<Json> = Vec::new();
    for i in 0..rows.len()
        invariant
            items_view(out@) == Seq::new(i as nat, |j: int| event_view(rows@[j])),
    {
        let ghost before = out@;
        let row = &rows[i];
        let shown = Json::object().with("at", Json::signed(row.at)).with("mac", Json::text(row.mac.as_str())).with(
            "action",
            Json::text(row.action.as_str()),
        );
        out.push(shown);
        assert(out@.drop_last() == before);
        assert(items_view(out@) == Seq::new((i + 1) as nat, |j: int| event_view(rows@[j])));
    }
    out
}

/// A client is linked exactly in one of two ways: to a profile that exists, to be observed, to
/// follow it or to be blocked; or to none, to be observed only. Any other mode is refused first.
pub proof fn law_links_need_a_known_mode_and_profile(binding: Binding, profile_exists: Option<bool>)
    ensures
        ({
            let observed = binding.mode@ == "observe"@;
            let known = observed || binding.mode@ == "follow"@ || binding.mode@ == "block"@;
            let next = bind_next(binding, profile_exists);
            &&& !known ==> next == BindStepView::Fail("Unknown mode"@)
            &&& known && binding.profile_id is None ==> (next == BindStepView::Update <==> observed)
            &&& known && binding.profile_id is None && !observed ==> next == BindStepView::Fail(
                "A profile is required for enforcement"@,
            )
            &&& known && binding.profile_id is Some ==> (next == BindStepView::Update <==> profile_exists == Some(true))
            &&& known && binding.profile_id is Some && profile_exists is None ==> next == BindStepView::AskProfile(
                binding.profile_id->Some_0,
            )
            &&& known && binding.profile_id is Some && profile_exists == Some(false) ==> next == BindStepView::Fail(
                "Profile does not exist"@,
            )
        }),
{
}

/// A client is shown with everything that is stored of it, each under its own key; one that has
/// no profile or no rule is shown with null there.
pub proof fn law_clients_are_shown_as_stored(row: ClientRow)
    ensures
        ({
            let v = client_view(row);
            &&& crate::json::field(v, "mac"@) == JsonView::Text(row.mac@)
            &&& crate::json::field(v, "data"@) == row.data@
            &&& crate::json::field(v, "mode"@) == JsonView::Text(row.mode@)
            &&& crate::json::field(v, "excluded"@) == JsonView::Bool(row.excluded != 0)
            &&& crate::json::field(v, "result"@) == JsonView::Text(row.result@)
            &&& row.profile_id matches Some(id) ==> crate::json::field(v, "profile_id"@) == JsonView::Text(id@)
            &&& row.profile_id is None ==> crate::json::field(v, "profile_id"@) == JsonView::Null
            &&& row.policy_id matches Some(id) ==> crate::json::field(v, "policy_id"@) == JsonView::Text(id@)
            &&& row.policy_id is None ==> crate::json::field(v, "policy_id"@) == JsonView::Null
            &&& row.last_seen >= 0 ==> crate::json::field(v, "last_seen"@) == JsonView::Number(
                crate::json::Number::Unsigned(row.last_seen as u64),
            )
        }),
{
    reveal_strlit("mac");
    reveal_strlit("data");
    reveal_strlit("last_seen");
    reveal_strlit("profile_id");
    reveal_strlit("mode");
    reveal_strlit("excluded");
    reveal_strlit("policy_id");
    reveal_strlit("result");
    assert("mac"@.len() == 3 && "excluded"@.len() == 8 && "result"@.len() == 6);
    assert("data"@.len() == 4 && "mode"@.len() == 4 && "data"@[0] == 'd' && "mode"@[0] == 'm');
    assert("profile_id"@.len() == 10 && "policy_id"@.len() == 9 && "last_seen"@.len() == 9);
    assert("policy_id"@[0] == 'p' && "last_seen"@[0] == 'l');
}

/// An event is shown with its moment, its address and its action.
pub proof fn law_events_are_shown_as_stored(row: EventRow)
    ensures
        crate::json::field(event_view(row), "mac"@) == JsonView::Text(row.mac@),
        crate::json::field(event_view(row), "action"@) == JsonView::Text(row.action@),
        row.at >= 0 ==> crate::json::field(event_view(row), "at"@) == JsonView::Number(
            crate::json::Number::Unsigned(row.at as u64),
        ),
        row.at < 0 ==> crate::json::field(event_view(row), "at"@) == JsonView::Number(
            crate::json::Number::Negative(row.at),
        ),
{
    reveal_strlit("at");
    reveal_strlit("mac");
    reveal_strlit("action");
    assert("at"@.len() == 2 && "mac"@.len() == 3 && "action"@.len() == 6);
}

} // verus!
