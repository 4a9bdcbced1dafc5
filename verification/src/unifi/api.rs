//! The replies to requests about the controller.
use vstd::prelude::*;

use crate::json::{items_view, with_field, Json, JsonView};
use crate::unifi::{empty_object, mac_error, mac_of, normalize_mac, single};

verus! {

/// A reply: its status and its body.
#[derive(Debug)]
pub struct Reply {
    pub code: u16,
    pub body: Json,
}

/// What is shown of the controller.
pub open spec fn status_view(
    connection: JsonView,
    clients: Seq<JsonView>,
    events: Seq<JsonView>,
) -> JsonView {
    with_field(
        with_field(
            with_field(empty_object(), "connection"@, connection),
            "clients"@,
            JsonView::Array(clients),
        ),
        "events"@,
        JsonView::Array(events),
    )
}

/// What is shown of the controller: the snapshot, the clients and the events.
pub fn status(connection: Json, clients: Vec<Json>, events: Vec<Json>) -> (r: Json)
    ensures
        r@ == status_view(connection@, items_view(clients@), items_view(events@)),
{
    Json::object().with("connection", connection).with("clients", Json::Array(clients)).with(
        "events",
        Json::Array(events),
    )
}

/// The reply to a request to synchronise: it is done later.
pub fn sync() -> (r: Reply)
    ensures
        r.code == 202,
        r.body@ == single("message"@, JsonView::Text("Sync queued"@)),
{
    Reply { code: 202, body: Json::object().with("message", Json::text("Sync queued")) }
}

/// The reply that says what is wrong with a request.
pub fn refused(code: u16, error: &str) -> (r: Reply)
    ensures
        r.code == code,
        r.body@ == single("error"@, JsonView::Text(error@)),
{
    Reply { code, body: Json::object().with("error", Json::text(error)) }
}

/// The address of the client to link, or the status and the body of the reply that refuses.
pub open spec fn binding_outcome(mac: Seq<char>, busy: bool) -> Result<Seq<char>, (u16, JsonView)> {
    match mac_of(mac) {
        None => Err((400u16, single("error"@, JsonView::Text(mac_error())))),
        Some(m) => if busy {
            Err(
                (
                    409u16,
                    single("error"@, JsonView::Text("UniFi synchronisatie bezig; probeer het zo opnieuw"@)),
                ),
            )
        } else {
            Ok(m)
        },
    }
}

/// A client is linked exactly where its address is one and no synchronisation runs; a bad address
/// is a bad request even then, and otherwise a running synchronisation is a conflict.
pub proof fn law_links_wait_for_a_synchronisation(mac: Seq<char>)
    ensures
        mac_of(mac) is Some ==> binding_outcome(mac, false) == Ok::<Seq<char>, (u16, JsonView)>(mac_of(mac)->Some_0),
        mac_of(mac) is Some ==> binding_outcome(mac, true) is Err && binding_outcome(mac, true)->Err_0.0 == 409,
        mac_of(mac) is Some ==> crate::json::field(binding_outcome(mac, true)->Err_0.1, "error"@) == JsonView::Text(
            "UniFi synchronisatie bezig; probeer het zo opnieuw"@,
        ),
        mac_of(mac) is None ==> forall|busy: bool|
            binding_outcome(mac, busy) is Err && (#[trigger] binding_outcome(mac, busy))->Err_0.0 == 400
                && crate::json::field(binding_outcome(mac, busy)->Err_0.1, "error"@) == JsonView::Text(
                "Invalid unicast MAC address"@,
            ),
{
}

/// What is shown of the controller holds the snapshot, the clients and the events, each under its
/// own key.
pub proof fn law_status_shows_all_three(connection: JsonView, clients: Seq<JsonView>, events: Seq<JsonView>)
    ensures
        crate::json::field(status_view(connection, clients, events), "connection"@) == connection,
        crate::json::field(status_view(connection, clients, events), "clients"@) == JsonView::Array(clients),
        crate::json::field(status_view(connection, clients, events), "events"@) == JsonView::Array(events),
{
    reveal_strlit("connection");
    reveal_strlit("clients");
    reveal_strlit("events");
    assert("connection"@.len() == 10 && "clients"@.len() == 7 && "events"@.len() == 6);
}

/// The address of the client to link, or the reply that refuses: a bad address is refused
/// first, and nothing is linked during a synchronisation.
pub fn binding(mac: &str, busy: bool) -> (r: Result<String, Reply>)
    ensures
        binding_outcome(mac@, busy) == match r {
            Ok(m) => Ok::<Seq<char>, (u16, JsonView)>(m@),
            Err(reply) => Err::<Seq<char>, (u16, JsonView)>((reply.code, reply.body@)),
        },
{
    match normalize_mac(mac) {
        Err(e) => Err(refused(400, e.as_str())),
        Ok(m) => if busy {
            Err(refused(409, "UniFi synchronisatie bezig; probeer het zo opnieuw"))
        } else {
            Ok(m)
        },
    }
}

/// The reply to a link, given what is wrong with it, if anything is: its body, or a status and a body.
pub open spec fn binding_reply(error: Option<Seq<char>>) -> Result<JsonView, (u16, JsonView)> {
    match error {
        None => Ok(single("message"@, JsonView::Text("Binding saved; application pending"@))),
        Some(e) => Err((400u16, single("error"@, JsonView::Text(e)))),
    }
}

/// A link that is stored is confirmed, and one that is not is a bad request that says why.
pub proof fn law_links_are_confirmed(e: Seq<char>)
    ensures
        binding_reply(None) is Ok,
        crate::json::field(binding_reply(None)->Ok_0, "message"@) == JsonView::Text(
            "Binding saved; application pending"@,
        ),
        binding_reply(Some(e)) is Err && binding_reply(Some(e))->Err_0.0 == 400,
        crate::json::field(binding_reply(Some(e))->Err_0.1, "error"@) == JsonView::Text(e),
{
}

/// The reply to a link that was stored, or what is wrong with it.
pub fn binding_done(result: Result<String, String>) -> (r: Result<Json, Reply>)
    ensures
        binding_reply(
            match result {
                Ok(_) => None,
                Err(e) => Some(e@),
            },
        ) == match r {
            Ok(body) => Ok::<JsonView, (u16, JsonView)>(body@),
            Err(reply) => Err::<JsonView, (u16, JsonView)>((reply.code, reply.body@)),
        },
{
    match result {
        Ok(_) => Ok(Json::object().with("message", Json::text("Binding saved; application pending"))),
        Err(e) => Err(refused(400, e.as_str())),
    }
}

} // verus!
