//! One synchronisation with the controller: what is asked, in which order, and the
//! snapshot that is made of the answers.
use vstd::prelude::*;

use crate::ids::{uuid_of, uuid_text, Uuid};
use crate::json::{
    field, items_view, json_view, lemma_items_view, text_of, with_field, Json, JsonView, Number,
};
use crate::text::{join, optional, same, texts};
use crate::unifi::config::{Config, ConfigView};
use crate::unifi::{empty_object, mac_of, normalize_mac};

verus! {

/// The most devices whose statistics are asked for.
pub const MOST_DEVICES: usize = 64;

/// A client that was discovered: its address, and what is kept of it.
#[derive(Debug)]
pub struct ClientRecord {
    pub mac: String,
    pub data: Json,
}

/// What is kept of a client: the fields that are shown, and nothing else that the
/// controller says.
pub open spec fn kept(client: JsonView) -> JsonView {
    let a = with_field(empty_object(), "id"@, field(client, "id"@));
    let b = with_field(a, "name"@, field(client, "name"@));
    let c = with_field(b, "ip"@, field(client, "ipAddress"@));
    let d = with_field(c, "type"@, field(client, "type"@));
    let e = with_field(d, "connected_at"@, field(client, "connectedAt"@));
    with_field(e, "uplink_id"@, field(client, "uplinkDeviceId"@))
}

/// The address of a client, if it is that of one device.
pub open spec fn client_mac(client: JsonView) -> Option<Seq<char>> {
    match text_of(field(client, "macAddress"@)) {
        Some(text) => mac_of(text),
        None => None,
    }
}

/// What is stored of the clients that were discovered: those with an address, in order.
pub open spec fn records_of(clients: Seq<JsonView>) -> Seq<(Seq<char>, JsonView)>
    decreases clients.len(),
{
    if clients.len() == 0 {
        Seq::empty()
    } else {
        match client_mac(clients.last()) {
            Some(mac) => records_of(clients.drop_last()).push((mac, kept(clients.last()))),
            None => records_of(clients.drop_last()),
        }
    }
}

/// What records say.
pub open spec fn records_view(records: Seq<ClientRecord>) -> Seq<(Seq<char>, JsonView)> {
    Seq::new(records.len(), |i: int| (records[i].mac@, records[i].data@))
}

/// What is stored of a client that was discovered; nothing without a usable address.
pub fn client_record(client: &Json) -> (r: Option<ClientRecord>)
    ensures
        match r {
            Some(record) => client_mac(client@) == Some(record.mac@) && record.data@ == kept(client@),
            None => client_mac(client@) is None,
        },
{
    let mac = match client.field("macAddress").as_str() {
        None => {
            return None;
        },
        Some(text) => match normalize_mac(text) {
            Err(_) => {
                return None;
            },
            Ok(mac) => mac,
        },
    };
    let data = Json::object().with("id", client.field("id").copy()).with("name", client.field("name").copy()).with(
        "ip",
        client.field("ipAddress").copy(),
    ).with("type", client.field("type").copy()).with("connected_at", client.field("connectedAt").copy()).with(
        "uplink_id",
        client.field("uplinkDeviceId").copy(),
    );
    Some(ClientRecord { mac, data })
}

/// What is stored of the clients that were discovered.
fn client_records(clients: &Vec<Json>) -> (r: Vec<ClientRecord>)
    ensures
        records_view(r@) == records_of(items_view(clients@)),
{
    let ghost all = items_view(clients@);
    proof {
        lemma_items_view(clients@);
        assert(all.take(0) == Seq::<JsonView>::empty());
    }
    let mut out: Vec<ClientRecord> = Vec::new();
    assert(records_view(out@) == Seq::<(Seq<char>, JsonView)>::empty());
    for i in 0..clients.len()
        invariant
            all == items_view(clients@),
            all.len() == clients.len(),
            forall|j: int| 0 <= j < clients.len() ==> #[trigger] all[j] == json_view(clients@[j]),
            records_view(out@) == records_of(all.take(i as int)),
    {
        assert(all.take(i + 1).drop_last() == all.take(i as int));
        assert(all.take(i + 1).last() == clients@[i as int]@);
        let ghost before = out@;
        match client_record(&clients[i]) {
            Some(record) => {
                out.push(record);
                assert(records_view(out@) == records_view(before).push((record.mac@, record.data@)));
            },
            None => {},
        }
    }
    assert(all.take(all.len() as int) == all);
    out
}

/// A device whose statistics are asked for, given what its identifier reads as.
pub open spec fn device_entry(device: JsonView, id: Result<Uuid, Seq<char>>) -> Option<(Uuid, Seq<char>)> {
    match id {
        Ok(uuid) => match text_of(field(device, "name"@)) {
            Some(name) => Some((uuid, name)),
            None => Some((uuid, "UniFi"@)),
        },
        Err(_) => None,
    }
}

/// A device whose statistics are asked for: one with a usable identifier.
pub open spec fn device_of(device: JsonView) -> Option<(Uuid, Seq<char>)> {
    match text_of(field(device, "id"@)) {
        Some(id) => device_entry(device, uuid_of(id)),
        None => None,
    }
}

/// The devices of a list whose statistics are asked for, in order.
pub open spec fn devices_in(list: Seq<JsonView>) -> Seq<(Uuid, Seq<char>)>
    decreases list.len(),
{
    if list.len() == 0 {
        Seq::empty()
    } else {
        match device_of(list.last()) {
            Some(d) => devices_in(list.drop_last()).push(d),
            None => devices_in(list.drop_last()),
        }
    }
}

/// The devices of a snapshot whose statistics are asked for: of the first of its list.
pub open spec fn devices_of(snapshot: JsonView) -> Seq<(Uuid, Seq<char>)> {
    match field(snapshot, "devices"@) {
        JsonView::Array(list) => devices_in(
            if list.len() <= MOST_DEVICES {
                list
            } else {
                list.take(MOST_DEVICES as int)
            },
        ),
        _ => Seq::empty(),
    }
}

/// What devices say.
pub open spec fn devices_view(devices: Seq<(Uuid, String)>) -> Seq<(Uuid, Seq<char>)> {
    Seq::new(devices.len(), |i: int| (devices[i].0, devices[i].1@))
}

/// A device whose statistics are asked for, given what its identifier reads as.
pub fn statistics_device(device: &Json, id: Result<Uuid, String>) -> (r: Option<(Uuid, String)>)
    ensures
        device_entry(device@, crate::ids::outcome(id)) == match r {
            Some(d) => Some((d.0, d.1@)),
            None => None,
        },
{
    match id {
        Ok(uuid) => match device.field("name").as_str() {
            Some(name) => Some((uuid, name.to_owned())),
            None => Some((uuid, "UniFi".to_owned())),
        },
        Err(_) => None,
    }
}

/// No more devices are chosen than there are.
proof fn lemma_devices_in(list: Seq<JsonView>)
    ensures
        devices_in(list).len() <= list.len(),
    decreases list.len(),
{
    if list.len() > 0 {
        lemma_devices_in(list.drop_last());
    }
}

/// However many devices there are, the statistics of a limited number are asked for.
pub proof fn law_statistics_are_limited(snapshot: JsonView)
    ensures
        devices_of(snapshot).len() <= MOST_DEVICES,
{
    if let JsonView::Array(list) = field(snapshot, "devices"@) {
        lemma_devices_in(list);
        if list.len() > MOST_DEVICES {
            lemma_devices_in(list.take(MOST_DEVICES as int));
        }
    }
}

/// The devices of a snapshot whose statistics are asked for.
pub fn statistics_devices(snapshot: &Json) -> (r: Vec<(Uuid, String)>)
    ensures
        devices_view(r@) == devices_of(snapshot@),
{
    let mut out: Vec<(Uuid, String)> = Vec::new();
    assert(devices_view(out@) == Seq::<(Uuid, Seq<char>)>::empty());
    match snapshot.field("devices").as_array() {
        None => {},
        Some(list) => {
            let ghost all = items_view(list@);
            let n: usize = if list.len() <= MOST_DEVICES {
                list.len()
            } else {
                MOST_DEVICES
            };
            proof {
                lemma_items_view(list@);
                assert(all.take(0) == Seq::<JsonView>::empty());
            }
            for i in 0..n
                invariant
                    all == items_view(list@),
                    all.len() == list.len(),
                    n <= list.len(),
                    forall|j: int| 0 <= j < list.len() ==> #[trigger] all[j] == json_view(list@[j]),
                    devices_view(out@) == devices_in(all.take(i as int)),
            {
                assert(all.take(i + 1).drop_last() == all.take(i as int));
                assert(all.take(i + 1).last() == list@[i as int]@);
                let device = &list[i];
                let ghost before = out@;
                match device.field("id").as_str() {
                    Some(id) => match statistics_device(device, Uuid::parse_str(id)) {
                        Some(d) => {
                            let ghost entry = (d.0, d.1@);
                            out.push(d);
                            assert(devices_view(out@) == devices_view(before).push(entry));
                        },
                        None => {},
                    },
                    None => {},
                }
            }
            assert(all.len() <= MOST_DEVICES ==> all.take(n as int) == all);
        },
    }
    out
}

/// Where the latest statistics of a device are.
pub open spec fn statistics_place(root: Seq<char>, id: Seq<char>) -> Seq<char> {
    root + "/devices/"@ + id + "/statistics/latest"@
}

/// Where the latest statistics of a device are.
pub fn statistics_path(root: &str, id: &str) -> (r: String)
    ensures
        r@ == statistics_place(root@, id@),
{
    let a = join(root, "/devices/");
    let b = join(a.as_str(), id);
    join(b.as_str(), "/statistics/latest")
}

/// The statistics of a device as they are shown, or why there are none.
pub open spec fn statistics_view(
    id: Seq<char>,
    name: Seq<char>,
    reply: Result<JsonView, Seq<char>>,
) -> JsonView {
    let a = with_field(empty_object(), "id"@, JsonView::Text(id));
    let b = with_field(a, "name"@, JsonView::Text(name));
    match reply {
        Err(e) => with_field(b, "error"@, JsonView::Text(e)),
        Ok(stats) => {
            let c = with_field(b, "cpu"@, field(stats, "cpuUtilizationPct"@));
            let d = with_field(c, "memory"@, field(stats, "memoryUtilizationPct"@));
            let e = with_field(d, "uptime"@, field(stats, "uptimeSec"@));
            let f = with_field(e, "rx_bps"@, field(field(stats, "uplink"@), "rxRateBps"@));
            with_field(f, "tx_bps"@, field(field(stats, "uplink"@), "txRateBps"@))
        },
    }
}

/// The statistics of a device as they are shown, or why there are none.
pub fn statistics_entry(id: &str, name: &str, reply: &Result<Json, String>) -> (r: Json)
    ensures
        r@ == statistics_view(
            id@,
            name@,
            match *reply {
                Ok(j) => Ok(j@),
                Err(e) => Err(e@),
            },
        ),
{
    let head = Json::object().with("id", Json::text(id)).with("name", Json::text(name));
    match reply {
        Err(e) => head.with("error", Json::text(e.as_str())),
        Ok(stats) => head.with("cpu", stats.field("cpuUtilizationPct").copy()).with(
            "memory",
            stats.field("memoryUtilizationPct").copy(),
        ).with("uptime", stats.field("uptimeSec").copy()).with(
            "rx_bps",
            stats.field("uplink").field("rxRateBps").copy(),
        ).with("tx_bps", stats.field("uplink").field("txRateBps").copy()),
    }
}

/// The snapshot where no controller is named.
pub open spec fn unconfigured_view() -> JsonView {
    with_field(
        with_field(empty_object(), "configured"@, JsonView::Bool(false)),
        "enforcement"@,
        JsonView::Bool(false),
    )
}

/// The snapshot where no controller is named.
pub fn unconfigured() -> (r: Json)
    ensures
        r@ == unconfigured_view(),
{
    Json::object().with("configured", Json::Bool(false)).with("enforcement", Json::Bool(false))
}

/// The last good snapshot, marked as stale, with what went wrong.
pub open spec fn stale_view(snapshot: JsonView, error: Seq<char>) -> JsonView {
    let kept = if snapshot is Object {
        snapshot
    } else {
        empty_object()
    };
    with_field(with_field(kept, "error"@, JsonView::Text(error)), "stale"@, JsonView::Bool(true))
}

/// Marks the last good snapshot as stale, and says what went wrong.
pub fn mark_stale(snapshot: &mut Json, error: &str)
    ensures
        final(snapshot)@ == stale_view(old(snapshot)@, error@),
{
    if !snapshot.is_object() {
        *snapshot = Json::object();
    }
    snapshot.set("error", Json::text(error));
    snapshot.set("stale", Json::Bool(true));
}

/// A failed synchronisation changes nothing in the snapshot but the mark and the error.
pub proof fn law_failure_keeps_the_snapshot(snapshot: JsonView, error: Seq<char>, key: Seq<char>)
    requires
        key != "error"@,
        key != "stale"@,
    ensures
        field(stale_view(snapshot, error), key) == field(snapshot, key),
        field(stale_view(snapshot, error), "stale"@) == JsonView::Bool(true),
        field(stale_view(snapshot, error), "error"@) == JsonView::Text(error),
{
    reveal_strlit("error");
    reveal_strlit("stale");
    assert("error"@[0] != "stale"@[0]);
}

/// The stages of a synchronisation, by what is waited for.
#[derive(Clone, Copy, Debug, PartialEq, Eq, Structural)]
pub enum Stage {
    Sites,
    Scope,
    Clients,
    Stored,
    Zones,
    Networks,
    Devices,
    Statistics,
    Policies,
    Done,
}

/// An answer to what a synchronisation asked for.
#[derive(Debug)]
pub enum Answer {
    /// A list of the controller, or why it cannot be had.
    List(Result<Vec<Json>, String>),
    /// The controller and site that the store belongs to.
    Scope(String),
    /// The clients are stored.
    Stored,
    /// The statistics of the devices.
    Statistics(Vec<Json>),
}

/// What an answer says.
pub enum AnswerView {
    List(Result<Seq<JsonView>, Seq<char>>),
    Scope(Seq<char>),
    Stored,
    Statistics(Seq<JsonView>),
}

impl View for Answer {
    type V = AnswerView;

    open spec fn view(&self) -> AnswerView {
        match *self {
            Answer::List(Ok(items)) => AnswerView::List(Ok(items_view(items@))),
            Answer::List(Err(e)) => AnswerView::List(Err(e@)),
            Answer::Scope(s) => AnswerView::Scope(s@),
            Answer::Stored => AnswerView::Stored,
            Answer::Statistics(items) => AnswerView::Statistics(items_view(items@)),
        }
    }
}

/// What a synchronisation needs next.
#[derive(Debug)]
pub enum Step {
    /// The list at a path.
    List(String),
    /// Store this as the controller and site that the store belongs to, unless there is
    /// one, and read what is stored.
    Scope(String),
    /// Store these clients.
    Store(Vec<ClientRecord>),
    /// The statistics of these devices.
    Statistics(Vec<(Uuid, String)>),
    /// The snapshot is complete; with it the rules of the controller, if they can be had.
    Publish(Json, Option<Vec<Json>>),
    /// The synchronisation failed.
    Fail(String),
}

/// What a step says.
pub enum StepView {
    List(Seq<char>),
    Scope(Seq<char>),
    Store(Seq<(Seq<char>, JsonView)>),
    Statistics(Seq<(Uuid, Seq<char>)>),
    Publish(JsonView, Option<Seq<JsonView>>),
    Fail(Seq<char>),
}

impl View for Step {
    type V = StepView;

    open spec fn view(&self) -> StepView {
        match *self {
            Step::List(s) => StepView::List(s@),
            Step::Scope(s) => StepView::Scope(s@),
            Step::Store(v) => StepView::Store(records_view(v@)),
            Step::Statistics(v) => StepView::Statistics(devices_view(v@)),
            Step::Publish(j, Some(p)) => StepView::Publish(j@, Some(items_view(p@))),
            Step::Publish(j, None) => StepView::Publish(j@, None),
            Step::Fail(s) => StepView::Fail(s@),
        }
    }
}

/// A synchronisation that is under way.
#[derive(Debug)]
pub struct Sync {
    base: String,
    site: Option<String>,
    enforce: bool,
    protected: Vec<String>,
    stage: Stage,
    snapshot: Json,
}

/// What a synchronisation holds.
#[verifier::ext_equal]
pub struct SyncView {
    pub base: Seq<char>,
    pub site: Option<Seq<char>>,
    pub enforce: bool,
    pub protected: Seq<Seq<char>>,
    pub stage: Stage,
    pub snapshot: JsonView,
}

impl View for Sync {
    type V = SyncView;

    closed spec fn view(&self) -> SyncView {
        SyncView {
            base: self.base@,
            site: optional(self.site),
            enforce: self.enforce,
            protected: texts(self.protected@),
            stage: self.stage,
            snapshot: self.snapshot@,
        }
    }
}

impl SyncView {
    /// Past the first list there is a site and a snapshot.
    pub open spec fn valid(self) -> bool {
        self.stage != Stage::Sites ==> self.snapshot is Object && (self.stage != Stage::Done ==> self.site is Some)
    }

    /// Whether an answer is of the kind that is waited for.
    pub open spec fn expects(self, a: AnswerView) -> bool {
        match self.stage {
            Stage::Scope => a is Scope,
            Stage::Stored => a is Stored,
            Stage::Statistics => a is Statistics,
            Stage::Done => false,
            _ => a is List,
        }
    }

    /// Where the site is.
    pub open spec fn root(self) -> Seq<char> {
        "/sites/"@ + self.site->Some_0
    }

    /// The controller and the site.
    pub open spec fn scope(self) -> Seq<char> {
        self.base + "|"@ + self.site->Some_0
    }
}

/// The snapshot once the sites are known.
pub open spec fn first_snapshot(base: Seq<char>, sites: Seq<JsonView>, enforce: bool, now: i64) -> JsonView {
    let a = with_field(empty_object(), "configured"@, JsonView::Bool(true));
    let b = with_field(a, "url"@, JsonView::Text(base));
    let c = with_field(b, "sites"@, JsonView::Array(sites));
    let d = with_field(c, "enforcement"@, JsonView::Bool(enforce));
    let e = with_field(d, "last_sync"@, signed_view(now));
    with_field(e, "stale"@, JsonView::Bool(false))
}

/// A number as JSON has it.
pub open spec fn signed_view(n: i64) -> JsonView {
    JsonView::Number(
        if n < 0 {
            Number::Negative(n)
        } else {
            Number::Unsigned(n as u64)
        },
    )
}

/// A list that may be missing: the list, or why it is missing.
pub open spec fn section(
    snapshot: JsonView,
    key: Seq<char>,
    error_key: Seq<char>,
    list: Result<Seq<JsonView>, Seq<char>>,
) -> JsonView {
    match list {
        Ok(items) => with_field(snapshot, key, JsonView::Array(items)),
        Err(e) => with_field(snapshot, error_key, JsonView::Text(e)),
    }
}

/// Texts as JSON has them.
pub open spec fn text_items(s: Seq<Seq<char>>) -> Seq<JsonView> {
    Seq::new(s.len(), |i: int| JsonView::Text(s[i]))
}

/// The snapshot once it is known whether the rules can be read.
pub open spec fn with_policies(snapshot: JsonView, list: Result<Seq<JsonView>, Seq<char>>) -> JsonView {
    match list {
        Ok(items) => with_field(
            with_field(snapshot, "firewall_api_available"@, JsonView::Bool(true)),
            "policy_count"@,
            JsonView::Number(Number::Unsigned(items.len() as u64)),
        ),
        Err(e) => with_field(
            with_field(snapshot, "firewall_api_available"@, JsonView::Bool(false)),
            "firewall_error"@,
            JsonView::Text(e),
        ),
    }
}

/// What follows an answer: the synchronisation afterwards, and what it needs next.
pub open spec fn sync_next(s: SyncView, a: AnswerView, now: i64) -> (SyncView, StepView) {
    match (s.stage, a) {
        (Stage::Sites, AnswerView::List(Ok(sites))) => {
            let first = first_snapshot(s.base, sites, s.enforce, now);
            if s.site is None {
                (SyncView { stage: Stage::Done, snapshot: first, ..s }, StepView::Publish(first, None))
            } else {
                (SyncView { stage: Stage::Scope, snapshot: first, ..s }, StepView::Scope(s.scope()))
            }
        },
        (Stage::Scope, AnswerView::Scope(saved)) => if saved == s.scope() {
            (SyncView { stage: Stage::Clients, ..s }, StepView::List(s.root() + "/clients"@))
        } else {
            (
                s,
                StepView::Fail(
                    "Controller/site changed; clean up existing rules and mappings before migration"@,
                ),
            )
        },
        (Stage::Clients, AnswerView::List(Ok(clients))) => {
            let counted = with_field(
                s.snapshot,
                "connected_clients"@,
                JsonView::Number(Number::Unsigned(clients.len() as u64)),
            );
            let snapshot = with_field(counted, "site_id"@, JsonView::Text(s.site->Some_0));
            (SyncView { stage: Stage::Stored, snapshot, ..s }, StepView::Store(records_of(clients)))
        },
        (Stage::Stored, AnswerView::Stored) => (
            SyncView { stage: Stage::Zones, ..s },
            StepView::List(s.root() + "/firewall/zones"@),
        ),
        (Stage::Zones, AnswerView::List(list)) => (
            SyncView {
                stage: Stage::Networks,
                snapshot: section(s.snapshot, "zones"@, "zones_error"@, list),
                ..s
            },
            StepView::List(s.root() + "/networks"@),
        ),
        (Stage::Networks, AnswerView::List(list)) => (
            SyncView {
                stage: Stage::Devices,
                snapshot: section(s.snapshot, "networks"@, "networks_error"@, list),
                ..s
            },
            StepView::List(s.root() + "/devices"@),
        ),
        (Stage::Devices, AnswerView::List(list)) => {
            let snapshot = section(s.snapshot, "devices"@, "devices_error"@, list);
            (
                SyncView { stage: Stage::Statistics, snapshot, ..s },
                StepView::Statistics(devices_of(snapshot)),
            )
        },
        (Stage::Statistics, AnswerView::Statistics(items)) => {
            let a = with_field(s.snapshot, "statistics"@, JsonView::Array(items));
            let snapshot = with_field(a, "protected_macs"@, JsonView::Array(text_items(s.protected)));
            (
                SyncView { stage: Stage::Policies, snapshot, ..s },
                StepView::List(s.root() + "/firewall/policies"@),
            )
        },
        (Stage::Policies, AnswerView::List(list)) => {
            let snapshot = with_policies(s.snapshot, list);
            (
                SyncView { stage: Stage::Done, snapshot, ..s },
                StepView::Publish(
                    snapshot,
                    match list {
                        Ok(items) => Some(items),
                        Err(_) => None,
                    },
                ),
            )
        },
        (_, AnswerView::List(Err(e))) => (s, StepView::Fail(e)),
        _ => (s, StepView::Fail(Seq::empty())),
    }
}

/// Sets a list that may be missing.
fn set_section(snapshot: &mut Json, key: &str, error_key: &str, list: Result<Vec<Json>, String>)
    requires
        *old(snapshot) is Object,
    ensures
        final(snapshot)@ == section(
            old(snapshot)@,
            key@,
            error_key@,
            match list {
                Ok(items) => Ok(items_view(items@)),
                Err(e) => Err(e@),
            },
        ),
        *final(snapshot) is Object,
{
    match list {
        Ok(items) => snapshot.set(key, Json::Array(items)),
        Err(e) => snapshot.set(error_key, Json::Text(e)),
    }
}

/// Texts as JSON.
fn text_array(list: &Vec<String>) -> (r: Vec<Json>)
    ensures
        items_view(r@) == text_items(texts(list@)),
{
    let mut out: Vec<Json> = Vec::new();
    for i in 0..list.len()
        invariant
            items_view(out@) == text_items(texts(list@.take(i as int))),
    {
        let ghost before = out@;
        out.push(Json::text(list[i].as_str()));
        assert(out@.drop_last() == before);
        assert(text_items(texts(list@.take(i + 1))) == text_items(texts(list@.take(i as int))).push(
            JsonView::Text(list@[i as int]@),
        ));
    }
    assert(list@.take(list@.len() as int) == list@);
    out
}

/// A synchronisation that begins.
pub open spec fn sync_start(cfg: ConfigView) -> SyncView {
    SyncView {
        base: cfg.base,
        site: match cfg.site {
            Some(site) => Some(uuid_text(site.bits)),
            None => None,
        },
        enforce: cfg.enforce,
        protected: cfg.protected,
        stage: Stage::Sites,
        snapshot: JsonView::Null,
    }
}

impl Sync {
    /// A synchronisation with a controller, whose site has this text.
    pub fn with_site(base: String, site: Option<String>, enforce: bool, protected: Vec<String>) -> (r: Sync)
        ensures
            r@ == (SyncView {
                base: base@,
                site: optional(site),
                enforce,
                protected: texts(protected@),
                stage: Stage::Sites,
                snapshot: JsonView::Null,
            }),
    {
        Sync { base, site, enforce, protected, stage: Stage::Sites, snapshot: Json::Null }
    }

    /// A synchronisation with a controller. The list of its sites is asked for first.
    pub fn start(cfg: &Config) -> (r: Sync)
        ensures
            r@ == sync_start(cfg@),
    {
        let site = match cfg.site {
            Some(id) => Some(id.text()),
            None => None,
        };
        let mut protected: Vec<String> = Vec::new();
        for i in 0..cfg.protected.len()
            invariant
                texts(protected@) == texts(cfg.protected@.take(i as int)),
        {
            let ghost before = protected@;
            protected.push(cfg.protected[i].clone());
            assert(texts(protected@) == texts(before).push(cfg.protected@[i as int]@));
            assert(texts(cfg.protected@.take(i + 1)) == texts(cfg.protected@.take(i as int)).push(
                cfg.protected@[i as int]@,
            ));
        }
        assert(cfg.protected@.take(cfg.protected@.len() as int) == cfg.protected@);
        Sync::with_site(cfg.base.clone(), site, cfg.enforce, protected)
    }

    /// Where the site is.
    pub fn root(&self) -> (r: String)
        requires
            self@.site is Some,
        ensures
            r@ == self@.root(),
    {
        match &self.site {
            Some(site) => join("/sites/", site.as_str()),
            None => String::new(),
        }
    }

    /// A path of the site.
    fn under_root(&self, path: &str) -> (r: String)
        requires
            self@.site is Some,
        ensures
            r@ == self@.root() + path@,
    {
        let root = self.root();
        join(root.as_str(), path)
    }

    /// Takes an answer, and says what is needed next.
    pub fn next(&mut self, answer: Answer, now: i64) -> (r: Step)
        requires
            old(self)@.valid(),
            old(self)@.expects(answer@),
        ensures
            final(self)@ == sync_next(old(self)@, answer@, now).0,
            r@ == sync_next(old(self)@, answer@, now).1,
            final(self)@.valid(),
    {
        match answer {
            Answer::List(list) => self.on_list(list, now),
            Answer::Scope(saved) => {
                let matches_scope = match &self.site {
                    Some(site) => {
                        let a = join(self.base.as_str(), "|");
                        let scope = join(a.as_str(), site.as_str());
                        same(saved.as_str(), scope.as_str())
                    },
                    None => false,
                };
                if !matches_scope {
                    return Step::Fail(
                        "Controller/site changed; clean up existing rules and mappings before migration".to_owned(),
                    );
                }
                self.stage = Stage::Clients;
                Step::List(self.under_root("/clients"))
            },
            Answer::Stored => {
                self.stage = Stage::Zones;
                Step::List(self.under_root("/firewall/zones"))
            },
            Answer::Statistics(items) => {
                let protected = text_array(&self.protected);
                self.snapshot.set("statistics", Json::Array(items));
                self.snapshot.set("protected_macs", Json::Array(protected));
                self.stage = Stage::Policies;
                Step::List(self.under_root("/firewall/policies"))
            },
        }
    }

    fn on_list(&mut self, list: Result<Vec<Json>, String>, now: i64) -> (r: Step)
        requires
            old(self)@.valid(),
            old(self)@.expects(Answer::List(list)@),
        ensures
            final(self)@ == sync_next(old(self)@, Answer::List(list)@, now).0,
            r@ == sync_next(old(self)@, Answer::List(list)@, now).1,
            final(self)@.valid(),
    {
        match self.stage {
            Stage::Sites => match list {
                Err(e) => Step::Fail(e),
                Ok(sites) => self.on_sites(sites, now),
            },
            Stage::Clients => match list {
                Err(e) => Step::Fail(e),
                Ok(clients) => {
                    let records = client_records(&clients);
                    proof {
                        lemma_items_view(clients@);
                    }
                    self.snapshot.set("connected_clients", Json::unsigned(clients.len() as u64));
                    let site = match &self.site {
                        Some(site) => site.clone(),
                        None => String::new(),
                    };
                    self.snapshot.set("site_id", Json::Text(site));
                    self.stage = Stage::Stored;
                    Step::Store(records)
                },
            },
            Stage::Zones => {
                set_section(&mut self.snapshot, "zones", "zones_error", list);
                self.stage = Stage::Networks;
                Step::List(self.under_root("/networks"))
            },
            Stage::Networks => {
                set_section(&mut self.snapshot, "networks", "networks_error", list);
                self.stage = Stage::Devices;
                Step::List(self.under_root("/devices"))
            },
            Stage::Devices => {
                set_section(&mut self.snapshot, "devices", "devices_error", list);
                self.stage = Stage::Statistics;
                Step::Statistics(statistics_devices(&self.snapshot))
            },
            _ => {
                let policies = match list {
                    Ok(items) => {
                        proof {
                            lemma_items_view(items@);
                        }
                        self.snapshot.set("firewall_api_available", Json::Bool(true));
                        self.snapshot.set("policy_count", Json::unsigned(items.len() as u64));
                        Some(items)
                    },
                    Err(e) => {
                        self.snapshot.set("firewall_api_available", Json::Bool(false));
                        self.snapshot.set("firewall_error", Json::Text(e));
                        None
                    },
                };
                self.stage = Stage::Done;
                Step::Publish(self.snapshot.copy(), policies)
            },
        }
    }

    fn on_sites(&mut self, sites: Vec<Json>, now: i64) -> (r: Step)
        requires
            old(self)@.stage == Stage::Sites,
        ensures
            final(self)@ == sync_next(old(self)@, AnswerView::List(Ok(items_view(sites@))), now).0,
            r@ == sync_next(old(self)@, AnswerView::List(Ok(items_view(sites@))), now).1,
            final(self)@.valid(),
    {
        self.snapshot = Json::object().with("configured", Json::Bool(true)).with(
            "url",
            Json::text(self.base.as_str()),
        ).with("sites", Json::Array(sites)).with("enforcement", Json::Bool(self.enforce)).with(
            "last_sync",
            Json::signed(now),
        ).with("stale", Json::Bool(false));
        match &self.site {
            None => {
                self.stage = Stage::Done;
                Step::Publish(self.snapshot.copy(), None)
            },
            Some(site) => {
                let a = join(self.base.as_str(), "|");
                let scope = join(a.as_str(), site.as_str());
                self.stage = Stage::Scope;
                Step::Scope(scope)
            },
        }
    }
}

/// What is shown as the result for a client: what was reported, or the error.
pub open spec fn status_of(result: Result<Seq<char>, Seq<char>>) -> Seq<char> {
    match result {
        Ok(s) => s,
        Err(e) => "error: "@ + e,
    }
}

/// What is shown as the result for a client.
pub fn status_text(result: Result<String, String>) -> (r: String)
    ensures
        r@ == status_of(
            match result {
                Ok(s) => Ok(s@),
                Err(e) => Err(e@),
            },
        ),
{
    match result {
        Ok(s) => s,
        Err(e) => join("error: ", e.as_str()),
    }
}

/// Whether a result is news for a client.
pub open spec fn news_for(client: JsonView, status: Seq<char>) -> bool {
    text_of(field(client, "result"@)) != Some(status)
}

/// Whether a result is news for a client: it is not the one that is stored.
pub fn is_news(client: &Json, status: &str) -> (r: bool)
    ensures
        r == news_for(client@, status@),
{
    match client.field("result").as_str() {
        Some(stored) => !same(stored, status),
        None => true,
    }
}

/// The moment before which events are deleted.
pub open spec fn oldest_event(now: int) -> int {
    now - 30 * 86_400
}

/// The moment before which events are deleted: thirty days ago.
pub fn events_cutoff(now: i64) -> (r: i64)
    requires
        now >= i64::MIN + 2_592_000,
    ensures
        r == oldest_event(now as int),
{
    now - 2_592_000
}

/// The store is never turned to another controller or site without being cleaned up: past
/// the check, what is stored is this controller and this site.
pub proof fn law_no_silent_retargeting(s: SyncView, saved: Seq<char>, now: i64)
    requires
        s.valid(),
        s.stage == Stage::Scope,
    ensures
        sync_next(s, AnswerView::Scope(saved), now).1 is Fail <==> saved != s.scope(),
        sync_next(s, AnswerView::Scope(saved), now).0.stage == Stage::Clients <==> saved == s.scope(),
{
}

/// What a restricted key cannot read does not end a synchronisation: past the clients,
/// every answer leads on.
pub proof fn law_optional_lists_may_be_missing(s: SyncView, error: Seq<char>, now: i64)
    requires
        s.valid(),
        s.stage == Stage::Zones || s.stage == Stage::Networks || s.stage == Stage::Devices || s.stage
            == Stage::Policies,
    ensures
        !(sync_next(s, AnswerView::List(Err(error)), now).1 is Fail),
        sync_next(s, AnswerView::List(Err(error)), now).0.stage != s.stage,
{
}

/// How many answers are still to come.
pub open spec fn answers_left(stage: Stage) -> nat {
    match stage {
        Stage::Sites => 9,
        Stage::Scope => 8,
        Stage::Clients => 7,
        Stage::Stored => 6,
        Stage::Zones => 5,
        Stage::Networks => 4,
        Stage::Devices => 3,
        Stage::Statistics => 2,
        Stage::Policies => 1,
        Stage::Done => 0,
    }
}

/// Each answer brings a synchronisation nearer to its end, where the snapshot is
/// published; or it fails.
pub proof fn law_synchronisation_ends(s: SyncView, a: AnswerView, now: i64)
    requires
        s.valid(),
        s.expects(a),
    ensures
        ({
            let (after, step) = sync_next(s, a, now);
            &&& step is Fail || answers_left(after.stage) < answers_left(s.stage)
            &&& step is Publish <==> after.stage == Stage::Done
            &&& step matches StepView::Publish(snapshot, _) ==> snapshot == after.snapshot
            &&& after.valid()
        }),
{
}

/// Of a client only what is shown is kept, not what else the controller says of it.
pub proof fn law_only_shown_fields_are_kept(client: JsonView, key: Seq<char>)
    requires
        key != "id"@,
        key != "name"@,
        key != "ip"@,
        key != "type"@,
        key != "connected_at"@,
        key != "uplink_id"@,
    ensures
        field(kept(client), key) == JsonView::Null,
{
}

/// Of a client its identifier, name, address, type, moment of connection and uplink are kept as
/// the controller gave them, each under the key by which it is shown.
pub proof fn law_shown_fields_are_kept(client: JsonView)
    ensures
        field(kept(client), "id"@) == field(client, "id"@),
        field(kept(client), "name"@) == field(client, "name"@),
        field(kept(client), "ip"@) == field(client, "ipAddress"@),
        field(kept(client), "type"@) == field(client, "type"@),
        field(kept(client), "connected_at"@) == field(client, "connectedAt"@),
        field(kept(client), "uplink_id"@) == field(client, "uplinkDeviceId"@),
{
    reveal_strlit("id");
    reveal_strlit("name");
    reveal_strlit("ip");
    reveal_strlit("type");
    reveal_strlit("connected_at");
    reveal_strlit("uplink_id");
    assert("id"@.len() == 2 && "ip"@.len() == 2 && "id"@[1] == 'd' && "ip"@[1] == 'p');
    assert("name"@.len() == 4 && "type"@.len() == 4 && "name"@[0] == 'n' && "type"@[0] == 't');
    assert("connected_at"@.len() == 12 && "uplink_id"@.len() == 9);
}

/// A client is stored exactly where its address reads as that of one device, under that address
/// in its usual form.
pub proof fn law_clients_with_an_address_are_stored(clients: Seq<JsonView>, mac: Seq<char>, data: JsonView)
    ensures
        records_of(clients).contains((mac, data)) <==> exists|i: int|
            0 <= i < clients.len() && (field(#[trigger] clients[i], "macAddress"@) matches JsonView::Text(text)
                && mac_of(text) == Some(mac)) && data == kept(clients[i]),
        records_of(clients).len() <= clients.len(),
    decreases clients.len(),
{
    if clients.len() > 0 {
        let front = clients.drop_last();
        law_clients_with_an_address_are_stored(front, mac, data);
        let before = records_of(front);
        let all = records_of(clients);
        let last = clients[clients.len() - 1];
        assert(last == clients.last());
        if all.contains((mac, data)) {
            let k = choose|k: int| 0 <= k < all.len() && all[k] == (mac, data);
            if k < before.len() {
                assert(before[k] == (mac, data));
                let i = choose|i: int|
                    0 <= i < front.len() && (field(#[trigger] front[i], "macAddress"@) matches JsonView::Text(text)
                        && mac_of(text) == Some(mac)) && data == kept(front[i]);
                assert(clients[i] == front[i]);
            } else {
                assert(client_mac(last) == Some(mac));
            }
        }
        if exists|i: int|
            0 <= i < clients.len() && (field(#[trigger] clients[i], "macAddress"@) matches JsonView::Text(text)
                && mac_of(text) == Some(mac)) && data == kept(clients[i]) {
            let i = choose|i: int|
                0 <= i < clients.len() && (field(#[trigger] clients[i], "macAddress"@) matches JsonView::Text(text)
                    && mac_of(text) == Some(mac)) && data == kept(clients[i]);
            if i < front.len() {
                assert(front[i] == clients[i]);
                let k = choose|k: int| 0 <= k < before.len() && before[k] == (mac, data);
                assert(all[k] == (mac, data));
            } else {
                assert(all[before.len() as int] == (mac, data));
            }
        }
    }
}

/// Statistics are asked for of a device exactly where it is among the first 64 and has an
/// identifier that reads as one; a device without a name is shown as `UniFi`.
pub proof fn law_statistics_are_of_the_first_devices(snapshot: JsonView, id: Uuid, name: Seq<char>)
    ensures
        devices_of(snapshot).contains((id, name)) <==> (field(snapshot, "devices"@) matches JsonView::Array(list)
            && exists|i: int|
            0 <= i < list.len() && i < 64 && (field(#[trigger] list[i], "id"@) matches JsonView::Text(text) && uuid_of(
                text,
            ) == Ok::<Uuid, Seq<char>>(id)) && name == (match field(list[i], "name"@) {
                JsonView::Text(n) => n,
                _ => "UniFi"@,
            })),
{
    if let JsonView::Array(list) = field(snapshot, "devices"@) {
        let part = if list.len() <= MOST_DEVICES {
            list
        } else {
            list.take(MOST_DEVICES as int)
        };
        lemma_devices_listed(part, id, name);
        assert(forall|i: int| 0 <= i < part.len() ==> #[trigger] part[i] == list[i]);
        if devices_of(snapshot).contains((id, name)) {
            let i = choose|i: int|
                0 <= i < part.len() && (field(#[trigger] part[i], "id"@) matches JsonView::Text(text) && uuid_of(text)
                    == Ok::<Uuid, Seq<char>>(id)) && name == (match field(part[i], "name"@) {
                    JsonView::Text(n) => n,
                    _ => "UniFi"@,
                });
            assert(list[i] == part[i]);
        }
        if exists|i: int|
            0 <= i < list.len() && i < 64 && (field(#[trigger] list[i], "id"@) matches JsonView::Text(text) && uuid_of(
                text,
            ) == Ok::<Uuid, Seq<char>>(id)) && name == (match field(list[i], "name"@) {
                JsonView::Text(n) => n,
                _ => "UniFi"@,
            }) {
            let i = choose|i: int|
                0 <= i < list.len() && i < 64 && (field(#[trigger] list[i], "id"@) matches JsonView::Text(text)
                    && uuid_of(text) == Ok::<Uuid, Seq<char>>(id)) && name == (match field(list[i], "name"@) {
                    JsonView::Text(n) => n,
                    _ => "UniFi"@,
                });
            assert(part[i] == list[i]);
        }
    }
}

proof fn lemma_devices_listed(list: Seq<JsonView>, id: Uuid, name: Seq<char>)
    ensures
        devices_in(list).contains((id, name)) <==> exists|i: int|
            0 <= i < list.len() && (field(#[trigger] list[i], "id"@) matches JsonView::Text(text) && uuid_of(text)
                == Ok::<Uuid, Seq<char>>(id)) && name == (match field(list[i], "name"@) {
                JsonView::Text(n) => n,
                _ => "UniFi"@,
            }),
    decreases list.len(),
{
    if list.len() > 0 {
        let front = list.drop_last();
        lemma_devices_listed(front, id, name);
        let before = devices_in(front);
        let all = devices_in(list);
        let last = list[list.len() - 1];
        assert(last == list.last());
        if all.contains((id, name)) {
            let k = choose|k: int| 0 <= k < all.len() && all[k] == (id, name);
            if k < before.len() {
                assert(before[k] == (id, name));
                let i = choose|i: int|
                    0 <= i < front.len() && (field(#[trigger] front[i], "id"@) matches JsonView::Text(text) && uuid_of(
                        text,
                    ) == Ok::<Uuid, Seq<char>>(id)) && name == (match field(front[i], "name"@) {
                        JsonView::Text(n) => n,
                        _ => "UniFi"@,
                    });
                assert(list[i] == front[i]);
            } else {
                assert(device_of(last) == Some((id, name)));
            }
        }
        if exists|i: int|
            0 <= i < list.len() && (field(#[trigger] list[i], "id"@) matches JsonView::Text(text) && uuid_of(text)
                == Ok::<Uuid, Seq<char>>(id)) && name == (match field(list[i], "name"@) {
                JsonView::Text(n) => n,
                _ => "UniFi"@,
            }) {
            let i = choose|i: int|
                0 <= i < list.len() && (field(#[trigger] list[i], "id"@) matches JsonView::Text(text) && uuid_of(text)
                    == Ok::<Uuid, Seq<char>>(id)) && name == (match field(list[i], "name"@) {
                    JsonView::Text(n) => n,
                    _ => "UniFi"@,
                });
            if i < front.len() {
                assert(front[i] == list[i]);
                let k = choose|k: int| 0 <= k < before.len() && before[k] == (id, name);
                assert(all[k] == (id, name));
            } else {
                assert(device_of(last) == Some((id, name)));
                assert(all[before.len() as int] == (id, name));
            }
        }
    }
}

/// The statistics of a device are shown as the controller gave them, each under its key; where
/// they could not be had, the error is.
pub proof fn law_statistics_are_shown_as_given(id: Seq<char>, name: Seq<char>, stats: JsonView, error: Seq<char>)
    ensures
        ({
            let v = statistics_view(id, name, Ok(stats));
            &&& field(v, "id"@) == JsonView::Text(id)
            &&& field(v, "name"@) == JsonView::Text(name)
            &&& field(v, "cpu"@) == field(stats, "cpuUtilizationPct"@)
            &&& field(v, "memory"@) == field(stats, "memoryUtilizationPct"@)
            &&& field(v, "uptime"@) == field(stats, "uptimeSec"@)
            &&& field(v, "rx_bps"@) == field(field(stats, "uplink"@), "rxRateBps"@)
            &&& field(v, "tx_bps"@) == field(field(stats, "uplink"@), "txRateBps"@)
            &&& field(v, "error"@) == JsonView::Null
        }),
        ({
            let v = statistics_view(id, name, Err(error));
            &&& field(v, "id"@) == JsonView::Text(id)
            &&& field(v, "name"@) == JsonView::Text(name)
            &&& field(v, "error"@) == JsonView::Text(error)
        }),
{
    reveal_strlit("id");
    reveal_strlit("name");
    reveal_strlit("cpu");
    reveal_strlit("memory");
    reveal_strlit("uptime");
    reveal_strlit("rx_bps");
    reveal_strlit("tx_bps");
    reveal_strlit("error");
    assert("id"@.len() == 2 && "name"@.len() == 4 && "cpu"@.len() == 3 && "error"@.len() == 5);
    assert("memory"@.len() == 6 && "uptime"@.len() == 6 && "rx_bps"@.len() == 6 && "tx_bps"@.len() == 6);
    assert("memory"@[0] == 'm' && "uptime"@[0] == 'u' && "rx_bps"@[0] == 'r' && "tx_bps"@[0] == 't');
}

/// What a synchronisation asks for, one after another, and where: the clients first, then the
/// zones, the networks, the devices and at last the rules, all of the one site.
pub proof fn law_lists_of_the_site_are_asked_for_in_order(
    s: SyncView,
    site: Seq<char>,
    list: Result<Seq<JsonView>, Seq<char>>,
    items: Seq<JsonView>,
    now: i64,
)
    requires
        s.site == Some(site),
    ensures
        s.stage == Stage::Scope ==> sync_next(s, AnswerView::Scope(s.base + "|"@ + site), now).1 == StepView::List(
            "/sites/"@ + site + "/clients"@,
        ),
        s.stage == Stage::Stored ==> sync_next(s, AnswerView::Stored, now).1 == StepView::List(
            "/sites/"@ + site + "/firewall/zones"@,
        ),
        s.stage == Stage::Zones ==> sync_next(s, AnswerView::List(list), now).1 == StepView::List(
            "/sites/"@ + site + "/networks"@,
        ),
        s.stage == Stage::Networks ==> sync_next(s, AnswerView::List(list), now).1 == StepView::List(
            "/sites/"@ + site + "/devices"@,
        ),
        s.stage == Stage::Statistics ==> sync_next(s, AnswerView::Statistics(items), now).1 == StepView::List(
            "/sites/"@ + site + "/firewall/policies"@,
        ),
        s.stage == Stage::Clients ==> sync_next(s, AnswerView::List(Ok(items)), now).1 == StepView::Store(
            records_of(items),
        ),
        s.stage == Stage::Sites ==> sync_next(s, AnswerView::List(Ok(items)), now).1 == StepView::Scope(
            s.base + "|"@ + site,
        ),
{
}

/// Without the sites or the clients a synchronisation fails with what went wrong; without a site
/// that is chosen it ends with the sites, and no rule is looked at.
pub proof fn law_no_synchronisation_without_sites_and_clients(
    s: SyncView,
    error: Seq<char>,
    sites: Seq<JsonView>,
    now: i64,
)
    ensures
        s.stage == Stage::Sites || s.stage == Stage::Clients ==> sync_next(s, AnswerView::List(Err(error)), now) == (
            s,
            StepView::Fail(error),
        ),
        s.stage == Stage::Sites && s.site is None ==> {
            let (then, step) = sync_next(s, AnswerView::List(Ok(sites)), now);
            &&& then.stage == Stage::Done
            &&& step == StepView::Publish(then.snapshot, None)
            &&& field(then.snapshot, "sites"@) == JsonView::Array(sites)
        },
{
    lemma_first_snapshot(s.base, sites, s.enforce, now);
}

proof fn lemma_first_snapshot(base: Seq<char>, sites: Seq<JsonView>, enforce: bool, now: i64)
    ensures
        ({
            let v = first_snapshot(base, sites, enforce, now);
            &&& field(v, "configured"@) == JsonView::Bool(true)
            &&& field(v, "url"@) == JsonView::Text(base)
            &&& field(v, "sites"@) == JsonView::Array(sites)
            &&& field(v, "enforcement"@) == JsonView::Bool(enforce)
            &&& field(v, "stale"@) == JsonView::Bool(false)
            &&& now >= 0 ==> field(v, "last_sync"@) == JsonView::Number(Number::Unsigned(now as u64))
        }),
{
    reveal_strlit("configured");
    reveal_strlit("url");
    reveal_strlit("sites");
    reveal_strlit("enforcement");
    reveal_strlit("last_sync");
    reveal_strlit("stale");
    assert("configured"@.len() == 10 && "url"@.len() == 3 && "enforcement"@.len() == 11 && "last_sync"@.len() == 9);
    assert("sites"@.len() == 5 && "stale"@.len() == 5 && "sites"@[1] == 'i' && "stale"@[1] == 't');
}

/// A snapshot begins with the controller, its sites, whether rules are enforced, the moment, and
/// that it is not stale.
pub proof fn law_snapshots_begin_with_the_sites(s: SyncView, sites: Seq<JsonView>, now: i64)
    requires
        s.stage == Stage::Sites,
    ensures
        ({
            let v = sync_next(s, AnswerView::List(Ok(sites)), now).0.snapshot;
            &&& field(v, "configured"@) == JsonView::Bool(true)
            &&& field(v, "url"@) == JsonView::Text(s.base)
            &&& field(v, "sites"@) == JsonView::Array(sites)
            &&& field(v, "enforcement"@) == JsonView::Bool(s.enforce)
            &&& field(v, "stale"@) == JsonView::Bool(false)
            &&& now >= 0 ==> field(v, "last_sync"@) == JsonView::Number(Number::Unsigned(now as u64))
        }),
{
    lemma_first_snapshot(s.base, sites, s.enforce, now);
}

/// Each list that a synchronisation gets is in the snapshot, or why it could not be had is; what
/// was there before stays.
pub proof fn law_snapshots_hold_what_was_found(
    s: SyncView,
    items: Seq<JsonView>,
    error: Seq<char>,
    key: Seq<char>,
    now: i64,
)
    requires
        s.snapshot is Object,
        s.site is Some,
        items.len() <= u64::MAX,
    ensures
        s.stage == Stage::Zones ==> {
            let v = sync_next(s, AnswerView::List(Ok(items)), now).0.snapshot;
            let e = sync_next(s, AnswerView::List(Err(error)), now).0.snapshot;
            &&& field(v, "zones"@) == JsonView::Array(items) && field(e, "zones_error"@) == JsonView::Text(error)
            &&& key != "zones"@ && key != "zones_error"@ ==> field(v, key) == field(s.snapshot, key) && field(e, key)
                == field(s.snapshot, key)
        },
        s.stage == Stage::Networks ==> {
            let v = sync_next(s, AnswerView::List(Ok(items)), now).0.snapshot;
            let e = sync_next(s, AnswerView::List(Err(error)), now).0.snapshot;
            &&& field(v, "networks"@) == JsonView::Array(items) && field(e, "networks_error"@) == JsonView::Text(error)
            &&& key != "networks"@ && key != "networks_error"@ ==> field(v, key) == field(s.snapshot, key) && field(
                e,
                key,
            ) == field(s.snapshot, key)
        },
        s.stage == Stage::Devices ==> {
            let v = sync_next(s, AnswerView::List(Ok(items)), now).0.snapshot;
            let e = sync_next(s, AnswerView::List(Err(error)), now).0.snapshot;
            &&& field(v, "devices"@) == JsonView::Array(items) && field(e, "devices_error"@) == JsonView::Text(error)
            &&& sync_next(s, AnswerView::List(Ok(items)), now).1 == StepView::Statistics(devices_of(v))
        },
        s.stage == Stage::Statistics ==> {
            let v = sync_next(s, AnswerView::Statistics(items), now).0.snapshot;
            &&& field(v, "statistics"@) == JsonView::Array(items)
            &&& field(v, "protected_macs"@) is Array
            &&& field(v, "protected_macs"@)->Array_0.len() == s.protected.len()
            &&& forall|i: int|
                0 <= i < s.protected.len() ==> #[trigger] field(v, "protected_macs"@)->Array_0[i] == JsonView::Text(
                    s.protected[i],
                )
        },
        s.stage == Stage::Clients ==> {
            let v = sync_next(s, AnswerView::List(Ok(items)), now).0.snapshot;
            &&& field(v, "connected_clients"@) == JsonView::Number(Number::Unsigned(items.len() as u64))
            &&& field(v, "site_id"@) == JsonView::Text(s.site->Some_0)
        },
        s.stage == Stage::Policies ==> {
            let (then, step) = sync_next(s, AnswerView::List(Ok(items)), now);
            let (failed, last) = sync_next(s, AnswerView::List(Err(error)), now);
            &&& step == StepView::Publish(then.snapshot, Some(items))
            &&& field(then.snapshot, "firewall_api_available"@) == JsonView::Bool(true)
            &&& field(then.snapshot, "policy_count"@) == JsonView::Number(Number::Unsigned(items.len() as u64))
            &&& last == StepView::Publish(failed.snapshot, None)
            &&& field(failed.snapshot, "firewall_api_available"@) == JsonView::Bool(false)
            &&& field(failed.snapshot, "firewall_error"@) == JsonView::Text(error)
        },
{
    reveal_strlit("statistics");
    reveal_strlit("protected_macs");
    reveal_strlit("connected_clients");
    reveal_strlit("site_id");
    reveal_strlit("firewall_api_available");
    reveal_strlit("policy_count");
    reveal_strlit("firewall_error");
    assert("statistics"@.len() == 10 && "protected_macs"@.len() == 14);
    assert("connected_clients"@.len() == 17 && "site_id"@.len() == 7);
    assert("firewall_api_available"@.len() == 22 && "policy_count"@.len() == 12 && "firewall_error"@.len() == 14);
}

/// What is shown for a client is what was reported, or the error, marked as one.
pub proof fn law_errors_are_shown_as_errors(text: Seq<char>)
    ensures
        status_of(Ok(text)) == text,
        status_of(Err(text)) == "error: "@ + text,
{
}

/// A result is news for a client exactly where another one, or none, is stored.
pub proof fn law_repeated_results_are_no_news(client: JsonView, status: Seq<char>)
    ensures
        !news_for(with_field(client, "result"@, JsonView::Text(status)), status),
        field(client, "result"@) is Text ==> (news_for(client, status) <==> field(client, "result"@)->Text_0 != status),
        !(field(client, "result"@) is Text) ==> news_for(client, status),
{
}

/// Events are kept for thirty days: one of that age stays, and an older one goes.
pub proof fn law_events_are_kept_for_thirty_days(now: int, at: int)
    ensures
        at < oldest_event(now) <==> now - at > 30 * 24 * 60 * 60,
{
}

/// Statistics are asked for below the site, of the one device.
pub proof fn law_statistics_are_below_their_device(root: Seq<char>, id: Seq<char>)
    ensures
        statistics_place(root, id).take(root.len() as int) == root,
        statistics_place(root, id) == root + ("/devices/"@ + (id + "/statistics/latest"@)),
{
    assert(statistics_place(root, id).take(root.len() as int) =~= root);
    assert(statistics_place(root, id) =~= root + ("/devices/"@ + (id + "/statistics/latest"@)));
}

/// Without a controller it is shown that none is configured and nothing is enforced.
pub proof fn law_no_controller_enforces_nothing()
    ensures
        field(unconfigured_view(), "configured"@) == JsonView::Bool(false),
        field(unconfigured_view(), "enforcement"@) == JsonView::Bool(false),
{
    reveal_strlit("configured");
    reveal_strlit("enforcement");
    assert("configured"@.len() == 10 && "enforcement"@.len() == 11);
}

/// A synchronisation begins with the sites of the configured controller, goes on with the configured
/// site, where there is one, and knows what is enforced and protected.
pub proof fn law_synchronisations_follow_the_settings(cfg: ConfigView)
    ensures
        sync_start(cfg).stage == Stage::Sites,
        sync_start(cfg).base == cfg.base,
        cfg.site matches Some(site) ==> sync_start(cfg).site == Some(uuid_text(site.bits)),
        cfg.site is None ==> sync_start(cfg).site is None,
        sync_start(cfg).enforce == cfg.enforce && sync_start(cfg).protected == cfg.protected,
        sync_start(cfg).valid(),
{
}

} // verus!
