//! The per-user web filter: which users have one, through which local ports their web
//! traffic is led, and what is blocked beside it.
use std::collections::HashMap;
use vstd::prelude::*;

use crate::text::join;

verus! {

broadcast use vstd::std_specs::hash::group_hash_axioms;

/// What is to be filtered for a user; one without a security identifier is left out.
#[derive(Debug)]
pub struct FilteredUser {
    pub uid: u32,
    pub sid: Option<String>,
    pub domains: Vec<String>,
}

/// Whether anything is filtered for a user.
pub open spec fn is_active(user: FilteredUser) -> bool {
    user.sid is Some && user.domains@.len() > 0
}

/// The users for whom something is filtered, in order.
pub open spec fn active_uids(users: Seq<FilteredUser>) -> Seq<u32>
    decreases users.len(),
{
    if users.len() == 0 {
        Seq::empty()
    } else if is_active(users.last()) {
        active_uids(users.drop_last()).push(users.last().uid)
    } else {
        active_uids(users.drop_last())
    }
}

/// Whether anything is filtered for a user.
pub fn filters(user: &FilteredUser) -> (r: bool)
    ensures
        r == is_active(*user),
{
    user.sid.is_some() && user.domains.len() > 0
}

/// The users for whom something is filtered.
pub fn active(users: &Vec<FilteredUser>) -> (r: Vec<u32>)
    ensures
        r@ == active_uids(users@),
{
    let mut out: Vec<u32> = Vec::new();
    for i in 0..users.len()
        invariant
            out@ == active_uids(users@.take(i as int)),
    {
        assert(users@.take(i + 1).drop_last() == users@.take(i as int));
        if filters(&users[i]) {
            out.push(users[i].uid);
        }
    }
    assert(users@.take(users@.len() as int) == users@);
    out
}

/// A filter that is in force: the rules that were installed, and the local port of each
/// user's proxy.
#[derive(Debug)]
pub struct Filter {
    ids: Vec<u64>,
    ports: HashMap<u32, u16>,
}

/// What a filter holds.
#[verifier::ext_equal]
pub struct FilterView {
    pub ids: Seq<u64>,
    pub ports: Map<u32, u16>,
}

impl View for Filter {
    type V = FilterView;

    closed spec fn view(&self) -> FilterView {
        FilterView { ids: self.ids@, ports: self.ports@ }
    }
}

/// The users of a list who have no proxy yet, in order.
pub open spec fn without_proxy(ports: Map<u32, u16>, uids: Seq<u32>) -> Seq<u32>
    decreases uids.len(),
{
    if uids.len() == 0 {
        Seq::empty()
    } else if ports.dom().contains(uids.last()) {
        without_proxy(ports, uids.drop_last())
    } else {
        without_proxy(ports, uids.drop_last()).push(uids.last())
    }
}

/// The ports of new proxies; the last one counts where a user has several.
pub open spec fn staged_ports(staged: Seq<(u32, u16)>) -> Map<u32, u16>
    decreases staged.len(),
{
    if staged.len() == 0 {
        Map::empty()
    } else {
        staged_ports(staged.drop_last()).insert(staged.last().0, staged.last().1)
    }
}

/// The ports of those users who stay.
pub open spec fn kept_ports(ports: Map<u32, u16>, uids: Seq<u32>) -> Map<u32, u16> {
    ports.restrict(Set::new(|uid: u32| uids.contains(uid)))
}

/// The ports once a change is in force: the users who stay keep theirs, new ones have
/// theirs, and the others have none.
pub open spec fn ports_after(ports: Map<u32, u16>, uids: Seq<u32>, staged: Seq<(u32, u16)>) -> Map<u32, u16> {
    kept_ports(ports, uids).union_prefer_right(staged_ports(staged))
}

/// A filter without rules.
pub open spec fn unfiltered() -> FilterView {
    FilterView { ids: Seq::empty(), ports: Map::empty() }
}

/// The port of a user's proxy.
pub open spec fn port_for(f: FilterView, uid: u32) -> Option<u16> {
    if f.ports.dom().contains(uid) {
        Some(f.ports[uid])
    } else {
        None
    }
}

impl Filter {
    /// A filter without rules.
    pub fn new() -> (r: Filter)
        ensures
            r@ == unfiltered(),
    {
        let r = Filter { ids: Vec::new(), ports: HashMap::new() };
        assert(r@.ports =~= Map::empty());
        r
    }

    /// The port of a user's proxy.
    pub fn port(&self, uid: u32) -> (r: Option<u16>)
        ensures
            r == port_for(self@, uid),
    {
        match self.ports.get(&uid) {
            Some(port) => Some(*port),
            None => None,
        }
    }

    /// The rules that are installed.
    pub fn ids(&self) -> (r: &Vec<u64>)
        ensures
            r@ == self@.ids,
    {
        &self.ids
    }

    /// The users for whom a proxy has to be started before the rules change.
    pub fn to_stage(&self, uids: &Vec<u32>) -> (r: Vec<u32>)
        ensures
            r@ == without_proxy(self@.ports, uids@),
    {
        let mut out: Vec<u32> = Vec::new();
        for i in 0..uids.len()
            invariant
                out@ == without_proxy(self@.ports, uids@.take(i as int)),
        {
            assert(uids@.take(i + 1).drop_last() == uids@.take(i as int));
            if self.port(uids[i]).is_none() {
                out.push(uids[i]);
            }
        }
        assert(uids@.take(uids@.len() as int) == uids@);
        out
    }

    /// Takes over a change that is in force: the new rules, the users who are filtered, and
    /// the proxies that were started for it.
    pub fn apply(&mut self, ids: Vec<u64>, uids: &Vec<u32>, staged: &Vec<(u32, u16)>)
        ensures
            final(self)@ == (FilterView {
                ids: ids@,
                ports: ports_after(old(self)@.ports, uids@, staged@),
            }),
    {
        let ghost before = self@.ports;
        let mut ports: HashMap<u32, u16> = HashMap::new();
        for i in 0..uids.len()
            invariant
                self@.ports == before,
                ports@ == kept_ports(before, uids@.take(i as int)),
        {
            let uid = uids[i];
            let ghost so_far = ports@;
            let ghost front = uids@.take(i as int);
            assert(uids@.take(i + 1) == front.push(uid));
            if let Some(port) = self.port(uid) {
                ports.insert(uid, port);
            }
            proof {
                assert forall|u: u32| front.push(uid).contains(u) <==> front.contains(u) || u == uid by {
                    if front.contains(u) {
                        let k = choose|k: int| 0 <= k < front.len() && front[k] == u;
                        assert(front.push(uid)[k] == u);
                    }
                    assert(front.push(uid)[front.len() as int] == uid);
                }
                assert(ports@ =~= kept_ports(before, uids@.take(i + 1)));
            }
        }
        assert(uids@.take(uids@.len() as int) == uids@);
        let ghost kept = ports@;
        for i in 0..staged.len()
            invariant
                kept == kept_ports(before, uids@),
                ports@ == kept.union_prefer_right(staged_ports(staged@.take(i as int))),
        {
            assert(staged@.take(i + 1).drop_last() == staged@.take(i as int));
            let (uid, port) = staged[i];
            ports.insert(uid, port);
            assert(ports@ =~= kept.union_prefer_right(staged_ports(staged@.take(i + 1))));
        }
        assert(staged@.take(staged@.len() as int) == staged@);
        self.ids = ids;
        self.ports = ports;
        assert(self@.ports =~= ports_after(before, uids@, staged@));
    }

    /// Ends an attempt to change the rules. Where the rules were installed the change is
    /// taken over. Where they were not, or where a proxy could not be started for it, the
    /// rules and the proxies of before stay, and the error is handed back.
    pub fn settle(
        &mut self,
        installed: Result<Vec<u64>, String>,
        uids: &Vec<u32>,
        staged: &Vec<(u32, u16)>,
    ) -> (r: Result<(), String>)
        ensures
            final(self)@ == settled(old(self)@, outcome_view(installed), uids@, staged@),
            r is Ok <==> installed is Ok,
            installed matches Err(e) ==> r == Err::<(), String>(e),
    {
        match installed {
            Ok(ids) => {
                self.apply(ids, uids, staged);
                Ok(())
            },
            Err(e) => Err(e),
        }
    }
}

/// How an attempt to install rules ended.
pub open spec fn outcome_view(installed: Result<Vec<u64>, String>) -> Result<Seq<u64>, Seq<char>> {
    match installed {
        Ok(ids) => Ok(ids@),
        Err(e) => Err(e@),
    }
}

/// A filter after an attempt to change it: as before where the attempt failed, else with
/// the new rules, the users who are filtered and their proxies.
pub open spec fn settled(
    f: FilterView,
    installed: Result<Seq<u64>, Seq<char>>,
    uids: Seq<u32>,
    staged: Seq<(u32, u16)>,
) -> FilterView {
    match installed {
        Ok(ids) => FilterView { ids, ports: ports_after(f.ports, uids, staged) },
        Err(_) => f,
    }
}

/// The users for whom a proxy was started.
pub open spec fn staged_uids(staged: Seq<(u32, u16)>) -> Seq<u32> {
    Seq::new(staged.len(), |i: int| staged[i].0)
}

proof fn lemma_staged_ports(staged: Seq<(u32, u16)>, uid: u32)
    ensures
        staged_ports(staged).dom().contains(uid) <==> staged_uids(staged).contains(uid),
    decreases staged.len(),
{
    if staged.len() > 0 {
        let front = staged.drop_last();
        lemma_staged_ports(front, uid);
        assert(staged_uids(staged).last() == staged.last().0);
        if staged_uids(front).contains(uid) {
            let k = choose|k: int| 0 <= k < front.len() && staged_uids(front)[k] == uid;
            assert(staged_uids(staged)[k] == uid);
        }
        if staged_uids(staged).contains(uid) && uid != staged.last().0 {
            let k = choose|k: int| 0 <= k < staged.len() && staged_uids(staged)[k] == uid;
            assert(staged_uids(front)[k] == uid);
        }
    }
}

proof fn lemma_without_proxy(ports: Map<u32, u16>, uids: Seq<u32>, uid: u32)
    ensures
        without_proxy(ports, uids).contains(uid) <==> uids.contains(uid) && !ports.dom().contains(uid),
    decreases uids.len(),
{
    if uids.len() > 0 {
        let front = uids.drop_last();
        lemma_without_proxy(ports, front, uid);
        let before = without_proxy(ports, front);
        if front.contains(uid) {
            let k = choose|k: int| 0 <= k < front.len() && front[k] == uid;
            assert(uids[k] == uid);
        }
        if uids.contains(uid) && uid != uids.last() {
            let k = choose|k: int| 0 <= k < uids.len() && uids[k] == uid;
            assert(front[k] == uid);
        }
        assert(uids[uids.len() - 1] == uids.last());
        let pushed = before.push(uids.last());
        if before.contains(uid) {
            let k = choose|k: int| 0 <= k < before.len() && before[k] == uid;
            assert(pushed[k] == uid);
        }
        assert(pushed[before.len() as int] == uids.last());
        if pushed.contains(uid) && uid != uids.last() {
            let k = choose|k: int| 0 <= k < pushed.len() && pushed[k] == uid;
            assert(before[k] == uid);
        }
    }
}

/// Once a change is in force, a user has a proxy exactly where something is filtered for
/// them; and a user who is filtered before and after keeps the port.
pub proof fn law_filtered_users_have_a_stable_port(
    ports: Map<u32, u16>,
    uids: Seq<u32>,
    staged: Seq<(u32, u16)>,
    uid: u32,
)
    requires
        staged_uids(staged) == without_proxy(ports, uids),
    ensures
        ports_after(ports, uids, staged).dom().contains(uid) <==> uids.contains(uid),
        uids.contains(uid) && ports.dom().contains(uid) ==> ports_after(ports, uids, staged)[uid] == ports[uid],
{
    lemma_staged_ports(staged, uid);
    lemma_without_proxy(ports, uids, uid);
}

/// A change of the filter is all or nothing. Where it failed, each user keeps the proxy and
/// the rules of before stay, whatever was started for it. Where it succeeded, only the new
/// rules stand, the users who are filtered have a proxy and the others have none, and who
/// had one before keeps its port.
pub proof fn law_changes_are_all_or_nothing(
    f: FilterView,
    installed: Result<Seq<u64>, Seq<char>>,
    uids: Seq<u32>,
    staged: Seq<(u32, u16)>,
    uid: u32,
)
    requires
        installed is Ok ==> staged_uids(staged) == without_proxy(f.ports, uids),
    ensures
        installed is Err ==> settled(f, installed, uids, staged) == f,
        installed matches Ok(ids) ==> settled(f, installed, uids, staged).ids == ids,
        installed is Ok ==> (settled(f, installed, uids, staged).ports.dom().contains(uid) <==> uids.contains(uid)),
        installed is Ok && uids.contains(uid) && f.ports.dom().contains(uid) ==> settled(
            f,
            installed,
            uids,
            staged,
        ).ports[uid] == f.ports[uid],
{
    if installed is Ok {
        law_filtered_users_have_a_stable_port(f.ports, uids, staged, uid);
    }
}

/// The version of the internet protocol that a rule is for.
#[derive(Clone, Copy, Debug, PartialEq, Eq, Structural)]
pub enum Layer {
    V4,
    V6,
}

/// One thing that is blocked for a user: a protocol, by its number, and a remote port.
#[derive(Clone, Copy, Debug, PartialEq, Eq, Structural)]
pub struct BlockRule {
    pub layer: Layer,
    pub protocol: u8,
    pub port: u16,
}

/// What is blocked of one version: the web and encrypted name resolution over TCP, and
/// over UDP the web and name resolution of either kind.
pub open spec fn layer_rules(layer: Layer) -> Seq<BlockRule> {
    seq![
        BlockRule { layer, protocol: 6, port: 80 },
        BlockRule { layer, protocol: 6, port: 443 },
        BlockRule { layer, protocol: 6, port: 853 },
        BlockRule { layer, protocol: 6, port: 53 },
        BlockRule { layer, protocol: 17, port: 443 },
        BlockRule { layer, protocol: 17, port: 853 },
        BlockRule { layer, protocol: 17, port: 53 },
    ]
}

/// What is blocked for a user beside the proxy: the same for both versions.
pub open spec fn rules_of_user() -> Seq<BlockRule> {
    layer_rules(Layer::V4) + layer_rules(Layer::V6)
}

/// What is blocked for a user beside the proxy: the same for both versions.
pub fn user_rules() -> (r: Vec<BlockRule>)
    ensures
        r@ == rules_of_user(),
{
    let mut out: Vec<BlockRule> = Vec::new();
    add_layer(&mut out, Layer::V4);
    assert(out@ == layer_rules(Layer::V4));
    add_layer(&mut out, Layer::V6);
    out
}

fn add_layer(out: &mut Vec<BlockRule>, layer: Layer)
    ensures
        final(out)@ == old(out)@ + layer_rules(layer),
{
    out.push(BlockRule { layer, protocol: 6, port: 80 });
    out.push(BlockRule { layer, protocol: 6, port: 443 });
    out.push(BlockRule { layer, protocol: 6, port: 853 });
    out.push(BlockRule { layer, protocol: 6, port: 53 });
    out.push(BlockRule { layer, protocol: 17, port: 443 });
    out.push(BlockRule { layer, protocol: 17, port: 853 });
    out.push(BlockRule { layer, protocol: 17, port: 53 });
}

/// Both versions of the internet protocol have the same rules.
pub proof fn law_both_versions_are_filtered_alike(protocol: u8, port: u16)
    ensures
        layer_rules(Layer::V4).contains(BlockRule { layer: Layer::V4, protocol, port }) <==> layer_rules(
            Layer::V6,
        ).contains(BlockRule { layer: Layer::V6, protocol, port }),
{
    let four = layer_rules(Layer::V4);
    let six = layer_rules(Layer::V6);
    if four.contains(BlockRule { layer: Layer::V4, protocol, port }) {
        let k = choose|k: int| 0 <= k < four.len() && four[k] == (BlockRule { layer: Layer::V4, protocol, port });
        assert(six[k] == (BlockRule { layer: Layer::V6, protocol, port }));
    }
    if six.contains(BlockRule { layer: Layer::V6, protocol, port }) {
        let k = choose|k: int| 0 <= k < six.len() && six[k] == (BlockRule { layer: Layer::V6, protocol, port });
        assert(four[k] == (BlockRule { layer: Layer::V4, protocol, port }));
    }
}

/// The descriptor that matches one user.
pub fn user_descriptor(sid: &str) -> (r: String)
    ensures
        r@ == "D:(A;;CC;;;"@ + sid@ + ")"@,
{
    let a = join("D:(A;;CC;;;", sid);
    join(a.as_str(), ")")
}

/// One rule of the filter platform for a user.
#[derive(Debug)]
pub struct UserFilter {
    pub rule: BlockRule,
    /// The descriptor of the user whose traffic it is for.
    pub descriptor: String,
    /// Whether the traffic is blocked.
    pub blocks: bool,
    /// Whether traffic within the machine is concerned too.
    pub loopback: bool,
    /// The weight against other rules.
    pub weight: u8,
}

/// The weight of the rules of a user.
pub const RULE_WEIGHT: u8 = 15;

/// Whether a rule of the filter platform blocks what it is for, for the user with this
/// security identifier and nobody else, and leaves traffic within the machine alone, by
/// which the user's own proxy is reached.
pub open spec fn blocks_direct(f: UserFilter, rule: BlockRule, sid: Seq<char>) -> bool {
    &&& f.rule == rule
    &&& f.descriptor@ == "D:(A;;CC;;;"@ + sid + ")"@
    &&& f.blocks
    &&& !f.loopback
    &&& f.weight == 15
}

/// Whether these are the rules of the filter platform for users with these security
/// identifiers: those of each user, one user after another.
pub open spec fn installs(r: Seq<UserFilter>, sids: Seq<Seq<char>>) -> bool {
    &&& r.len() == 14 * sids.len()
    &&& forall|i: int| 0 <= i < r.len() ==> blocks_direct(#[trigger] r[i], rules_of_user()[i % 14], sids[i / 14])
}

/// The rules of the filter platform for a user: direct connections out of the machine are
/// blocked, for both versions alike.
pub fn user_filters(sid: &str) -> (r: Vec<UserFilter>)
    ensures
        installs(r@, seq![sid@]),
        r@.len() == 14,
        forall|i: int|
            0 <= i < 14 ==> {
                &&& (#[trigger] r@[i]).rule == rules_of_user()[i]
                &&& r@[i].descriptor@ == "D:(A;;CC;;;"@ + sid@ + ")"@
                &&& r@[i].blocks
                &&& !r@[i].loopback
                &&& r@[i].weight == 15
            },
{
    let rules = user_rules();
    let mut out: Vec<UserFilter> = Vec::new();
    for i in 0..rules.len()
        invariant
            rules@ == rules_of_user(),
            out@.len() == i,
            forall|j: int| 0 <= j < i ==> blocks_direct(#[trigger] out@[j], rules@[j], sid@),
    {
        out.push(
            UserFilter {
                rule: rules[i],
                descriptor: user_descriptor(sid),
                blocks: true,
                loopback: false,
                weight: RULE_WEIGHT,
            },
        );
    }
    assert(rules@.len() == 14);
    assert forall|i: int| 0 <= i < 14 implies #[trigger] (i % 14) == i && i / 14 == 0 by {}
    assert forall|i: int| 0 <= i < 14 implies blocks_direct(#[trigger] out@[i], rules@[i], sid@) by {}
    out
}

/// The security identifiers of the users for whom something is filtered, in order.
pub open spec fn active_sids(users: Seq<FilteredUser>) -> Seq<Seq<char>>
    decreases users.len(),
{
    if users.len() == 0 {
        Seq::empty()
    } else if is_active(users.last()) {
        active_sids(users.drop_last()).push(users.last().sid->Some_0@)
    } else {
        active_sids(users.drop_last())
    }
}

/// The rules of the filter platform for all users: those of each user for whom something is
/// filtered, one user after another, and none for the others.
pub fn all_filters(users: &Vec<FilteredUser>) -> (r: Vec<UserFilter>)
    ensures
        installs(r@, active_sids(users@)),
{
    let ghost rules = rules_of_user();
    let mut out: Vec<UserFilter> = Vec::new();
    for i in 0..users.len()
        invariant
            rules == rules_of_user(),
            out@.len() == 14 * active_sids(users@.take(i as int)).len(),
            forall|j: int|
                0 <= j < out@.len() ==> blocks_direct(
                    #[trigger] out@[j],
                    rules[j % 14],
                    active_sids(users@.take(i as int))[j / 14],
                ),
    {
        assert(users@.take(i + 1).drop_last() == users@.take(i as int));
        let ghost before = out@;
        let ghost sids = active_sids(users@.take(i as int));
        if filters(&users[i]) {
            if let Some(sid) = &users[i].sid {
                let mut more = user_filters(sid.as_str());
                let ghost added = more@;
                out.append(&mut more);
                assert(out@ == before + added);
                assert forall|j: int| 0 <= j < out@.len() implies blocks_direct(
                    #[trigger] out@[j],
                    rules[j % 14],
                    sids.push(sid@)[j / 14],
                ) by {
                    if j < before.len() {
                        assert(out@[j] == before[j]);
                        assert(sids.push(sid@)[j / 14] == sids[j / 14]);
                    } else {
                        assert(out@[j] == added[j - before.len()]);
                        assert(j % 14 == j - before.len());
                        assert(j / 14 == sids.len());
                    }
                }
            }
        }
    }
    assert(users@.take(users@.len() as int) == users@);
    out
}

/// Whatever rule is installed, it blocks a port of direct web traffic or name resolution, and
/// never traffic within the machine: a user's own proxy stays within reach.
pub proof fn law_proxies_stay_within_reach(f: UserFilter, i: int, sid: Seq<char>)
    requires
        0 <= i < 14,
        blocks_direct(f, rules_of_user()[i], sid),
    ensures
        f.blocks && !f.loopback,
        f.rule.port == 80 || f.rule.port == 443 || f.rule.port == 853 || f.rule.port == 53,
        f.rule.protocol == 6 || f.rule.protocol == 17,
{
}

/// The hexadecimal digit with a value below sixteen.
pub open spec fn hex_digit(d: int) -> char {
    if d < 10 {
        (48 + d) as char
    } else {
        (87 + d) as char
    }
}

/// The last digits of a number in hexadecimal, so many of them.
pub open spec fn hex(n: int, digits: nat) -> Seq<char>
    decreases digits,
{
    if digits == 0 {
        Seq::empty()
    } else {
        hex(n / 16, (digits - 1) as nat).push(hex_digit(n % 16))
    }
}

/// Writes the last digits of a number in hexadecimal.
fn push_hex(out: &mut String, n: u32, digits: u32)
    ensures
        final(out)@ == old(out)@ + hex(n as int, digits as nat),
    decreases digits,
{
    if digits > 0 {
        push_hex(out, n / 16, digits - 1);
        let d = (n % 16) as u8;
        let c = if d < 10 {
            (48 + d) as char
        } else {
            (87 + d) as char
        };
        out.push(c);
    }
}

/// Whether an operation of the filter platform succeeded, or what is said of its code.
pub fn check(code: u32) -> (r: Result<(), String>)
    ensures
        match r {
            Ok(_) => code == 0,
            Err(e) => code != 0 && e@ == "WFP operation failed: 0x"@ + hex(code as int, 8),
        },
{
    if code == 0 {
        Ok(())
    } else {
        let mut text = "WFP operation failed: 0x".to_owned();
        push_hex(&mut text, code, 8);
        Err(text)
    }
}

/// For each version of the internet protocol, TCP is blocked to the remote ports 80, 443, 853
/// and 53, UDP to 443, 853 and 53, and nothing else is.
pub proof fn law_direct_web_and_name_traffic_is_blocked(layer: Layer, protocol: u8, port: u16)
    ensures
        rules_of_user().contains(BlockRule { layer, protocol, port }) <==> {
            ||| protocol == 6 && (port == 80 || port == 443 || port == 853 || port == 53)
            ||| protocol == 17 && (port == 443 || port == 853 || port == 53)
        },
        rules_of_user().len() == 14,
        rules_of_user().no_duplicates(),
{
    let all = rules_of_user();
    let shift: int = if layer == Layer::V4 {
        0
    } else {
        7
    };
    assert(all[shift] == (BlockRule { layer, protocol: 6, port: 80 }));
    assert(all[shift + 1] == (BlockRule { layer, protocol: 6, port: 443 }));
    assert(all[shift + 2] == (BlockRule { layer, protocol: 6, port: 853 }));
    assert(all[shift + 3] == (BlockRule { layer, protocol: 6, port: 53 }));
    assert(all[shift + 4] == (BlockRule { layer, protocol: 17, port: 443 }));
    assert(all[shift + 5] == (BlockRule { layer, protocol: 17, port: 853 }));
    assert(all[shift + 6] == (BlockRule { layer, protocol: 17, port: 53 }));
}

/// For each user with a security identifier and something to filter, a rule is installed for
/// every port of direct web traffic and name resolution, over both versions: it blocks it for
/// that user, out of the machine only, and outweighs other rules.
pub proof fn law_filtered_users_have_no_direct_way(
    r: Seq<UserFilter>,
    users: Seq<FilteredUser>,
    u: int,
    layer: Layer,
    protocol: u8,
    port: u16,
) -> (i: int)
    requires
        installs(r, active_sids(users)),
        0 <= u < users.len(),
        users[u].sid is Some,
        users[u].domains@.len() > 0,
        protocol == 6 && (port == 80 || port == 443 || port == 853 || port == 53) || protocol == 17 && (port == 443
            || port == 853 || port == 53),
    ensures
        0 <= i < r.len(),
        r[i].rule == (BlockRule { layer, protocol, port }),
        r[i].descriptor@ == "D:(A;;CC;;;"@ + users[u].sid->Some_0@ + ")"@,
        r[i].blocks,
        !r[i].loopback,
        r[i].weight == 15,
{
    law_direct_web_and_name_traffic_is_blocked(layer, protocol, port);
    let k = choose|k: int| 0 <= k < rules_of_user().len() && rules_of_user()[k] == (BlockRule { layer, protocol, port });
    let n = lemma_active_sid(users, u);
    let i = 14 * n + k;
    assert(i / 14 == n && i % 14 == k);
    assert(i < r.len());
    assert(blocks_direct(r[i], rules_of_user()[i % 14], active_sids(users)[i / 14]));
    i
}

proof fn lemma_active_sid(users: Seq<FilteredUser>, u: int) -> (n: int)
    requires
        0 <= u < users.len(),
        is_active(users[u]),
    ensures
        0 <= n < active_sids(users).len(),
        active_sids(users)[n] == users[u].sid->Some_0@,
    decreases users.len(),
{
    if u == users.len() - 1 {
        active_sids(users).len() - 1
    } else {
        assert(users.drop_last()[u] == users[u]);
        lemma_active_sid(users.drop_last(), u)
    }
}

proof fn lemma_active_sid_back(users: Seq<FilteredUser>, n: int) -> (u: int)
    requires
        0 <= n < active_sids(users).len(),
    ensures
        0 <= u < users.len(),
        users[u].sid is Some,
        users[u].domains@.len() > 0,
        active_sids(users)[n] == users[u].sid->Some_0@,
    decreases users.len(),
{
    if is_active(users.last()) && n == active_sids(users).len() - 1 {
        users.len() - 1
    } else {
        let u = lemma_active_sid_back(users.drop_last(), n);
        assert(users.drop_last()[u] == users[u]);
        u
    }
}

/// Every rule that is installed is for a user with a security identifier and something to
/// filter: nobody else is concerned.
pub proof fn law_others_are_not_filtered(r: Seq<UserFilter>, users: Seq<FilteredUser>, i: int) -> (u: int)
    requires
        installs(r, active_sids(users)),
        0 <= i < r.len(),
    ensures
        0 <= u < users.len(),
        users[u].sid is Some,
        users[u].domains@.len() > 0,
        r[i].descriptor@ == "D:(A;;CC;;;"@ + users[u].sid->Some_0@ + ")"@,
{
    assert(blocks_direct(r[i], rules_of_user()[i % 14], active_sids(users)[i / 14]));
    lemma_active_sid_back(users, i / 14)
}

/// A user is among those who are filtered exactly where an entry for the user has a security
/// identifier and at least one domain.
pub proof fn law_filtered_users_are_listed(users: Seq<FilteredUser>, uid: u32)
    ensures
        active_uids(users).contains(uid) <==> exists|i: int|
            0 <= i < users.len() && (#[trigger] users[i]).uid == uid && users[i].sid is Some && users[i].domains@.len()
                > 0,
    decreases users.len(),
{
    if users.len() > 0 {
        let front = users.drop_last();
        law_filtered_users_are_listed(front, uid);
        let before = active_uids(front);
        assert(users[users.len() - 1] == users.last());
        if active_uids(users).contains(uid) {
            let all = active_uids(users);
            let k = choose|k: int| 0 <= k < all.len() && all[k] == uid;
            if k < before.len() {
                assert(before[k] == uid);
                let i = choose|i: int|
                    0 <= i < front.len() && (#[trigger] front[i]).uid == uid && front[i].sid is Some
                        && front[i].domains@.len() > 0;
                assert(users[i] == front[i]);
            }
        }
        if exists|i: int|
            0 <= i < users.len() && (#[trigger] users[i]).uid == uid && users[i].sid is Some && users[i].domains@.len()
                > 0 {
            let i = choose|i: int|
                0 <= i < users.len() && (#[trigger] users[i]).uid == uid && users[i].sid is Some
                    && users[i].domains@.len() > 0;
            if i < front.len() {
                assert(front[i] == users[i]);
                let k = choose|k: int| 0 <= k < before.len() && before[k] == uid;
                assert(active_uids(users)[k] == uid);
            } else {
                assert(active_uids(users)[before.len() as int] == uid);
            }
        }
    }
}

/// Once a change is in force, a user for whom a proxy was started is led to its port.
pub proof fn law_new_proxies_are_used(
    f: FilterView,
    ids: Seq<u64>,
    uids: Seq<u32>,
    staged: Seq<(u32, u16)>,
    i: int,
)
    requires
        0 <= i < staged.len(),
        forall|k: int| i < k < staged.len() ==> (#[trigger] staged[k]).0 != staged[i].0,
    ensures
        settled(f, Ok(ids), uids, staged).ports.dom().contains(staged[i].0),
        settled(f, Ok(ids), uids, staged).ports[staged[i].0] == staged[i].1,
{
    lemma_staged_port(staged, i);
}

proof fn lemma_staged_port(staged: Seq<(u32, u16)>, i: int)
    requires
        0 <= i < staged.len(),
        forall|k: int| i < k < staged.len() ==> (#[trigger] staged[k]).0 != staged[i].0,
    ensures
        staged_ports(staged).dom().contains(staged[i].0),
        staged_ports(staged)[staged[i].0] == staged[i].1,
    decreases staged.len(),
{
    if i < staged.len() - 1 {
        let front = staged.drop_last();
        assert(staged[staged.len() - 1].0 != staged[i].0);
        assert forall|k: int| i < k < front.len() implies (#[trigger] front[k]).0 != front[i].0 by {
            assert(staged[k].0 != staged[i].0);
        }
        lemma_staged_port(front, i);
    }
}

/// The number that hexadecimal digits in lower case denote.
pub open spec fn hex_value(s: Seq<char>) -> int
    decreases s.len(),
{
    if s.len() == 0 {
        0
    } else {
        16 * hex_value(s.drop_last()) + (if s.last() as int <= 57 {
            s.last() as int - 48
        } else {
            s.last() as int - 87
        })
    }
}

/// Sixteen times itself, so often.
pub open spec fn power_of_sixteen(k: nat) -> int
    decreases k,
{
    if k == 0 {
        1
    } else {
        16 * power_of_sixteen((k - 1) as nat)
    }
}

/// So many hexadecimal digits denote the number, where it has no more of them.
pub proof fn law_hexadecimal_denotes_its_number(n: int, digits: nat)
    requires
        0 <= n < power_of_sixteen(digits),
    ensures
        hex(n, digits).len() == digits,
        hex_value(hex(n, digits)) == n,
    decreases digits,
{
    if digits > 0 {
        law_hexadecimal_denotes_its_number(n / 16, (digits - 1) as nat);
        assert(hex(n, digits).drop_last() =~= hex(n / 16, (digits - 1) as nat));
    }
}

/// A proxy is started exactly for the users who are filtered and have none.
pub proof fn law_proxies_are_started_where_missing(ports: Map<u32, u16>, uids: Seq<u32>, uid: u32)
    ensures
        without_proxy(ports, uids).contains(uid) <==> uids.contains(uid) && !ports.dom().contains(uid),
{
    lemma_without_proxy(ports, uids, uid);
}

/// A filter begins without rules and proxies, so that each filtered user gets a proxy; from then on a
/// user has a port exactly where a proxy runs for them.
pub proof fn law_filters_begin_without_proxies(f: FilterView, uids: Seq<u32>, uid: u32, port: u16)
    ensures
        unfiltered().ids.len() == 0,
        port_for(unfiltered(), uid) is None,
        without_proxy(unfiltered().ports, uids).contains(uid) <==> uids.contains(uid),
        port_for(FilterView { ports: f.ports.insert(uid, port), ..f }, uid) == Some(port),
        port_for(FilterView { ports: f.ports.remove(uid), ..f }, uid) is None,
        port_for(f, uid) is None && uids.contains(uid) <==> without_proxy(f.ports, uids).contains(uid),
{
    lemma_without_proxy(f.ports, uids, uid);
    lemma_without_proxy(unfiltered().ports, uids, uid);
}

} // verus!
