//! The settings of the agent, and where its files are.
use vstd::prelude::*;

use crate::text::{has_char, texts};

verus! {

/// The settings of the agent.
#[derive(Debug)]
pub struct Config {
    pub server_url: Option<String>,
    pub webui_url: Option<String>,
    pub cloud_account: Option<String>,
    pub cloud_url: String,
    pub heartbeat_interval: u64,
    pub user_scan_interval: u64,
    pub cache_ttl_hours: u64,
    pub idle_seconds: u64,
    pub web_filter: bool,
    pub allow_remote_update: bool,
}

/// Whether settings are those of a machine that has none.
pub open spec fn is_default(c: Config) -> bool {
    &&& c.server_url is None
    &&& c.webui_url is None
    &&& c.cloud_account is None
    &&& c.cloud_url@ == "wss://api.screenguard.cc/ws"@
    &&& c.heartbeat_interval == 10
    &&& c.user_scan_interval == 300
    &&& c.cache_ttl_hours == 48
    &&& c.idle_seconds == 300
    &&& c.web_filter
    &&& !c.allow_remote_update
}

impl Default for Config {
    fn default() -> (r: Config)
        ensures
            is_default(r),
    {
        Config {
            server_url: None,
            webui_url: None,
            cloud_account: None,
            cloud_url: "wss://api.screenguard.cc/ws".to_owned(),
            heartbeat_interval: 10,
            user_scan_interval: 300,
            cache_ttl_hours: 48,
            idle_seconds: 300,
            web_filter: true,
            allow_remote_update: false,
        }
    }
}

/// What is wrong with settings, the first thing in this order; none where they can be used.
pub open spec fn problem(c: Config) -> Option<Seq<char>> {
    if !(1 <= c.heartbeat_interval <= 60) {
        Some("heartbeat_interval must be 1..60 seconds"@)
    } else if c.user_scan_interval < 5 || c.idle_seconds == 0 {
        Some("Invalid scan/idle interval"@)
    } else if c.cloud_account is Some && !c.cloud_account->Some_0@.contains('@') {
        Some("cloud_account must be an email"@)
    } else {
        None
    }
}

/// Whether this is what settings that were read, or the lack of them, lead to.
pub open spec fn is_loaded(read: Option<Config>, r: Result<Config, String>) -> bool {
    match read {
        Some(c) => match r {
            Ok(used) => used == c && problem(c) is None,
            Err(e) => problem(c) == Some(e@),
        },
        None => r is Ok && is_default(r->Ok_0),
    }
}

/// Settings that can be used are used as they are, those that cannot are refused with what is wrong
/// with them, and without any the usual ones are used.
pub proof fn law_settings_are_used_as_they_are(c: Config, read: Option<Config>, r: Result<Config, String>)
    requires
        is_loaded(read, r),
    ensures
        read == Some(c) && problem(c) is None ==> r == Ok::<Config, String>(c),
        read == Some(c) && problem(c) is Some ==> r is Err && Some(r->Err_0@) == problem(c),
        read is None ==> r is Ok && is_default(r->Ok_0),
{
}

/// The settings to run with: those that were read, or the usual ones; an error where they
/// cannot be used.
pub fn load(read: Option<Config>) -> (r: Result<Config, String>)
    ensures
        is_loaded(read, r),
        r matches Ok(used) ==> problem(used) is None,
{
    let c = match read {
        Some(c) => c,
        None => Config::default(),
    };
    if c.heartbeat_interval < 1 || c.heartbeat_interval > 60 {
        return Err("heartbeat_interval must be 1..60 seconds".to_owned());
    }
    if c.user_scan_interval < 5 || c.idle_seconds == 0 {
        return Err("Invalid scan/idle interval".to_owned());
    }
    if let Some(account) = &c.cloud_account {
        if !has_char(account.as_str(), '@') {
            return Err("cloud_account must be an email".to_owned());
        }
    }
    Ok(c)
}

/// A place below a directory of the machine: the names that lead to it.
#[derive(Debug)]
pub struct Place<T> {
    pub root: T,
    pub names: Vec<String>,
}

/// The directory of the agent's data, below the machine's directory for such data.
pub fn data_dir<T>(program_data: Option<T>) -> (r: Result<Place<T>, String>)
    ensures
        match program_data {
            Some(root) => r is Ok && r->Ok_0.root == root && texts(r->Ok_0.names@) == seq!["ScreenGuard"@],
            None => r is Err && r->Err_0@ == "ProgramData missing"@,
        },
{
    match program_data {
        None => Err("ProgramData missing".to_owned()),
        Some(root) => {
            let mut names: Vec<String> = Vec::new();
            names.push("ScreenGuard".to_owned());
            assert(texts(names@) =~= seq!["ScreenGuard"@]);
            Ok(Place { root, names })
        },
    }
}

/// The file of the agent's database.
pub fn db_path<T>(program_data: Option<T>) -> (r: Result<Place<T>, String>)
    ensures
        match program_data {
            Some(root) => r is Ok && r->Ok_0.root == root && texts(r->Ok_0.names@) == seq![
                "ScreenGuard"@,
                "agent.db"@,
            ],
            None => r is Err && r->Err_0@ == "ProgramData missing"@,
        },
{
    below(data_dir(program_data), "agent.db")
}

/// The file of the agent's settings.
pub fn settings_path<T>(program_data: Option<T>) -> (r: Result<Place<T>, String>)
    ensures
        match program_data {
            Some(root) => r is Ok && r->Ok_0.root == root && texts(r->Ok_0.names@) == seq![
                "ScreenGuard"@,
                "agent.toml"@,
            ],
            None => r is Err && r->Err_0@ == "ProgramData missing"@,
        },
{
    below(data_dir(program_data), "agent.toml")
}

/// The directory of the agent's logs.
pub fn logs_dir<T>(program_data: Option<T>) -> (r: Result<Place<T>, String>)
    ensures
        match program_data {
            Some(root) => r is Ok && r->Ok_0.root == root && texts(r->Ok_0.names@) == seq![
                "ScreenGuard"@,
                "logs"@,
            ],
            None => r is Err && r->Err_0@ == "ProgramData missing"@,
        },
{
    below(data_dir(program_data), "logs")
}

/// A name below a place.
pub(crate) fn below<T>(place: Result<Place<T>, String>, name: &str) -> (r: Result<Place<T>, String>)
    ensures
        match place {
            Ok(p) => r is Ok && r->Ok_0.root == p.root && texts(r->Ok_0.names@) == texts(p.names@).push(name@),
            Err(e) => r is Err && r->Err_0@ == e@,
        },
{
    match place {
        Ok(p) => {
            let mut names = p.names;
            let ghost before = names@;
            names.push(name.to_owned());
            assert(texts(names@) =~= texts(before).push(name@));
            Ok(Place { root: p.root, names })
        },
        Err(e) => Err(e),
    }
}

/// Settings can be used exactly where the heartbeat comes every one to sixty seconds, users are
/// scanned at most every five seconds, a user becomes idle after at least a second, and an account
/// that is named holds an at sign.
pub proof fn law_usable_settings(c: Config)
    ensures
        problem(c) is None <==> {
            &&& 0 < c.heartbeat_interval < 61
            &&& c.user_scan_interval > 4
            &&& c.idle_seconds > 0
            &&& c.cloud_account matches Some(account) ==> exists|i: int|
                0 <= i < account@.len() && #[trigger] account@[i] == '@'
        },
        !(0 < c.heartbeat_interval < 61) ==> problem(c) == Some("heartbeat_interval must be 1..60 seconds"@),
{
    if let Some(account) = c.cloud_account {
        if account@.contains('@') {
            let k = choose|k: int| 0 <= k < account@.len() && account@[k] == '@';
            assert(account@[k] == '@');
        }
        if exists|i: int| 0 <= i < account@.len() && #[trigger] account@[i] == '@' {
            let i = choose|i: int| 0 <= i < account@.len() && #[trigger] account@[i] == '@';
            assert(account@.contains('@'));
        }
    }
}

/// A machine without settings filters the web, takes no updates from afar, and can be used.
pub proof fn law_usual_settings_can_be_used(c: Config)
    requires
        is_default(c),
    ensures
        problem(c) is None,
        c.web_filter && !c.allow_remote_update,
        c.server_url is None && c.webui_url is None && c.cloud_account is None,
        c.heartbeat_interval == 10 && c.user_scan_interval == 300 && c.idle_seconds == 300,
        c.cache_ttl_hours == 2 * 24,
        c.cloud_url@ == "wss://api.screenguard.cc/ws"@,
{
}

} // verus!
