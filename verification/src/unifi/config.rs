//! The settings of the connection to a controller, its requests and its replies.
use vstd::prelude::*;

use crate::address::{
    fits_header, header_text, parse_url, status_line, status_text, url_parts, UrlParts, UrlView,
};
use crate::ids::{uuid_of, Uuid};
use crate::json::{copy_items, field, items_view, Json, JsonView, Number};
use crate::text::{
    chars_of, decimal, decimal_of, join, optional, pieces, same, split, split_at, string_of, texts, trim,
    trim_end_char, trimmed, trimmed_end_char, trimmed_str,
};
use crate::unifi::{mac_error, mac_of, normalize_mac};

verus! {

/// What the file with the key of the controller gave.
#[derive(Debug)]
pub enum KeyFile {
    /// No file is named.
    Unset,
    /// The file cannot be read, and why.
    Unreadable(String),
    Contents(String),
}

/// The settings as they were found; `None` for what is not set.
#[derive(Debug)]
pub struct Environment {
    pub url: Option<String>,
    pub key: KeyFile,
    /// Why the named certificate cannot be used.
    pub certificate_error: Option<String>,
    pub site: Option<String>,
    pub source: Option<String>,
    pub destination: Option<String>,
    pub enforce: Option<String>,
    pub protected: Option<String>,
}

/// The settings of the connection to a controller.
#[derive(Debug)]
pub struct Config {
    pub base: String,
    pub key: String,
    pub site: Option<Uuid>,
    pub source: Option<Uuid>,
    pub destination: Option<Uuid>,
    pub enforce: bool,
    /// The addresses that are never blocked, each once.
    pub protected: Vec<String>,
}

/// What the settings say.
#[verifier::ext_equal]
pub struct ConfigView {
    pub base: Seq<char>,
    pub key: Seq<char>,
    pub site: Option<Uuid>,
    pub source: Option<Uuid>,
    pub destination: Option<Uuid>,
    pub enforce: bool,
    pub protected: Seq<Seq<char>>,
}

impl View for Config {
    type V = ConfigView;

    open spec fn view(&self) -> ConfigView {
        ConfigView {
            base: self.base@,
            key: self.key@,
            site: self.site,
            source: self.source,
            destination: self.destination,
            enforce: self.enforce,
            protected: texts(self.protected@),
        }
    }
}

/// A setting that names something by its identifier.
#[derive(Clone, Copy, Debug, PartialEq, Eq, Structural)]
pub enum IdSetting {
    Unset,
    Bad,
    Id(Uuid),
}

/// What a setting that should name an identifier gives.
pub open spec fn id_setting_of(text: Option<Seq<char>>) -> IdSetting {
    match text {
        Some(t) => match uuid_of(t) {
            Ok(id) => IdSetting::Id(id),
            Err(_) => IdSetting::Bad,
        },
        None => IdSetting::Unset,
    }
}

/// What a setting that should name an identifier gives.
pub fn id_setting(text: &Option<String>) -> (r: IdSetting)
    ensures
        r == id_setting_of(optional(*text)),
{
    match text {
        Some(t) => match Uuid::parse_str(t.as_str()) {
            Ok(id) => IdSetting::Id(id),
            Err(_) => IdSetting::Bad,
        },
        None => IdSetting::Unset,
    }
}

/// The identifier that a setting gives, if any.
pub open spec fn id_in(setting: IdSetting) -> Option<Uuid> {
    match setting {
        IdSetting::Id(id) => Some(id),
        _ => None,
    }
}

fn id_of(setting: IdSetting) -> (r: Option<Uuid>)
    ensures
        r == id_in(setting),
{
    match setting {
        IdSetting::Id(id) => Some(id),
        _ => None,
    }
}

/// Whether a URL is an HTTPS origin: a scheme, a host and a port, and nothing else.
pub open spec fn https_origin(u: UrlView) -> bool {
    &&& u.scheme == "https"@
    &&& u.host is Some
    &&& u.username.len() == 0
    &&& u.password is None
    &&& u.query is None
    &&& u.fragment is None
    &&& u.path == "/"@
}

/// Whether a URL is an HTTPS origin.
pub fn is_https_origin(u: &UrlParts) -> (r: bool)
    ensures
        r == https_origin(u@),
{
    let named = chars_of(u.username.as_str());
    same(u.scheme.as_str(), "https") && u.host.is_some() && named.len() == 0 && u.password.is_none()
        && u.query.is_none() && u.fragment.is_none() && same(u.path.as_str(), "/")
}

/// The addresses of a list, each once, without blank entries; none where an entry is not
/// the address of one device.
pub open spec fn protected_in(entries: Seq<Seq<char>>) -> Option<Seq<Seq<char>>>
    decreases entries.len(),
{
    if entries.len() == 0 {
        Some(Seq::empty())
    } else {
        match protected_in(entries.drop_last()) {
            None => None,
            Some(before) => if trim(entries.last()).len() == 0 {
                Some(before)
            } else {
                match mac_of(entries.last()) {
                    None => None,
                    Some(mac) => if before.contains(mac) {
                        Some(before)
                    } else {
                        Some(before.push(mac))
                    },
                }
            },
        }
    }
}

/// The addresses that a setting protects.
pub open spec fn protected_of(setting: Option<Seq<char>>) -> Option<Seq<Seq<char>>> {
    match setting {
        Some(s) => protected_in(split(s, ',')),
        None => Some(Seq::empty()),
    }
}

/// Whether a list of strings holds a text.
pub fn holds(list: &Vec<String>, text: &str) -> (r: bool)
    ensures
        r == texts(list@).contains(text@),
{
    for i in 0..list.len()
        invariant
            forall|j: int| 0 <= j < i ==> texts(list@)[j] != text@,
    {
        if same(list[i].as_str(), text) {
            assert(texts(list@)[i as int] == text@);
            return true;
        }
    }
    false
}

/// A prefix of a list that holds a bad entry cannot be mended by what follows.
proof fn lemma_protected_prefix(entries: Seq<Seq<char>>, n: int)
    requires
        0 <= n <= entries.len(),
        protected_in(entries.take(n)) is None,
    ensures
        protected_in(entries) is None,
    decreases entries.len() - n,
{
    if n < entries.len() {
        assert(entries.take(n + 1).drop_last() == entries.take(n));
        lemma_protected_prefix(entries, n + 1);
    } else {
        assert(entries.take(n) == entries);
    }
}

/// The addresses that a setting protects.
fn read_protected(setting: &Option<String>) -> (r: Option<Vec<String>>)
    ensures
        match r {
            Some(list) => protected_of(optional(*setting)) == Some(texts(list@)),
            None => protected_of(optional(*setting)) is None,
        },
{
    let mut out: Vec<String> = Vec::new();
    assert(texts(out@) == Seq::<Seq<char>>::empty());
    if let Some(text) = setting {
        let entries = split_at(&chars_of(text.as_str()), ',');
        let ghost all = pieces(entries@);
        assert(all.take(0) == Seq::<Seq<char>>::empty());
        for i in 0..entries.len()
            invariant
                all == pieces(entries@),
                protected_in(all.take(i as int)) == Some(texts(out@)),
                all == split(text@, ','),
                *setting == Some(*text),
        {
            assert(all.take(i + 1).drop_last() == all.take(i as int));
            assert(all.take(i + 1).last() == entries@[i as int]@);
            let bare = trimmed(&entries[i]);
            if bare.len() > 0 {
                let entry = string_of(&entries[i]);
                match normalize_mac(entry.as_str()) {
                    Ok(mac) => {
                        if !holds(&out, mac.as_str()) {
                            let ghost before = out@;
                            let ghost m = mac@;
                            out.push(mac);
                            assert(texts(out@) == texts(before).push(m));
                        }
                    },
                    Err(_) => {
                        proof {
                            lemma_protected_prefix(all, i + 1);
                        }
                        return None;
                    },
                }
            }
        }
        assert(all.take(all.len() as int) == all);
    }
    Some(out)
}

/// The settings that follow from what was found and read, given the address of the
/// controller; what comes first in this order is what is said to be wrong: the address,
/// the key, the certificate, the protected addresses, the identifiers.
pub open spec fn settled(
    env: Environment,
    base: Seq<char>,
    url: Result<UrlView, Seq<char>>,
    site: IdSetting,
    source: IdSetting,
    destination: IdSetting,
) -> Result<ConfigView, Seq<char>> {
    match url {
        Err(e) => Err(e),
        Ok(u) => if !https_origin(u) {
            Err("UniFi URL must be an HTTPS origin without credentials or path"@)
        } else {
            match env.key {
                KeyFile::Unset => Err("SCREENGUARD_UNIFI_API_KEY_FILE is required"@),
                KeyFile::Unreadable(e) => Err(e@),
                KeyFile::Contents(key) => if !header_text(trim(key@)) {
                    Err("failed to parse header value"@)
                } else if env.certificate_error is Some {
                    Err(env.certificate_error->Some_0@)
                } else {
                    match protected_of(optional(env.protected)) {
                        None => Err(mac_error()),
                        Some(protected) => if site is Bad {
                            Err("SCREENGUARD_UNIFI_SITE_ID"@)
                        } else if source is Bad {
                            Err("SCREENGUARD_UNIFI_SOURCE_ZONE_ID"@)
                        } else if destination is Bad {
                            Err("SCREENGUARD_UNIFI_DESTINATION_ZONE_ID"@)
                        } else {
                            Ok(
                                ConfigView {
                                    base: trim_end_char(base, '/'),
                                    key: trim(key@),
                                    site: id_in(site),
                                    source: id_in(source),
                                    destination: id_in(destination),
                                    enforce: optional(env.enforce) == Some("true"@),
                                    protected,
                                },
                            )
                        },
                    }
                },
            }
        },
    }
}

/// The settings that were found, read in full; none where no controller is named.
pub open spec fn loaded(env: Environment) -> Result<Option<ConfigView>, Seq<char>> {
    match env.url {
        None => Ok(None),
        Some(url) => match settled(
            env,
            url@,
            url_parts(url@),
            id_setting_of(optional(env.site)),
            id_setting_of(optional(env.source)),
            id_setting_of(optional(env.destination)),
        ) {
            Ok(c) => Ok(Some(c)),
            Err(e) => Err(e),
        },
    }
}

/// Without an address there are no settings, and nothing else is looked at; with one, everything
/// must be right, and each identifier is read from its own setting.
pub proof fn law_no_address_means_no_controller(env: Environment)
    ensures
        env.url is None <==> loaded(env) == Ok::<Option<ConfigView>, Seq<char>>(None),
        env.url matches Some(url) ==> {
            &&& url_parts(url@) is Err ==> loaded(env) == Err::<Option<ConfigView>, Seq<char>>(url_parts(url@)->Err_0)
            &&& loaded(env) matches Ok(Some(c)) ==> {
                &&& https_origin(url_parts(url@)->Ok_0)
                &&& c.base == trim_end_char(url@, '/')
                &&& env.key is Contents && c.key == trim(env.key->Contents_0@)
                &&& env.site is None ==> c.site is None
                &&& env.site matches Some(t) ==> uuid_of(t@) == Ok::<Uuid, Seq<char>>(c.site->Some_0)
                &&& env.source is None ==> c.source is None
                &&& env.source matches Some(t) ==> uuid_of(t@) == Ok::<Uuid, Seq<char>>(c.source->Some_0)
                &&& env.destination is None ==> c.destination is None
                &&& env.destination matches Some(t) ==> uuid_of(t@) == Ok::<Uuid, Seq<char>>(c.destination->Some_0)
            }
        },
{
}

/// What a result says.
pub open spec fn config_outcome(r: Result<Config, String>) -> Result<ConfigView, Seq<char>> {
    match r {
        Ok(c) => Ok(c@),
        Err(e) => Err(e@),
    }
}

/// Where a request to a controller goes.
pub open spec fn api_url(base: Seq<char>, path: Seq<char>) -> Seq<char> {
    base + "/proxy/network/integration/v1"@ + path
}

impl Config {
    /// The settings, given the parts of the address and the identifiers that were read.
    pub fn settle(
        env: &Environment,
        base: &str,
        url: Result<UrlParts, String>,
        site: IdSetting,
        source: IdSetting,
        destination: IdSetting,
    ) -> (r: Result<Config, String>)
        ensures
            config_outcome(r) == settled(
                *env,
                base@,
                crate::address::url_outcome(url),
                site,
                source,
                destination,
            ),
    {
        let parts = match url {
            Err(e) => {
                return Err(e);
            },
            Ok(parts) => parts,
        };
        if !is_https_origin(&parts) {
            return Err("UniFi URL must be an HTTPS origin without credentials or path".to_owned());
        }
        let key = match &env.key {
            KeyFile::Unset => {
                return Err("SCREENGUARD_UNIFI_API_KEY_FILE is required".to_owned());
            },
            KeyFile::Unreadable(e) => {
                return Err(e.clone());
            },
            KeyFile::Contents(text) => trimmed_str(text.as_str()),
        };
        if !fits_header(key.as_str()) {
            return Err("failed to parse header value".to_owned());
        }
        if let Some(e) = &env.certificate_error {
            return Err(e.clone());
        }
        let protected = match read_protected(&env.protected) {
            None => {
                return Err("Invalid unicast MAC address".to_owned());
            },
            Some(list) => list,
        };
        if site == IdSetting::Bad {
            return Err("SCREENGUARD_UNIFI_SITE_ID".to_owned());
        }
        if source == IdSetting::Bad {
            return Err("SCREENGUARD_UNIFI_SOURCE_ZONE_ID".to_owned());
        }
        if destination == IdSetting::Bad {
            return Err("SCREENGUARD_UNIFI_DESTINATION_ZONE_ID".to_owned());
        }
        let enforce = match &env.enforce {
            Some(text) => same(text.as_str(), "true"),
            None => false,
        };
        let bare = trimmed_end_char(&chars_of(base), '/');
        Ok(
            Config {
                base: string_of(&bare),
                key,
                site: id_of(site),
                source: id_of(source),
                destination: id_of(destination),
                enforce,
                protected,
            },
        )
    }

    /// The settings; `None` where no controller is named.
    pub fn load(env: &Environment) -> (r: Result<Option<Config>, String>)
        ensures
            loaded(*env) == match r {
                Ok(Some(c)) => Ok::<Option<ConfigView>, Seq<char>>(Some(c@)),
                Ok(None) => Ok::<Option<ConfigView>, Seq<char>>(None),
                Err(e) => Err::<Option<ConfigView>, Seq<char>>(e@),
            },
    {
        match &env.url {
            None => Ok(None),
            Some(url) => {
                let parts = parse_url(url.as_str());
                let site = id_setting(&env.site);
                let source = id_setting(&env.source);
                let destination = id_setting(&env.destination);
                match Config::settle(env, url.as_str(), parts, site, source, destination) {
                    Ok(c) => Ok(Some(c)),
                    Err(e) => Err(e),
                }
            },
        }
    }

    /// Where a request goes.
    pub fn request_url(&self, path: &str) -> (r: String)
        ensures
            r@ == api_url(self@.base, path@),
    {
        let front = join(self.base.as_str(), "/proxy/network/integration/v1");
        join(front.as_str(), path)
    }
}

/// What to do with the head of a reply.
#[derive(Debug)]
pub enum ReplyStep {
    /// The reply says nothing.
    Nothing,
    /// Read the body.
    Body,
    Fail(String),
}

/// What is said of a request that was refused.
pub open spec fn refusal(status: Seq<char>, path: Seq<char>) -> Seq<char> {
    "UniFi HTTP "@ + status + " for "@ + path + "; check API support and permissions"@
}

/// What is done with the head of a reply, as it is said.
pub enum ReplyStepView {
    Nothing,
    Body,
    Fail(Seq<char>),
}

impl View for ReplyStep {
    type V = ReplyStepView;

    open spec fn view(&self) -> ReplyStepView {
        match *self {
            ReplyStep::Nothing => ReplyStepView::Nothing,
            ReplyStep::Body => ReplyStepView::Body,
            ReplyStep::Fail(e) => ReplyStepView::Fail(e@),
        }
    }
}

/// What is done with the head of a reply: anything but success is refused, and so is a body
/// that is announced too long.
pub open spec fn head_step(code: u16, status: Seq<char>, path: Seq<char>, length: Option<u64>) -> ReplyStepView {
    if code < 200 || code >= 300 {
        ReplyStepView::Fail(refusal(status, path))
    } else if code == 204 {
        ReplyStepView::Nothing
    } else if length matches Some(n) && n > LONGEST_BODY {
        ReplyStepView::Fail("UniFi response too large"@)
    } else {
        ReplyStepView::Body
    }
}

/// The longest body that is read, in bytes.
pub const LONGEST_BODY: u64 = 4_194_304;

/// What to do with the head of a reply, whose status has this text.
pub fn reply_step(code: u16, status: &str, path: &str, length: Option<u64>) -> (r: ReplyStep)
    ensures
        r@ == head_step(code, status@, path@, length),
{
    if code < 200 || code >= 300 {
        let a = join("UniFi HTTP ", status);
        let b = join(a.as_str(), " for ");
        let c = join(b.as_str(), path);
        return ReplyStep::Fail(join(c.as_str(), "; check API support and permissions"));
    }
    if code == 204 {
        return ReplyStep::Nothing;
    }
    match length {
        Some(n) => if n > LONGEST_BODY {
            ReplyStep::Fail("UniFi response too large".to_owned())
        } else {
            ReplyStep::Body
        },
        None => ReplyStep::Body,
    }
}

/// What to do with the head of a reply.
pub fn check_reply(code: u16, path: &str, length: Option<u64>) -> (r: ReplyStep)
    requires
        100 <= code < 1000,
    ensures
        r@ == head_step(code, status_text(code), path@, length),
{
    let status = status_line(code);
    reply_step(code, status.as_str(), path, length)
}

/// What to do with a body of so many bytes: an empty one says nothing.
pub fn body_step(length: usize) -> (r: ReplyStep)
    ensures
        length == 0 ==> r is Nothing,
        length > 0 ==> r is Body,
{
    if length == 0 {
        ReplyStep::Nothing
    } else {
        ReplyStep::Body
    }
}

/// The most pages that are read of a list.
pub const MOST_PAGES: u32 = 100;

/// A list that is read page by page.
#[derive(Debug)]
pub struct Pager {
    items: Vec<Json>,
    pages: u32,
}

/// What was read of a list, and how many pages were.
#[verifier::ext_equal]
pub struct PagerView {
    pub items: Seq<JsonView>,
    pub pages: u32,
}

impl View for Pager {
    type V = PagerView;

    closed spec fn view(&self) -> PagerView {
        PagerView { items: items_view(self.items@), pages: self.pages }
    }
}

/// The items of a page, if it has any list of them.
pub open spec fn page_items(page: JsonView) -> Option<Seq<JsonView>> {
    match field(page, "data"@) {
        JsonView::Array(items) => Some(items),
        _ => None,
    }
}

/// Whether a page is the last, when so many items have been read with it: it is empty, or
/// it says that there are no more.
pub open spec fn last_page(page: JsonView, read: int) -> bool {
    ||| page_items(page) == Some(Seq::<JsonView>::empty())
    ||| (field(page, "totalCount"@) matches JsonView::Number(Number::Unsigned(total)) && read >= total)
}

/// What follows a page.
#[derive(Clone, Copy, Debug, PartialEq, Eq, Structural)]
pub enum PageStep {
    /// The list is complete.
    Done,
    /// There are more pages.
    More,
    /// The page has no list of items.
    Broken,
}

/// The request for the next page, or that there were too many: it asks from where the last one
/// ended.
pub open spec fn page_request(p: PagerView, path: Seq<char>) -> Result<Seq<char>, Seq<char>> {
    if p.pages < MOST_PAGES {
        Ok(path + "?offset="@ + decimal(p.items.len()) + "&limit=200"@)
    } else {
        Err("UniFi pagination limit exceeded; incomplete snapshot discarded"@)
    }
}

/// What a pager holds after a page, and what follows.
pub open spec fn page_taken(p: PagerView, page: JsonView) -> (PagerView, PageStep) {
    match page_items(page) {
        Some(items) => (
            PagerView { items: p.items + items, pages: (p.pages + 1) as u32 },
            if last_page(page, (p.items + items).len() as int) {
                PageStep::Done
            } else {
                PageStep::More
            },
        ),
        None => (p, PageStep::Broken),
    }
}

/// A list of which nothing was read.
pub open spec fn nothing_read() -> PagerView {
    PagerView { items: Seq::empty(), pages: 0 }
}

impl Pager {
    /// Nothing was read.
    pub fn new() -> (r: Pager)
        ensures
            r@ == nothing_read(),
    {
        Pager { items: Vec::new(), pages: 0 }
    }

    /// The request for the next page; an error after too many pages.
    pub fn next_request(&self, path: &str) -> (r: Result<String, String>)
        ensures
            page_request(self@, path@) == match r {
                Ok(request) => Ok::<Seq<char>, Seq<char>>(request@),
                Err(e) => Err::<Seq<char>, Seq<char>>(e@),
            },
    {
        if self.pages >= MOST_PAGES {
            return Err("UniFi pagination limit exceeded; incomplete snapshot discarded".to_owned());
        }
        proof {
            crate::json::lemma_items_view(self.items@);
        }
        let a = join(path, "?offset=");
        let offset = decimal_of(self.items.len() as u64);
        let b = join(a.as_str(), offset.as_str());
        Ok(join(b.as_str(), "&limit=200"))
    }

    /// Takes a page.
    pub fn accept(&mut self, page: &Json) -> (r: PageStep)
        requires
            old(self)@.pages < MOST_PAGES,
        ensures
            final(self)@ == page_taken(old(self)@, page@).0,
            r == page_taken(old(self)@, page@).1,
    {
        let data = match page.field("data").as_array() {
            None => {
                return PageStep::Broken;
            },
            Some(data) => data,
        };
        let n: usize = data.len();
        let mut more = copy_items(data);
        let ghost before = self.items@;
        let ghost added = more@;
        self.items.append(&mut more);
        self.pages = self.pages + 1;
        proof {
            lemma_items_view_add(before, added);
            crate::json::lemma_items_view(self.items@);
            crate::json::lemma_items_view(data@);
            assert(self.items@ == before + added);
        }
        let read: u64 = self.items.len() as u64;
        let complete = match page.field("totalCount").as_u64() {
            Some(total) => read >= total,
            None => false,
        };
        assert(n == 0 <==> page_items(page@) == Some(Seq::<JsonView>::empty())) by {
            if n == 0 {
                assert(items_view(data@) =~= Seq::<JsonView>::empty());
            }
        }
        if n == 0 || complete {
            PageStep::Done
        } else {
            PageStep::More
        }
    }

    /// What was read.
    pub fn into_items(self) -> (r: Vec<Json>)
        ensures
            items_view(r@) == self@.items,
    {
        self.items
    }
}

/// What one list after another says is what they say together.
proof fn lemma_items_view_add(a: Seq<Json>, b: Seq<Json>)
    ensures
        items_view(a + b) == items_view(a) + items_view(b),
    decreases b.len(),
{
    if b.len() == 0 {
        assert(a + b == a);
        assert(items_view(a) + items_view(b) == items_view(a));
    } else {
        lemma_items_view_add(a, b.drop_last());
        assert((a + b).drop_last() == a + b.drop_last());
        assert(items_view(a + b) == items_view(a) + items_view(b));
    }
}

/// What is said of a page without a list of items.
pub fn broken_page() -> (r: String)
    ensures
        r@ == "UniFi list response has no data array"@,
{
    "UniFi list response has no data array".to_owned()
}

/// The items of pages, one page after another.
pub open spec fn items_of_pages(pages: Seq<JsonView>) -> Seq<JsonView>
    decreases pages.len(),
{
    if pages.len() == 0 {
        Seq::empty()
    } else {
        match page_items(pages.last()) {
            Some(items) => items_of_pages(pages.drop_last()) + items,
            None => items_of_pages(pages.drop_last()),
        }
    }
}

/// What a pager holds after pages.
pub open spec fn after_pages(pages: Seq<JsonView>) -> PagerView
    decreases pages.len(),
{
    if pages.len() == 0 {
        PagerView { items: Seq::empty(), pages: 0 }
    } else {
        let before = after_pages(pages.drop_last());
        match page_items(pages.last()) {
            Some(items) => PagerView { items: before.items + items, pages: (before.pages + 1) as u32 },
            None => before,
        }
    }
}

/// A list that is read completely holds the items of all pages, in order, whatever the
/// size of the pages; and the next page is asked for from where the last one ended.
pub proof fn law_pages_make_the_list(pages: Seq<JsonView>)
    requires
        forall|i: int| 0 <= i < pages.len() ==> page_items(#[trigger] pages[i]) is Some,
        pages.len() <= MOST_PAGES,
    ensures
        after_pages(pages) == (PagerView { items: items_of_pages(pages), pages: pages.len() as u32 }),
    decreases pages.len(),
{
    if pages.len() > 0 {
        assert forall|i: int| 0 <= i < pages.len() - 1 implies page_items(
            #[trigger] pages.drop_last()[i],
        ) is Some by {
            assert(pages.drop_last()[i] == pages[i]);
        }
        law_pages_make_the_list(pages.drop_last());
    }
}

/// An address of a controller is accepted exactly where it is HTTPS with a host, and has no
/// credentials, no path but the root, no query and no fragment.
pub proof fn law_controllers_are_https_origins(u: UrlView)
    ensures
        https_origin(u) ==> u.scheme == "https"@ && u.host is Some && u.path == "/"@,
        https_origin(u) ==> u.username == Seq::<char>::empty() && u.password is None && u.query is None && u.fragment
            is None,
        u.scheme == "https"@ && u.host is Some && u.username == Seq::<char>::empty() && u.password is None && u.path
            == "/"@ && u.query is None && u.fragment is None ==> https_origin(u),
{
}

/// Settings that are right in every part are taken as they were found: the address without
/// slashes at its end, the key without white space around it, the identifiers, and rules are
/// enforced exactly where the setting says `true`.
pub proof fn law_right_settings_are_taken(
    env: Environment,
    base: Seq<char>,
    url: UrlView,
    key: String,
    site: IdSetting,
    source: IdSetting,
    destination: IdSetting,
)
    requires
        https_origin(url),
        env.key == KeyFile::Contents(key),
        header_text(trim(key@)),
        env.certificate_error is None,
        protected_of(optional(env.protected)) is Some,
        !(site is Bad) && !(source is Bad) && !(destination is Bad),
    ensures
        settled(env, base, Ok(url), site, source, destination) is Ok,
        ({
            let c = settled(env, base, Ok(url), site, source, destination)->Ok_0;
            &&& c.base == trim_end_char(base, '/')
            &&& c.key == trim(key@)
            &&& site matches IdSetting::Id(id) ==> c.site == Some(id)
            &&& site is Unset ==> c.site is None
            &&& source matches IdSetting::Id(id) ==> c.source == Some(id)
            &&& source is Unset ==> c.source is None
            &&& destination matches IdSetting::Id(id) ==> c.destination == Some(id)
            &&& destination is Unset ==> c.destination is None
            &&& c.enforce <==> (env.enforce matches Some(text) && text@ == "true"@)
            &&& c.protected == protected_of(optional(env.protected))->Some_0
        }),
{
}

/// The first thing that is wrong with the settings is what is said, in this order: the address,
/// the key, the certificate, the protected addresses, and the identifiers of the site and of the
/// zones. Nothing that is wrong is passed over.
pub proof fn law_wrong_settings_are_refused(
    env: Environment,
    base: Seq<char>,
    url: Result<UrlView, Seq<char>>,
    site: IdSetting,
    source: IdSetting,
    destination: IdSetting,
)
    ensures
        ({
            let r = settled(env, base, url, site, source, destination);
            let origin = url is Ok && https_origin(url->Ok_0);
            let keyed = origin && env.key is Contents && header_text(trim(env.key->Contents_0@));
            let certified = keyed && env.certificate_error is None;
            let listed = certified && protected_of(optional(env.protected)) is Some;
            &&& url is Err ==> r == Err::<ConfigView, Seq<char>>(url->Err_0)
            &&& url is Ok && !origin ==> r == Err::<ConfigView, Seq<char>>(
                "UniFi URL must be an HTTPS origin without credentials or path"@,
            )
            &&& origin && env.key is Unset ==> r == Err::<ConfigView, Seq<char>>(
                "SCREENGUARD_UNIFI_API_KEY_FILE is required"@,
            )
            &&& origin && env.key is Unreadable ==> r == Err::<ConfigView, Seq<char>>(env.key->Unreadable_0@)
            &&& origin && env.key is Contents && !keyed ==> r == Err::<ConfigView, Seq<char>>(
                "failed to parse header value"@,
            )
            &&& keyed && !certified ==> r == Err::<ConfigView, Seq<char>>(env.certificate_error->Some_0@)
            &&& certified && !listed ==> r == Err::<ConfigView, Seq<char>>("Invalid unicast MAC address"@)
            &&& listed && site is Bad ==> r == Err::<ConfigView, Seq<char>>("SCREENGUARD_UNIFI_SITE_ID"@)
            &&& listed && !(site is Bad) && source is Bad ==> r == Err::<ConfigView, Seq<char>>(
                "SCREENGUARD_UNIFI_SOURCE_ZONE_ID"@,
            )
            &&& listed && !(site is Bad) && !(source is Bad) && destination is Bad ==> r == Err::<
                ConfigView,
                Seq<char>,
            >("SCREENGUARD_UNIFI_DESTINATION_ZONE_ID"@)
        }),
{
}

/// A setting names an identifier where it reads as one, and is wrong where it is set and does
/// not.
pub proof fn law_identifiers_are_read_from_settings(text: Seq<char>)
    ensures
        id_setting_of(None) is Unset,
        uuid_of(text) is Ok ==> id_setting_of(Some(text)) == IdSetting::Id(uuid_of(text)->Ok_0),
        uuid_of(text) is Err ==> id_setting_of(Some(text)) is Bad,
{
}

/// Every entry of the protected addresses that is not blank must be an address, and is then
/// protected in its usual form, once; nothing else is protected.
pub proof fn law_listed_addresses_are_protected(entries: Seq<Seq<char>>, mac: Seq<char>)
    ensures
        protected_in(entries) is None <==> exists|i: int|
            0 <= i < entries.len() && trim(#[trigger] entries[i]).len() > 0 && mac_of(entries[i]) is None,
        protected_in(entries) matches Some(list) ==> {
            &&& list.no_duplicates()
            &&& list.contains(mac) <==> exists|i: int|
                0 <= i < entries.len() && trim(#[trigger] entries[i]).len() > 0 && mac_of(entries[i]) == Some(mac)
        },
    decreases entries.len(),
{
    if entries.len() > 0 {
        let front = entries.drop_last();
        law_listed_addresses_are_protected(front, mac);
        assert(forall|i: int| 0 <= i < front.len() ==> #[trigger] front[i] == entries[i]);
        let last = entries[entries.len() - 1];
        assert(last == entries.last());
        if protected_in(front) is None {
            let i = choose|i: int|
                0 <= i < front.len() && trim(#[trigger] front[i]).len() > 0 && mac_of(front[i]) is None;
            assert(entries[i] == front[i]);
        } else {
            let before = protected_in(front)->Some_0;
            if protected_in(entries) is Some {
                let list = protected_in(entries)->Some_0;
                if exists|i: int|
                    0 <= i < entries.len() && trim(#[trigger] entries[i]).len() > 0 && mac_of(entries[i]) == Some(mac) {
                    let i = choose|i: int|
                        0 <= i < entries.len() && trim(#[trigger] entries[i]).len() > 0 && mac_of(entries[i]) == Some(
                            mac,
                        );
                    if i < front.len() {
                        assert(front[i] == entries[i]);
                        assert(before.contains(mac));
                        let k = choose|k: int| 0 <= k < before.len() && before[k] == mac;
                        assert(list[k] == mac);
                    } else if !before.contains(mac) {
                        assert(list[before.len() as int] == mac);
                    }
                }
                if list.contains(mac) {
                    let k = choose|k: int| 0 <= k < list.len() && list[k] == mac;
                    if k < before.len() {
                        assert(before[k] == mac);
                        let i = choose|i: int|
                            0 <= i < front.len() && trim(#[trigger] front[i]).len() > 0 && mac_of(front[i]) == Some(
                                mac,
                            );
                        assert(entries[i] == front[i]);
                    } else {
                        assert(mac_of(last) == Some(mac) && trim(last).len() > 0);
                    }
                }
                assert(list.no_duplicates()) by {
                    if trim(last).len() > 0 && !before.contains(mac_of(last)->Some_0) {
                        assert forall|a: int, b: int| 0 <= a < list.len() && 0 <= b < list.len() && a != b implies list[a]
                            != list[b] by {
                            if a < before.len() && b < before.len() {
                                assert(before[a] != before[b]);
                            } else if a < before.len() {
                                assert(before.contains(before[a]));
                            } else {
                                assert(before.contains(before[b]));
                            }
                        }
                    }
                }
            } else {
                assert(trim(last).len() > 0 && mac_of(last) is None);
            }
            if exists|i: int|
                0 <= i < entries.len() && trim(#[trigger] entries[i]).len() > 0 && mac_of(entries[i]) is None {
                let i = choose|i: int|
                    0 <= i < entries.len() && trim(#[trigger] entries[i]).len() > 0 && mac_of(entries[i]) is None;
                if i < front.len() {
                    assert(front[i] == entries[i]);
                }
            }
        }
    }
}

/// Without a setting no address is protected; a setting lists them with commas between.
pub proof fn law_protected_addresses_are_listed(text: Seq<char>)
    ensures
        protected_of(None) == Some(Seq::<Seq<char>>::empty()),
        protected_of(Some(text)) == protected_in(split(text, ',')),
{
}

/// Requests go to the interface of the controller, below its address.
pub proof fn law_requests_go_to_the_controller(base: Seq<char>, path: Seq<char>)
    ensures
        api_url(base, path).take(base.len() as int) == base,
        api_url(base, path) == base + ("/proxy/network/integration/v1"@ + path),
{
    assert(api_url(base, path).take(base.len() as int) =~= base);
    assert(api_url(base, path) =~= base + ("/proxy/network/integration/v1"@ + path));
}

/// A reply is read exactly where it is a success that has a body of at most four mebibytes, or of
/// a length that is not announced; one without content says nothing; every other one is an error,
/// which names the status and the path.
pub proof fn law_only_short_successes_are_read(code: u16, status: Seq<char>, path: Seq<char>, length: Option<u64>)
    ensures
        head_step(code, status, path, length) is Nothing <==> code == 204,
        head_step(code, status, path, length) is Body <==> 200 <= code <= 299 && code != 204 && (length is None
            || length->Some_0 <= 4 * 1024 * 1024),
        code < 200 || code > 299 ==> head_step(code, status, path, length) == ReplyStepView::Fail(
            "UniFi HTTP "@ + status + " for "@ + path + "; check API support and permissions"@,
        ),
{
}

/// A list is complete with the first page that is empty, or with which as many items were read as
/// the page says there are; a page without a list is an error, and changes nothing.
pub proof fn law_lists_end_with_their_last_page(p: PagerView, page: JsonView)
    requires
        p.pages < 100,
    ensures
        field(page, "data"@) matches JsonView::Array(items) ==> {
            let (then, step) = page_taken(p, page);
            &&& then.items == p.items + items
            &&& then.pages == p.pages + 1
            &&& step == PageStep::Done <==> items.len() == 0 || (field(page, "totalCount"@) matches JsonView::Number(
                Number::Unsigned(total),
            ) && p.items.len() + items.len() >= total)
            &&& step == PageStep::Done || step == PageStep::More
        },
        !(field(page, "data"@) is Array) ==> page_taken(p, page) == (p, PageStep::Broken),
{
    if let JsonView::Array(items) = field(page, "data"@) {
        if items.len() == 0 {
            assert(items =~= Seq::<JsonView>::empty());
        }
    }
}

/// The next page is asked for from the item after those that were read, two hundred at a time;
/// after a hundred pages it is not asked for any more.
pub proof fn law_pages_follow_each_other(p: PagerView, path: Seq<char>)
    ensures
        p.pages < 100 ==> page_request(p, path) is Ok,
        p.pages >= 100 ==> page_request(p, path) == Err::<Seq<char>, Seq<char>>(
            "UniFi pagination limit exceeded; incomplete snapshot discarded"@,
        ),
        page_request(p, path) matches Ok(r) ==> r == path + "?offset="@ + decimal(p.items.len()) + "&limit=200"@,
{
}

/// A list is read from its first item, and a first page that holds all of it is the list.
pub proof fn law_lists_begin_with_their_first_item(path: Seq<char>, page: JsonView, items: Seq<JsonView>)
    requires
        field(page, "data"@) == JsonView::Array(items),
        field(page, "totalCount"@) == JsonView::Number(Number::Unsigned(items.len() as u64)),
        items.len() <= u64::MAX,
    ensures
        page_request(nothing_read(), path) == Ok::<Seq<char>, Seq<char>>(path + "?offset="@ + "0"@ + "&limit=200"@),
        page_taken(nothing_read(), page).0.items == items,
        page_taken(nothing_read(), page).1 == PageStep::Done,
{
    law_lists_end_with_their_last_page(nothing_read(), page);
    law_pages_follow_each_other(nothing_read(), path);
    assert(Seq::<JsonView>::empty() + items =~= items);
    reveal_strlit("0");
    assert(decimal(0) =~= "0"@);
}

} // verus!
