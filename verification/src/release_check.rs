//! The releases of the agent: which is the latest for a platform, and whether an agent is
//! older.
use vstd::prelude::*;

use crate::json::{field, items_view, json_view, lemma_items_view, text_of, Json, JsonView};
use crate::text::{
    chars_of, decimal, join, optional, optional_str, part, pieces, same, split, split_at, string_of, u32_of,
    u32_value,
};

verus! {

/// The latest release for each platform.
#[derive(Debug)]
pub struct Releases {
    pub linux: Option<String>,
    pub windows: Option<String>,
}

impl Default for Releases {
    fn default() -> (r: Releases)
        ensures
            r.linux is None,
            r.windows is None,
    {
        Releases { linux: None, windows: None }
    }
}

/// The latest release for a platform; every platform but Windows is Linux.
pub open spec fn release_for(
    platform: Seq<char>,
    linux: Option<Seq<char>>,
    windows: Option<Seq<char>>,
) -> Option<Seq<char>> {
    if platform == "windows"@ {
        windows
    } else {
        linux
    }
}

impl Releases {
    /// The latest release for a platform; every platform but Windows is Linux.
    pub fn for_platform(&self, platform: &str) -> (r: Option<&str>)
        ensures
            optional_str(r) == release_for(platform@, optional(self.linux), optional(self.windows)),
    {
        let release = if same(platform, "windows") {
            &self.windows
        } else {
            &self.linux
        };
        match release {
            Some(v) => Some(v.as_str()),
            None => None,
        }
    }
}

/// The version that a text gives: its first three pieces between points, as numbers.
pub open spec fn version_of(v: Seq<char>) -> Option<(u32, u32, u32)> {
    let p = split(v, '.');
    if p.len() < 3 {
        None
    } else {
        match (u32_value(p[0]), u32_value(p[1]), u32_value(p[2])) {
            (Some(a), Some(b), Some(c)) => Some((a, b, c)),
            _ => None,
        }
    }
}

/// Whether a version comes before another.
pub open spec fn before(a: (u32, u32, u32), b: (u32, u32, u32)) -> bool {
    a.0 < b.0 || (a.0 == b.0 && (a.1 < b.1 || (a.1 == b.1 && a.2 < b.2)))
}

/// The version that a text gives.
pub fn parse_semver(v: &str) -> (r: Option<(u32, u32, u32)>)
    ensures
        r == version_of(v@),
{
    let p = split_at(&chars_of(v), '.');
    assert(pieces(p@) == split(v@, '.'));
    if p.len() < 3 {
        return None;
    }
    assert(pieces(p@)[0] == p@[0]@);
    assert(pieces(p@)[1] == p@[1]@);
    assert(pieces(p@)[2] == p@[2]@);
    match (u32_of(&p[0]), u32_of(&p[1]), u32_of(&p[2])) {
        (Some(a), Some(b), Some(c)) => Some((a, b, c)),
        _ => None,
    }
}

fn comes_before(a: (u32, u32, u32), b: (u32, u32, u32)) -> (r: bool)
    ensures
        r == before(a, b),
{
    a.0 < b.0 || (a.0 == b.0 && (a.1 < b.1 || (a.1 == b.1 && a.2 < b.2)))
}

/// Whether an agent's version is older than the latest. Where one of the two is no
/// version, a different text counts as older.
pub open spec fn older(agent: Seq<char>, latest: Seq<char>) -> bool {
    match (version_of(agent), version_of(latest)) {
        (Some(a), Some(l)) => before(a, l),
        _ => agent != latest,
    }
}

/// Whether an agent's version is older than the latest.
pub fn is_older(agent: &str, latest: &str) -> (r: bool)
    ensures
        r == older(agent@, latest@),
{
    match (parse_semver(agent), parse_semver(latest)) {
        (Some(a), Some(l)) => comes_before(a, l),
        _ => !same(agent, latest),
    }
}

/// Whether one of the assets of a release has a name.
pub open spec fn offers(release: JsonView, asset: Seq<char>) -> bool {
    field(release, "assets"@) matches JsonView::Array(assets) && exists|i: int|
        0 <= i < assets.len() && field(#[trigger] assets[i], "name"@) == JsonView::Text(asset)
}

/// Whether a release is for everyone: neither a draft nor a preview.
pub open spec fn stable(release: JsonView) -> bool {
    field(release, "draft"@) != JsonView::Bool(true) && field(release, "prerelease"@) != JsonView::Bool(true)
}

/// The version text of a release: its tag without the `v` that it begins with.
pub open spec fn tag_version(release: JsonView) -> Option<Seq<char>> {
    match text_of(field(release, "tag_name"@)) {
        Some(tag) => if tag.len() > 0 && tag[0] == 'v' {
            Some(tag.skip(1))
        } else {
            None
        },
        None => None,
    }
}

/// The version text of a release that can be offered: it is stable, has the asset, and
/// its tag is a version.
pub open spec fn offered(release: JsonView, asset: Seq<char>) -> Option<Seq<char>> {
    if stable(release) && offers(release, asset) {
        match tag_version(release) {
            Some(v) => if version_of(v) is Some {
                Some(v)
            } else {
                None
            },
            None => None,
        }
    } else {
        None
    }
}

/// The highest version of the releases that can be offered, the last one of those with
/// the same version.
pub open spec fn latest(releases: Seq<JsonView>, asset: Seq<char>) -> Option<Seq<char>>
    decreases releases.len(),
{
    if releases.len() == 0 {
        None
    } else {
        let earlier = latest(releases.drop_last(), asset);
        match offered(releases.last(), asset) {
            Some(v) => match earlier {
                Some(e) => if before(version_of(v)->Some_0, version_of(e)->Some_0) {
                    earlier
                } else {
                    Some(v)
                },
                None => Some(v),
            },
            None => earlier,
        }
    }
}

fn has_asset(release: &Json, asset: &str) -> (r: bool)
    ensures
        r == offers(release@, asset@),
{
    match release.field("assets").as_array() {
        None => false,
        Some(assets) => {
            proof {
                lemma_items_view(assets@);
            }
            for i in 0..assets.len()
                invariant
                    items_view(assets@).len() == assets.len(),
                    forall|j: int|
                        0 <= j < assets.len() ==> #[trigger] items_view(assets@)[j] == json_view(assets@[j]),
                    forall|j: int|
                        0 <= j < i ==> field(#[trigger] items_view(assets@)[j], "name"@) != JsonView::Text(asset@),
                    field(release@, "assets"@) == JsonView::Array(items_view(assets@)),
            {
                assert(items_view(assets@)[i as int] == assets@[i as int]@);
                if assets[i].field("name").is_text(asset) {
                    return true;
                }
            }
            false
        },
    }
}

/// The version of a release that can be offered, with its text.
fn offered_version(release: &Json, asset: &str) -> (r: Option<((u32, u32, u32), String)>)
    ensures
        match r {
            Some(v) => offered(release@, asset@) == Some(v.1@) && version_of(v.1@) == Some(v.0),
            None => offered(release@, asset@) is None,
        },
{
    if release.field("draft").is_true() || release.field("prerelease").is_true() || !has_asset(release, asset) {
        return None;
    }
    match release.field("tag_name").as_str() {
        None => None,
        Some(tag) => {
            let chars = chars_of(tag);
            if chars.len() == 0 || chars[0] != 'v' {
                return None;
            }
            let rest = part(&chars, 1, chars.len());
            assert(rest@ == tag@.skip(1));
            let text = string_of(&rest);
            match parse_semver(text.as_str()) {
                Some(v) => Some((v, text)),
                None => None,
            }
        },
    }
}

/// The latest release that offers an asset.
pub fn latest_asset_release(releases: &Vec<Json>, asset: &str) -> (r: Option<String>)
    ensures
        optional(r) == latest(items_view(releases@), asset@),
{
    let ghost all = items_view(releases@);
    proof {
        lemma_items_view(releases@);
        assert(all.take(0) == Seq::<JsonView>::empty());
    }
    let mut best: Option<((u32, u32, u32), String)> = None;
    for i in 0..releases.len()
        invariant
            all == items_view(releases@),
            all.len() == releases.len(),
            forall|j: int| 0 <= j < releases.len() ==> #[trigger] all[j] == json_view(releases@[j]),
            match best {
                Some(b) => latest(all.take(i as int), asset@) == Some(b.1@) && version_of(b.1@) == Some(b.0),
                None => latest(all.take(i as int), asset@) is None,
            },
    {
        assert(all.take(i + 1).drop_last() == all.take(i as int));
        assert(all.take(i + 1).last() == releases@[i as int]@);
        match offered_version(&releases[i], asset) {
            Some(v) => {
                let keep = match &best {
                    Some(b) => comes_before(v.0, b.0),
                    None => false,
                };
                if !keep {
                    best = Some(v);
                }
            },
            None => {},
        }
    }
    assert(all.take(all.len() as int) == all);
    match best {
        Some(b) => Some(b.1),
        None => None,
    }
}

/// Whether the tag of a release has the form of a version: a `v` and three pieces.
pub open spec fn three_part(release: JsonView) -> bool {
    tag_version(release) matches Some(v) && split(v, '.').len() == 3
}

/// Whether the tag of a release has the form of a version.
fn has_version_tag(release: &Json) -> (r: bool)
    ensures
        r == three_part(release@),
{
    match release.field("tag_name").as_str() {
        None => false,
        Some(tag) => {
            let chars = chars_of(tag);
            if chars.len() == 0 || chars[0] != 'v' {
                return false;
            }
            let rest = part(&chars, 1, chars.len());
            assert(rest@ == tag@.skip(1));
            let p = split_at(&rest, '.');
            assert(pieces(p@).len() == p@.len());
            p.len() == 3
        },
    }
}

/// The releases whose tags have the form of a version, in order.
fn version_tagged(releases: &Vec<Json>) -> (r: Vec<Json>)
    ensures
        items_view(r@) == items_view(releases@).filter(|x: JsonView| three_part(x)),
{
    let ghost all = items_view(releases@);
    let ghost form = |x: JsonView| three_part(x);
    proof {
        lemma_items_view(releases@);
        assert(all.take(0) == Seq::<JsonView>::empty());
        reveal(Seq::filter);
    }
    let mut out: Vec<Json> = Vec::new();
    for i in 0..releases.len()
        invariant
            all == items_view(releases@),
            form == (|x: JsonView| three_part(x)),
            all.len() == releases.len(),
            forall|j: int| 0 <= j < releases.len() ==> #[trigger] all[j] == json_view(releases@[j]),
            items_view(out@) == all.take(i as int).filter(form),
    {
        proof {
            reveal(Seq::filter);
        }
        assert(all.take(i + 1).drop_last() == all.take(i as int));
        assert(all.take(i + 1).last() == releases@[i as int]@);
        let ghost before = out@;
        if has_version_tag(&releases[i]) {
            out.push(releases[i].copy());
            assert(out@.drop_last() == before);
        }
    }
    assert(all.take(all.len() as int) == all);
    out
}

/// The latest of the releases whose tags have the form of a version, that offers an asset.
pub open spec fn latest_tagged(releases: Seq<JsonView>, asset: Seq<char>) -> Option<Seq<char>> {
    latest(releases.filter(|x: JsonView| three_part(x)), asset)
}

/// The latest release for each platform, from the list of all releases. Only tags of the
/// form `v<major>.<minor>.<patch>` count; all others are ignored.
pub fn latest_releases(releases: &Vec<Json>) -> (r: Releases)
    ensures
        optional(r.linux) == latest_tagged(items_view(releases@), "screenguard-agent-x86_64"@),
        optional(r.windows) == latest_tagged(items_view(releases@), "screenguard-windows-x86_64.zip"@),
{
    let tagged = version_tagged(releases);
    Releases {
        linux: latest_asset_release(&tagged, "screenguard-agent-x86_64"),
        windows: latest_asset_release(&tagged, "screenguard-windows-x86_64.zip"),
    }
}

/// Where the releases of a repository are listed.
pub open spec fn list_of_releases(repo: Seq<char>) -> Seq<char> {
    "https://api.github.com/repos/"@ + repo + "/releases?per_page=50"@
}

/// Two repositories have different lists, and the fifty newest releases of the one are asked for.
pub proof fn law_repositories_have_their_own_list(repo: Seq<char>, other: Seq<char>)
    ensures
        list_of_releases(repo) == "https://api.github.com/repos/"@ + (repo + "/releases?per_page=50"@),
        list_of_releases(repo) == list_of_releases(other) ==> repo == other,
{
    let front = "https://api.github.com/repos/"@;
    let end = "/releases?per_page=50"@;
    assert(list_of_releases(repo) =~= front + (repo + end));
    if list_of_releases(repo) == list_of_releases(other) {
        assert(repo.len() == other.len());
        assert((front + repo + end).subrange(front.len() as int, (front.len() + repo.len()) as int) =~= repo);
        assert((front + other + end).subrange(front.len() as int, (front.len() + other.len()) as int) =~= other);
    }
}

/// Where the releases of a repository are listed.
pub fn releases_url(repo: &str) -> (r: String)
    ensures
        r@ == list_of_releases(repo@),
{
    let a = join("https://api.github.com/repos/", repo);
    join(a.as_str(), "/releases?per_page=50")
}

/// What is offered comes from a release in the list.
proof fn lemma_latest_is_listed(releases: Seq<JsonView>, asset: Seq<char>) -> (i: int)
    requires
        latest(releases, asset) is Some,
    ensures
        0 <= i < releases.len(),
        offered(releases[i], asset) == latest(releases, asset),
    decreases releases.len(),
{
    if offered(releases.last(), asset) == latest(releases, asset) {
        releases.len() - 1
    } else {
        let i = lemma_latest_is_listed(releases.drop_last(), asset);
        assert(releases.drop_last()[i] == releases[i]);
        i
    }
}

/// Where a release can be offered, one is, and it is not older.
proof fn lemma_latest_is_not_older(releases: Seq<JsonView>, asset: Seq<char>, i: int)
    requires
        0 <= i < releases.len(),
        offered(releases[i], asset) is Some,
    ensures
        latest(releases, asset) is Some,
        !before(
            version_of(latest(releases, asset)->Some_0)->Some_0,
            version_of(offered(releases[i], asset)->Some_0)->Some_0,
        ),
    decreases releases.len(),
{
    if i < releases.len() - 1 {
        assert(releases.drop_last()[i] == releases[i]);
        lemma_latest_is_not_older(releases.drop_last(), asset, i);
    }
}

/// What is offered is the version of a release in the list that is stable and has the
/// asset, and no such release has a higher version.
pub proof fn law_latest_is_the_highest_offered(releases: Seq<JsonView>, asset: Seq<char>)
    ensures
        latest(releases, asset) is Some <==> exists|i: int|
            0 <= i < releases.len() && offered(#[trigger] releases[i], asset) is Some,
        latest(releases, asset) matches Some(v) ==> {
            &&& version_of(v) is Some
            &&& exists|i: int| 0 <= i < releases.len() && offered(#[trigger] releases[i], asset) == Some(v)
            &&& forall|i: int|
                0 <= i < releases.len() && offered(#[trigger] releases[i], asset) is Some ==> !before(
                    version_of(v)->Some_0,
                    version_of(offered(releases[i], asset)->Some_0)->Some_0,
                )
        },
{
    if latest(releases, asset) is Some {
        let i = lemma_latest_is_listed(releases, asset);
        assert(offered(releases[i], asset) is Some);
    }
    assert forall|i: int| 0 <= i < releases.len() && offered(#[trigger] releases[i], asset) is Some implies latest(
        releases,
        asset,
    ) is Some && !before(
        version_of(latest(releases, asset)->Some_0)->Some_0,
        version_of(offered(releases[i], asset)->Some_0)->Some_0,
    ) by {
        lemma_latest_is_not_older(releases, asset, i);
    }
}

/// A release whose tag has another form than `v<major>.<minor>.<patch>` changes nothing, and
/// what is offered has that form.
pub proof fn law_other_tags_are_ignored(releases: Seq<JsonView>, other: JsonView, asset: Seq<char>)
    requires
        !three_part(other),
    ensures
        releases.push(other).filter(|x: JsonView| three_part(x)) == releases.filter(|x: JsonView| three_part(x)),
        latest(releases.filter(|x: JsonView| three_part(x)), asset) matches Some(v) ==> split(v, '.').len() == 3,
{
    reveal(Seq::filter);
    assert(releases.push(other).drop_last() == releases);
    let form = |x: JsonView| three_part(x);
    let tagged = releases.filter(form);
    if latest(tagged, asset) is Some {
        let i = lemma_latest_is_listed(tagged, asset);
        releases.lemma_filter_pred(form, i);
        assert(three_part(tagged[i]));
    }
}

/// No version is older than itself; of two versions at most one is older; and what is
/// older than an older one is older.
pub proof fn law_older_is_an_order(a: Seq<char>, b: Seq<char>, c: Seq<char>)
    ensures
        !older(a, a),
        version_of(a) is Some && version_of(b) is Some && older(a, b) ==> !older(b, a),
        version_of(a) is Some && version_of(b) is Some && version_of(c) is Some && older(a, b) && older(b, c)
            ==> older(a, c),
{
}

proof fn lemma_split_three(a: Seq<char>, b: Seq<char>, c: Seq<char>)
    requires
        !a.contains('.') && !b.contains('.') && !c.contains('.'),
    ensures
        split(a.push('.') + b.push('.') + c, '.') == seq![a, b, c],
{
    let two = a.push('.') + b;
    lemma_split_push(Seq::empty(), a);
    lemma_split_push(a, b);
    lemma_split_push(two, c);
    assert(a.push('.') + b.push('.') + c =~= two.push('.') + c);
    assert(split(two.push('.') + c, '.') =~= seq![a, b, c]);
}

proof fn lemma_split_push(a: Seq<char>, b: Seq<char>)
    requires
        !b.contains('.'),
    ensures
        split(b, '.') == seq![b],
        split(a.push('.') + b, '.') == split(a, '.').push(b),
    decreases b.len(),
{
    let whole = a.push('.') + b;
    if b.len() == 0 {
        assert(b =~= Seq::<char>::empty());
        assert(whole =~= a.push('.'));
        assert(whole.drop_last() =~= a);
        assert(split(b, '.') =~= seq![b]);
        assert(split(whole, '.') =~= split(a, '.').push(b));
    } else {
        let front = b.drop_last();
        assert(!front.contains('.')) by {
            if front.contains('.') {
                let k = choose|k: int| 0 <= k < front.len() && front[k] == '.';
                assert(b[k] == '.');
            }
        }
        lemma_split_push(a, front);
        assert(b[b.len() - 1] != '.');
        assert(whole.drop_last() =~= a.push('.') + front);
        assert(front.push(b.last()) =~= b);
        assert(split(b, '.') =~= seq![b]);
        assert(split(whole, '.') =~= split(a, '.').push(b));
    }
}

/// Three numbers with points between them are the version of these numbers, and its tag, with a `v`
/// before, counts.
pub proof fn law_versions_are_three_numbers(a: u32, b: u32, c: u32)
    ensures
        ({
            let text = decimal(a as nat).push('.') + decimal(b as nat).push('.') + decimal(c as nat);
            &&& version_of(text) == Some((a, b, c))
            &&& split(text, '.').len() == 3
        }),
{
    lemma_number(a);
    lemma_number(b);
    lemma_number(c);
    lemma_split_three(decimal(a as nat), decimal(b as nat), decimal(c as nat));
}

proof fn lemma_number(n: u32)
    ensures
        u32_value(decimal(n as nat)) == Some(n),
        !decimal(n as nat).contains('.'),
{
    crate::text::law_decimal_denotes_its_number(n as nat);
    let d = decimal(n as nat);
    if d.contains('.') {
        let k = choose|k: int| 0 <= k < d.len() && d[k] == '.';
        assert(crate::text::is_digit(d[k]));
    }
}

/// Of two versions the one with the smaller first number is older; where these are the same, the one
/// with the smaller second number; and where these are too, the one with the smaller third.
pub proof fn law_older_versions_have_smaller_numbers(agent: (u32, u32, u32), latest: (u32, u32, u32))
    ensures
        ({
            let a = decimal(agent.0 as nat).push('.') + decimal(agent.1 as nat).push('.') + decimal(agent.2 as nat);
            let l = decimal(latest.0 as nat).push('.') + decimal(latest.1 as nat).push('.') + decimal(latest.2 as nat);
            older(a, l) <==> (agent.0 * 0x1_0000_0000 + agent.1) * 0x1_0000_0000 + agent.2 < (latest.0 * 0x1_0000_0000
                + latest.1) * 0x1_0000_0000 + latest.2
        }),
{
    law_versions_are_three_numbers(agent.0, agent.1, agent.2);
    law_versions_are_three_numbers(latest.0, latest.1, latest.2);
}

/// Where one of two texts is no version, an agent is taken for older exactly where they differ.
pub proof fn law_unknown_versions_are_older_where_they_differ(agent: Seq<char>, latest: Seq<char>)
    requires
        version_of(agent) is None || version_of(latest) is None,
    ensures
        older(agent, latest) <==> agent != latest,
{
}

/// A release is offered exactly where it is neither a draft nor a preview, one of its assets has the
/// name, and its tag is a `v` and a version; what is offered is that version.
pub proof fn law_stable_releases_with_the_asset_are_offered(release: JsonView, asset: Seq<char>, text: Seq<char>)
    ensures
        offered(release, asset) == Some(text) <==> {
            &&& field(release, "draft"@) != JsonView::Bool(true)
            &&& field(release, "prerelease"@) != JsonView::Bool(true)
            &&& field(release, "tag_name"@) == JsonView::Text(seq!['v'] + text)
            &&& version_of(text) is Some
            &&& field(release, "assets"@) is Array
            &&& exists|i: int|
                0 <= i < field(release, "assets"@)->Array_0.len() && field(
                    #[trigger] field(release, "assets"@)->Array_0[i],
                    "name"@,
                ) == JsonView::Text(asset)
        },
{
    assert((seq!['v'] + text).skip(1) =~= text);
    if let JsonView::Text(tag) = field(release, "tag_name"@) {
        if tag.len() > 0 && tag[0] == 'v' {
            assert(tag =~= seq!['v'] + tag.skip(1));
        }
    }
}

/// Among the releases whose tag is a `v` and three pieces, the highest version that is offered is the
/// latest; without such a release there is none.
pub proof fn law_the_latest_release_is_the_highest(releases: Seq<JsonView>, asset: Seq<char>, i: int)
    requires
        0 <= i < releases.len(),
        tag_version(releases[i]) is Some,
        split(tag_version(releases[i])->Some_0, '.').len() == 3,
        offered(releases[i], asset) is Some,
    ensures
        latest_tagged(releases, asset) is Some,
        ({
            let best = version_of(latest_tagged(releases, asset)->Some_0)->Some_0;
            let this = version_of(offered(releases[i], asset)->Some_0)->Some_0;
            (best.0 * 0x1_0000_0000 + best.1) * 0x1_0000_0000 + best.2 >= (this.0 * 0x1_0000_0000 + this.1)
                * 0x1_0000_0000 + this.2
        }),
{
    let form = |x: JsonView| three_part(x);
    let tagged = releases.filter(form);
    assert(form(releases[i]));
    releases.filter_lemma(form);
    assert(tagged.contains(releases[i]));
    let k = choose|k: int| 0 <= k < tagged.len() && tagged[k] == releases[i];
    lemma_latest_is_not_older(tagged, asset, k);
}

/// Windows has its own release, and every other platform that of Linux.
pub proof fn law_platforms_have_their_release(
    platform: Seq<char>,
    linux: Option<Seq<char>>,
    windows: Option<Seq<char>>,
)
    ensures
        release_for("windows"@, linux, windows) == windows,
        platform != "windows"@ ==> release_for(platform, linux, windows) == linux,
{
}

} // verus!
