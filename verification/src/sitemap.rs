//! Keeping the routes of a server in a sitemap.
//!
//! A sitemap is the text of an XML file with one `<url>` entry per route. A
//! route is listed once: it is added, right before the last `</urlset>`,
//! only when no `<loc>` of its address stands in the text yet. Reading and
//! writing the file is left to the caller, who hands in the text that is
//! there and gets back the text to write, and the addresses that were
//! listed already.

use crate::search::{contains, find_first, find_last, lemma_find, lemma_rfind, occurs_at, rfind};
use crate::date::{day_text, today, write_day};
use crate::server::Server;
use crate::strmap::{Pair, StringMap};
use crate::text::{chars_of, texts};
use vstd::prelude::*;

verus! {

/// Why a sitemap cannot take a new entry.
#[derive(Clone, Copy, Debug, PartialEq, Eq)]
pub enum SitemapError {
    /// The text holds no `</urlset>` before which the entry could go.
    MissingUrlset,
}

/// The sitemap that is taken where none exists yet: an empty `urlset`.
pub open spec fn empty_sitemap() -> Seq<char> {
    "<?xml version=\"1.0\" encoding=\"UTF-8\"?>\n<urlset xmlns=\"http://www.sitemaps.org/schemas/sitemap/0.9\">\n</urlset>"@
}

/// The closing tag before which entries are added.
pub open spec fn urlset_end() -> Seq<char> {
    "</urlset>"@
}

/// The tag that tells that `url` is listed.
pub open spec fn loc_tag(url: Seq<char>) -> Seq<char> {
    "<loc>"@ + url + "</loc>"@
}

/// The line that gives the day of the last change, or nothing without a day.
pub open spec fn lastmod_line(date: Option<Seq<char>>) -> Seq<char> {
    match date {
        Some(day) => "        <lastmod>"@ + day + "</lastmod>\n"@,
        None => Seq::<char>::empty(),
    }
}

/// The lines of an entry that follow its `<loc>` line.
pub open spec fn entry_tail(date: Option<Seq<char>>, changefreq: Seq<char>, priority: Seq<char>) -> Seq<
    char,
> {
    "\n"@ + lastmod_line(date) + "        <changefreq>"@ + changefreq + "</changefreq>\n"@
        + "        <priority>"@ + priority + "</priority>\n"@ + "    </url>\n"@
}

/// The entry of `url`.
pub open spec fn url_entry(
    url: Seq<char>,
    date: Option<Seq<char>>,
    changefreq: Seq<char>,
    priority: Seq<char>,
) -> Seq<char> {
    "    <url>\n        "@ + loc_tag(url) + entry_tail(date, changefreq, priority)
}

/// `content` with `entry` put in right before its last `</urlset>`.
pub open spec fn with_entry(content: Seq<char>, entry: Seq<char>) -> Result<Seq<char>, SitemapError> {
    match rfind(content, urlset_end()) {
        Some(i) => Ok(content.take(i) + entry + content.skip(i)),
        None => Err(SitemapError::MissingUrlset),
    }
}

/// What listing `url` does to `content`: `Ok(None)` if the address is listed
/// already, else the new text, or the reason why the entry cannot go in.
pub open spec fn with_url(
    content: Seq<char>,
    url: Seq<char>,
    date: Option<Seq<char>>,
    changefreq: Seq<char>,
    priority: Seq<char>,
) -> Result<Option<Seq<char>>, SitemapError> {
    if contains(content, loc_tag(url)) {
        Ok(None)
    } else {
        match with_entry(content, url_entry(url, date, changefreq, priority)) {
            Ok(text) => Ok(Some(text)),
            Err(e) => Err(e),
        }
    }
}

/// What listing the first `n` of `paths` under `base_url`, one after the
/// other, does to `content`.
pub open spec fn with_paths(
    content: Seq<char>,
    paths: Seq<Seq<char>>,
    n: int,
    base_url: Seq<char>,
    date: Option<Seq<char>>,
    changefreq: Seq<char>,
    priority: Seq<char>,
) -> Result<Seq<char>, SitemapError>
    decreases n,
{
    if n <= 0 {
        Ok(content)
    } else {
        match with_paths(content, paths, n - 1, base_url, date, changefreq, priority) {
            Err(e) => Err(e),
            Ok(text) => match with_url(text, base_url + paths[n - 1], date, changefreq, priority) {
                Ok(Some(longer)) => Ok(longer),
                Ok(None) => Ok(text),
                Err(e) => Err(e),
            },
        }
    }
}

/// The day that goes into the entries: `day` if the day of the last change
/// is asked for.
pub open spec fn lastmod_day(lastmod: bool, day: Seq<char>) -> Option<Seq<char>> {
    if lastmod {
        Some(day)
    } else {
        None
    }
}

/// The paths of a run of static routes.
pub open spec fn paths_of(statics: Seq<Pair>) -> Seq<Seq<char>> {
    Seq::new(statics.len(), |i: int| statics[i].0)
}

/// A day as plain values.
pub open spec fn day_view(date: Option<&str>) -> Option<Seq<char>> {
    match date {
        Some(day) => Some(day@),
        None => None,
    }
}

/// A change to a sitemap as plain values.
pub open spec fn change_view(changed: Result<Option<String>, SitemapError>) -> Result<
    Option<Seq<char>>,
    SitemapError,
> {
    match changed {
        Ok(Some(text)) => Ok(Some(text@)),
        Ok(None) => Ok(None),
        Err(e) => Err(e),
    }
}

/// The addresses among the first `n` of `paths` that were listed already
/// when their turn came, in order.
pub open spec fn listed_before(
    content: Seq<char>,
    paths: Seq<Seq<char>>,
    n: int,
    base_url: Seq<char>,
    date: Option<Seq<char>>,
    changefreq: Seq<char>,
    priority: Seq<char>,
) -> Seq<Seq<char>>
    decreases n,
{
    if n <= 0 {
        Seq::<Seq<char>>::empty()
    } else {
        let before = listed_before(content, paths, n - 1, base_url, date, changefreq, priority);
        match with_paths(content, paths, n - 1, base_url, date, changefreq, priority) {
            Ok(text) => if contains(text, loc_tag(base_url + paths[n - 1])) {
                before.push(base_url + paths[n - 1])
            } else {
                before
            },
            Err(_) => before,
        }
    }
}

/// A sitemap after the static routes were listed in it.
#[derive(Debug)]
pub struct SitemapUpdate {
    /// The text to write. It is written also when nothing was added.
    pub content: String,
    /// The addresses that were listed already, in the order of their routes.
    pub listed: Vec<String>,
}

/// Whether `changed` says what listing has given: the text and the addresses
/// that were listed already, or the reason why an entry could not go in.
pub open spec fn is_update(
    changed: Result<SitemapUpdate, SitemapError>,
    text: Result<Seq<char>, SitemapError>,
    listed: Seq<Seq<char>>,
) -> bool {
    match changed {
        Ok(update) => text == Ok::<Seq<char>, SitemapError>(update.content@) && texts(update.listed@)
            == listed,
        Err(e) => text == Err::<Seq<char>, SitemapError>(e),
    }
}

/// Whether `changed` says what listing has given and that it is to be
/// written; see `is_update`.
pub open spec fn is_generated(
    changed: Result<Option<SitemapUpdate>, SitemapError>,
    text: Result<Seq<char>, SitemapError>,
    listed: Seq<Seq<char>>,
) -> bool {
    match changed {
        Ok(Some(update)) => is_update(Ok(update), text, listed),
        Ok(None) => false,
        Err(e) => text == Err::<Seq<char>, SitemapError>(e),
    }
}

/// An address that was added is listed: adding it once more changes nothing.
pub proof fn lemma_added_url_is_listed(
    content: Seq<char>,
    url: Seq<char>,
    date: Option<Seq<char>>,
    changefreq: Seq<char>,
    priority: Seq<char>,
)
    requires
        with_url(content, url, date, changefreq, priority) matches Ok(Some(_)),
    ensures
        with_url(
            with_url(content, url, date, changefreq, priority).unwrap().unwrap(),
            url,
            date,
            changefreq,
            priority,
        ) == Ok::<Option<Seq<char>>, SitemapError>(None),
{
    let i = rfind(content, urlset_end()).unwrap();
    lemma_rfind(content, urlset_end());
    let lead = "    <url>\n        "@;
    let tag = loc_tag(url);
    let tail = entry_tail(date, changefreq, priority);
    let longer = content.take(i) + (lead + tag + tail) + content.skip(i);
    let at = i + lead.len();
    assert(longer.subrange(at, at + tag.len()) =~= tag);
    assert(occurs_at(longer, tag, at));
}

/// The text of an entry; see `url_entry`.
pub fn url_entry_text(url: &str, date: Option<&str>, changefreq: &str, priority: &str) -> (entry:
    String)
    ensures
        entry@ == url_entry(url@, day_view(date), changefreq@, priority@),
{
    let mut entry = "    <url>\n        ".to_owned();
    entry.append("<loc>");
    entry.append(url);
    entry.append("</loc>");
    let ghost lead = entry@;
    assert(lead =~= "    <url>\n        "@ + loc_tag(url@));
    entry.append("\n");
    match date {
        Some(day) => {
            entry.append("        <lastmod>");
            entry.append(day);
            entry.append("</lastmod>\n");
        },
        None => {},
    }
    entry.append("        <changefreq>");
    entry.append(changefreq);
    entry.append("</changefreq>\n");
    entry.append("        <priority>");
    entry.append(priority);
    entry.append("</priority>\n");
    entry.append("    </url>\n");
    assert(entry@ =~= lead + entry_tail(day_view(date), changefreq@, priority@));
    entry
}

/// Lists `url` in `content`; see `with_url`. `date` is the day of the last
/// change, if the entry is to give one.
pub fn add_url(content: &str, url: &str, date: Option<&str>, changefreq: &str, priority: &str) -> (changed:
    Result<Option<String>, SitemapError>)
    ensures
        change_view(changed) == with_url(content@, url@, day_view(date), changefreq@, priority@),
{
    let chars = chars_of(content);
    let mut tag = "<loc>".to_owned();
    tag.append(url);
    tag.append("</loc>");
    let tag_chars = chars_of(tag.as_str());
    proof {
        lemma_find(content@, loc_tag(url@));
    }
    if find_first(&chars, &tag_chars).is_some() {
        return Ok(None);
    }
    let end = chars_of("</urlset>");
    proof {
        lemma_rfind(content@, urlset_end());
    }
    match find_last(&chars, &end) {
        None => Err(SitemapError::MissingUrlset),
        Some(i) => {
            let entry = url_entry_text(url, date, changefreq, priority);
            let mut text = content.substring_char(0, i).to_owned();
            text.append(entry.as_str());
            text.append(content.substring_char(i, chars.len()));
            assert(content@.subrange(0, i as int) =~= content@.take(i as int));
            assert(content@.subrange(i as int, chars@.len() as int) =~= content@.skip(i as int));
            Ok(Some(text))
        },
    }
}

/// The sitemap that is taken where none exists yet; see `empty_sitemap`.
pub fn new_sitemap() -> (content: String)
    ensures
        content@ == empty_sitemap(),
{
    "<?xml version=\"1.0\" encoding=\"UTF-8\"?>\n<urlset xmlns=\"http://www.sitemaps.org/schemas/sitemap/0.9\">\n</urlset>".to_owned()
}

/// The text to start from: what is there, or an empty sitemap.
pub open spec fn sitemap_or_empty(existing: Option<&str>) -> Seq<char> {
    match existing {
        Some(content) => content@,
        None => empty_sitemap(),
    }
}

impl<H: Fn(&str, StringMap, &str, StringMap) -> Result<String, String>> Server<H> {
    /// Lists the route `path` under `base_url`, with `day` as the day of the
    /// last change if `lastmod` asks for one. `existing` is the sitemap as
    /// it stands, `None` where there is none yet. Gives the text to write,
    /// or `Ok(None)` if the route is listed already.
    pub fn sitemap_with_route(
        &self,
        existing: Option<&str>,
        path: &str,
        lastmod: bool,
        changefreq: &str,
        priority: &str,
        base_url: &str,
        day: &str,
    ) -> (changed: Result<Option<String>, SitemapError>)
        ensures
            change_view(changed) == with_url(
                sitemap_or_empty(existing),
                base_url@ + path@,
                lastmod_day(lastmod, day@),
                changefreq@,
                priority@,
            ),
    {
        let mut url = base_url.to_owned();
        url.append(path);
        let date: Option<&str> = if lastmod {
            Some(day)
        } else {
            None
        };
        match existing {
            Some(content) => add_url(content, url.as_str(), date, changefreq, priority),
            None => {
                let content = new_sitemap();
                add_url(content.as_str(), url.as_str(), date, changefreq, priority)
            },
        }
    }

    /// Lists every static route of this server under `base_url`, in the order
    /// of registration. Gives the text to write, which is written also when
    /// every route was listed already, and the addresses that were.
    pub fn sitemap_with_static_routes(
        &self,
        existing: Option<&str>,
        lastmod: bool,
        changefreq: &str,
        priority: &str,
        base_url: &str,
        day: &str,
    ) -> (changed: Result<SitemapUpdate, SitemapError>)
        ensures
            is_update(
                changed,
                with_paths(
                    sitemap_or_empty(existing),
                    paths_of(self.statics()),
                    self.statics().len() as int,
                    base_url@,
                    lastmod_day(lastmod, day@),
                    changefreq@,
                    priority@,
                ),
                listed_before(
                    sitemap_or_empty(existing),
                    paths_of(self.statics()),
                    self.statics().len() as int,
                    base_url@,
                    lastmod_day(lastmod, day@),
                    changefreq@,
                    priority@,
                ),
            ),
    {
        let mut content: String = match existing {
            Some(text) => text.to_owned(),
            None => new_sitemap(),
        };
        let mut listed: Vec<String> = Vec::new();
        let date: Option<&str> = if lastmod {
            Some(day)
        } else {
            None
        };
        let paths = self.static_paths();
        let n: usize = paths.len();
        let mut i: usize = 0;
        assert(texts(listed@) =~= Seq::<Seq<char>>::empty());
        while i < n
            invariant
                n == paths@.len(),
                n == self.statics().len(),
                i <= n,
                texts(paths@) == paths_of(self.statics()),
                day_view(date) == lastmod_day(lastmod, day@),
                with_paths(
                    sitemap_or_empty(existing),
                    paths_of(self.statics()),
                    i as int,
                    base_url@,
                    lastmod_day(lastmod, day@),
                    changefreq@,
                    priority@,
                ) == Ok::<Seq<char>, SitemapError>(content@),
                texts(listed@) == listed_before(
                    sitemap_or_empty(existing),
                    paths_of(self.statics()),
                    i as int,
                    base_url@,
                    lastmod_day(lastmod, day@),
                    changefreq@,
                    priority@,
                ),
            decreases n - i,
        {
            assert(texts(paths@)[i as int] == paths@[i as int]@);
            let mut url = base_url.to_owned();
            url.append(paths[i].as_str());
            assert(url@ == base_url@ + paths_of(self.statics())[i as int]);
            let ghost seen = texts(listed@);
            match add_url(content.as_str(), url.as_str(), date, changefreq, priority) {
                Ok(Some(longer)) => {
                    content = longer;
                },
                Ok(None) => {
                    listed.push(url);
                    assert(texts(listed@) =~= seen.push(url@));
                },
                Err(e) => {
                    proof {
                        assert(with_paths(
                            sitemap_or_empty(existing),
                            paths_of(self.statics()),
                            i + 1,
                            base_url@,
                            lastmod_day(lastmod, day@),
                            changefreq@,
                            priority@,
                        ) == Err::<Seq<char>, SitemapError>(e));
                        lemma_with_paths_fails(
                            sitemap_or_empty(existing),
                            paths_of(self.statics()),
                            i + 1,
                            n as int,
                            base_url@,
                            lastmod_day(lastmod, day@),
                            changefreq@,
                            priority@,
                        );
                    }
                    return Err(e);
                },
            }
            i += 1;
        }
        Ok(SitemapUpdate { content, listed })
    }

    /// Lists the route `path` in the sitemap, with today's day as the day of
    /// the last change; see `sitemap_with_route`.
    pub fn add_route_to_sitemap(
        &self,
        existing: Option<&str>,
        path: &str,
        lastmod: bool,
        changefreq: &str,
        priority: &str,
        base_url: &str,
    ) -> (changed: Result<Option<String>, SitemapError>)
        ensures
            exists|year: int, month: nat, day: nat|
                1 <= month <= 12 && 1 <= day <= 31 && change_view(changed) == with_url(
                    sitemap_or_empty(existing),
                    base_url@ + path@,
                    lastmod_day(lastmod, #[trigger] day_text(year, month, day)),
                    changefreq@,
                    priority@,
                ),
    {
        let (year, month, day) = today();
        let written = write_day(year, month, day);
        let changed = self.sitemap_with_route(
            existing,
            path,
            lastmod,
            changefreq,
            priority,
            base_url,
            written.as_str(),
        );
        assert(written@ == day_text(year as int, month as nat, day as nat));
        changed
    }

    /// Lists every static route in the sitemap if `sitemap` says so, with
    /// today's day as the day of the last change; see
    /// `sitemap_with_static_routes`. Gives `Ok(None)`, and nothing is to be
    /// written, if `sitemap` is `false`.
    pub fn generate_sitemap(
        &self,
        existing: Option<&str>,
        sitemap: bool,
        lastmod: bool,
        changefreq: &str,
        priority: &str,
        base_url: &str,
    ) -> (changed: Result<Option<SitemapUpdate>, SitemapError>)
        ensures
            !sitemap ==> changed is Ok && changed->Ok_0 is None,
            sitemap ==> exists|year: int, month: nat, day: nat|
                1 <= month <= 12 && 1 <= day <= 31 && is_generated(
                    changed,
                    with_paths(
                        sitemap_or_empty(existing),
                        paths_of(self.statics()),
                        self.statics().len() as int,
                        base_url@,
                        lastmod_day(lastmod, #[trigger] day_text(year, month, day)),
                        changefreq@,
                        priority@,
                    ),
                    listed_before(
                        sitemap_or_empty(existing),
                        paths_of(self.statics()),
                        self.statics().len() as int,
                        base_url@,
                        lastmod_day(lastmod, day_text(year, month, day)),
                        changefreq@,
                        priority@,
                    ),
                ),
    {
        if !sitemap {
            return Ok(None);
        }
        let (year, month, day) = today();
        let written = write_day(year, month, day);
        let changed = self.sitemap_with_static_routes(
            existing,
            lastmod,
            changefreq,
            priority,
            base_url,
            written.as_str(),
        );
        assert(written@ == day_text(year as int, month as nat, day as nat));
        match changed {
            Ok(update) => Ok(Some(update)),
            Err(e) => Err(e),
        }
    }
}

/// Once listing has failed it stays failed, however many paths follow.
pub proof fn lemma_with_paths_fails(
    content: Seq<char>,
    paths: Seq<Seq<char>>,
    failed: int,
    n: int,
    base_url: Seq<char>,
    date: Option<Seq<char>>,
    changefreq: Seq<char>,
    priority: Seq<char>,
)
    requires
        0 <= failed <= n,
        with_paths(content, paths, failed, base_url, date, changefreq, priority) is Err,
    ensures
        with_paths(content, paths, n, base_url, date, changefreq, priority) == with_paths(
            content,
            paths,
            failed,
            base_url,
            date,
            changefreq,
            priority,
        ),
    decreases n - failed,
{
    if failed < n {
        lemma_with_paths_fails(content, paths, failed, n - 1, base_url, date, changefreq, priority);
    }
}

} // verus!
