//! The Jellyfin REST client's own logic: the authorization header, server URL
//! normalization, every endpoint's URL and query, how an HTTP status is turned
//! into the caller-facing error, and the post-processing of what the server
//! sends back (folding lone episodes into their series, picking the next
//! episode, choosing and naming skippable segments).
use vstd::prelude::*;
use vstd::string::*;

use crate::text::{
    chars_of, decimal, has_prefix_at, in_class, is_whitespace, push_range, skip_leading,
    skip_trailing, starts_with, trim, trim_end, trim_start, CharClass,
};

verus! {

broadcast use vstd::string::group_string_axioms;

/// The client name sent in every authorization header.
pub const CLIENT_NAME: &'static str = "FastFin";

/// The client version sent in every authorization header.
pub const CLIENT_VERSION: &'static str = "0.3.0";

/// A logged-in session: everything needed to make authenticated requests.
#[derive(Clone, Debug, PartialEq, Eq)]
pub struct Session {
    pub server_url: String,
    pub user_id: String,
    pub access_token: String,
    pub device_id: String,
}

impl Session {
    /// A field-by-field copy.
    pub fn duplicate(&self) -> (r: Session)
        ensures
            r == *self,
    {
        Session {
            server_url: self.server_url.clone(),
            user_id: self.user_id.clone(),
            access_token: self.access_token.clone(),
            device_id: self.device_id.clone(),
        }
    }
}

/// A top-level library (a user "view") on the server.
#[derive(Clone, Debug, PartialEq, Eq)]
pub struct Library {
    pub id: String,
    pub name: String,
    pub collection_type: Option<String>,
}

/// The fields of a catalogue item that this client's own logic reads: its
/// id, its type name (`Movie`, `Series`, `Episode`, ...) and, for episodes,
/// the id of the series it belongs to.
#[derive(Clone, Debug, PartialEq, Eq)]
pub struct ItemKey {
    pub id: String,
    pub item_type: String,
    pub series_id: Option<String>,
}

// ---------------------------------------------------------------------------
// Authorization header
// ---------------------------------------------------------------------------

/// The `X-Emby-Authorization` header value: client, device, device id and
/// version, followed by the access token once there is one.
pub open spec fn auth_header_spec(device_id: Seq<char>, token: Option<Seq<char>>) -> Seq<char> {
    let base = "MediaBrowser Client=\""@ + CLIENT_NAME@ + "\", Device=\"Windows Desktop\", DeviceId=\""@
        + device_id + "\", Version=\""@ + CLIENT_VERSION@ + "\""@;
    match token {
        Some(t) => base + ", Token=\""@ + t + "\""@,
        None => base,
    }
}

/// The header names this client, its device and its version around the
/// device id, and with a token it carries the whole token, unchanged, after
/// that.
pub proof fn law_auth_header_contents(device_id: Seq<char>, token: Seq<char>)
    ensures
        auth_header_spec(device_id, None)
            == "MediaBrowser Client=\"FastFin\", Device=\"Windows Desktop\", DeviceId=\""@ + device_id
            + "\", Version=\"0.3.0\""@,
        auth_header_spec(device_id, Some(token)) == auth_header_spec(device_id, None)
            + ", Token=\""@ + token + "\""@,
{
    reveal_strlit("MediaBrowser Client=\"");
    reveal_strlit("FastFin");
    reveal_strlit("\", Device=\"Windows Desktop\", DeviceId=\"");
    reveal_strlit("MediaBrowser Client=\"FastFin\", Device=\"Windows Desktop\", DeviceId=\"");
    reveal_strlit("\", Version=\"");
    reveal_strlit("0.3.0");
    reveal_strlit("\"");
    reveal_strlit("\", Version=\"0.3.0\"");
    assert("MediaBrowser Client=\""@ + CLIENT_NAME@ + "\", Device=\"Windows Desktop\", DeviceId=\""@
        =~= "MediaBrowser Client=\"FastFin\", Device=\"Windows Desktop\", DeviceId=\""@);
    assert("\", Version=\""@ + CLIENT_VERSION@ + "\""@ =~= "\", Version=\"0.3.0\""@);
    let a = "MediaBrowser Client=\""@ + CLIENT_NAME@ + "\", Device=\"Windows Desktop\", DeviceId=\""@;
    assert(a + device_id + "\", Version=\""@ + CLIENT_VERSION@ + "\""@ =~= a + device_id + (
    "\", Version=\""@ + CLIENT_VERSION@ + "\""@));
}

pub open spec fn opt_view(o: Option<&str>) -> Option<Seq<char>> {
    match o {
        Some(s) => Some(s@),
        None => None,
    }
}

pub fn auth_header(device_id: &str, token: Option<&str>) -> (header: String)
    ensures
        header@ == auth_header_spec(device_id@, opt_view(token)),
{
    let mut header = "MediaBrowser Client=\"".to_owned();
    header.append(CLIENT_NAME);
    header.append("\", Device=\"Windows Desktop\", DeviceId=\"");
    header.append(device_id);
    header.append("\", Version=\"");
    header.append(CLIENT_VERSION);
    header.append("\"");
    if let Some(token) = token {
        header.append(", Token=\"");
        header.append(token);
        header.append("\"");
    }
    header
}

// ---------------------------------------------------------------------------
// Server URL normalization
// ---------------------------------------------------------------------------

/// The scheme and the part after it that `normalize_server_url` settles on
/// for an already trimmed input: an explicit `https://`/`http://` prefix is
/// taken as is; `https:`/`http:` without the slashes drops whatever slashes
/// follow; anything else is taken to be a bare `host[:port]` over `http`.
pub open spec fn split_scheme(t: Seq<char>) -> (Seq<char>, Seq<char>) {
    if starts_with(t, "https://"@) {
        ("https"@, t.skip("https://"@.len() as int))
    } else if starts_with(t, "https:"@) {
        ("https"@, trim_start(t.skip("https:"@.len() as int), CharClass::Slash))
    } else if starts_with(t, "http://"@) {
        ("http"@, t.skip("http://"@.len() as int))
    } else if starts_with(t, "http:"@) {
        ("http"@, trim_start(t.skip("http:"@.len() as int), CharClass::Slash))
    } else {
        ("http"@, t)
    }
}

/// A user-entered server address in `scheme://host[:port]` form: trimmed,
/// given a scheme (and the `//` after it) when either is missing, and
/// stripped of trailing slashes.
pub open spec fn normalize_server_url_spec(input: Seq<char>) -> Seq<char> {
    let (scheme, rest) = split_scheme(trim(input));
    scheme + "://"@ + trim_end(rest, CharClass::Slash)
}

pub fn normalize_server_url(input: &str) -> (url: String)
    ensures
        url@ == normalize_server_url_spec(input@),
{
    let v = chars_of(input);
    let lo = skip_leading(&v, 0, v.len(), CharClass::Whitespace);
    let hi = skip_trailing(&v, lo, v.len(), CharClass::Whitespace);
    let ghost t = v@.subrange(lo as int, hi as int);
    proof {
        assert(v@.subrange(0, v@.len() as int) == v@);
        assert(t == trim(input@));
    }
    let https_full = chars_of("https://");
    let https_bare = chars_of("https:");
    let http_full = chars_of("http://");
    let http_bare = chars_of("http:");
    let (scheme, rest_lo): (&str, usize) = if has_prefix_at(&v, lo, hi, &https_full) {
        ("https", lo + https_full.len())
    } else if has_prefix_at(&v, lo, hi, &https_bare) {
        ("https", skip_leading(&v, lo + https_bare.len(), hi, CharClass::Slash))
    } else if has_prefix_at(&v, lo, hi, &http_full) {
        ("http", lo + http_full.len())
    } else if has_prefix_at(&v, lo, hi, &http_bare) {
        ("http", skip_leading(&v, lo + http_bare.len(), hi, CharClass::Slash))
    } else {
        ("http", lo)
    };
    proof {
        let k = (rest_lo - lo) as int;
        assert forall|p: int| 0 <= p <= t.len() implies t.skip(p) == v@.subrange(
            lo + p,
            hi as int,
        ) by {
            assert(t.skip(p) =~= v@.subrange(lo + p, hi as int));
        }
        assert(split_scheme(t).0 == scheme@);
        assert(split_scheme(t).1 == v@.subrange(rest_lo as int, hi as int));
    }
    let rest_hi = skip_trailing(&v, rest_lo, hi, CharClass::Slash);
    let mut url = scheme.to_owned();
    url.append("://");
    push_range(&mut url, &v, rest_lo, rest_hi);
    url
}


proof fn lemma_trim_end_settled(s: Seq<char>, cls: CharClass)
    ensures
        trim_end(trim_end(s, cls), cls) == trim_end(s, cls),
        trim_end(s, cls).len() == 0 || !in_class(cls, trim_end(s, cls).last()),
    decreases s.len(),
{
    if s.len() > 0 && in_class(cls, s.last()) {
        lemma_trim_end_settled(s.drop_last(), cls);
    }
}

/// A normalized address always has the form `http://rest` or
/// `https://rest`, where `rest` does not end with `/`.
pub proof fn law_normalized_shape(input: Seq<char>)
    ensures
        ({
            let r = normalize_server_url_spec(input);
            let rest = trim_end(split_scheme(trim(input)).1, CharClass::Slash);
            &&& r == "http://"@ + rest || r == "https://"@ + rest
            &&& rest.len() == 0 || rest.last() != '/'
        }),
{
    reveal_strlit("http");
    reveal_strlit("https");
    reveal_strlit("://");
    reveal_strlit("http://");
    reveal_strlit("https://");
    let rest = trim_end(split_scheme(trim(input)).1, CharClass::Slash);
    lemma_trim_end_settled(split_scheme(trim(input)).1, CharClass::Slash);
    assert("http"@ + "://"@ + rest =~= "http://"@ + rest);
    assert("https"@ + "://"@ + rest =~= "https://"@ + rest);
}

/// The scheme of a normalized address: `https://` exactly when the trimmed
/// input starts with `https:`, and `http://` otherwise; an input that
/// starts with neither `http:` nor `https:` is a bare address, which gets
/// `http://` in front of it with only its trailing slashes removed.
pub proof fn law_normalize_scheme(input: Seq<char>)
    ensures
        starts_with(trim(input), "https:"@) ==> starts_with(
            normalize_server_url_spec(input),
            "https://"@,
        ),
        !starts_with(trim(input), "https:"@) ==> starts_with(
            normalize_server_url_spec(input),
            "http://"@,
        ),
        !starts_with(trim(input), "http:"@) && !starts_with(trim(input), "https:"@)
            ==> normalize_server_url_spec(input) == "http://"@ + trim_end(
            trim(input),
            CharClass::Slash,
        ),
        starts_with(trim(input), "http://"@) ==> normalize_server_url_spec(input) == "http://"@
            + trim_end(trim(input).skip(7), CharClass::Slash),
        starts_with(trim(input), "https://"@) ==> normalize_server_url_spec(input) == "https://"@
            + trim_end(trim(input).skip(8), CharClass::Slash),
        starts_with(trim(input), "https:"@) && !starts_with(trim(input), "https://"@)
            ==> normalize_server_url_spec(input) == "https://"@ + trim_end(
            trim_start(trim(input).skip(6), CharClass::Slash),
            CharClass::Slash,
        ),
        starts_with(trim(input), "http:"@) && !starts_with(trim(input), "http://"@)
            ==> normalize_server_url_spec(input) == "http://"@ + trim_end(
            trim_start(trim(input).skip(5), CharClass::Slash),
            CharClass::Slash,
        ),
{
    reveal_strlit("http");
    reveal_strlit("https");
    reveal_strlit("://");
    reveal_strlit("http://");
    reveal_strlit("https://");
    reveal_strlit("http:");
    reveal_strlit("https:");
    let t = trim(input);
    let rest = trim_end(split_scheme(t).1, CharClass::Slash);
    assert("http"@ + "://"@ + rest =~= "http://"@ + rest);
    assert("https"@ + "://"@ + rest =~= "https://"@ + rest);
    assert(("http://"@ + rest).subrange(0, 7) =~= "http://"@);
    assert(("https://"@ + rest).subrange(0, 8) =~= "https://"@);
    if starts_with(t, "https://"@) {
        let p = t.subrange(0, 8);
        assert forall|k: int| 0 <= k < 6 implies t.subrange(0, 6)[k] == "https:"@[k] by {
            assert(p[k] == t[k]);
        }
        assert(t.subrange(0, 6) =~= "https:"@);
        assert(starts_with(t, "https:"@));
    }
    if starts_with(t, "http:"@) {
        assert(t[4] == ':') by {
            assert(t.subrange(0, 5)[4] == t[4]);
        }
        assert(!starts_with(t, "https:"@)) by {
            if starts_with(t, "https:"@) {
                assert(t.subrange(0, 6)[4] == t[4]);
            }
        }
        assert(!starts_with(t, "https://"@)) by {
            if starts_with(t, "https://"@) {
                assert(t.subrange(0, 8)[4] == t[4]);
            }
        }
    }
    if starts_with(t, "http://"@) {
        let p = t.subrange(0, 7);
        assert forall|k: int| 0 <= k < 5 implies t.subrange(0, 5)[k] == "http:"@[k] by {
            assert(p[k] == t[k]);
        }
        assert(t.subrange(0, 5) =~= "http:"@);
        assert(starts_with(t, "http:"@));
        assert(!starts_with(t, "https:"@)) by {
            if starts_with(t, "https:"@) {
                assert(t.subrange(0, 6)[4] == 's');
                assert(t.subrange(0, 7)[4] == ':');
            }
        }
    }
}

/// Normalizing is idempotent: a normalized address normalizes to itself,
/// unless it ends in whitespace (which can only come from the input's
/// trailing slashes hiding it from the trim, as in `http://host /`).
pub proof fn law_normalize_idempotent(input: Seq<char>)
    requires
        !is_whitespace(normalize_server_url_spec(input).last()),
    ensures
        normalize_server_url_spec(normalize_server_url_spec(input)) == normalize_server_url_spec(
            input,
        ),
{
    reveal_strlit("http");
    reveal_strlit("https");
    reveal_strlit("://");
    reveal_strlit("http://");
    reveal_strlit("https://");
    reveal_strlit("http:");
    reveal_strlit("https:");
    law_normalized_shape(input);
    let r = normalize_server_url_spec(input);
    let rest = trim_end(split_scheme(trim(input)).1, CharClass::Slash);
    lemma_trim_end_settled(split_scheme(trim(input)).1, CharClass::Slash);
    assert(!is_whitespace(r[0]));
    assert(trim_start(r, CharClass::Whitespace) == r);
    assert(trim_end(r, CharClass::Whitespace) == r);
    assert(trim(r) == r);
    if r == "https://"@ + rest {
        assert(r.subrange(0, 8) =~= "https://"@);
        assert(r.skip(8) =~= rest);
        assert(split_scheme(r) == ("https"@, rest));
    } else {
        assert(r == "http://"@ + rest);
        assert(r.subrange(0, 7) =~= "http://"@);
        assert(r.skip(7) =~= rest);
        assert(r[4] == ':');
        assert(!starts_with(r, "https://"@)) by {
            if starts_with(r, "https://"@) {
                assert(r.subrange(0, 8)[4] == 's');
            }
        }
        assert(!starts_with(r, "https:"@)) by {
            if starts_with(r, "https:"@) {
                assert(r.subrange(0, 6)[4] == 's');
            }
        }
        assert(split_scheme(r) == ("http"@, rest));
    }
}

// ---------------------------------------------------------------------------
// Endpoint URLs
// ---------------------------------------------------------------------------

/// `{server}/Users/AuthenticateByName` on an already normalized server URL.
pub fn authenticate_url(server_url: &str) -> (url: String)
    ensures
        url@ == server_url@ + "/Users/AuthenticateByName"@,
{
    let mut url = server_url.to_owned();
    url.append("/Users/AuthenticateByName");
    url
}

/// The libraries ("views") of the logged-in user.
pub fn libraries_url(session: &Session) -> (url: String)
    ensures
        url@ == session.server_url@ + "/Users/"@ + session.user_id@ + "/Views"@,
{
    let mut url = session.server_url.clone();
    url.append("/Users/");
    url.append(session.user_id.as_str());
    url.append("/Views");
    url
}

/// The items of one library.
pub fn items_url(session: &Session, library_id: &str) -> (url: String)
    ensures
        url@ == session.server_url@ + "/Users/"@ + session.user_id@ + "/Items?ParentId="@ + library_id@
            + "&Fields=Overview,ProductionYear,RunTimeTicks,DateCreated,Genres"@,
{
    let mut url = session.server_url.clone();
    url.append("/Users/");
    url.append(session.user_id.as_str());
    url.append("/Items?ParentId=");
    url.append(library_id);
    url.append("&Fields=Overview,ProductionYear,RunTimeTicks,DateCreated,Genres");
    url
}

/// The 16 most recently added items of one library.
pub fn latest_items_url(session: &Session, library_id: &str) -> (url: String)
    ensures
        url@ == session.server_url@ + "/Users/"@ + session.user_id@ + "/Items/Latest?ParentId="@
            + library_id@ + "&Limit=16&Fields=Overview,ProductionYear,RunTimeTicks"@,
{
    let mut url = session.server_url.clone();
    url.append("/Users/");
    url.append(session.user_id.as_str());
    url.append("/Items/Latest?ParentId=");
    url.append(library_id);
    url.append("&Limit=16&Fields=Overview,ProductionYear,RunTimeTicks");
    url
}

/// The user's items endpoint with the usual overview fields; the series
/// lookup adds an `Ids` query to it.
pub fn series_lookup_url(session: &Session) -> (url: String)
    ensures
        url@ == session.server_url@ + "/Users/"@ + session.user_id@
            + "/Items?Fields=Overview,ProductionYear,RunTimeTicks"@,
{
    let mut url = session.server_url.clone();
    url.append("/Users/");
    url.append(session.user_id.as_str());
    url.append("/Items?Fields=Overview,ProductionYear,RunTimeTicks");
    url
}

/// One item, with genres and taglines.
pub fn item_url(session: &Session, item_id: &str) -> (url: String)
    ensures
        url@ == session.server_url@ + "/Users/"@ + session.user_id@ + "/Items/"@ + item_id@
            + "?Fields=Overview,ProductionYear,RunTimeTicks,Genres,Taglines"@,
{
    let mut url = session.server_url.clone();
    url.append("/Users/");
    url.append(session.user_id.as_str());
    url.append("/Items/");
    url.append(item_id);
    url.append("?Fields=Overview,ProductionYear,RunTimeTicks,Genres,Taglines");
    url
}

/// The seasons of a series.
pub fn seasons_url(session: &Session, series_id: &str) -> (url: String)
    ensures
        url@ == session.server_url@ + "/Shows/"@ + series_id@ + "/Seasons?userId="@ + session.user_id@
            + "&Fields=Overview,ProductionYear"@,
{
    let mut url = session.server_url.clone();
    url.append("/Shows/");
    url.append(series_id);
    url.append("/Seasons?userId=");
    url.append(session.user_id.as_str());
    url.append("&Fields=Overview,ProductionYear");
    url
}

/// Every episode of a series, across all seasons.
pub fn series_episodes_url(session: &Session, series_id: &str) -> (url: String)
    ensures
        url@ == session.server_url@ + "/Shows/"@ + series_id@ + "/Episodes?userId="@
            + session.user_id@,
{
    let mut url = session.server_url.clone();
    url.append("/Shows/");
    url.append(series_id);
    url.append("/Episodes?userId=");
    url.append(session.user_id.as_str());
    url
}

/// The episodes of one season of a series.
pub fn episodes_url(session: &Session, series_id: &str, season_id: &str) -> (url: String)
    ensures
        url@ == session.server_url@ + "/Shows/"@ + series_id@ + "/Episodes?seasonId="@ + season_id@
            + "&userId="@ + session.user_id@ + "&Fields=Overview,ProductionYear,RunTimeTicks"@,
{
    let mut url = session.server_url.clone();
    url.append("/Shows/");
    url.append(series_id);
    url.append("/Episodes?seasonId=");
    url.append(season_id);
    url.append("&userId=");
    url.append(session.user_id.as_str());
    url.append("&Fields=Overview,ProductionYear,RunTimeTicks");
    url
}

/// The "Next Up" list: the next unwatched episode of every started series.
pub fn next_up_url(session: &Session) -> (url: String)
    ensures
        url@ == session.server_url@ + "/Shows/NextUp?userId="@ + session.user_id@
            + "&Limit=20&Fields=Overview,ProductionYear,RunTimeTicks"@,
{
    let mut url = session.server_url.clone();
    url.append("/Shows/NextUp?userId=");
    url.append(session.user_id.as_str());
    url.append("&Limit=20&Fields=Overview,ProductionYear,RunTimeTicks");
    url
}

/// The query that narrows "Next Up" to one series, when one is given.
pub fn next_up_query(series_id: Option<&str>) -> (query: Vec<(String, String)>)
    ensures
        match series_id {
            Some(id) => query@.len() == 1 && query@[0].0@ == "seriesId"@ && query@[0].1@ == id@,
            None => query@.len() == 0,
        },
{
    let mut query: Vec<(String, String)> = Vec::new();
    if let Some(id) = series_id {
        query.push(("seriesId".to_owned(), id.to_owned()));
    }
    query
}

/// The episodes of a series, for finding the one after a given episode.
pub fn next_episode_url(session: &Session, series_id: &str) -> (url: String)
    ensures
        url@ == session.server_url@ + "/Shows/"@ + series_id@ + "/Episodes?userId="@ + session.user_id@
            + "&Fields=Overview,ProductionYear,RunTimeTicks"@,
{
    let mut url = session.server_url.clone();
    url.append("/Shows/");
    url.append(series_id);
    url.append("/Episodes?userId=");
    url.append(session.user_id.as_str());
    url.append("&Fields=Overview,ProductionYear,RunTimeTicks");
    url
}

/// Starts the episode list at `episode_id` and keeps two entries: that
/// episode and the one after it.
pub fn next_episode_query(episode_id: &str) -> (query: Vec<(String, String)>)
    ensures
        query@.len() == 2,
        query@[0].0@ == "startItemId"@,
        query@[0].1@ == episode_id@,
        query@[1].0@ == "limit"@,
        query@[1].1@ == "2"@,
{
    let mut query: Vec<(String, String)> = Vec::new();
    query.push(("startItemId".to_owned(), episode_id.to_owned()));
    query.push(("limit".to_owned(), "2".to_owned()));
    query
}

/// Marks an item watched (POST) or unwatched (DELETE).
pub fn played_url(session: &Session, item_id: &str) -> (url: String)
    ensures
        url@ == session.server_url@ + "/Users/"@ + session.user_id@ + "/PlayedItems/"@ + item_id@,
{
    let mut url = session.server_url.clone();
    url.append("/Users/");
    url.append(session.user_id.as_str());
    url.append("/PlayedItems/");
    url.append(item_id);
    url
}

/// The user's playlists.
pub fn playlists_url(session: &Session) -> (url: String)
    ensures
        url@ == session.server_url@ + "/Users/"@ + session.user_id@
            + "/Items?IncludeItemTypes=Playlist&Recursive=true"@,
{
    let mut url = session.server_url.clone();
    url.append("/Users/");
    url.append(session.user_id.as_str());
    url.append("/Items?IncludeItemTypes=Playlist&Recursive=true");
    url
}

/// The "Continue Watching" list.
pub fn resume_url(session: &Session) -> (url: String)
    ensures
        url@ == session.server_url@ + "/Users/"@ + session.user_id@
            + "/Items/Resume?Limit=20&Fields=Overview,ProductionYear,RunTimeTicks"@,
{
    let mut url = session.server_url.clone();
    url.append("/Users/");
    url.append(session.user_id.as_str());
    url.append("/Items/Resume?Limit=20&Fields=Overview,ProductionYear,RunTimeTicks");
    url
}

/// Title search across every library, restricted to movies and series; the
/// term itself goes in the query (see `search_query`) so that it is
/// percent-encoded.
pub fn search_url(session: &Session) -> (url: String)
    ensures
        url@ == session.server_url@ + "/Users/"@ + session.user_id@
            + "/Items?Recursive=true&IncludeItemTypes=Movie,Series&Limit=60&Fields=Overview,ProductionYear,RunTimeTicks"@,
{
    let mut url = session.server_url.clone();
    url.append("/Users/");
    url.append(session.user_id.as_str());
    url.append(
        "/Items?Recursive=true&IncludeItemTypes=Movie,Series&Limit=60&Fields=Overview,ProductionYear,RunTimeTicks",
    );
    url
}

pub fn search_query(term: &str) -> (query: Vec<(String, String)>)
    ensures
        query@.len() == 1,
        query@[0].0@ == "SearchTerm"@,
        query@[0].1@ == term@,
{
    let mut query: Vec<(String, String)> = Vec::new();
    query.push(("SearchTerm".to_owned(), term.to_owned()));
    query
}

/// Items similar to a movie or series.
pub fn similar_items_url(session: &Session, item_id: &str) -> (url: String)
    ensures
        url@ == session.server_url@ + "/Items/"@ + item_id@ + "/Similar?userId="@ + session.user_id@
            + "&Limit=12&Fields=Overview,ProductionYear,RunTimeTicks"@,
{
    let mut url = session.server_url.clone();
    url.append("/Items/");
    url.append(item_id);
    url.append("/Similar?userId=");
    url.append(session.user_id.as_str());
    url.append("&Limit=12&Fields=Overview,ProductionYear,RunTimeTicks");
    url
}

/// A direct-play stream URL for an item, carrying the access token and the
/// play session id.
pub fn build_stream_url(session: &Session, item_id: &str, play_session_id: &str) -> (url: String)
    ensures
        url@ == session.server_url@ + "/Videos/"@ + item_id@ + "/stream?static=true&api_key="@
            + session.access_token@ + "&PlaySessionId="@ + play_session_id@,
{
    let mut url = session.server_url.clone();
    url.append("/Videos/");
    url.append(item_id);
    url.append("/stream?static=true&api_key=");
    url.append(session.access_token.as_str());
    url.append("&PlaySessionId=");
    url.append(play_session_id);
    url
}

/// The kinds of playback report sent to the server.
#[derive(Clone, Copy, PartialEq, Eq, Debug)]
pub enum PlaystateReport {
    Start,
    Progress,
    Stopped,
}

/// The server path each playback report is posted to.
pub open spec fn playstate_path_spec(report: PlaystateReport) -> Seq<char> {
    match report {
        PlaystateReport::Start => "/Sessions/Playing"@,
        PlaystateReport::Progress => "/Sessions/Playing/Progress"@,
        PlaystateReport::Stopped => "/Sessions/Playing/Stopped"@,
    }
}

/// Each report goes to its own path, and all of them lie under
/// `/Sessions/Playing`: the start report at that path itself, progress and
/// stop one level below it.
pub proof fn law_playstate_paths(a: PlaystateReport, b: PlaystateReport)
    ensures
        starts_with(playstate_path_spec(a), "/Sessions/Playing"@),
        playstate_path_spec(PlaystateReport::Start) == "/Sessions/Playing"@,
        playstate_path_spec(PlaystateReport::Progress) == "/Sessions/Playing"@ + "/Progress"@,
        playstate_path_spec(PlaystateReport::Stopped) == "/Sessions/Playing"@ + "/Stopped"@,
        a != b ==> playstate_path_spec(a) != playstate_path_spec(b),
{
    reveal_strlit("/Sessions/Playing");
    reveal_strlit("/Sessions/Playing/Progress");
    reveal_strlit("/Sessions/Playing/Stopped");
    reveal_strlit("/Progress");
    reveal_strlit("/Stopped");
    assert("/Sessions/Playing"@ + "/Progress"@ =~= "/Sessions/Playing/Progress"@);
    assert("/Sessions/Playing"@ + "/Stopped"@ =~= "/Sessions/Playing/Stopped"@);
    assert("/Sessions/Playing/Progress"@.subrange(0, 17) =~= "/Sessions/Playing"@);
    assert("/Sessions/Playing/Stopped"@.subrange(0, 17) =~= "/Sessions/Playing"@);
    assert("/Sessions/Playing"@.subrange(0, 17) =~= "/Sessions/Playing"@);
    assert("/Sessions/Playing/Progress"@[18] != "/Sessions/Playing/Stopped"@[18]);
}

pub fn playstate_path(report: PlaystateReport) -> (path: String)
    ensures
        path@ == playstate_path_spec(report),
{
    match report {
        PlaystateReport::Start => "/Sessions/Playing".to_owned(),
        PlaystateReport::Progress => "/Sessions/Playing/Progress".to_owned(),
        PlaystateReport::Stopped => "/Sessions/Playing/Stopped".to_owned(),
    }
}

pub fn playstate_url(session: &Session, report: PlaystateReport) -> (url: String)
    ensures
        url@ == session.server_url@ + playstate_path_spec(report),
{
    let mut url = session.server_url.clone();
    match report {
        PlaystateReport::Start => url.append("/Sessions/Playing"),
        PlaystateReport::Progress => url.append("/Sessions/Playing/Progress"),
        PlaystateReport::Stopped => url.append("/Sessions/Playing/Stopped"),
    }
    url
}


// ---------------------------------------------------------------------------
// Response status
// ---------------------------------------------------------------------------

/// The requests this client makes, as far as their failure messages go.
#[derive(Clone, Copy, PartialEq, Eq, Debug)]
pub enum Endpoint {
    Login,
    Libraries,
    Items,
    LatestItems,
    Item,
    Seasons,
    Episodes,
    NextUp,
    NextEpisode,
    WatchedState,
    Playlists,
    Resume,
    Search,
    SimilarItems,
}

/// What a failed response from each endpoint is reported as, before the
/// status line itself.
pub open spec fn failure_prefix_spec(endpoint: Endpoint) -> Seq<char> {
    match endpoint {
        Endpoint::Login => "Login failed: server responded with "@,
        Endpoint::Libraries => "Failed to load libraries: "@,
        Endpoint::Items => "Failed to load items: "@,
        Endpoint::LatestItems => "Failed to load latest items: "@,
        Endpoint::Item => "Failed to load item: "@,
        Endpoint::Seasons => "Failed to load seasons: "@,
        Endpoint::Episodes => "Failed to load episodes: "@,
        Endpoint::NextUp => "Failed to load next up: "@,
        Endpoint::NextEpisode => "Failed to load next episode: "@,
        Endpoint::WatchedState => "Failed to update watched state: "@,
        Endpoint::Playlists => "Failed to load playlists: "@,
        Endpoint::Resume => "Failed to load continue watching: "@,
        Endpoint::Search => "Search failed: "@,
        Endpoint::SimilarItems => "Failed to load similar items: "@,
    }
}

pub fn failure_prefix(endpoint: Endpoint) -> (prefix: String)
    ensures
        prefix@ == failure_prefix_spec(endpoint),
{
    match endpoint {
        Endpoint::Login => "Login failed: server responded with ".to_owned(),
        Endpoint::Libraries => "Failed to load libraries: ".to_owned(),
        Endpoint::Items => "Failed to load items: ".to_owned(),
        Endpoint::LatestItems => "Failed to load latest items: ".to_owned(),
        Endpoint::Item => "Failed to load item: ".to_owned(),
        Endpoint::Seasons => "Failed to load seasons: ".to_owned(),
        Endpoint::Episodes => "Failed to load episodes: ".to_owned(),
        Endpoint::NextUp => "Failed to load next up: ".to_owned(),
        Endpoint::NextEpisode => "Failed to load next episode: ".to_owned(),
        Endpoint::WatchedState => "Failed to update watched state: ".to_owned(),
        Endpoint::Playlists => "Failed to load playlists: ".to_owned(),
        Endpoint::Resume => "Failed to load continue watching: ".to_owned(),
        Endpoint::Search => "Search failed: ".to_owned(),
        Endpoint::SimilarItems => "Failed to load similar items: ".to_owned(),
    }
}

/// `StatusCode::is_success`: the code is within 200-299.
pub open spec fn is_success_spec(code: u16) -> bool {
    200 <= code <= 299
}

pub fn is_success(code: u16) -> (ok: bool)
    ensures
        ok == is_success_spec(code),
{
    200 <= code && code <= 299
}

/// What `reqwest::StatusCode`'s `Display` prints for a status code.
pub uninterp spec fn status_display(code: u16) -> Seq<char>;

/// `reqwest::StatusCode`'s `Display` (`reqwest::StatusCode::from_u16` only
/// turns the number into the status type, which it does for every code in
/// 100-999). Claimed: the result is the name applied to the code, and, as
/// http's `Display` impl writes it, it starts with the code's three digits
/// and a space. Not claimed: which reason phrase follows.
#[verifier::external_body]
fn status_text(code: u16) -> (text: String)
    requires
        100 <= code <= 999,
    ensures
        text@ == status_display(code),
        text@.len() >= 4,
        text@.take(4) == decimal(code as nat).push(' '),
{
    match reqwest::StatusCode::from_u16(code) {
        Ok(status) => status.to_string(),
        Err(_) => String::new(),
    }
}

/// The error a response with this status produces for `endpoint`, if any:
/// none for a success code, otherwise the endpoint's failure prefix followed
/// by the status line.
pub fn check_status(code: u16, endpoint: Endpoint) -> (r: Result<(), String>)
    requires
        100 <= code <= 999,
    ensures
        r is Ok <==> is_success_spec(code),
        r matches Err(e) ==> e@ == failure_prefix_spec(endpoint) + status_display(code),
{
    if is_success(code) {
        Ok(())
    } else {
        let mut message = failure_prefix(endpoint);
        let status = status_text(code);
        message.append(status.as_str());
        Err(message)
    }
}

/// A response succeeds exactly when its status is in 200-299; any other
/// status fails with the endpoint's message followed by the status line.
pub proof fn law_status_success_range(code: u16)
    ensures
        is_success_spec(code) <==> (200 <= code && code < 300),
{
}

/// The error for a request that never got a response.
pub fn reach_error(detail: &str) -> (e: String)
    ensures
        e@ == "Failed to reach server: "@ + detail@,
{
    let mut e = "Failed to reach server: ".to_owned();
    e.append(detail);
    e
}

/// The error for a response body that is not what the endpoint returns.
pub fn decode_error(detail: &str) -> (e: String)
    ensures
        e@ == "Unexpected response from server: "@ + detail@,
{
    let mut e = "Unexpected response from server: ".to_owned();
    e.append(detail);
    e
}


// ---------------------------------------------------------------------------
// Recently added: folding lone episodes into their series
// ---------------------------------------------------------------------------

/// The series an item stands for in a "recently added" row: for an episode
/// that names its series, that series' id; for anything else, nothing.
pub open spec fn episode_series(item: ItemKey) -> Option<Seq<char>> {
    if item.item_type@ == "Episode"@ {
        match item.series_id {
            Some(id) => Some(id@),
            None => None,
        }
    } else {
        None
    }
}

/// The series ids of the episodes among `items`, in order (with repeats).
pub open spec fn episode_series_ids_spec(items: Seq<ItemKey>) -> Seq<Seq<char>>
    decreases items.len(),
{
    if items.len() == 0 {
        Seq::empty()
    } else {
        let prev = episode_series_ids_spec(items.drop_last());
        match episode_series(items.last()) {
            Some(id) => prev.push(id),
            None => prev,
        }
    }
}

/// The views of a sequence of strings.
pub open spec fn views(v: Seq<String>) -> Seq<Seq<char>> {
    v.map_values(|s: String| s@)
}

/// `parts` joined by commas.
pub open spec fn comma_joined(parts: Seq<Seq<char>>) -> Seq<char>
    decreases parts.len(),
{
    if parts.len() == 0 {
        Seq::empty()
    } else if parts.len() == 1 {
        parts[0]
    } else {
        comma_joined(parts.drop_last()) + ","@ + parts.last()
    }
}

/// The series ids of a row are those of its entries, one entry at a time
/// and in order: an entry contributes its series id exactly when it is an
/// `Episode` that names one.
pub proof fn law_episode_series_ids_by_entry(a: Seq<ItemKey>, b: Seq<ItemKey>, x: ItemKey)
    ensures
        episode_series_ids_spec(a + b) == episode_series_ids_spec(a) + episode_series_ids_spec(b),
        episode_series_ids_spec(seq![x]) == (if x.item_type@ == "Episode"@ && x.series_id is Some {
            seq![x.series_id->0@]
        } else {
            Seq::empty()
        }),
    decreases b.len(),
{
    assert(seq![x].drop_last() =~= Seq::<ItemKey>::empty());
    assert(seq![x].last() == x);
    assert(episode_series_ids_spec(Seq::<ItemKey>::empty()) == Seq::<Seq<char>>::empty());
    assert(episode_series_ids_spec(seq![x]) == match episode_series(x) {
        Some(id) => Seq::<Seq<char>>::empty().push(id),
        None => Seq::<Seq<char>>::empty(),
    });
    if x.item_type@ == "Episode"@ && x.series_id is Some {
        assert(Seq::<Seq<char>>::empty().push(x.series_id->0@) =~= seq![x.series_id->0@]);
    }
    if b.len() == 0 {
        assert(a + b =~= a);
        assert(episode_series_ids_spec(a) + Seq::empty() =~= episode_series_ids_spec(a));
    } else {
        law_episode_series_ids_by_entry(a, b.drop_last(), x);
        assert((a + b).drop_last() =~= a + b.drop_last());
        assert((a + b).last() == b.last());
        let pa = episode_series_ids_spec(a);
        let pb = episode_series_ids_spec(b.drop_last());
        match episode_series(b.last()) {
            Some(id) => {
                assert((pa + pb).push(id) =~= pa + pb.push(id));
            },
            None => {},
        }
    }
}

/// Joining two non-empty lists of ids puts a single comma between their
/// joins, and one id joins to itself.
pub proof fn law_comma_joined_concat(a: Seq<Seq<char>>, b: Seq<Seq<char>>, x: Seq<char>)
    requires
        a.len() > 0,
        b.len() > 0,
    ensures
        comma_joined(a + b) == comma_joined(a) + ","@ + comma_joined(b),
        comma_joined(seq![x]) == x,
        comma_joined(Seq::<Seq<char>>::empty()) == Seq::<char>::empty(),
    decreases b.len(),
{
    if b.len() == 1 {
        assert((a + b).drop_last() =~= a);
        assert((a + b).last() == b[0]);
    } else {
        law_comma_joined_concat(a, b.drop_last(), x);
        assert((a + b).drop_last() =~= a + b.drop_last());
        assert((a + b).last() == b.last());
        assert(comma_joined(a) + ","@ + comma_joined(b.drop_last()) + ","@ + b.last() =~= comma_joined(a) + ","@ + (comma_joined(b.drop_last()) + ","@ + b.last()));
    }
}

/// Whether an item is an episode.
fn is_episode(item: &ItemKey, episode: &String) -> (r: bool)
    requires
        episode@ == "Episode"@,
    ensures
        r == (item.item_type@ == "Episode"@),
{
    item.item_type == *episode
}

/// The series id of `item` if it is an episode that names one.
fn episode_series_exec<'a>(item: &'a ItemKey, episode: &String) -> (r: Option<&'a String>)
    requires
        episode@ == "Episode"@,
    ensures
        match r {
            Some(id) => episode_series(*item) == Some(id@),
            None => episode_series(*item) is None,
        },
{
    if is_episode(item, episode) {
        match &item.series_id {
            Some(id) => Some(id),
            None => None,
        }
    } else {
        None
    }
}

/// The series to look up for a "recently added" row: the series ids of its
/// episodes, in order. Empty when there is nothing to fold, in which case
/// the row is used as the server sent it.
pub fn episode_series_ids(latest: &Vec<ItemKey>) -> (ids: Vec<String>)
    ensures
        views(ids@) == episode_series_ids_spec(latest@),
{
    let episode = "Episode".to_owned();
    let mut ids: Vec<String> = Vec::new();
    let mut i: usize = 0;
    while i < latest.len()
        invariant
            i <= latest@.len(),
            episode@ == "Episode"@,
            views(ids@) == episode_series_ids_spec(latest@.take(i as int)),
        decreases latest@.len() - i,
    {
        let ghost before = ids@;
        assert(latest@.take(i + 1).drop_last() == latest@.take(i as int));
        assert(latest@.take(i + 1).last() == latest@[i as int]);
        if let Some(id) = episode_series_exec(&latest[i], &episode) {
            ids.push(id.clone());
            assert(views(ids@) == views(before).push(id@));
        }
        i = i + 1;
    }
    assert(latest@.take(latest@.len() as int) == latest@);
    ids
}

/// The `Ids` query value for a series lookup: the ids joined by commas.
pub fn join_ids(ids: &Vec<String>) -> (joined: String)
    ensures
        joined@ == comma_joined(views(ids@)),
{
    let mut joined = String::new();
    let mut i: usize = 0;
    while i < ids.len()
        invariant
            i <= ids@.len(),
            joined@ == comma_joined(views(ids@.take(i as int))),
        decreases ids@.len() - i,
    {
        let ghost before = joined@;
        proof {
            let t = views(ids@.take(i + 1));
            assert(t.drop_last() == views(ids@.take(i as int)));
            assert(t.last() == ids@[i as int]@);
        }
        if i > 0 {
            joined.append(",");
        } else {
            assert(views(ids@.take(i + 1)).len() == 1);
        }
        joined.append(ids[i].as_str());
        i = i + 1;
    }
    assert(ids@.take(ids@.len() as int) == ids@);
    joined
}

/// The query of a series lookup.
pub fn series_lookup_query(ids: &Vec<String>) -> (query: Vec<(String, String)>)
    ensures
        query@.len() == 1,
        query@[0].0@ == "Ids"@,
        query@[0].1@ == comma_joined(views(ids@)),
{
    let mut query: Vec<(String, String)> = Vec::new();
    query.push(("Ids".to_owned(), join_ids(ids)));
    query
}

/// Where an entry of a folded row comes from: the row as sent, or the
/// fetched series.
#[derive(Clone, Copy, PartialEq, Eq, Debug)]
pub enum Pick {
    Latest(usize),
    Series(usize),
}

/// The index of the last item of `items` with the id `id`, if any (the one
/// a map built from `items` in order keeps).
pub open spec fn last_with_id(items: Seq<ItemKey>, id: Seq<char>) -> Option<int>
    decreases items.len(),
{
    if items.len() == 0 {
        None
    } else if items.last().id@ == id {
        Some(items.len() - 1)
    } else {
        last_with_id(items.drop_last(), id)
    }
}

/// What entry `i` of the row resolves to: its series, when it is an episode
/// whose series was fetched, and otherwise itself.
pub open spec fn resolve(latest: Seq<ItemKey>, series: Seq<ItemKey>, i: int) -> Pick {
    match episode_series(latest[i]) {
        Some(sid) => match last_with_id(series, sid) {
            Some(j) => Pick::Series(j as usize),
            None => Pick::Latest(i as usize),
        },
        None => Pick::Latest(i as usize),
    }
}

/// The id of the item a pick stands for.
pub open spec fn pick_id(latest: Seq<ItemKey>, series: Seq<ItemKey>, p: Pick) -> Seq<char> {
    match p {
        Pick::Latest(i) => latest[i as int].id@,
        Pick::Series(j) => series[j as int].id@,
    }
}

pub open spec fn pick_ids(latest: Seq<ItemKey>, series: Seq<ItemKey>, picks: Seq<Pick>) -> Seq<
    Seq<char>,
> {
    picks.map_values(|p: Pick| pick_id(latest, series, p))
}

/// The first `n` entries of the row, each resolved, keeping only the first
/// entry for each id.
pub open spec fn collapsed(latest: Seq<ItemKey>, series: Seq<ItemKey>, n: int) -> Seq<Pick>
    decreases n,
{
    if n <= 0 {
        Seq::empty()
    } else {
        let prev = collapsed(latest, series, n - 1);
        let p = resolve(latest, series, n - 1);
        if pick_ids(latest, series, prev).contains(pick_id(latest, series, p)) {
            prev
        } else {
            prev.push(p)
        }
    }
}

/// The index of the last fetched series with id `id`.
fn find_last_with_id(series: &Vec<ItemKey>, id: &String) -> (r: Option<usize>)
    ensures
        match r {
            Some(j) => last_with_id(series@, id@) == Some(j as int),
            None => last_with_id(series@, id@) is None,
        },
{
    let mut j = series.len();
    assert(series@.take(j as int) == series@);
    while j > 0
        invariant
            j <= series@.len(),
            last_with_id(series@, id@) == last_with_id(series@.take(j as int), id@),
        decreases j,
    {
        assert(series@.take(j as int).drop_last() == series@.take(j - 1));
        if series[j - 1].id == *id {
            return Some(j - 1);
        }
        j = j - 1;
    }
    None
}

/// A row taken as it is: entry `k` is entry `k` of the row.
pub open spec fn untouched_row(n: nat) -> Seq<Pick> {
    Seq::new(n, |k: int| Pick::Latest(k as usize))
}

/// A "recently added" row after folding: untouched when no entry is an
/// episode that names its series (no series lookup is made then), and
/// otherwise `collapsed`.
pub open spec fn folded_row(latest: Seq<ItemKey>, series: Seq<ItemKey>) -> Seq<Pick> {
    if episode_series_ids_spec(latest).len() == 0 {
        untouched_row(latest.len())
    } else {
        collapsed(latest, series, latest.len() as int)
    }
}

/// Folds every episode of a "recently added" row into its series, when
/// that series is among `series` (the result of looking up the row's series
/// ids; when an id occurs twice there, the later item is used), keeping the
/// row's order and dropping any entry whose id already appeared. An episode
/// whose series is missing stays as it is. A row with no episode that names
/// its series is returned untouched, repeats included.
pub fn collapse_episodes_into_series(latest: &Vec<ItemKey>, series: &Vec<ItemKey>) -> (picks: Vec<
    Pick,
>)
    ensures
        picks@ == folded_row(latest@, series@),
{
    let ids = episode_series_ids(latest);
    if ids.len() == 0 {
        let mut picks: Vec<Pick> = Vec::new();
        let mut k: usize = 0;
        while k < latest.len()
            invariant
                k <= latest@.len(),
                picks@ == untouched_row(k as nat),
            decreases latest@.len() - k,
        {
            picks.push(Pick::Latest(k));
            assert(picks@ =~= untouched_row((k + 1) as nat));
            k = k + 1;
        }
        return picks;
    }
    assert(episode_series_ids_spec(latest@).len() != 0);
    let episode = "Episode".to_owned();
    let mut picks: Vec<Pick> = Vec::new();
    let mut seen: Vec<String> = Vec::new();
    let mut i: usize = 0;
    while i < latest.len()
        invariant
            i <= latest@.len(),
            episode@ == "Episode"@,
            picks@ == collapsed(latest@, series@, i as int),
            views(seen@) == pick_ids(latest@, series@, picks@),
            forall|k: int|
                0 <= k < picks@.len() ==> match #[trigger] picks@[k] {
                    Pick::Latest(a) => a < latest@.len(),
                    Pick::Series(b) => b < series@.len(),
                },
        decreases latest@.len() - i,
    {
        let pick = match episode_series_exec(&latest[i], &episode) {
            Some(sid) => match find_last_with_id(series, sid) {
                Some(j) => Pick::Series(j),
                None => Pick::Latest(i),
            },
            None => Pick::Latest(i),
        };
        assert(pick == resolve(latest@, series@, i as int));
        let id: &String = match pick {
            Pick::Latest(a) => &latest[a].id,
            Pick::Series(b) => {
                proof {
                    let sid = episode_series(latest@[i as int])->0;
                    lemma_last_with_id_bounds(series@, sid);
                }
                &series[b].id
            },
        };
        assert(id@ == pick_id(latest@, series@, pick));
        let mut found = false;
        let mut k: usize = 0;
        while k < seen.len()
            invariant
                k <= seen@.len(),
                found == (exists|m: int| 0 <= m < k && #[trigger] seen@[m]@ == id@),
            decreases seen@.len() - k,
        {
            if seen[k] == *id {
                found = true;
            }
            k = k + 1;
        }
        proof {
            let ids = pick_ids(latest@, series@, picks@);
            assert(ids == views(seen@));
            if found {
                let m = choose|m: int| 0 <= m < seen@.len() && #[trigger] seen@[m]@ == id@;
                assert(ids[m] == id@);
                assert(ids.contains(id@));
            } else {
                assert forall|m: int| 0 <= m < ids.len() implies ids[m] != id@ by {
                    assert(ids[m] == seen@[m]@);
                }
            }
        }
        if !found {
            let ghost before = picks@;
            seen.push(id.clone());
            picks.push(pick);
            proof {
                assert(pick_ids(latest@, series@, picks@) == pick_ids(latest@, series@, before).push(
                    id@,
                ));
                assert(views(seen@) == views(seen@.drop_last()).push(id@));
            }
        }
        i = i + 1;
    }
    picks
}

proof fn lemma_last_with_id_bounds(items: Seq<ItemKey>, id: Seq<char>)
    ensures
        last_with_id(items, id) matches Some(j) ==> 0 <= j < items.len() && items[j].id@ == id,
    decreases items.len(),
{
    if items.len() > 0 && items.last().id@ != id {
        lemma_last_with_id_bounds(items.drop_last(), id);
    }
}


/// The entries of the row that the first `n` picks of `collapsed` come from.
pub open spec fn origins(latest: Seq<ItemKey>, series: Seq<ItemKey>, n: int) -> Seq<int>
    decreases n,
{
    if n <= 0 {
        Seq::empty()
    } else {
        let prev = origins(latest, series, n - 1);
        let p = resolve(latest, series, n - 1);
        if pick_ids(latest, series, collapsed(latest, series, n - 1)).contains(
            pick_id(latest, series, p),
        ) {
            prev
        } else {
            prev.push(n - 1)
        }
    }
}

/// Folding keeps the row's order: each pick is the resolution of an entry
/// of the row, and the entries the picks come from increase along the
/// result.
pub proof fn law_collapse_keeps_order(latest: Seq<ItemKey>, series: Seq<ItemKey>, n: int)
    requires
        0 <= n <= latest.len(),
    ensures
        ({
            let picks = collapsed(latest, series, n);
            let from = origins(latest, series, n);
            &&& from.len() == picks.len()
            &&& forall|k: int| 0 <= k < from.len() ==> 0 <= #[trigger] from[k] < n
            &&& forall|k: int|
                0 <= k < picks.len() ==> #[trigger] picks[k] == resolve(latest, series, from[k])
            &&& forall|a: int, b: int| 0 <= a < b < from.len() ==> from[a] < from[b]
        }),
    decreases n,
{
    if n > 0 {
        law_collapse_keeps_order(latest, series, n - 1);
    }
}

/// Folding never repeats an item: the ids of the picks are pairwise
/// distinct.
pub proof fn law_collapse_no_repeats(latest: Seq<ItemKey>, series: Seq<ItemKey>, n: int)
    requires
        0 <= n <= latest.len(),
    ensures
        pick_ids(latest, series, collapsed(latest, series, n)).no_duplicates(),
    decreases n,
{
    if n > 0 {
        law_collapse_no_repeats(latest, series, n - 1);
        let prev = collapsed(latest, series, n - 1);
        let p = resolve(latest, series, n - 1);
        let ids = pick_ids(latest, series, prev);
        if !ids.contains(pick_id(latest, series, p)) {
            assert(pick_ids(latest, series, prev.push(p)) == ids.push(pick_id(latest, series, p)));
        }
    }
}

/// Folding drops nothing but repeats: the resolution of every entry of the
/// row is among the picks.
pub proof fn law_collapse_covers_row(latest: Seq<ItemKey>, series: Seq<ItemKey>, n: int, i: int)
    requires
        0 <= i < n <= latest.len(),
    ensures
        pick_ids(latest, series, collapsed(latest, series, n)).contains(
            pick_id(latest, series, resolve(latest, series, i)),
        ),
    decreases n,
{
    let prev = collapsed(latest, series, n - 1);
    let p = resolve(latest, series, n - 1);
    let ids = pick_ids(latest, series, prev);
    let target = pick_id(latest, series, resolve(latest, series, i));
    if i < n - 1 {
        law_collapse_covers_row(latest, series, n - 1, i);
        if !ids.contains(pick_id(latest, series, p)) {
            let m = choose|m: int| 0 <= m < ids.len() && ids[m] == target;
            assert(pick_ids(latest, series, prev.push(p))[m] == target);
        }
    } else if !ids.contains(pick_id(latest, series, p)) {
        assert(pick_ids(latest, series, prev.push(p))[ids.len() as int] == target);
    }
}

proof fn lemma_no_episode_series(items: Seq<ItemKey>, i: int)
    requires
        episode_series_ids_spec(items).len() == 0,
        0 <= i < items.len(),
    ensures
        episode_series(items[i]) is None,
    decreases items.len(),
{
    if i < items.len() - 1 {
        if episode_series(items.last()) is None {
            lemma_no_episode_series(items.drop_last(), i);
        }
    }
}

proof fn lemma_last_with_id_is_last(items: Seq<ItemKey>, id: Seq<char>, j: int)
    requires
        0 <= j < items.len(),
        items[j].id@ == id,
        forall|k: int| j < k < items.len() ==> items[k].id@ != id,
    ensures
        last_with_id(items, id) == Some(j),
    decreases items.len(),
{
    if items.last().id@ != id {
        lemma_last_with_id_is_last(items.drop_last(), id, j);
    }
}

proof fn lemma_last_with_id_none(items: Seq<ItemKey>, id: Seq<char>)
    requires
        last_with_id(items, id) is None,
    ensures
        forall|k: int| 0 <= k < items.len() ==> items[k].id@ != id,
    decreases items.len(),
{
    if items.len() > 0 {
        lemma_last_with_id_none(items.drop_last(), id);
        assert forall|k: int| 0 <= k < items.len() implies items[k].id@ != id by {
            if k < items.len() - 1 {
                assert(items.drop_last()[k] == items[k]);
            }
        }
    }
}

proof fn lemma_last_with_id_some(items: Seq<ItemKey>, id: Seq<char>)
    requires
        last_with_id(items, id) is Some,
    ensures
        ({
            let j = last_with_id(items, id)->0;
            &&& 0 <= j < items.len()
            &&& items[j].id@ == id
            &&& forall|k: int| j < k < items.len() ==> items[k].id@ != id
        }),
    decreases items.len(),
{
    if items.last().id@ != id {
        lemma_last_with_id_some(items.drop_last(), id);
        let j = last_with_id(items, id)->0;
        assert forall|k: int| j < k < items.len() implies items[k].id@ != id by {
            if k < items.len() - 1 {
                assert(items.drop_last()[k] == items[k]);
            }
        }
    }
}

/// Whether entry `i` of the row is an episode whose series is among
/// `series`: an `Episode` naming a series id that some lookup result has.
pub open spec fn foldable(latest: Seq<ItemKey>, series: Seq<ItemKey>, i: int) -> bool {
    &&& latest[i].item_type@ == "Episode"@
    &&& latest[i].series_id is Some
    &&& exists|q: int| 0 <= q < series.len() && series[q].id@ == latest[i].series_id->0@
}

/// Folding replaces every episode whose series was found, wherever it
/// stands in the row: no entry of the result is such an episode, every
/// series in the result stands for an episode of the row that names it and
/// is the last lookup result with that id, and for each such episode the
/// result carries an item with its series' id.
pub proof fn law_fold_replaces_found_episodes(latest: Seq<ItemKey>, series: Seq<ItemKey>)
    requires
        latest.len() <= usize::MAX,
        series.len() <= usize::MAX,
    ensures
        ({
            let out = folded_row(latest, series);
            &&& forall|k: int, m: usize|
                0 <= k < out.len() && out[k] == Pick::Latest(m) ==> m < latest.len() && !foldable(
                    latest,
                    series,
                    m as int,
                )
            &&& forall|k: int, q: usize|
                0 <= k < out.len() && out[k] == Pick::Series(q) ==> {
                    &&& q < series.len()
                    &&& forall|r: int| q < r < series.len() ==> series[r].id@ != series[q as int].id@
                    &&& exists|i: int|
                        0 <= i < latest.len() && latest[i].item_type@ == "Episode"@
                            && latest[i].series_id is Some && latest[i].series_id->0@
                            == series[q as int].id@
                }
            &&& forall|i: int|
                0 <= i < latest.len() && foldable(latest, series, i) ==> exists|k: int|
                    #![trigger out[k]]
                    0 <= k < out.len() && match out[k] {
                        Pick::Latest(m) => latest[m as int].id@ == latest[i].series_id->0@,
                        Pick::Series(q) => series[q as int].id@ == latest[i].series_id->0@,
                    }
        }),
{
    let out = folded_row(latest, series);
    if episode_series_ids_spec(latest).len() == 0 {
        assert forall|i: int| 0 <= i < latest.len() implies !foldable(latest, series, i) by {
            lemma_no_episode_series(latest, i);
        }
        assert forall|k: int, m: usize|
            0 <= k < out.len() && out[k] == Pick::Latest(m) implies m < latest.len() && !foldable(
            latest,
            series,
            m as int,
        ) by {
            lemma_no_episode_series(latest, k);
        }
    } else {
        let n = latest.len() as int;
        law_collapse_keeps_order(latest, series, n);
        let from = origins(latest, series, n);
        assert forall|k: int, m: usize|
            0 <= k < out.len() && out[k] == Pick::Latest(m) implies m < latest.len() && !foldable(
            latest,
            series,
            m as int,
        ) by {
            let i = from[k];
            assert(out[k] == resolve(latest, series, i));
            match episode_series(latest[i]) {
                Some(sid) => {
                    if last_with_id(series, sid) is None {
                        lemma_last_with_id_none(series, sid);
                    }
                },
                None => {},
            }
        }
        assert forall|k: int, q: usize| 0 <= k < out.len() && out[k] == Pick::Series(q) implies {
            &&& q < series.len()
            &&& forall|r: int| q < r < series.len() ==> series[r].id@ != series[q as int].id@
            &&& exists|i: int|
                0 <= i < latest.len() && latest[i].item_type@ == "Episode"@
                    && latest[i].series_id is Some && latest[i].series_id->0@
                    == series[q as int].id@
        } by {
            let i = from[k];
            assert(out[k] == resolve(latest, series, i));
            let sid = episode_series(latest[i])->0;
            lemma_last_with_id_some(series, sid);
        }
        assert forall|i: int| 0 <= i < latest.len() && foldable(latest, series, i) implies exists|
            k: int,
        |
            #![trigger out[k]]
            0 <= k < out.len() && match out[k] {
                Pick::Latest(m) => latest[m as int].id@ == latest[i].series_id->0@,
                Pick::Series(q) => series[q as int].id@ == latest[i].series_id->0@,
            } by {
            let sid = latest[i].series_id->0@;
            let q0 = choose|q: int| 0 <= q < series.len() && series[q].id@ == sid;
            if last_with_id(series, sid) is None {
                lemma_last_with_id_none(series, sid);
            }
            lemma_last_with_id_some(series, sid);
            law_collapse_covers_row(latest, series, n, i);
            let ids = pick_ids(latest, series, out);
            assert(pick_id(latest, series, resolve(latest, series, i)) == sid);
            let k = choose|k: int| 0 <= k < ids.len() && ids[k] == sid;
            assert(ids[k] == pick_id(latest, series, out[k]));
        }
    }
}

/// A row with no episode that names its series is returned as it is, with
/// any repeated id kept.
pub proof fn law_fold_untouched_without_episodes(latest: Seq<ItemKey>, series: Seq<ItemKey>)
    requires
        episode_series_ids_spec(latest).len() == 0,
    ensures
        folded_row(latest, series) == untouched_row(latest.len()),
{
}

/// The id that entry `i` of the row stands for once folded: its series' id
/// when it is an episode whose series was found, and its own id otherwise.
pub open spec fn stands_for(latest: Seq<ItemKey>, series: Seq<ItemKey>, i: int) -> Seq<char> {
    if foldable(latest, series, i) {
        latest[i].series_id->0@
    } else {
        latest[i].id@
    }
}

/// The ids of the items of a folded row, in order.
pub open spec fn folded_ids(latest: Seq<ItemKey>, series: Seq<ItemKey>) -> Seq<Seq<char>> {
    pick_ids(latest, series, folded_row(latest, series))
}

proof fn lemma_resolve_stands_for(latest: Seq<ItemKey>, series: Seq<ItemKey>, i: int)
    requires
        0 <= i < latest.len() <= usize::MAX,
        series.len() <= usize::MAX,
    ensures
        pick_id(latest, series, resolve(latest, series, i)) == stands_for(latest, series, i),
{
    match episode_series(latest[i]) {
        Some(sid) => {
            if last_with_id(series, sid) is None {
                lemma_last_with_id_none(series, sid);
            } else {
                lemma_last_with_id_some(series, sid);
                let j = last_with_id(series, sid)->0;
                assert(0 <= j < series.len() && series[j].id@ == latest[i].series_id->0@);
            }
        },
        None => {},
    }
}

proof fn lemma_collapse_first_appearance(latest: Seq<ItemKey>, series: Seq<ItemKey>, n: int, k: int, i: int)
    requires
        0 <= n <= latest.len(),
        0 <= k < collapsed(latest, series, n).len(),
        0 <= i < origins(latest, series, n)[k],
    ensures
        pick_id(latest, series, resolve(latest, series, i)) != pick_ids(
            latest,
            series,
            collapsed(latest, series, n),
        )[k],
    decreases n,
{
    law_collapse_keeps_order(latest, series, n);
    law_collapse_keeps_order(latest, series, n - 1);
    let prev = collapsed(latest, series, n - 1);
    let p = resolve(latest, series, n - 1);
    let ids = pick_ids(latest, series, prev);
    if k < prev.len() {
        if !ids.contains(pick_id(latest, series, p)) {
            assert(collapsed(latest, series, n) == prev.push(p));
            assert(origins(latest, series, n)[k] == origins(latest, series, n - 1)[k]);
        }
        lemma_collapse_first_appearance(latest, series, n - 1, k, i);
    } else {
        assert(collapsed(latest, series, n) == prev.push(p));
        assert(origins(latest, series, n)[k] == n - 1);
        law_collapse_covers_row(latest, series, n - 1, i);
        assert(pick_ids(latest, series, collapsed(latest, series, n))[k] == pick_id(latest, series, p));
    }
}

/// A folded row that has an episode naming its series lists each id that
/// an entry stands for (its series' id when it is an episode whose series
/// was found, its own id otherwise) exactly once, and nothing else, in the
/// order in which those ids first appear along the row: item `k` of the
/// result is the id of entry `origins(..)[k]` of the row, and the entry an
/// earlier item comes from precedes every entry that stands for a later one.
pub proof fn law_fold_first_appearance_order(latest: Seq<ItemKey>, series: Seq<ItemKey>)
    requires
        latest.len() <= usize::MAX,
        series.len() <= usize::MAX,
        episode_series_ids_spec(latest).len() != 0,
    ensures
        folded_ids(latest, series).no_duplicates(),
        forall|i: int|
            0 <= i < latest.len() ==> folded_ids(latest, series).contains(
                #[trigger] stands_for(latest, series, i),
            ),
        origins(latest, series, latest.len() as int).len() == folded_ids(latest, series).len(),
        forall|k: int|
            #![trigger folded_ids(latest, series)[k]]
            0 <= k < folded_ids(latest, series).len() ==> {
                let i = origins(latest, series, latest.len() as int)[k];
                &&& 0 <= i < latest.len()
                &&& stands_for(latest, series, i) == folded_ids(latest, series)[k]
            },
        forall|a: int, b: int, j: int|
            #![trigger origins(latest, series, latest.len() as int)[a], folded_ids(latest, series)[b], stands_for(latest, series, j)]
            0 <= a < b < folded_ids(latest, series).len() && 0 <= j < latest.len() && stands_for(
                latest,
                series,
                j,
            ) == folded_ids(latest, series)[b] ==> origins(latest, series, latest.len() as int)[a]
                < j,
{
    let n = latest.len() as int;
    let out = folded_row(latest, series);
    let ids = folded_ids(latest, series);
    let from = origins(latest, series, n);
    assert(out == collapsed(latest, series, n));
    law_collapse_no_repeats(latest, series, n);
    law_collapse_keeps_order(latest, series, n);
    assert forall|i: int| 0 <= i < latest.len() implies ids.contains(stands_for(latest, series, i)) by {
        law_collapse_covers_row(latest, series, n, i);
        lemma_resolve_stands_for(latest, series, i);
    }
    assert forall|k: int| #![trigger ids[k]] 0 <= k < ids.len() implies 0 <= from[k] < latest.len()
        && stands_for(latest, series, from[k]) == ids[k] by {
        lemma_resolve_stands_for(latest, series, from[k]);
        assert(ids[k] == pick_id(latest, series, out[k]));
    }
    assert forall|a: int, b: int, j: int|
        #![trigger from[a], ids[b], stands_for(latest, series, j)]
        0 <= a < b < ids.len() && 0 <= j < latest.len() && stands_for(latest, series, j)
            == ids[b] implies from[a] < j by {
        lemma_resolve_stands_for(latest, series, j);
        if j < from[b] {
            lemma_collapse_first_appearance(latest, series, n, b, j);
        }
        assert(from[a] < from[b]);
    }
}

proof fn lemma_no_episode_names_series(items: Seq<ItemKey>)
    requires
        forall|i: int|
            0 <= i < items.len() ==> !((#[trigger] items[i]).item_type@ == "Episode"@
                && items[i].series_id is Some),
    ensures
        episode_series_ids_spec(items).len() == 0,
    decreases items.len(),
{
    if items.len() > 0 {
        let p = items.drop_last();
        assert forall|i: int| 0 <= i < p.len() implies !((#[trigger] p[i]).item_type@ == "Episode"@
            && p[i].series_id is Some) by {
            assert(p[i] == items[i]);
        }
        lemma_no_episode_names_series(p);
        assert(items.last() == items[items.len() - 1]);
    }
}

/// A row in which no entry is an episode that names its series comes back
/// as it is: the same length, entry `k` in place `k`, repeats included.
pub proof fn law_fold_keeps_row_without_episodes(latest: Seq<ItemKey>, series: Seq<ItemKey>)
    requires
        forall|i: int|
            0 <= i < latest.len() ==> !((#[trigger] latest[i]).item_type@ == "Episode"@
                && latest[i].series_id is Some),
    ensures
        folded_row(latest, series).len() == latest.len(),
        forall|k: int|
            0 <= k < latest.len() ==> #[trigger] folded_row(latest, series)[k] == Pick::Latest(
                k as usize,
            ),
{
    lemma_no_episode_names_series(latest);
}

/// Folding a row that has an episode naming its series never repeats an
/// item and keeps every entry's resolution (see the `collapsed` laws).
pub proof fn law_fold_folds_when_episodes(latest: Seq<ItemKey>, series: Seq<ItemKey>, i: int)
    requires
        episode_series_ids_spec(latest).len() != 0,
        0 <= i < latest.len(),
    ensures
        folded_row(latest, series) == collapsed(latest, series, latest.len() as int),
        pick_ids(latest, series, folded_row(latest, series)).no_duplicates(),
        pick_ids(latest, series, folded_row(latest, series)).contains(
            pick_id(latest, series, resolve(latest, series, i)),
        ),
{
    law_collapse_no_repeats(latest, series, latest.len() as int);
    law_collapse_covers_row(latest, series, latest.len() as int, i);
}

/// `collapsed` agrees with an untouched row when no entry is an episode
/// that names its series and no id repeats.
pub proof fn law_collapse_without_episodes_is_identity(
    latest: Seq<ItemKey>,
    series: Seq<ItemKey>,
    n: int,
)
    requires
        0 <= n <= latest.len() <= usize::MAX,
        episode_series_ids_spec(latest).len() == 0,
        forall|a: int, b: int| 0 <= a < b < latest.len() ==> latest[a].id@ != latest[b].id@,
    ensures
        collapsed(latest, series, n) == Seq::new(n as nat, |k: int| Pick::Latest(k as usize)),
    decreases n,
{
    if n > 0 {
        law_collapse_without_episodes_is_identity(latest, series, n - 1);
        lemma_no_episode_series(latest, n - 1);
        let prev = collapsed(latest, series, n - 1);
        let ids = pick_ids(latest, series, prev);
        assert forall|m: int| 0 <= m < ids.len() implies ids[m] != latest[n - 1].id@ by {
            assert(prev[m] == Pick::Latest(m as usize));
        }
        assert(!ids.contains(latest[n - 1].id@));
        assert(prev.push(Pick::Latest((n - 1) as usize)) == Seq::new(
            n as nat,
            |k: int| Pick::Latest(k as usize),
        ));
    } else {
        assert(collapsed(latest, series, n) =~= Seq::new(n as nat, |k: int| Pick::Latest(k as usize)));
    }
}

// ---------------------------------------------------------------------------
// Next episode
// ---------------------------------------------------------------------------

/// Which entry of a series' episode list, started at `episode_id` and
/// limited to two entries, is the episode after it: the second one, when
/// the list has at least two entries and really starts at `episode_id`;
/// otherwise there is none (the end of the show).
pub open spec fn next_episode_index_spec(items: Seq<ItemKey>, episode_id: Seq<char>) -> Option<int> {
    if items.len() >= 2 && items[0].id@ == episode_id {
        Some(1)
    } else {
        None
    }
}

/// The episode after `episode_id` is the second entry of the list, and
/// there is one exactly when the list has two entries or more and its first
/// entry is `episode_id` itself.
pub proof fn law_next_episode(items: Seq<ItemKey>, episode_id: Seq<char>)
    ensures
        next_episode_index_spec(items, episode_id) is Some <==> (items.len() >= 2 && items[0].id@
            == episode_id),
        next_episode_index_spec(items, episode_id) matches Some(k) ==> k == 1,
{
}

/// From the first source, the sources are tried in the order Intro Skipper,
/// its older intro endpoint, native media segments, and then no more.
pub proof fn law_skip_source_order()
    ensures
        next_skip_source_spec(SkipSource::IntroSkipper) == Some(SkipSource::IntroTimestamps),
        next_skip_source_spec(SkipSource::IntroTimestamps) == Some(SkipSource::MediaSegments),
        next_skip_source_spec(SkipSource::MediaSegments) is None,
{
}

pub fn next_episode_index(items: &Vec<ItemKey>, episode_id: &str) -> (r: Option<usize>)
    ensures
        match r {
            Some(k) => next_episode_index_spec(items@, episode_id@) == Some(k as int),
            None => next_episode_index_spec(items@, episode_id@) is None,
        },
{
    if items.len() < 2 {
        return None;
    }
    let wanted = episode_id.to_owned();
    if items[0].id == wanted {
        Some(1)
    } else {
        None
    }
}

// ---------------------------------------------------------------------------
// Skippable segments
// ---------------------------------------------------------------------------

/// The places skippable segments are read from, in the order they are tried.
#[derive(Clone, Copy, PartialEq, Eq, Debug)]
pub enum SkipSource {
    /// The Intro Skipper plugin's segment map.
    IntroSkipper,
    /// The plugin's older single-intro endpoint.
    IntroTimestamps,
    /// Jellyfin's native media segments.
    MediaSegments,
}

/// The source tried after `source` yielded nothing usable.
pub open spec fn next_skip_source_spec(source: SkipSource) -> Option<SkipSource> {
    match source {
        SkipSource::IntroSkipper => Some(SkipSource::IntroTimestamps),
        SkipSource::IntroTimestamps => Some(SkipSource::MediaSegments),
        SkipSource::MediaSegments => None,
    }
}

pub fn first_skip_source() -> (source: SkipSource)
    ensures
        source == SkipSource::IntroSkipper,
{
    SkipSource::IntroSkipper
}

pub fn next_skip_source(source: SkipSource) -> (next: Option<SkipSource>)
    ensures
        next == next_skip_source_spec(source),
{
    match source {
        SkipSource::IntroSkipper => Some(SkipSource::IntroTimestamps),
        SkipSource::IntroTimestamps => Some(SkipSource::MediaSegments),
        SkipSource::MediaSegments => None,
    }
}

pub open spec fn skip_source_url_spec(server_url: Seq<char>, item_id: Seq<char>, source: SkipSource) -> Seq<char> {
    match source {
        SkipSource::IntroSkipper => server_url + "/Episode/"@ + item_id + "/IntroSkipperSegments"@,
        SkipSource::IntroTimestamps => server_url + "/Episode/"@ + item_id + "/IntroTimestamps"@,
        SkipSource::MediaSegments => server_url + "/MediaSegments/"@ + item_id,
    }
}

pub fn skip_source_url(session: &Session, item_id: &str, source: SkipSource) -> (url: String)
    ensures
        url@ == skip_source_url_spec(session.server_url@, item_id@, source),
{
    let mut url = session.server_url.clone();
    match source {
        SkipSource::IntroSkipper => {
            url.append("/Episode/");
            url.append(item_id);
            url.append("/IntroSkipperSegments");
        },
        SkipSource::IntroTimestamps => {
            url.append("/Episode/");
            url.append(item_id);
            url.append("/IntroTimestamps");
        },
        SkipSource::MediaSegments => {
            url.append("/MediaSegments/");
            url.append(item_id);
        },
    }
    url
}

/// The kinds of skippable segment: the names Jellyfin gives its media
/// segment types, onto which the Intro Skipper plugin's modes are mapped.
pub open spec fn is_skip_kind(kind: Seq<char>) -> bool {
    ||| kind == "Intro"@
    ||| kind == "Credits"@
    ||| kind == "Recap"@
    ||| kind == "Preview"@
    ||| kind == "Commercial"@
}

/// Whether `kind` is one of the skippable segment kinds.
fn skip_kind_exec(kind: &String) -> (r: bool)
    ensures
        r == is_skip_kind(kind@),
{
    let intro = "Intro".to_owned();
    let credits = "Credits".to_owned();
    let recap = "Recap".to_owned();
    let preview = "Preview".to_owned();
    let commercial = "Commercial".to_owned();
    *kind == intro || *kind == credits || *kind == recap || *kind == preview || *kind == commercial
}

/// The segment kind for an Intro Skipper analysis mode: `Introduction` is
/// called `Intro`; a mode that already is a segment kind keeps its name;
/// any other mode has no kind, and its segment is not offered.
pub open spec fn intro_skipper_kind_spec(mode: Seq<char>) -> Option<Seq<char>> {
    if mode == "Introduction"@ {
        Some("Intro"@)
    } else if is_skip_kind(mode) {
        Some(mode)
    } else {
        None
    }
}

pub fn intro_skipper_kind(mode: &str) -> (kind: Option<String>)
    ensures
        match kind {
            Some(k) => intro_skipper_kind_spec(mode@) == Some(k@),
            None => intro_skipper_kind_spec(mode@) is None,
        },
{
    let mode = mode.to_owned();
    let introduction = "Introduction".to_owned();
    if mode == introduction {
        Some("Intro".to_owned())
    } else if skip_kind_exec(&mode) {
        Some(mode)
    } else {
        None
    }
}

/// The kind of the single segment the older intro endpoint describes.
pub fn intro_timestamps_kind() -> (kind: String)
    ensures
        kind@ == "Intro"@,
{
    "Intro".to_owned()
}

/// The segment kind for a native media segment type: Jellyfin's `Outro` is
/// called `Credits`, as the plugin calls it; a type that is a segment kind
/// keeps its name; any other type (such as `Unknown`) has no kind.
pub open spec fn media_segment_kind_spec(segment_type: Seq<char>) -> Option<Seq<char>> {
    if segment_type == "Outro"@ {
        Some("Credits"@)
    } else if is_skip_kind(segment_type) {
        Some(segment_type)
    } else {
        None
    }
}

pub fn media_segment_kind(segment_type: &str) -> (kind: Option<String>)
    ensures
        match kind {
            Some(k) => media_segment_kind_spec(segment_type@) == Some(k@),
            None => media_segment_kind_spec(segment_type@) is None,
        },
{
    let segment_type = segment_type.to_owned();
    let outro = "Outro".to_owned();
    if segment_type == outro {
        Some("Credits".to_owned())
    } else if skip_kind_exec(&segment_type) {
        Some(segment_type)
    } else {
        None
    }
}

/// A native media segment, with its bounds in ticks (100 ns units).
#[derive(Clone, Debug, PartialEq, Eq)]
pub struct MediaSegment {
    pub segment_type: String,
    pub start_ticks: i64,
    pub end_ticks: i64,
}

/// The native segments worth offering a skip for: those of a skippable
/// kind that end after they start, in order, each renamed by
/// `media_segment_kind_spec`.
pub open spec fn usable_media_segments_spec(segments: Seq<MediaSegment>) -> Seq<(Seq<char>, i64, i64)>
    decreases segments.len(),
{
    if segments.len() == 0 {
        Seq::empty()
    } else {
        let prev = usable_media_segments_spec(segments.drop_last());
        let s = segments.last();
        match media_segment_kind_spec(s.segment_type@) {
            Some(kind) => if s.end_ticks > s.start_ticks {
                prev.push((kind, s.start_ticks, s.end_ticks))
            } else {
                prev
            },
            None => prev,
        }
    }
}

pub open spec fn segment_views(segments: Seq<MediaSegment>) -> Seq<(Seq<char>, i64, i64)> {
    segments.map_values(|s: MediaSegment| (s.segment_type@, s.start_ticks, s.end_ticks))
}

pub fn usable_media_segments(segments: &Vec<MediaSegment>) -> (usable: Vec<MediaSegment>)
    ensures
        segment_views(usable@) == usable_media_segments_spec(segments@),
{
    let mut usable: Vec<MediaSegment> = Vec::new();
    let mut i: usize = 0;
    while i < segments.len()
        invariant
            i <= segments@.len(),
            segment_views(usable@) == usable_media_segments_spec(segments@.take(i as int)),
        decreases segments@.len() - i,
    {
        assert(segments@.take(i + 1).drop_last() == segments@.take(i as int));
        assert(segments@.take(i + 1).last() == segments@[i as int]);
        let s = &segments[i];
        if s.end_ticks > s.start_ticks {
            if let Some(kind) = media_segment_kind(s.segment_type.as_str()) {
                let ghost before = usable@;
                let kept = MediaSegment { segment_type: kind, start_ticks: s.start_ticks, end_ticks: s.end_ticks };
                usable.push(kept);
                assert(segment_views(usable@) == segment_views(before).push(
                    (kept.segment_type@, kept.start_ticks, kept.end_ticks),
                ));
            }
        }
        i = i + 1;
    }
    assert(segments@.take(segments@.len() as int) == segments@);
    usable
}

/// The named kinds: a plugin mode `Introduction` is an `Intro`; a native
/// `Outro` is `Credits`; `Intro`, `Credits`, `Recap`, `Preview` and
/// `Commercial` keep their names in both; nothing else has a kind.
pub proof fn law_skip_kind_names(name: Seq<char>)
    ensures
        intro_skipper_kind_spec(name) == (if name == "Introduction"@ {
            Some("Intro"@)
        } else if name == "Intro"@ || name == "Credits"@ || name == "Recap"@ || name == "Preview"@
            || name == "Commercial"@ {
            Some(name)
        } else {
            None
        }),
        media_segment_kind_spec(name) == (if name == "Outro"@ {
            Some("Credits"@)
        } else if name == "Intro"@ || name == "Credits"@ || name == "Recap"@ || name == "Preview"@
            || name == "Commercial"@ {
            Some(name)
        } else {
            None
        }),
{
}

/// One native segment is offered exactly when its type has a kind
/// (`Intro`, `Credits`, `Recap`, `Preview`, `Commercial`, or `Outro` as
/// `Credits`) and it ends after it starts.
pub proof fn law_usable_media_segment_single(seg: MediaSegment)
    ensures
        usable_media_segments_spec(seq![seg]) == (if seg.end_ticks > seg.start_ticks && (
        seg.segment_type@ == "Outro"@ || seg.segment_type@ == "Intro"@ || seg.segment_type@
            == "Credits"@ || seg.segment_type@ == "Recap"@ || seg.segment_type@ == "Preview"@
            || seg.segment_type@ == "Commercial"@) {
            seq![
                (
                    if seg.segment_type@ == "Outro"@ {
                        "Credits"@
                    } else {
                        seg.segment_type@
                    },
                    seg.start_ticks,
                    seg.end_ticks,
                ),
            ]
        } else {
            Seq::empty()
        }),
{
    assert(seq![seg].drop_last() =~= Seq::<MediaSegment>::empty());
    assert(seq![seg].last() == seg);
    assert(usable_media_segments_spec(Seq::<MediaSegment>::empty()) == Seq::<(Seq<char>, i64, i64)>::empty());
    let x = (
        if seg.segment_type@ == "Outro"@ {
            "Credits"@
        } else {
            seg.segment_type@
        },
        seg.start_ticks,
        seg.end_ticks,
    );
    assert(Seq::<(Seq<char>, i64, i64)>::empty().push(x) =~= seq![x]);
    if seg.segment_type@ == "Outro"@ {
        reveal_strlit("Outro");
        reveal_strlit("Credits");
        reveal_strlit("Intro");
        reveal_strlit("Recap");
        reveal_strlit("Preview");
        reveal_strlit("Commercial");
    }
}

/// Segments are considered one by one and in order: the offer for a list
/// of segments followed by another is the offer for the first followed by
/// the offer for the second.
pub proof fn law_usable_media_segments_concat(a: Seq<MediaSegment>, b: Seq<MediaSegment>)
    ensures
        usable_media_segments_spec(a + b) == usable_media_segments_spec(a)
            + usable_media_segments_spec(b),
    decreases b.len(),
{
    if b.len() == 0 {
        assert(a + b =~= a);
        assert(usable_media_segments_spec(a) + Seq::empty() =~= usable_media_segments_spec(a));
    } else {
        law_usable_media_segments_concat(a, b.drop_last());
        assert((a + b).drop_last() =~= a + b.drop_last());
        assert((a + b).last() == b.last());
        let pa = usable_media_segments_spec(a);
        let pb = usable_media_segments_spec(b.drop_last());
        match media_segment_kind_spec(b.last().segment_type@) {
            Some(kind) => if b.last().end_ticks > b.last().start_ticks {
                assert((pa + pb).push((kind, b.last().start_ticks, b.last().end_ticks)) =~= pa
                    + pb.push((kind, b.last().start_ticks, b.last().end_ticks)));
            },
            None => {},
        }
    }
}

/// Every segment offered for skipping, from any source, is of one of the
/// skippable kinds `Intro`, `Credits`, `Recap`, `Preview` and `Commercial`.
pub proof fn law_skip_kinds_are_known(mode: Seq<char>, segment_type: Seq<char>, segments: Seq<
    MediaSegment,
>)
    ensures
        intro_skipper_kind_spec(mode) matches Some(k) ==> is_skip_kind(k),
        media_segment_kind_spec(segment_type) matches Some(k) ==> is_skip_kind(k),
        is_skip_kind("Intro"@),
        forall|i: int|
            0 <= i < usable_media_segments_spec(segments).len() ==> is_skip_kind(
                #[trigger] usable_media_segments_spec(segments)[i].0,
            ),
    decreases segments.len(),
{
    if segments.len() > 0 {
        law_skip_kinds_are_known(mode, segment_type, segments.drop_last());
        law_skip_kinds_are_known(mode, segments.last().segment_type@, Seq::empty());
        let prev = usable_media_segments_spec(segments.drop_last());
        let all = usable_media_segments_spec(segments);
        assert forall|i: int| 0 <= i < all.len() implies is_skip_kind(#[trigger] all[i].0) by {
            if i < prev.len() {
                assert(all[i] == prev[i]);
            }
        }
    }
}

} // verus!
