use fastfin::jellyfin::{
    auth_header, authenticate_url, build_stream_url, check_status, collapse_episodes_into_series,
    episode_series_ids, episodes_url, first_skip_source, intro_skipper_kind, intro_timestamps_kind,
    item_url, items_url, join_ids, latest_items_url, libraries_url, media_segment_kind,
    next_episode_index, next_episode_query, next_skip_source, next_up_query, next_up_url,
    normalize_server_url, played_url, playlists_url, playstate_path, playstate_url, reach_error, resume_url,
    search_query, search_url, seasons_url, series_episodes_url, series_lookup_query,
    similar_items_url, skip_source_url, usable_media_segments, decode_error, Endpoint, ItemKey,
    MediaSegment, Pick, PlaystateReport, Session, SkipSource,
};

fn session() -> Session {
    Session {
        server_url: "http://dell:8096".to_string(),
        user_id: "u1".to_string(),
        access_token: "tok".to_string(),
        device_id: "dev".to_string(),
    }
}

fn item(id: &str, item_type: &str, series_id: Option<&str>) -> ItemKey {
    ItemKey {
        id: id.to_string(),
        item_type: item_type.to_string(),
        series_id: series_id.map(|s| s.to_string()),
    }
}

#[test]
fn normalizes_missing_and_malformed_schemes() {
    assert_eq!(normalize_server_url("dell:8096"), "http://dell:8096");
    assert_eq!(normalize_server_url("http:dell:8096"), "http://dell:8096");
    assert_eq!(normalize_server_url("http://dell:8096"), "http://dell:8096");
    assert_eq!(normalize_server_url("http://dell:8096/"), "http://dell:8096");
    assert_eq!(normalize_server_url("https:jellyfin.example.com"), "https://jellyfin.example.com");
    assert_eq!(normalize_server_url("https://jellyfin.example.com/"), "https://jellyfin.example.com");
}

#[test]
fn normalize_trims_whitespace_and_extra_slashes() {
    assert_eq!(normalize_server_url("  https:///host:8920//  "), "https:///host:8920");
    assert_eq!(normalize_server_url("https:////host"), "https:////host");
    assert_eq!(normalize_server_url("https:/host//"), "https://host");
    assert_eq!(normalize_server_url("\thttp:/host\n"), "http://host");
    assert_eq!(normalize_server_url(""), "http://");
    assert_eq!(normalize_server_url("\u{3000}host\u{00A0}"), "http://host");
}

#[test]
fn normalize_is_idempotent_on_examples() {
    for input in ["dell:8096", "https:x//", " http://a/b/ ", "http:///", "https://h"] {
        let once = normalize_server_url(input);
        assert_eq!(normalize_server_url(&once), once);
    }
}

#[test]
fn normalize_not_idempotent_when_result_ends_in_whitespace() {
    let once = normalize_server_url("http://a /");
    assert_eq!(once, "http://a ");
    assert_eq!(normalize_server_url(&once), "http://a");
}

#[test]
fn auth_header_without_and_with_token() {
    assert_eq!(
        auth_header("dev-1", None),
        r#"MediaBrowser Client="FastFin", Device="Windows Desktop", DeviceId="dev-1", Version="0.3.0""#
    );
    assert_eq!(
        auth_header("dev-1", Some("abc")),
        r#"MediaBrowser Client="FastFin", Device="Windows Desktop", DeviceId="dev-1", Version="0.3.0", Token="abc""#
    );
}

#[test]
fn endpoint_urls() {
    let s = session();
    assert_eq!(authenticate_url("http://dell:8096"), "http://dell:8096/Users/AuthenticateByName");
    assert_eq!(libraries_url(&s), "http://dell:8096/Users/u1/Views");
    assert_eq!(
        items_url(&s, "lib"),
        "http://dell:8096/Users/u1/Items?ParentId=lib&Fields=Overview,ProductionYear,RunTimeTicks,DateCreated,Genres"
    );
    assert_eq!(
        latest_items_url(&s, "lib"),
        "http://dell:8096/Users/u1/Items/Latest?ParentId=lib&Limit=16&Fields=Overview,ProductionYear,RunTimeTicks"
    );
    assert_eq!(
        item_url(&s, "i9"),
        "http://dell:8096/Users/u1/Items/i9?Fields=Overview,ProductionYear,RunTimeTicks,Genres,Taglines"
    );
    assert_eq!(seasons_url(&s, "sr"), "http://dell:8096/Shows/sr/Seasons?userId=u1&Fields=Overview,ProductionYear");
    assert_eq!(series_episodes_url(&s, "sr"), "http://dell:8096/Shows/sr/Episodes?userId=u1");
    assert_eq!(
        episodes_url(&s, "sr", "se"),
        "http://dell:8096/Shows/sr/Episodes?seasonId=se&userId=u1&Fields=Overview,ProductionYear,RunTimeTicks"
    );
    assert_eq!(
        next_up_url(&s),
        "http://dell:8096/Shows/NextUp?userId=u1&Limit=20&Fields=Overview,ProductionYear,RunTimeTicks"
    );
    assert_eq!(played_url(&s, "i9"), "http://dell:8096/Users/u1/PlayedItems/i9");
    assert_eq!(playlists_url(&s), "http://dell:8096/Users/u1/Items?IncludeItemTypes=Playlist&Recursive=true");
    assert_eq!(
        resume_url(&s),
        "http://dell:8096/Users/u1/Items/Resume?Limit=20&Fields=Overview,ProductionYear,RunTimeTicks"
    );
    assert_eq!(
        search_url(&s),
        "http://dell:8096/Users/u1/Items?Recursive=true&IncludeItemTypes=Movie,Series&Limit=60&Fields=Overview,ProductionYear,RunTimeTicks"
    );
    assert_eq!(
        similar_items_url(&s, "i9"),
        "http://dell:8096/Items/i9/Similar?userId=u1&Limit=12&Fields=Overview,ProductionYear,RunTimeTicks"
    );
    assert_eq!(
        build_stream_url(&s, "i9", "ps"),
        "http://dell:8096/Videos/i9/stream?static=true&api_key=tok&PlaySessionId=ps"
    );
    assert_eq!(playstate_path(PlaystateReport::Progress), "/Sessions/Playing/Progress");
    assert_eq!(playstate_url(&s, PlaystateReport::Start), "http://dell:8096/Sessions/Playing");
    assert_eq!(playstate_url(&s, PlaystateReport::Progress), "http://dell:8096/Sessions/Playing/Progress");
    assert_eq!(playstate_url(&s, PlaystateReport::Stopped), "http://dell:8096/Sessions/Playing/Stopped");
}

#[test]
fn endpoint_queries() {
    assert!(next_up_query(None).is_empty());
    assert_eq!(next_up_query(Some("sr")), vec![("seriesId".to_string(), "sr".to_string())]);
    assert_eq!(
        next_episode_query("e1"),
        vec![("startItemId".to_string(), "e1".to_string()), ("limit".to_string(), "2".to_string())]
    );
    assert_eq!(search_query("a b&c"), vec![("SearchTerm".to_string(), "a b&c".to_string())]);
    let ids = vec!["a".to_string(), "b".to_string(), "c".to_string()];
    assert_eq!(join_ids(&ids), "a,b,c");
    assert_eq!(join_ids(&vec![]), "");
    assert_eq!(series_lookup_query(&ids), vec![("Ids".to_string(), "a,b,c".to_string())]);
}

#[test]
fn status_success_and_failure_messages() {
    assert_eq!(check_status(200, Endpoint::Libraries), Ok(()));
    assert_eq!(check_status(204, Endpoint::WatchedState), Ok(()));
    assert_eq!(check_status(404, Endpoint::Libraries), Err("Failed to load libraries: 404 Not Found".to_string()));
    assert_eq!(
        check_status(401, Endpoint::Login),
        Err("Login failed: server responded with 401 Unauthorized".to_string())
    );
    assert_eq!(check_status(500, Endpoint::Search), Err("Search failed: 500 Internal Server Error".to_string()));
    assert_eq!(
        check_status(302, Endpoint::Resume),
        Err("Failed to load continue watching: 302 Found".to_string())
    );
    assert_eq!(
        check_status(599, Endpoint::NextUp),
        Err("Failed to load next up: 599 <unknown status code>".to_string())
    );
    assert_eq!(reach_error("timeout"), "Failed to reach server: timeout");
    assert_eq!(decode_error("bad json"), "Unexpected response from server: bad json");
}

#[test]
fn series_ids_of_episodes_only() {
    let latest = vec![
        item("s1", "Series", None),
        item("e1", "Episode", Some("s2")),
        item("m1", "Movie", None),
        item("e2", "Episode", None),
        item("e3", "Episode", Some("s1")),
    ];
    assert_eq!(episode_series_ids(&latest), vec!["s2".to_string(), "s1".to_string()]);
    assert!(episode_series_ids(&vec![item("m", "Movie", Some("x"))]).is_empty());
}

#[test]
fn lone_episodes_fold_into_their_series() {
    let latest = vec![
        item("s1", "Series", None),
        item("e1", "Episode", Some("s2")),
        item("m1", "Movie", None),
        item("e3", "Episode", Some("s1")),
        item("e4", "Episode", Some("gone")),
        item("e5", "Episode", Some("s2")),
    ];
    let fetched = vec![item("s2", "Series", None), item("s1", "Series", None)];
    assert_eq!(
        collapse_episodes_into_series(&latest, &fetched),
        vec![Pick::Latest(0), Pick::Series(0), Pick::Latest(2), Pick::Latest(4)]
    );
}

#[test]
fn fold_uses_last_duplicate_series() {
    let latest = vec![item("e1", "Episode", Some("s"))];
    let fetched = vec![item("s", "Series", None), item("x", "Series", None), item("s", "Series", None)];
    assert_eq!(collapse_episodes_into_series(&latest, &fetched), vec![Pick::Series(2)]);
}

#[test]
fn fold_without_episodes_is_identity() {
    let latest = vec![item("a", "Movie", None), item("b", "Series", None)];
    assert_eq!(collapse_episodes_into_series(&latest, &vec![]), vec![Pick::Latest(0), Pick::Latest(1)]);
}

#[test]
fn row_without_episodes_keeps_repeats() {
    let latest = vec![item("a", "Movie", None), item("a", "Movie", None), item("e", "Episode", None)];
    assert_eq!(
        collapse_episodes_into_series(&latest, &vec![]),
        vec![Pick::Latest(0), Pick::Latest(1), Pick::Latest(2)]
    );
}

#[test]
fn row_with_episodes_drops_repeats() {
    let latest = vec![item("a", "Movie", None), item("a", "Movie", None), item("e", "Episode", Some("s"))];
    assert_eq!(
        collapse_episodes_into_series(&latest, &vec![item("s", "Series", None)]),
        vec![Pick::Latest(0), Pick::Series(0)]
    );
}

#[test]
fn next_episode_is_second_entry_of_started_list() {
    let list = vec![item("e1", "Episode", Some("s")), item("e2", "Episode", Some("s"))];
    assert_eq!(next_episode_index(&list, "e1"), Some(1));
    assert_eq!(next_episode_index(&list, "e2"), None);
    assert_eq!(next_episode_index(&vec![item("e1", "Episode", Some("s"))], "e1"), None);
    assert_eq!(next_episode_index(&vec![], "e1"), None);
}

#[test]
fn skip_sources_in_order() {
    let s = session();
    let first = first_skip_source();
    assert_eq!(first, SkipSource::IntroSkipper);
    assert_eq!(next_skip_source(SkipSource::IntroSkipper), Some(SkipSource::IntroTimestamps));
    assert_eq!(next_skip_source(SkipSource::IntroTimestamps), Some(SkipSource::MediaSegments));
    assert_eq!(next_skip_source(SkipSource::MediaSegments), None);
    assert_eq!(
        skip_source_url(&s, "e1", SkipSource::IntroSkipper),
        "http://dell:8096/Episode/e1/IntroSkipperSegments"
    );
    assert_eq!(skip_source_url(&s, "e1", SkipSource::IntroTimestamps), "http://dell:8096/Episode/e1/IntroTimestamps");
    assert_eq!(skip_source_url(&s, "e1", SkipSource::MediaSegments), "http://dell:8096/MediaSegments/e1");
}

#[test]
fn segment_kinds_are_normalized() {
    assert_eq!(intro_skipper_kind("Introduction"), Some("Intro".to_string()));
    assert_eq!(intro_skipper_kind("Credits"), Some("Credits".to_string()));
    assert_eq!(intro_skipper_kind("Recap"), Some("Recap".to_string()));
    assert_eq!(intro_skipper_kind("Outro"), None);
    assert_eq!(intro_skipper_kind("Mystery"), None);
    assert_eq!(intro_timestamps_kind(), "Intro");
    assert_eq!(media_segment_kind("Outro"), Some("Credits".to_string()));
    assert_eq!(media_segment_kind("Recap"), Some("Recap".to_string()));
    assert_eq!(media_segment_kind("Intro"), Some("Intro".to_string()));
    assert_eq!(media_segment_kind("Preview"), Some("Preview".to_string()));
    assert_eq!(media_segment_kind("Commercial"), Some("Commercial".to_string()));
    assert_eq!(media_segment_kind("Unknown"), None);
}

#[test]
fn only_forward_media_segments_are_usable() {
    let segs = vec![
        MediaSegment { segment_type: "Intro".to_string(), start_ticks: 0, end_ticks: 900_000_000 },
        MediaSegment { segment_type: "Outro".to_string(), start_ticks: 50, end_ticks: 50 },
        MediaSegment { segment_type: "Unknown".to_string(), start_ticks: 0, end_ticks: 100 },
        MediaSegment { segment_type: "Outro".to_string(), start_ticks: 10, end_ticks: 20 },
    ];
    let usable = usable_media_segments(&segs);
    assert_eq!(usable.len(), 2);
    assert_eq!(usable[0].segment_type, "Intro");
    assert_eq!((usable[0].start_ticks, usable[0].end_ticks), (0, 900_000_000));
    assert_eq!(usable[1].segment_type, "Credits");
    assert_eq!((usable[1].start_ticks, usable[1].end_ticks), (10, 20));
}
