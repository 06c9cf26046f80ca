use aurora_core::model::PlaylistEntry;
use aurora_core::series::{group_series, parse_episode_marker, split_show_and_episode};
use aurora_core::title::match_key;

fn ep(name: &str, url: &str) -> PlaylistEntry {
    PlaylistEntry::new(name, url)
}

#[test]
fn detects_standard_markers() {
    assert_eq!(parse_episode_marker("Show S01E02").unwrap().season, 1);
    assert_eq!(parse_episode_marker("Show s1e2").unwrap().episode, 2);
    assert_eq!(parse_episode_marker("Show 1x02").unwrap().episode, 2);
    assert_eq!(
        parse_episode_marker("Show Season 2 Episode 10")
            .unwrap()
            .episode,
        10
    );
    assert_eq!(parse_episode_marker("Show S01 E05").unwrap().episode, 5);
}

#[test]
fn ignores_names_without_markers() {
    assert!(parse_episode_marker("Inception 2010").is_none());
    assert!(parse_episode_marker("Channel 4 HD").is_none());
}

#[test]
fn resolution_is_not_mistaken_for_an_episode() {
    let m = parse_episode_marker("Movie 1080p");
    assert!(m.is_none(), "unexpected marker: {m:?}");
}

#[test]
fn splits_show_from_episode_title() {
    let (show, ep_title, _) =
        split_show_and_episode("Breaking Bad S01E02 - Cat's in the Bag").unwrap();
    assert_eq!(show, "Breaking Bad");
    assert_eq!(ep_title.as_deref(), Some("Cat's in the Bag"));
}

#[test]
fn groups_a_flat_list_into_shows() {
    let entries = vec![
        ep("Breaking Bad S01E01", "https://example.com/1.mkv"),
        ep("Breaking Bad S01E02", "https://example.com/2.mkv"),
        ep("Breaking Bad S02E01", "https://example.com/3.mkv"),
        ep("The Wire S01E01", "https://example.com/4.mkv"),
    ];
    let (groups, ungrouped) = group_series(&entries);
    assert!(ungrouped.is_empty());
    assert_eq!(groups.len(), 2);

    let bb = groups.iter().find(|g| g.title == "Breaking Bad").unwrap();
    assert_eq!(bb.seasons.len(), 2);
    assert_eq!(bb.seasons[0].number, 1);
    assert_eq!(bb.seasons[0].episodes.len(), 2);
    assert_eq!(bb.seasons[1].episodes.len(), 1);
}

#[test]
fn collapses_naming_variants_of_the_same_show() {
    let entries = vec![
        ep("Breaking Bad S01E01 1080p", "https://example.com/1.mkv"),
        ep("BREAKING BAD s01e02", "https://example.com/2.mkv"),
        ep("Breaking.Bad.S01E03.WEB-DL", "https://example.com/3.mkv"),
    ];
    let (groups, _) = group_series(&entries);
    assert_eq!(groups.len(), 1, "variants should collapse into one show");
    assert_eq!(groups[0].seasons[0].episodes.len(), 3);
}

#[test]
fn episodes_are_sorted_and_deduplicated() {
    let entries = vec![
        ep("Show S01E03", "https://example.com/3.mkv"),
        ep("Show S01E01", "https://example.com/1.mkv"),
        ep("Show S01E03", "https://example.com/3b.mkv"),
    ];
    let (groups, _) = group_series(&entries);
    let nums: Vec<u16> = groups[0].seasons[0]
        .episodes
        .iter()
        .map(|e| e.number)
        .collect();
    assert_eq!(nums, vec![1, 3]);
    assert_eq!(groups[0].seasons[0].episodes[1].url, "https://example.com/3.mkv");
}

#[test]
fn unmarked_entries_are_reported_not_dropped() {
    let entries = vec![
        ep("Show S01E01", "https://example.com/1.mkv"),
        ep("Just A Movie", "https://example.com/2.mkv"),
    ];
    let (groups, ungrouped) = group_series(&entries);
    assert_eq!(groups.len(), 1);
    assert_eq!(ungrouped, vec![1]);
}

#[test]
fn handles_specials_as_season_zero() {
    let entries = vec![ep("Show S00E01 Special", "https://example.com/1.mkv")];
    let (groups, _) = group_series(&entries);
    assert_eq!(groups[0].seasons[0].number, 0);
}

#[test]
fn shows_come_out_in_key_order_with_the_best_quality_and_longest_title() {
    let entries = vec![
        ep("Zeta S01E01", "https://example.com/z.mkv"),
        ep("Alpha S01E01 720p", "https://example.com/a1.mkv"),
        ep("ALPHA S01E02 2160p", "https://example.com/a2.mkv"),
    ];
    let (groups, _) = group_series(&entries);
    assert_eq!(groups.len(), 2);
    assert_eq!(groups[0].title, "Alpha");
    assert_eq!(groups[0].quality.as_deref(), Some("4K"));
    assert_eq!(groups[1].title, "Zeta");
}

#[test]
fn a_marker_reports_its_byte_range() {
    let m = parse_episode_marker("Café S01E02").unwrap();
    assert_eq!((m.start, m.end), (6, 12));
    let (show, ep_title, _) = split_show_and_episode("Café S01E02").unwrap();
    assert_eq!(show, "Café");
    assert_eq!(ep_title, None);
}

#[test]
fn groups_come_out_keyed_by_the_titles_they_carry() {
    let entries = [
        ep("the office S01E01", "http://a/1"),
        ep("The Office! S01E02", "http://a/2"),
        ep("Breaking Bad S02E01", "http://a/3"),
        ep("The Office S01E01", "http://a/4"),
    ];
    let (groups, ungrouped) = group_series(&entries);
    assert!(ungrouped.is_empty());
    assert_eq!(groups.len(), 2);
    let keys: Vec<String> = groups.iter().map(|g| match_key(&g.title)).collect();
    assert!(keys[0] < keys[1]);
    let office = groups.iter().find(|g| match_key(&g.title) == match_key("The Office")).unwrap();
    let eps: Vec<u16> = office.seasons[0].episodes.iter().map(|e| e.number).collect();
    assert_eq!(eps, vec![1, 2]);
    assert_eq!(office.seasons[0].episodes[0].url, "http://a/1", "the first of a repeated episode is kept");
}
