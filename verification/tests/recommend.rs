use aurora_core::recommend::{decade, display_genre, heading, key, normalise, Kind, Reason};

#[test]
fn genre_labels_are_printable_whatever_case_they_arrived_in() {
    assert_eq!(display_genre("science fiction"), "Science Fiction");
    assert_eq!(display_genre("horror"), "Horror");
    assert_eq!(display_genre(""), "");
}

#[test]
fn every_reason_reads_as_a_line_under_a_poster() {
    assert_eq!(
        Reason::Because { title: "Heat".to_string() }.label(),
        "Because you watched Heat"
    );
    assert_eq!(Reason::Genre { genre: "Crime".to_string() }.label(), "More Crime");
    assert_eq!(Reason::HighlyRated.label(), "Highly rated");
    assert_eq!(Reason::JustAdded.label(), "Just added");
}

#[test]
fn kinds_have_stable_names_and_spaces_are_kept() {
    assert_eq!(Kind::Movie.as_str(), "movie");
    assert_eq!(Kind::Series.as_str(), "series");
    assert_eq!(display_genre("sci  fi"), "Sci  Fi");
    assert_eq!(display_genre("élan vital"), "Élan Vital");
}

#[test]
fn reason_keys_match_how_the_rail_keys_progress() {
    assert_eq!(key(Kind::Movie, 12), "movie:12");
    assert_eq!(key(Kind::Series, 7), "series:7");
}

#[test]
fn title_case_survives_the_shapes_genres_actually_arrive_in() {
    assert_eq!(display_genre("science fiction"), "Science Fiction");
    assert_eq!(display_genre("tv movie"), "Tv Movie");
    assert_eq!(display_genre(""), "");
}

#[test]
fn genres_are_matched_trimmed_and_lower_cased() {
    assert_eq!(normalise(" SCI-FI "), "sci-fi");
    assert_eq!(normalise("Sci-Fi"), "sci-fi");
}

#[test]
fn years_fall_into_decades() {
    assert_eq!(decade(1994), 1990);
    assert_eq!(decade(2000), 2000);
    assert_eq!(decade(-5), -10);
}

fn genres(names: &[&str]) -> Vec<String> {
    names.iter().map(|n| n.to_string()).collect()
}

#[test]
fn a_heading_names_the_viewers_own_taste() {
    assert_eq!(heading(true, &genres(&["sci-fi", "crime", "drama"])), "More Sci-fi and Crime");
    assert_eq!(heading(true, &genres(&["horror"])), "More Horror");
}

#[test]
fn a_cold_start_does_not_pretend_to_know_them() {
    assert_eq!(heading(false, &genres(&[])), "Worth a look");
    assert_eq!(
        heading(false, &genres(&["sci-fi"])),
        "Worth a look",
        "genres from nowhere must not become a claim about the viewer"
    );
}

#[test]
fn a_known_taste_without_genres_still_says_it_is_for_them() {
    assert_eq!(heading(true, &genres(&[])), "Recommended for you");
    assert_eq!(heading(true, &genres(&["science fiction", "tv movie"])), "More Science Fiction and Tv Movie");
}
