use aurora_core::tmdb::{cast, crew_by_job, Credit, Person, Query};

#[test]
fn a_query_is_built_from_a_scene_style_stream_name() {
    let q = Query::from_stream_name("Inception.2010.1080p.WEB-DL.x265-MULTI");
    assert_eq!(q.title, "Inception");
    assert_eq!(q.year, Some(2010));
}

#[test]
fn cast_comes_back_in_billing_order() {
    let person = |id: i64, name: &str| Person {
        tmdb_id: id,
        name: name.into(),
        profile_path: None,
    };
    let credits = vec![
        Credit {
            person: person(3, "Third"),
            role: Some("C".into()),
            is_cast: true,
            order: 2,
        },
        Credit {
            person: person(1, "First"),
            role: Some("A".into()),
            is_cast: true,
            order: 0,
        },
        Credit {
            person: person(9, "Director"),
            role: Some("Director".into()),
            is_cast: false,
            order: 0,
        },
        Credit {
            person: person(2, "Second"),
            role: Some("B".into()),
            is_cast: true,
            order: 1,
        },
    ];
    let names = |positions: Vec<usize>| -> Vec<String> {
        positions.iter().map(|&i| credits[i].person.name.clone()).collect()
    };

    assert_eq!(
        names(cast(&credits)),
        vec!["First", "Second", "Third"],
        "crew must not appear in the cast list"
    );
    assert_eq!(
        names(crew_by_job(&credits, "director")),
        vec!["Director"],
        "job lookup is case-insensitive"
    );
    assert!(crew_by_job(&credits, "Composer").is_empty());
}

#[test]
fn equal_billing_keeps_the_listed_order() {
    let credit = |name: &str, order: u16| Credit {
        person: Person { tmdb_id: 0, name: name.into(), profile_path: None },
        role: None,
        is_cast: true,
        order,
    };
    let credits = vec![credit("B", 1), credit("A", 0), credit("C", 1)];
    assert_eq!(cast(&credits), vec![1, 0, 2]);
}

#[test]
fn a_query_keeps_what_it_is_given() {
    let q = Query::new("Alone", Some(2020));
    assert_eq!(q.title, "Alone");
    assert_eq!(q.year, Some(2020));
}
