use aurora_core::model::{EpgChannel, Programme};
use aurora_core::xmltv::{Attribute, GuideItem, GuideReader, XmlEvent, XmltvStats};
use quick_xml::events::{BytesStart, Event};
use quick_xml::Reader;

#[derive(Default)]
struct CollectSink {
    channels: Vec<EpgChannel>,
    programmes: Vec<Programme>,
    star_ratings: Vec<Option<String>>,
}

fn attributes(e: &BytesStart) -> Vec<Option<Attribute>> {
    e.attributes()
        .map(|a| {
            a.ok().map(|a| Attribute {
                key: String::from_utf8_lossy(a.key.as_ref()).into_owned(),
                value: a.unescape_value().ok().map(|v| v.into_owned()),
            })
        })
        .collect()
}

fn name_of(name: &[u8]) -> String {
    String::from_utf8_lossy(name).into_owned()
}

fn collect(xml: &str) -> (XmltvStats, CollectSink) {
    let mut reader = Reader::from_reader(xml.as_bytes());
    reader.config_mut().trim_text(true);
    reader.config_mut().check_end_names = false;
    let mut buf = Vec::new();
    let mut guide = GuideReader::new();
    let mut sink = CollectSink::default();
    loop {
        let event = match reader.read_event_into(&mut buf).unwrap() {
            Event::Eof => break,
            Event::Start(e) => XmlEvent::Start(name_of(e.name().as_ref()), attributes(&e)),
            Event::Empty(e) => XmlEvent::Empty(name_of(e.name().as_ref()), attributes(&e)),
            Event::Text(t) => match t.unescape() {
                Ok(v) => XmlEvent::Text(v.into_owned()),
                Err(_) => XmlEvent::Other,
            },
            Event::CData(t) => XmlEvent::Text(String::from_utf8_lossy(t.as_ref()).into_owned()),
            Event::End(e) => XmlEvent::End(name_of(e.name().as_ref())),
            _ => XmlEvent::Other,
        };
        assert!(guide.has_room());
        match guide.step(event) {
            Some(GuideItem::Channel(c)) => sink.channels.push(c),
            Some(GuideItem::Programme(p, star)) => {
                sink.programmes.push(p);
                sink.star_ratings.push(star);
            }
            None => {}
        }
        buf.clear();
    }
    (guide.stats(), sink)
}

#[test]
fn parses_channels_and_programmes() {
    let (stats, sink) = collect(
        r#"<?xml version="1.0"?>
<tv>
  <channel id="cnn.us">
<display-name>CNN</display-name>
<display-name>CNN International</display-name>
<icon src="https://example.com/cnn.png"/>
  </channel>
  <programme start="20240115120000 +0000" stop="20240115130000 +0000" channel="cnn.us">
<title>World News</title>
<sub-title>Midday</sub-title>
<desc>The day so far.</desc>
<category>News</category>
<category>Current Affairs</category>
<episode-num system="xmltv_ns">0.1.0/1</episode-num>
<rating><value>PG</value></rating>
<star-rating><value>7/10</value></star-rating>
<credits><presenter>Someone</presenter><actor>Another</actor></credits>
<new/>
  </programme>
</tv>"#,
    );
    assert_eq!(stats.channels, 1);
    assert_eq!(stats.programmes, 1);

    let c = &sink.channels[0];
    assert_eq!(c.id, "cnn.us");
    assert_eq!(c.display_names.len(), 2);
    assert_eq!(c.icon.as_deref(), Some("https://example.com/cnn.png"));

    let p = &sink.programmes[0];
    assert_eq!(p.title, "World News");
    assert_eq!(p.sub_title.as_deref(), Some("Midday"));
    assert_eq!(p.categories, vec!["News", "Current Affairs"]);
    assert_eq!(p.season, Some(1));
    assert_eq!(p.episode, Some(2));
    assert_eq!(p.rating.as_deref(), Some("PG"));
    assert_eq!(sink.star_ratings[0].as_deref(), Some("7/10"));
    assert!(p.is_new);
    assert_eq!(p.credits.len(), 2);
    assert_eq!(p.duration_secs(), 3600);
}

#[test]
fn onscreen_episode_numbers_work() {
    let (_, sink) = collect(
        r#"<tv><programme start="20240115120000" channel="a"><title>T</title>
        <episode-num system="onscreen">S03E07</episode-num></programme></tv>"#,
    );
    assert_eq!(sink.programmes[0].season, Some(3));
    assert_eq!(sink.programmes[0].episode, Some(7));
}

#[test]
fn missing_stop_gets_a_default_duration() {
    let (_, sink) = collect(
        r#"<tv><programme start="20240115120000 +0000" channel="a"><title>T</title></programme></tv>"#,
    );
    assert_eq!(sink.programmes[0].duration_secs(), 1800);
}

#[test]
fn programmes_without_a_title_or_channel_are_skipped_not_fatal() {
    let (stats, sink) = collect(
        r#"<tv>
          <programme start="20240115120000" channel="a"></programme>
          <programme start="20240115120000"><title>No channel</title></programme>
          <programme start="20240115120000" channel="b"><title>Good</title></programme>
        </tv>"#,
    );
    assert_eq!(stats.programmes, 1);
    assert_eq!(stats.skipped, 2);
    assert_eq!(sink.programmes[0].title, "Good");
}

#[test]
fn cdata_descriptions_survive() {
    let (_, sink) = collect(
        r#"<tv><programme start="20240115120000" channel="a"><title>T</title>
        <desc><![CDATA[Ampersands & <angle> brackets]]></desc></programme></tv>"#,
    );
    assert!(sink.programmes[0]
        .description
        .as_deref()
        .unwrap()
        .contains("Ampersands &"));
}

#[test]
fn stop_before_start_is_rejected() {
    let (stats, _) = collect(
        r#"<tv><programme start="20240115130000 +0000" stop="20240115120000 +0000" channel="a">
        <title>Backwards</title></programme></tv>"#,
    );
    assert_eq!(stats.programmes, 0);
    assert_eq!(stats.skipped, 1);
}

#[test]
fn the_first_title_and_icon_win_and_categories_are_not_repeated() {
    let (_, sink) = collect(
        r#"<tv><programme start="20240115120000" channel="a"><title>First</title><title>Second</title>
        <icon src="one.png"/><icon src="two.png"/>
        <category>Drama</category><category>Drama</category><category></category>
        <desc>A</desc><desc>B</desc><live/><premiere></premiere></programme></tv>"#,
    );
    let p = &sink.programmes[0];
    assert_eq!(p.title, "First");
    assert_eq!(p.icon.as_deref(), Some("one.png"));
    assert_eq!(p.categories, vec!["Drama"]);
    assert_eq!(p.description.as_deref(), Some("A"));
    assert!(p.is_live && p.is_premiere && !p.is_new);
    assert_eq!(p.stop, p.start + 1800);
}

#[test]
fn a_channel_without_an_id_is_skipped_and_counted() {
    let (stats, sink) = collect(r#"<tv><channel><display-name>X</display-name></channel></tv>"#);
    assert_eq!(stats.channels, 0);
    assert_eq!(stats.skipped, 1);
    assert!(sink.channels.is_empty());
}

#[test]
fn xmltv_ns_numbering_counts_from_zero_and_credits_need_a_known_role() {
    let (_, sink) = collect(
        r#"<tv><programme start="20240115120000" channel="a"><title>T</title>
        <episode-num system="xmltv_ns"> 4 . 9/12 .</episode-num>
        <credits><actor>A</actor><stagehand>B</stagehand><writer></writer></credits>
        <rating><value>PG</value></rating><rating><value>R</value></rating></programme></tv>"#,
    );
    let p = &sink.programmes[0];
    assert_eq!(p.season, Some(5));
    assert_eq!(p.episode, Some(10));
    assert_eq!(p.credits.len(), 1);
    assert_eq!(p.credits[0].role, "actor");
    assert_eq!(p.credits[0].name, "A");
    assert_eq!(p.rating.as_deref(), Some("PG"));
}

#[test]
fn the_duration_is_the_gap_between_start_and_stop() {
    let (_, sink) = collect(
        r#"<tv><programme start="20240115120000 +0000" stop="20240115124500 +0000" channel="a"><title>T</title></programme></tv>"#,
    );
    assert_eq!(sink.programmes[0].duration_secs(), 2700);
    assert_eq!(sink.programmes[0].start, 1_705_320_000);
}
