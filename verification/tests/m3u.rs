use aurora_core::m3u::{parse, Parsed, PlaylistReader};
use aurora_core::model::MediaKind;

fn parse_str(s: &str) -> Parsed {
    parse(s.as_bytes())
}

#[test]
fn parses_a_normal_playlist() {
    let p = parse_str(
        r#"#EXTM3U url-tvg="https://example.com/epg.xml.gz"
#EXTINF:-1 tvg-id="cnn.us" tvg-name="CNN" tvg-logo="https://example.com/cnn.png" tvg-chno="202" group-title="News",CNN HD
https://example.com/live/cnn.ts
"#,
    );
    assert_eq!(p.header.epg_urls, vec!["https://example.com/epg.xml.gz"]);
    assert_eq!(p.result.entries.len(), 1);
    let e = &p.result.entries[0];
    assert_eq!(e.name, "CNN HD");
    assert_eq!(e.tvg_id.as_deref(), Some("cnn.us"));
    assert_eq!(e.number, Some(202));
    assert_eq!(e.group.as_deref(), Some("News"));
    assert_eq!(e.kind, MediaKind::Live);
}

#[test]
fn comma_inside_a_quoted_attribute_does_not_split_the_name() {
    let p = parse_str(
        "#EXTM3U\n#EXTINF:-1 group-title=\"Movies, Action\",Die Hard\nhttps://example.com/m/1.mkv\n",
    );
    let e = &p.result.entries[0];
    assert_eq!(e.name, "Die Hard");
    assert_eq!(e.group.as_deref(), Some("Movies, Action"));
}

#[test]
fn survives_a_utf8_bom_and_crlf() {
    let p = parse_str("\u{feff}#EXTM3U\r\n#EXTINF:-1,BBC One\r\nhttps://example.com/1.ts\r\n");
    assert_eq!(p.result.entries.len(), 1);
    assert_eq!(p.result.entries[0].name, "BBC One");
}

#[test]
fn one_broken_line_does_not_lose_the_rest() {
    let p = parse_str(
        "#EXTM3U\n\
         #EXTINF:-1,Good One\nhttps://example.com/a.ts\n\
         this-is-not-a-url\n\
         #EXTINF:-1,Good Two\nhttps://example.com/b.ts\n",
    );
    assert_eq!(p.result.entries.len(), 2);
    assert_eq!(p.result.skipped, 1);
    assert!(!p.result.warnings.is_empty());
}

#[test]
fn extinf_with_no_url_is_reported_not_merged() {
    let p = parse_str("#EXTM3U\n#EXTINF:-1,Orphan\n#EXTINF:-1,Real\nhttps://example.com/r.ts\n");
    assert_eq!(p.result.entries.len(), 1);
    assert_eq!(p.result.entries[0].name, "Real");
    assert!(p
        .result
        .warnings
        .iter()
        .any(|w| w.message.contains("no URL")));
}

#[test]
fn deduplicates_identical_urls() {
    let p = parse_str(
        "#EXTM3U\n#EXTINF:-1,A\nhttps://example.com/x.ts\n#EXTINF:-1,A again\nhttps://example.com/x.ts\n",
    );
    assert_eq!(p.result.entries.len(), 1);
    assert_eq!(p.result.skipped, 1);
}

#[test]
fn reads_extvlcopt_headers() {
    let p = parse_str(
        "#EXTM3U\n#EXTINF:-1,Ch\n#EXTVLCOPT:http-user-agent=AuroraAgent/1.0\n#EXTVLCOPT:http-referrer=https://example.com/\nhttps://example.com/s.ts\n",
    );
    let e = &p.result.entries[0];
    assert_eq!(e.http.user_agent.as_deref(), Some("AuroraAgent/1.0"));
    assert_eq!(e.http.referrer.as_deref(), Some("https://example.com/"));
}

#[test]
fn extgrp_applies_when_group_title_is_absent() {
    let p = parse_str("#EXTM3U\n#EXTINF:-1,Ch\n#EXTGRP:Sports\nhttps://example.com/s.ts\n");
    assert_eq!(p.result.entries[0].group.as_deref(), Some("Sports"));
}

#[test]
fn parses_catchup_and_shift() {
    let p = parse_str(
        "#EXTM3U\n#EXTINF:-1 catchup=\"shift\" catchup-days=\"5\" tvg-shift=\"-1.5\",Ch\nhttps://example.com/s.ts\n",
    );
    let e = &p.result.entries[0];
    let c = e.catchup.as_ref().unwrap();
    assert_eq!(c.mode, "shift");
    assert_eq!(c.days, 5);
    assert_eq!(e.shift_minutes, -90);
}

#[test]
fn unquoted_attribute_values_are_accepted() {
    let p = parse_str("#EXTM3U\n#EXTINF:-1 tvg-chno=5 tvg-id=abc,Ch\nhttps://example.com/s.ts\n");
    let e = &p.result.entries[0];
    assert_eq!(e.number, Some(5));
    assert_eq!(e.tvg_id.as_deref(), Some("abc"));
}

#[test]
fn empty_input_warns_instead_of_panicking() {
    let p = parse_str("");
    assert!(p.result.entries.is_empty());
    assert!(!p.result.warnings.is_empty());
}

#[test]
fn invalid_utf8_is_replaced_not_fatal() {
    let bytes = b"#EXTM3U\n#EXTINF:-1,Caf\xe9 TV\nhttps://example.com/c.ts\n".to_vec();
    let p = parse(&bytes);
    assert_eq!(p.result.entries.len(), 1);
}

#[test]
fn a_percent_escape_before_a_multibyte_character_does_not_panic() {
    let p = parse_str(
        "#EXTM3U\n#EXTINF:-1,Ch\n\
         #KODIPROP:inputstream.adaptive.stream_headers=User-Agent=%a\u{e9}\n\
         https://example.com/s.ts\n",
    );
    assert_eq!(p.result.entries.len(), 1);
    assert!(p.result.entries[0].http.user_agent.is_some());
}

#[test]
fn truncated_and_invalid_escapes_are_left_alone() {
    for tail in ["%", "%2", "%zz", "%2z", "%\u{e9}", "\u{e9}%", "%%41"] {
        let p = parse_str(&format!(
            "#EXTM3U\n#EXTINF:-1,Ch\n\
             #KODIPROP:inputstream.adaptive.stream_headers=User-Agent={tail}\n\
             https://example.com/s.ts\n"
        ));
        assert_eq!(p.result.entries.len(), 1, "{tail:?}");
    }
}

#[test]
fn percent_escapes_decode_to_utf8_not_latin1() {
    let p = parse_str(
        "#EXTM3U\n#EXTINF:-1,Ch\n\
         #KODIPROP:inputstream.adaptive.stream_headers=User-Agent=Caf%C3%A9%20TV\n\
         https://example.com/s.ts\n",
    );
    assert_eq!(
        p.result.entries[0].http.user_agent.as_deref(),
        Some("Caf\u{e9} TV")
    );
}

#[test]
fn a_bare_colon_line_is_not_mistaken_for_a_windows_path() {
    let p = parse_str(
        "#EXTM3U\n\
         #EXTINF:-1,Junk\n\
         a:b\n\
         #EXTINF:-1,Also junk\n\
         1:30\n\
         #EXTINF:-1,Real\n\
         C:\\Videos\\clip.mkv\n",
    );
    assert_eq!(p.result.entries.len(), 1);
    assert_eq!(p.result.entries[0].name, "Real");
    assert_eq!(p.result.skipped, 2);
}

#[test]
fn missing_comma_does_not_abort_the_file() {
    let p = parse_str(
        "#EXTM3U\n#EXTINF:-1 tvg-id=\"x\"\nhttps://example.com/a.ts\n#EXTINF:-1,Fine\nhttps://example.com/b.ts\n",
    );
    assert_eq!(p.result.entries.len(), 2);
    assert_eq!(p.result.entries[0].tvg_id.as_deref(), Some("x"));
}

#[test]
fn a_nameless_entry_falls_back_to_its_tvg_name_then_unnamed() {
    let p = parse_str(
        "#EXTM3U\n#EXTINF:-1 tvg-name=\"From Attr\",\nhttps://example.com/a.ts\n#EXTINF:-1,\nhttps://example.com/b.ts\n",
    );
    assert_eq!(p.result.entries[0].name, "From Attr");
    assert_eq!(p.result.entries[1].name, "Unnamed");
}

#[test]
fn header_lists_every_guide_url_and_the_playlist_name() {
    let p = parse_str("#EXTM3U x-tvg-url=\"a.xml, b.xml,,\" name=\"Mine\"\n#PLAYLIST: Better Name \n");
    assert_eq!(p.header.epg_urls, vec!["a.xml", "b.xml"]);
    assert_eq!(p.header.name.as_deref(), Some("Better Name"));
    assert!(p.result.entries.is_empty());
}

#[test]
fn a_trailing_entry_without_a_url_is_counted() {
    let p = parse_str("#EXTM3U\n#EXTINF:-1,Lonely\n");
    assert_eq!(p.result.skipped, 1);
    assert!(p.result.warnings[0].message.contains("trailing entry"));
}

#[test]
fn shift_rounds_to_whole_minutes_and_ignores_what_is_not_a_number() {
    let p = parse_str(
        "#EXTM3U\n#EXTINF:-1 tvg-shift=\"2\",A\nhttp://x/a\n#EXTINF:-1 tvg-shift=\"0.025\",B\nhttp://x/b\n#EXTINF:-1 tvg-shift=\"abc\",C\nhttp://x/c\n#EXTINF:-1 timeshift=\"+.5\",D\nhttp://x/d\n",
    );
    let shifts: Vec<i32> = p.result.entries.iter().map(|e| e.shift_minutes).collect();
    assert_eq!(shifts, vec![120, 2, 0, 30]);
}

#[test]
fn radio_and_catchup_defaults() {
    let p = parse_str(
        "#EXTM3U\n#EXTINF:-1 radio=\" Yes \" catchup-type=\"append\" catchup-days=\"x\" user-agent=\"UA\",R\nhttp://x/r\n",
    );
    let e = &p.result.entries[0];
    assert!(e.is_radio);
    let c = e.catchup.as_ref().unwrap();
    assert_eq!(c.mode, "append");
    assert_eq!(c.days, 7);
    assert_eq!(e.http.user_agent.as_deref(), Some("UA"));
}

#[test]
fn each_entry_comes_from_its_own_line_in_order() {
    let text = "#EXTM3U\n#EXTINF:-1,One\n  https://example.com/1.ts  \r\n#EXTINF:-1 tvg-name=\" \",\nhttps://example.com/2.ts\nhttps://example.com/1.ts\n#EXTINF:-1,Three\nhttp://example.com/3.ts\n";
    let p = parse_str(text);
    let lines: Vec<&str> = text.split('\n').collect();
    let e = &p.result.entries;
    assert_eq!(e.len(), 3);
    for (i, entry) in e.iter().enumerate() {
        assert_eq!(entry.url, lines[entry.source_line - 1].trim());
        assert!(!entry.name.is_empty());
        if i > 0 {
            assert!(e[i - 1].source_line < entry.source_line);
        }
    }
    assert_eq!(e[1].name, "Unnamed");
}

#[test]
fn reading_line_by_line_gives_what_parsing_the_file_gives() {
    let text = "\u{feff}#EXTM3U url-tvg=\"http://g/x.xml\"\r\n#EXTINF:-1 group-title=\"News\",One\r\nhttp://a/1.ts\r\n#EXTINF:-1,Lost\n#EXTINF:-1,Two\nhttp://a/2.ts\nhttp://a/1.ts\n#EXTINF:-1,Tail\n";
    let whole = parse_str(text);
    let mut reader = PlaylistReader::new();
    for line in text.as_bytes().split(|b| *b == b'\n') {
        reader.feed(line);
    }
    assert_eq!(reader.lines_read(), text.split('\n').count());
    let streamed = reader.finish();
    assert_eq!(streamed.result.entries, whole.result.entries);
    assert_eq!(streamed.result.warnings, whole.result.warnings);
    assert_eq!(streamed.result.skipped, whole.result.skipped);
    assert_eq!(streamed.header.epg_urls, whole.header.epg_urls);
    assert_eq!(streamed.result.entries.len(), 2);
    assert_eq!(streamed.result.skipped, 3);
}

#[test]
fn a_repeated_url_keeps_its_first_entry() {
    let p = parse_str(
        "#EXTM3U\n#EXTINF:-1,First\nhttps://example.com/x.ts\n#EXTINF:-1,Second\nhttps://example.com/x.ts\n",
    );
    assert_eq!(p.result.entries.len(), 1);
    assert_eq!(p.result.entries[0].name, "First");
    assert_eq!(p.result.entries[0].source_line, 3);
}
