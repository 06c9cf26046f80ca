//! The naming rule the UI transport applies to command names, and the scan that reads
//! the field names an interface declares.

/// `'library.setFilters'` in the contract is `library_set_filters` on the host.
fn to_command_name(declared: &str) -> String {
    let mut out = String::with_capacity(declared.len() + 4);
    for c in declared.chars() {
        match c {
            '.' => out.push('_'),
            c if c.is_ascii_uppercase() => {
                out.push('_');
                out.push(c.to_ascii_lowercase());
            }
            c => out.push(c),
        }
    }
    out
}

/// The field names of one `export interface` in the contract.
///
/// Field lines end in a semicolon; the doc comments around them do not, which is enough
/// to tell them apart without parsing TypeScript.
fn declared_fields(contract: &str, interface: &str) -> Vec<String> {
    let start = contract
        .find(&format!("export interface {interface} {{"))
        .unwrap_or_else(|| panic!("the contract declares {interface}"));
    let rest = &contract[start..];
    let end = rest.find("\n}").expect("the interface is closed");

    rest[..end]
        .lines()
        .skip(1)
        .filter_map(|line| {
            let line = line.trim();
            if !line.ends_with(';') || line.starts_with('*') || line.starts_with('/') {
                return None;
            }
            let (name, _) = line.split_once(':')?;
            Some(name.trim_end_matches('?').to_string())
        })
        .filter(|name| name.chars().all(|c| c.is_ascii_alphanumeric() || c == '_'))
        .collect()
}

#[test]
fn the_name_mapping_matches_the_transport() {
    // The same transformation `src-ui/src/ipc/index.ts` applies before calling invoke.
    assert_eq!(to_command_name("library.setFilters"), "library_set_filters");
    assert_eq!(to_command_name("providers.list"), "providers_list");
    assert_eq!(to_command_name("player.playCatchup"), "player_play_catchup");
    assert_eq!(to_command_name("dvr.list"), "dvr_list");
}

#[test]
fn the_field_scan_reads_names_and_not_the_prose_around_them() {
    let sample = "export interface PlayerState {\n\
                  \x20 /** What is loaded, for the OSD title. */\n\
                  \x20 title: string | null;\n\
                  \x20 /**\n\
                  \x20  * Several lines: status: not a field.\n\
                  \x20  */\n\
                  \x20 match?: number;\n\
                  \x20 stats: PlaybackStats | null;\n\
                  }\n";
    assert_eq!(
        declared_fields(sample, "PlayerState"),
        ["title", "match", "stats"]
    );
}

