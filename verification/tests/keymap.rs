use mtrm::keymap::Keymap;

#[test]
fn default_keymap_covers_extra_common_layout_symbols() {
    let keymap = Keymap::default();

    assert!(keymap.matches_close_pane('a'));
    assert!(keymap.matches_close_tab('z'));
    assert!(keymap.matches_copy('ψ'));
    assert!(keymap.matches_paste('ω'));
    assert!(keymap.matches_interrupt('χ'));
    assert!(keymap.matches_new_tab('τ'));
    assert!(keymap.matches_rename_tab('К'));
    assert!(keymap.matches_rename_pane('E'));
    assert!(keymap.matches_quit(':'));
    assert!(keymap.matches_quit('X'));
    assert!(keymap.matches_quit('Ч'));
    assert!(keymap.matches_quit('Χ'));
}

use mtrm::keymap::{parse_chars, CommandsFile, KeymapError, KeymapFile};

fn strings(values: &[&str]) -> Vec<String> {
    values.iter().map(|v| v.to_string()).collect()
}

fn commands() -> CommandsFile {
    CommandsFile {
        copy: strings(&["c"]),
        paste: strings(&["v"]),
        interrupt: strings(&["x"]),
        close_pane: strings(&["q"]),
        new_tab: strings(&["t", "е"]),
        close_tab: strings(&["w"]),
        rename_tab: strings(&["R"]),
        rename_pane: strings(&["E"]),
        quit: strings(&["X"]),
        previous_tab: strings(&[","]),
        next_tab: strings(&["."]),
    }
}

#[test]
fn keymap_file_with_custom_symbols_reads_into_a_keymap() {
    let keymap = Keymap::try_from(KeymapFile { commands: commands() }).unwrap();
    assert!(keymap.matches_new_tab('t'));
    assert!(keymap.matches_new_tab('е'));
    assert!(!keymap.matches_new_tab('x'));
    assert!(keymap.matches_quit('X'));
    assert!(keymap.matches_previous_tab(','));
}

#[test]
fn keymap_refuses_the_first_command_without_single_characters() {
    let mut c = commands();
    c.close_tab = strings(&["ww"]);
    c.quit = Vec::new();
    match Keymap::try_from(KeymapFile { commands: c }) {
        Err(error) => {
            assert_eq!(error, KeymapError::Invalid("close_tab"));
            assert_eq!(error.message(), "keymap is invalid");
        },
        Ok(_) => panic!("a binding of two characters must be refused"),
    }
}

#[test]
fn parse_chars_needs_single_characters_and_at_least_one() {
    assert_eq!(parse_chars("copy", Vec::new()), Err(KeymapError::Invalid("copy")));
    assert_eq!(parse_chars("copy", strings(&[""])), Err(KeymapError::Invalid("copy")));
    assert_eq!(parse_chars("copy", strings(&["c", "cc"])), Err(KeymapError::Invalid("copy")));
    assert_eq!(parse_chars("copy", strings(&["c", "с", "c"])), Ok(vec!['c', 'с']));
}

#[test]
fn keymap_errors_name_their_kind() {
    assert_eq!(KeymapError::Config.message(), "keymap directory setup failed");
    assert_eq!(KeymapError::Create.message(), "keymap file creation failed");
    assert_eq!(KeymapError::Read.message(), "keymap file read failed");
    assert_eq!(KeymapError::Write.message(), "keymap file write failed");
    assert_eq!(KeymapError::Parse.message(), "keymap parse failed");
}
