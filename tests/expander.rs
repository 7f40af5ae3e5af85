use zipchord::expander::{ends_word, is_boundary_key, Expander, Injection, KEY_SPACE};
use zipchord::library::ChordLibrary;

const KEY_A: u16 = 30;
const KEY_B: u16 = 48;
const KEY_T: u16 = 20;

fn library() -> ChordLibrary {
    ChordLibrary::parse("[chords]\nKEY_A+KEY_B => about\nKEY_T => etc.\n[suffixes]\nKEY_B => ing\n")
}

#[test]
fn word_boundaries() {
    assert!(ends_word("the "));
    assert!(ends_word("end."));
    assert!(ends_word("x\u{3000}"));
    assert!(ends_word("it's'"));
    assert!(!ends_word("about"));
    assert!(!ends_word(""));
    assert!(is_boundary_key(KEY_SPACE));
    assert!(is_boundary_key(52));
    assert!(!is_boundary_key(KEY_A));
}

#[test]
fn expands_only_at_word_start() {
    let lib = library();
    let mut e = Expander::new();
    assert_eq!(
        e.on_chord(&lib, &[KEY_B, KEY_A]),
        Some(Injection { backspaces: 2, text: "about".to_string() })
    );
    // "about" ends inside a word: the next chord is not expanded
    assert_eq!(e.on_chord(&lib, &[KEY_T]), None);
    // a lone space ends the word; it has no expansion itself
    assert_eq!(e.on_chord(&lib, &[KEY_SPACE]), None);
    assert_eq!(
        e.on_chord(&lib, &[KEY_T]),
        Some(Injection { backspaces: 1, text: "etc.".to_string() })
    );
    // "etc." ends a word, so expansion goes on
    assert_eq!(
        e.on_chord(&lib, &[KEY_B]),
        Some(Injection { backspaces: 1, text: "_ing".to_string() })
    );
}

#[test]
fn unknown_chord_keeps_state() {
    let lib = library();
    let mut e = Expander::new();
    assert_eq!(e.on_chord(&lib, &[99]), None);
    assert_eq!(
        e.on_chord(&lib, &[KEY_T]),
        Some(Injection { backspaces: 1, text: "etc.".to_string() })
    );
}
