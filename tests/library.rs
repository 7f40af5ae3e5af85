use zipchord::library::{ChordLibrary, ChordTable, LibraryParser};

const KEY_A: u16 = 30;
const KEY_B: u16 = 48;
const KEY_E: u16 = 18;
const KEY_P: u16 = 25;
const KEY_S: u16 = 31;

const SOURCE: &str = "# English chords\n\
name: English\n\
language:  en \n\
version: 1.0\n\
about => outside any section\n\
[chords]\n\
KEY_B + KEY_A => about # a comment\n\
KEY_A => a\n\
[Prefixes]\n\
KEY_P => pre\n\
[suffixes]\n\
KEY_S => ing\n\
[exceptions]\n\
KEY_E => except\n\
a stray line\n";

#[test]
fn chord_key_is_sorted_names() {
    let lib = ChordLibrary::parse("");
    assert_eq!(lib.chord_to_string(&[KEY_B, KEY_A]), "KEY_A+KEY_B");
    assert_eq!(lib.chord_to_string(&[KEY_A]), "KEY_A");
    assert_eq!(lib.chord_to_string(&[]), "");
}

#[test]
fn reads_metadata_and_tables() {
    let lib = ChordLibrary::parse(SOURCE);
    assert_eq!(lib.meta.name, "English");
    assert_eq!(lib.meta.language, "en");
    assert_eq!(lib.meta.version, "1.0");
    assert_eq!(lib.chords.len(), 2);
    assert_eq!(lib.chords.get("KEY_A+KEY_B"), Some("about".to_string()));
    assert_eq!(lib.prefixes.len(), 1);
    assert_eq!(lib.suffixes.len(), 1);
    assert_eq!(lib.exceptions.len(), 1);
}

#[test]
fn resolves_chords_in_any_order() {
    let lib = ChordLibrary::parse(SOURCE);
    assert_eq!(lib.resolve(&[KEY_A, KEY_B]), Some("about".to_string()));
    assert_eq!(lib.resolve(&[KEY_B, KEY_A]), Some("about".to_string()));
    assert_eq!(lib.resolve(&[KEY_A]), Some("a".to_string()));
    assert_eq!(lib.resolve(&[KEY_E]), None);
    assert_eq!(lib.resolve_exception(&[KEY_E]), Some("except".to_string()));
    assert_eq!(lib.resolve_exception(&[KEY_A]), None);
}

#[test]
fn affixes_prefer_prefix() {
    let lib = ChordLibrary::parse(SOURCE);
    assert_eq!(lib.apply_affixes(&[KEY_P]), Some("pre_".to_string()));
    assert_eq!(lib.apply_affixes(&[KEY_S]), Some("_ing".to_string()));
    assert_eq!(lib.apply_affixes(&[KEY_A]), None);
    let both = ChordLibrary::parse("[prefixes]\nKEY_P => un\n[suffixes]\nKEY_P => ed\n");
    assert_eq!(both.apply_affixes(&[KEY_P]), Some("un_".to_string()));
}

#[test]
fn parser_accumulates_across_calls() {
    let mut p = LibraryParser::new();
    p.parse("[chords]\r\nKEY_A => first\r\n");
    p.parse("KEY_A => second\n");
    let lib = p.into_library();
    assert_eq!(lib.chords.get("KEY_A"), Some("second".to_string()));
    assert_eq!(lib.chords.len(), 1);
}

#[test]
fn table_insert_replaces() {
    let mut t = ChordTable::new();
    assert_eq!(t.len(), 0);
    t.insert("k".to_string(), "v1".to_string());
    t.insert("j".to_string(), "w".to_string());
    t.insert("k".to_string(), "v2".to_string());
    assert_eq!(t.len(), 2);
    assert_eq!(t.get("k"), Some("v2".to_string()));
    assert_eq!(t.get("j"), Some("w".to_string()));
    assert_eq!(t.get("x"), None);
}
