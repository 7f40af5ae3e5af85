//! Chord libraries: the tables that map a finalized chord to its expansion,
//! and the reader of the library file format.
use vstd::prelude::*;
use vstd::relations::{sorted_by, total_ordering};
use vstd::seq_lib::lemma_sorted_unique;

use crate::config::{
    find_char, first_of, line_views, lines_of, lower_of, lowercase, pieces, same_text, split_lines,
    trim, trimmed,
};

verus! {

/// Lexicographic order on texts, by character.
pub open spec fn text_leq(a: Seq<char>, b: Seq<char>) -> bool
    decreases a.len(),
{
    if a.len() == 0 {
        true
    } else if b.len() == 0 {
        false
    } else if a[0] != b[0] {
        a[0] < b[0]
    } else {
        text_leq(a.drop_first(), b.drop_first())
    }
}

/// `text_leq` as a relation.
pub open spec fn text_order() -> spec_fn(Seq<char>, Seq<char>) -> bool {
    |a: Seq<char>, b: Seq<char>| text_leq(a, b)
}

/// The texts of `t` joined with `+`.
pub open spec fn join_plus(t: Seq<Seq<char>>) -> Seq<char>
    decreases t.len(),
{
    if t.len() == 0 {
        Seq::empty()
    } else if t.len() == 1 {
        t[0]
    } else {
        join_plus(t.drop_last()) + "+"@ + t.last()
    }
}

/// The canonical form of a set of key names: sorted, joined with `+`.
pub open spec fn canonical(names: Seq<Seq<char>>) -> Seq<char> {
    join_plus(names.sort_by(text_order()))
}

/// The name of a key code as evdev writes it (such as `KEY_A`).
pub uninterp spec fn key_name(code: u16) -> Seq<char>;

/// The table key of a chord: the names of its keys, sorted and joined with `+`.
pub open spec fn chord_key(codes: Seq<u16>) -> Seq<char> {
    canonical(codes.map_values(|c: u16| key_name(c)))
}

/// The views of a sequence of strings.
pub open spec fn text_views(v: Seq<String>) -> Seq<Seq<char>> {
    v.map_values(|s: String| s@)
}

proof fn lemma_text_leq_reflexive(a: Seq<char>)
    ensures
        text_leq(a, a),
    decreases a.len(),
{
    if a.len() > 0 {
        lemma_text_leq_reflexive(a.drop_first());
    }
}

proof fn lemma_text_leq_antisymmetric(a: Seq<char>, b: Seq<char>)
    requires
        text_leq(a, b),
        text_leq(b, a),
    ensures
        a == b,
    decreases a.len(),
{
    if a.len() > 0 && b.len() > 0 {
        lemma_text_leq_antisymmetric(a.drop_first(), b.drop_first());
        assert(a =~= seq![a[0]] + a.drop_first());
        assert(b =~= seq![b[0]] + b.drop_first());
    } else {
        assert(a =~= b);
    }
}

proof fn lemma_text_leq_transitive(a: Seq<char>, b: Seq<char>, c: Seq<char>)
    requires
        text_leq(a, b),
        text_leq(b, c),
    ensures
        text_leq(a, c),
    decreases a.len(),
{
    if a.len() > 0 && b.len() > 0 && c.len() > 0 && a[0] == b[0] && b[0] == c[0] {
        lemma_text_leq_transitive(a.drop_first(), b.drop_first(), c.drop_first());
    }
}

proof fn lemma_text_leq_connected(a: Seq<char>, b: Seq<char>)
    ensures
        text_leq(a, b) || text_leq(b, a),
    decreases a.len(),
{
    if a.len() > 0 && b.len() > 0 && a[0] == b[0] {
        lemma_text_leq_connected(a.drop_first(), b.drop_first());
    }
}

/// `text_leq` is a total order.
proof fn lemma_text_order_total()
    ensures
        total_ordering(text_order()),
{
    let r = text_order();
    assert forall|x: Seq<char>| #[trigger] r(x, x) by {
        lemma_text_leq_reflexive(x);
    }
    assert forall|x: Seq<char>, y: Seq<char>| #[trigger] r(x, y) && #[trigger] r(y, x) implies x
        == y by {
        lemma_text_leq_antisymmetric(x, y);
    }
    assert forall|x: Seq<char>, y: Seq<char>, z: Seq<char>| #[trigger] r(x, y) && #[trigger] r(
        y,
        z,
    ) implies r(x, z) by {
        lemma_text_leq_transitive(x, y, z);
    }
    assert forall|x: Seq<char>, y: Seq<char>| #[trigger] r(x, y) || #[trigger] r(y, x) by {
        lemma_text_leq_connected(x, y);
    }
}

/// Relies on evdev's `Debug` for `KeyCode`, which writes the key's constant
/// name (or `unknown key: <code>`) and depends on the code alone.
#[verifier::external_body]
fn key_debug_name(code: u16) -> (r: String)
    ensures
        r@ == key_name(code),
{
    format!("{:?}", evdev::KeyCode::new(code))
}

/// Relies on `slice::sort` for `String`: the same strings in ascending order.
/// `String` compares by UTF-8 bytes, which orders texts as their characters do.
#[verifier::external_body]
fn sort_texts(v: &mut Vec<String>)
    ensures
        text_views(final(v)@).to_multiset() == text_views(old(v)@).to_multiset(),
        sorted_by(text_views(final(v)@), text_order()),
{
    v.sort()
}

/// `names` sorted and joined with `+`.
fn canonical_text(names: &mut Vec<String>) -> (r: String)
    ensures
        r@ == canonical(text_views(old(names)@)),
{
    let ghost before = text_views(names@);
    sort_texts(names);
    proof {
        lemma_text_order_total();
        before.lemma_sort_by_ensures(text_order());
        lemma_sorted_unique(text_views(names@), before.sort_by(text_order()), text_order());
    }
    let ghost sorted = text_views(names@);
    let mut out = String::new();
    let mut i: usize = 0;
    while i < names.len()
        invariant
            i <= names@.len(),
            sorted == text_views(names@),
            out@ == join_plus(sorted.subrange(0, i as int)),
        decreases names@.len() - i,
    {
        let ghost next = sorted.subrange(0, i + 1);
        assert(next.drop_last() =~= sorted.subrange(0, i as int));
        if i > 0 {
            out.append("+");
        } else {
            assert(sorted.subrange(0, 0).len() == 0);
        }
        out.append(names[i].as_str());
        assert(out@ =~= join_plus(next));
        i = i + 1;
    }
    assert(sorted.subrange(0, i as int) =~= sorted);
    out
}

/// A table of texts keyed by text, with each key at most once.
#[derive(Debug)]
pub struct ChordTable {
    entries: Vec<(String, String)>,
}

/// The value stored under `key` in `pairs`, if any.
pub open spec fn lookup(pairs: Seq<(Seq<char>, Seq<char>)>, key: Seq<char>) -> Option<Seq<char>> {
    if exists|i: int| 0 <= i < pairs.len() && pairs[i].0 == key {
        Some(pairs[choose|i: int| 0 <= i < pairs.len() && pairs[i].0 == key].1)
    } else {
        None
    }
}

/// No key occurs twice.
pub open spec fn unique_keys(pairs: Seq<(Seq<char>, Seq<char>)>) -> bool {
    forall|i: int, j: int|
        0 <= i < pairs.len() && 0 <= j < pairs.len() && i != j ==> pairs[i].0 != pairs[j].0
}

proof fn lemma_lookup_at(pairs: Seq<(Seq<char>, Seq<char>)>, i: int)
    requires
        unique_keys(pairs),
        0 <= i < pairs.len(),
    ensures
        lookup(pairs, pairs[i].0) == Some(pairs[i].1),
{
    let k = choose|j: int| 0 <= j < pairs.len() && pairs[j].0 == pairs[i].0;
    assert(pairs[k].0 == pairs[i].0);
}

impl ChordTable {
    /// The entries as pairs of texts.
    pub closed spec fn pairs(&self) -> Seq<(Seq<char>, Seq<char>)> {
        self.entries@.map_values(|e: (String, String)| (e.0@, e.1@))
    }

    /// The table as a map.
    pub open spec fn view(&self) -> Map<Seq<char>, Seq<char>> {
        Map::new(|k: Seq<char>| lookup(self.pairs(), k) is Some, |k: Seq<char>| lookup(self.pairs(), k)->0)
    }

    pub closed spec fn wf(&self) -> bool {
        unique_keys(self.pairs())
    }

    /// An empty table.
    pub fn new() -> (r: Self)
        ensures
            r.wf(),
            r.view() == Map::<Seq<char>, Seq<char>>::empty(),
    {
        let r = ChordTable { entries: Vec::new() };
        assert(r.view() =~= Map::<Seq<char>, Seq<char>>::empty());
        r
    }

    /// Number of keys.
    pub fn len(&self) -> (r: usize)
        requires
            self.wf(),
        ensures
            r == self.view().dom().len(),
    {
        proof {
            self.lemma_dom_len();
        }
        self.entries.len()
    }

    proof fn lemma_dom_len(&self)
        requires
            self.wf(),
        ensures
            self.view().dom().len() == self.entries@.len(),
        decreases self.entries@.len(),
    {
        let ps = self.pairs();
        let keys = ps.map_values(|e: (Seq<char>, Seq<char>)| e.0);
        assert forall|i: int, j: int| 0 <= i < keys.len() && 0 <= j < keys.len() && i != j implies keys[i] != keys[j] by {
            assert(ps[i].0 != ps[j].0);
        }
        keys.unique_seq_to_set();
        assert forall|k: Seq<char>| self.view().dom().contains(k) <==> keys.to_set().contains(k) by {
            if keys.to_set().contains(k) {
                let i = choose|i: int| 0 <= i < keys.len() && keys[i] == k;
                assert(ps[i].0 == k);
            }
            if self.view().dom().contains(k) {
                let i = choose|i: int| 0 <= i < ps.len() && ps[i].0 == k;
                assert(keys[i] == k);
            }
        }
        assert(self.view().dom() =~= keys.to_set());
    }

    /// The value under `key`.
    pub fn get(&self, key: &str) -> (r: Option<String>)
        requires
            self.wf(),
        ensures
            match r {
                Some(v) => self.view().contains_key(key@) && self.view()[key@] == v@,
                None => !self.view().contains_key(key@),
            },
    {
        let mut i: usize = 0;
        while i < self.entries.len()
            invariant
                self.wf(),
                i <= self.entries@.len(),
                forall|j: int| 0 <= j < i ==> self.pairs()[j].0 != key@,
            decreases self.entries@.len() - i,
        {
            if same_text(self.entries[i].0.as_str(), key) {
                proof {
                    lemma_lookup_at(self.pairs(), i as int);
                }
                return Some(self.entries[i].1.clone());
            }
            i = i + 1;
        }
        None
    }

    /// Stores `value` under `key`, replacing what was there.
    pub fn insert(&mut self, key: String, value: String)
        requires
            old(self).wf(),
        ensures
            final(self).wf(),
            final(self).view() == old(self).view().insert(key@, value@),
    {
        let mut i: usize = 0;
        while i < self.entries.len()
            invariant
                self.wf(),
                *self == *old(self),
                i <= self.entries@.len(),
                forall|j: int| 0 <= j < i ==> self.pairs()[j].0 != key@,
            decreases self.entries@.len() - i,
        {
            if same_text(self.entries[i].0.as_str(), key.as_str()) {
                let ghost before = self.pairs();
                self.entries.set(i, (key, value));
                proof {
                    let after = self.pairs();
                    assert(after =~= before.update(i as int, (key@, value@)));
                    assert(unique_keys(after)) by {
                        assert forall|a: int, b: int|
                            0 <= a < after.len() && 0 <= b < after.len() && a != b implies after[a].0
                            != after[b].0 by {
                            assert(after[a].0 == before[a].0);
                            assert(after[b].0 == before[b].0);
                        }
                    }
                    assert forall|k: Seq<char>| lookup(after, k) == (if k == key@ {
                        Some(value@)
                    } else {
                        lookup(before, k)
                    }) by {
                        if k == key@ {
                            lemma_lookup_at(after, i as int);
                        } else if exists|j: int| 0 <= j < before.len() && before[j].0 == k {
                            let j = choose|j: int| 0 <= j < before.len() && before[j].0 == k;
                            lemma_lookup_at(before, j);
                            assert(j != i);
                            assert(after[j] == before[j]);
                            lemma_lookup_at(after, j);
                        } else {
                            assert forall|j: int| 0 <= j < after.len() implies after[j].0 != k by {
                                if j != i {
                                    assert(after[j] == before[j]);
                                }
                            }
                        }
                    }
                    assert(self.view() =~= old(self).view().insert(key@, value@));
                }
                return ;
            }
            i = i + 1;
        }
        let ghost before = self.pairs();
        self.entries.push((key, value));
        proof {
            let after = self.pairs();
            assert(after =~= before.push((key@, value@)));
            assert(unique_keys(after));
            assert forall|k: Seq<char>| lookup(after, k) == (if k == key@ {
                Some(value@)
            } else {
                lookup(before, k)
            }) by {
                if k == key@ {
                    lemma_lookup_at(after, before.len() as int);
                } else if exists|j: int| 0 <= j < before.len() && before[j].0 == k {
                    let j = choose|j: int| 0 <= j < before.len() && before[j].0 == k;
                    lemma_lookup_at(before, j);
                    lemma_lookup_at(after, j);
                } else {
                    assert forall|j: int| 0 <= j < after.len() implies after[j].0 != k by {
                        if j < before.len() {
                            assert(after[j] == before[j]);
                        }
                    }
                }
            }
            assert(self.view() =~= old(self).view().insert(key@, value@));
        }
    }
}

/// Name, language and version of a library.
#[derive(Debug)]
pub struct LibraryMeta {
    pub name: String,
    pub language: String,
    pub version: String,
}

/// The tables a finalized chord is looked up in.
#[derive(Debug)]
pub struct ChordLibrary {
    pub meta: LibraryMeta,
    pub chords: ChordTable,
    pub prefixes: ChordTable,
    pub suffixes: ChordTable,
    pub exceptions: ChordTable,
}

/// `s` followed by `_`.
pub open spec fn as_prefix(s: Seq<char>) -> Seq<char> {
    s + "_"@
}

/// `_` followed by `s`.
pub open spec fn as_suffix(s: Seq<char>) -> Seq<char> {
    "_"@ + s
}

impl ChordLibrary {
    pub open spec fn wf(&self) -> bool {
        &&& self.chords.wf()
        &&& self.prefixes.wf()
        &&& self.suffixes.wf()
        &&& self.exceptions.wf()
    }

    /// The table key of `chord`: its key names, sorted and joined with `+`.
    pub fn chord_to_string(&self, chord: &[u16]) -> (r: String)
        ensures
            r@ == chord_key(chord@),
    {
        let mut names: Vec<String> = Vec::with_capacity(chord.len());
        let mut i: usize = 0;
        while i < chord.len()
            invariant
                i <= chord@.len(),
                text_views(names@) =~= chord@.subrange(0, i as int).map_values(|c: u16| key_name(c)),
            decreases chord@.len() - i,
        {
            let ghost before = names@;
            names.push(key_debug_name(chord[i]));
            assert(text_views(names@) =~= text_views(before).push(key_name(chord@[i as int])));
            assert(chord@.subrange(0, i + 1) =~= chord@.subrange(0, i as int).push(chord@[i as int]));
            i = i + 1;
        }
        assert(chord@.subrange(0, i as int) =~= chord@);
        canonical_text(&mut names)
    }

    /// The expansion of `chord` in the chord table.
    pub fn resolve(&self, chord: &[u16]) -> (r: Option<String>)
        requires
            self.wf(),
        ensures
            match r {
                Some(v) => self.chords.view().contains_key(chord_key(chord@))
                    && self.chords.view()[chord_key(chord@)] == v@,
                None => !self.chords.view().contains_key(chord_key(chord@)),
            },
    {
        let key = self.chord_to_string(chord);
        self.chords.get(key.as_str())
    }

    /// The expansion of `chord` in the exception table.
    pub fn resolve_exception(&self, chord: &[u16]) -> (r: Option<String>)
        requires
            self.wf(),
        ensures
            match r {
                Some(v) => self.exceptions.view().contains_key(chord_key(chord@))
                    && self.exceptions.view()[chord_key(chord@)] == v@,
                None => !self.exceptions.view().contains_key(chord_key(chord@)),
            },
    {
        let key = self.chord_to_string(chord);
        self.exceptions.get(key.as_str())
    }

    /// The prefix form (`text_`) of `chord`, or else its suffix form (`_text`).
    pub fn apply_affixes(&self, chord: &[u16]) -> (r: Option<String>)
        requires
            self.wf(),
        ensures
            ({
                let k = chord_key(chord@);
                if self.prefixes.view().contains_key(k) {
                    r matches Some(v) && v@ == as_prefix(self.prefixes.view()[k])
                } else if self.suffixes.view().contains_key(k) {
                    r matches Some(v) && v@ == as_suffix(self.suffixes.view()[k])
                } else {
                    r is None
                }
            }),
    {
        let key = self.chord_to_string(chord);
        match self.prefixes.get(key.as_str()) {
            Some(p) => {
                let mut out = p;
                out.append("_");
                Some(out)
            },
            None => match self.suffixes.get(key.as_str()) {
                Some(x) => {
                    let mut out = String::from_str("_");
                    out.append(x.as_str());
                    Some(out)
                },
                None => None,
            },
        }
    }

    /// The expansion of `chord`: from the chord table, else the exception
    /// table, else its prefix or suffix form.
    pub fn expand(&self, chord: &[u16]) -> (r: Option<String>)
        requires
            self.wf(),
        ensures
            ({
                let k = chord_key(chord@);
                if self.chords.view().contains_key(k) {
                    r matches Some(v) && v@ == self.chords.view()[k]
                } else if self.exceptions.view().contains_key(k) {
                    r matches Some(v) && v@ == self.exceptions.view()[k]
                } else if self.prefixes.view().contains_key(k) {
                    r matches Some(v) && v@ == as_prefix(self.prefixes.view()[k])
                } else if self.suffixes.view().contains_key(k) {
                    r matches Some(v) && v@ == as_suffix(self.suffixes.view()[k])
                } else {
                    r is None
                }
            }),
    {
        match self.resolve(chord) {
            Some(v) => Some(v),
            None => match self.resolve_exception(chord) {
                Some(v) => Some(v),
                None => self.apply_affixes(chord),
            },
        }
    }

    /// Reads a library from the text of a library file.
    pub fn parse(content: &str) -> (r: ChordLibrary)
        ensures
            r.wf(),
            r.model() == (LibraryModel {
                section: None,
                ..library_lines(empty_model(), lines_of(content@))
            }),
    {
        let mut parser = LibraryParser::new();
        parser.parse(content);
        parser.into_library()
    }

    /// The library as plain values.
    pub open spec fn model(&self) -> LibraryModel {
        LibraryModel {
            name: self.meta.name@,
            language: self.meta.language@,
            version: self.meta.version@,
            section: None,
            chords: self.chords.view(),
            prefixes: self.prefixes.view(),
            suffixes: self.suffixes.view(),
            exceptions: self.exceptions.view(),
        }
    }
}

/// The table that mappings go to.
#[derive(Clone, Copy, Debug, PartialEq, Eq, Structural)]
pub enum Section {
    Prefix,
    Suffix,
    Chord,
    Exception,
}

/// A library being read, as plain values.
pub struct LibraryModel {
    pub name: Seq<char>,
    pub language: Seq<char>,
    pub version: Seq<char>,
    pub section: Option<Section>,
    pub chords: Map<Seq<char>, Seq<char>>,
    pub prefixes: Map<Seq<char>, Seq<char>>,
    pub suffixes: Map<Seq<char>, Seq<char>>,
    pub exceptions: Map<Seq<char>, Seq<char>>,
}

/// Nothing read yet.
pub open spec fn empty_model() -> LibraryModel {
    LibraryModel {
        name: Seq::empty(),
        language: Seq::empty(),
        version: Seq::empty(),
        section: None,
        chords: Map::empty(),
        prefixes: Map::empty(),
        suffixes: Map::empty(),
        exceptions: Map::empty(),
    }
}

/// `t` begins with `p`.
pub open spec fn starts_with(t: Seq<char>, p: Seq<char>) -> bool {
    t.len() >= p.len() && t.subrange(0, p.len() as int) == p
}

/// `t` after its first `p.len()` characters.
pub open spec fn after(t: Seq<char>, p: Seq<char>) -> Seq<char> {
    t.subrange(p.len() as int, t.len() as int)
}

/// The section a header names, in lower case.
pub open spec fn section_named(s: Seq<char>) -> Option<Section> {
    if s == "prefixes"@ {
        Some(Section::Prefix)
    } else if s == "suffixes"@ {
        Some(Section::Suffix)
    } else if s == "chords"@ {
        Some(Section::Chord)
    } else if s == "exceptions"@ {
        Some(Section::Exception)
    } else {
        None
    }
}

/// An `=>` starts at position `i` of `t`.
pub open spec fn arrow_at(t: Seq<char>, i: int) -> bool {
    0 <= i < t.len() - 1 && t[i] == '=' && t[i + 1] == '>'
}

/// The position of the first `=>` in `t`, or -1.
pub open spec fn first_arrow(t: Seq<char>) -> int {
    if exists|i: int|
        #[trigger] arrow_at(t, i) && (forall|j: int| 0 <= j < i ==> !#[trigger] arrow_at(t, j)) {
        choose|i: int|
            #[trigger] arrow_at(t, i) && (forall|j: int| 0 <= j < i ==> !#[trigger] arrow_at(t, j))
    } else {
        -1
    }
}

/// A chord key in canonical form: its `+`-separated names, trimmed, sorted
/// and joined with `+`.
pub open spec fn chord_key_text(key: Seq<char>) -> Seq<char> {
    canonical(trimmed_all(pieces(key, '+')))
}

/// Each text of `ps`, trimmed.
pub open spec fn trimmed_all(ps: Seq<Seq<char>>) -> Seq<Seq<char>> {
    ps.map_values(|p: Seq<char>| trimmed(p))
}

/// The library after one line of a library file: `#` comments and blank
/// lines are skipped, `name:`, `language:` and `version:` set the metadata, a
/// `[section]` header chooses the table, and `key => value` (value up to any
/// `#`) goes to the current table; other lines change nothing.
pub open spec fn library_line(m: LibraryModel, line: Seq<char>) -> LibraryModel {
    let t = trimmed(line);
    if t.len() == 0 || t[0] == '#' {
        m
    } else if starts_with(t, "name:"@) {
        LibraryModel { name: trimmed(after(t, "name:"@)), ..m }
    } else if starts_with(t, "language:"@) {
        LibraryModel { language: trimmed(after(t, "language:"@)), ..m }
    } else if starts_with(t, "version:"@) {
        LibraryModel { version: trimmed(after(t, "version:"@)), ..m }
    } else if t[0] == '[' && t.last() == ']' {
        LibraryModel { section: section_named(lower_of(t.subrange(1, t.len() - 1))), ..m }
    } else {
        let i = first_arrow(t);
        if i < 0 {
            m
        } else {
            let key = trimmed(t.subrange(0, i));
            let rest = t.subrange(i + 2, t.len() as int);
            let cut = first_of(rest, '#');
            let value = trimmed(
                if cut < 0 {
                    rest
                } else {
                    rest.subrange(0, cut)
                },
            );
            match m.section {
                None => m,
                Some(Section::Prefix) => LibraryModel { prefixes: m.prefixes.insert(key, value), ..m },
                Some(Section::Suffix) => LibraryModel { suffixes: m.suffixes.insert(key, value), ..m },
                Some(Section::Chord) => LibraryModel {
                    chords: m.chords.insert(chord_key_text(key), value),
                    ..m
                },
                Some(Section::Exception) => LibraryModel {
                    exceptions: m.exceptions.insert(key, value),
                    ..m
                },
            }
        }
    }
}

/// The library after `lines`, in order.
pub open spec fn library_lines(m: LibraryModel, lines: Seq<Seq<char>>) -> LibraryModel
    decreases lines.len(),
{
    if lines.len() == 0 {
        m
    } else {
        library_line(library_lines(m, lines.drop_last()), lines.last())
    }
}

/// The first `=>` in `t`.
fn find_arrow(t: &str) -> (r: Option<usize>)
    ensures
        match r {
            Some(i) => i + 1 < t@.len() && i == first_arrow(t@),
            None => first_arrow(t@) == -1,
        },
{
    let n = t.unicode_len();
    let mut i: usize = 0;
    while n > 0 && i < n - 1
        invariant
            n == t@.len(),
            forall|j: int| 0 <= j < i ==> !#[trigger] arrow_at(t@, j),
        decreases n - i,
    {
        if t.get_char(i) == '=' && t.get_char(i + 1) == '>' {
            let ghost k = first_arrow(t@);
            assert(arrow_at(t@, i as int) && (forall|j: int|
                0 <= j < i ==> !#[trigger] arrow_at(t@, j)));
            assert(k == i) by {
                if k < i {
                    assert(!arrow_at(t@, k));
                } else if k > i {
                    assert(!arrow_at(t@, i as int));
                }
            }
            return Some(i);
        }
        i = i + 1;
    }
    assert forall|j: int| !#[trigger] arrow_at(t@, j) by {
        if 0 <= j < i {
        }
    }
    None
}

/// `t` begins with `p`.
fn has_prefix(t: &str, p: &str) -> (r: bool)
    ensures
        r == starts_with(t@, p@),
{
    let pn = p.unicode_len();
    if t.unicode_len() < pn {
        return false;
    }
    same_text(t.substring_char(0, pn), p)
}

/// `s` cut at each `sep`.
fn split_pieces<'a>(s: &'a str, sep: char) -> (r: Vec<&'a str>)
    ensures
        line_views(r@) == pieces(s@, sep),
{
    let n = s.unicode_len();
    let ghost v = s@;
    let mut out: Vec<&'a str> = Vec::new();
    let mut start: usize = 0;
    let mut i: usize = 0;
    assert(v.subrange(0, 0) =~= Seq::<char>::empty());
    while i < n
        invariant
            n == v.len(),
            v == s@,
            start <= i <= n,
            pieces(v.subrange(0, i as int), sep).len() >= 1,
            pieces(v.subrange(0, i as int), sep).last() == v.subrange(start as int, i as int),
            line_views(out@) == pieces(v.subrange(0, i as int), sep).drop_last(),
        decreases n - i,
    {
        let ghost p = pieces(v.subrange(0, i as int), sep);
        assert(v.subrange(0, i + 1).drop_last() =~= v.subrange(0, i as int));
        assert(v.subrange(0, i + 1).last() == v[i as int]);
        if s.get_char(i) == sep {
            let piece = s.substring_char(start, i);
            let ghost old_out = out@;
            out.push(piece);
            assert(line_views(out@) =~= line_views(old_out).push(piece@));
            assert(p =~= p.drop_last().push(p.last()));
            start = i + 1;
            assert(pieces(v.subrange(0, i + 1), sep).last() =~= v.subrange(start as int, i + 1));
        } else {
            assert(pieces(v.subrange(0, i + 1), sep).drop_last() =~= p.drop_last());
            assert(pieces(v.subrange(0, i + 1), sep).last() =~= v.subrange(start as int, i + 1));
        }
        i = i + 1;
    }
    assert(v.subrange(0, n as int) =~= v);
    let last = s.substring_char(start, n);
    let ghost old_out = out@;
    out.push(last);
    let ghost p = pieces(v, sep);
    assert(p =~= p.drop_last().push(p.last()));
    assert(line_views(out@) =~= line_views(old_out).push(last@));
    out
}

/// `key` in canonical chord form.
fn chord_key_of(key: &str) -> (r: String)
    ensures
        r@ == chord_key_text(key@),
{
    let parts = split_pieces(key, '+');
    let mut names: Vec<String> = Vec::with_capacity(parts.len());
    let mut i: usize = 0;
    while i < parts.len()
        invariant
            i <= parts@.len(),
            text_views(names@) == trimmed_all(line_views(parts@).subrange(0, i as int)),
        decreases parts@.len() - i,
    {
        let ghost before = names@;
        let ghost ps = line_views(parts@);
        names.push(String::from_str(trim(parts[i])));
        assert(ps[i as int] == parts@[i as int]@);
        assert(text_views(names@) =~= text_views(before).push(trimmed(ps[i as int])));
        assert(trimmed_all(ps.subrange(0, i + 1)) =~= trimmed_all(ps.subrange(0, i as int)).push(
            trimmed(ps[i as int]),
        ));
        i = i + 1;
    }
    assert(line_views(parts@).subrange(0, i as int) =~= line_views(parts@));
    canonical_text(&mut names)
}

/// Reads library files line by line.
#[derive(Debug)]
pub struct LibraryParser {
    meta: LibraryMeta,
    current_section: Option<Section>,
    chords: ChordTable,
    prefixes: ChordTable,
    suffixes: ChordTable,
    exceptions: ChordTable,
}

impl LibraryParser {
    /// What has been read so far.
    pub closed spec fn model(&self) -> LibraryModel {
        LibraryModel {
            name: self.meta.name@,
            language: self.meta.language@,
            version: self.meta.version@,
            section: self.current_section,
            chords: self.chords.view(),
            prefixes: self.prefixes.view(),
            suffixes: self.suffixes.view(),
            exceptions: self.exceptions.view(),
        }
    }

    pub closed spec fn wf(&self) -> bool {
        &&& self.chords.wf()
        &&& self.prefixes.wf()
        &&& self.suffixes.wf()
        &&& self.exceptions.wf()
    }

    /// A parser that has read nothing.
    pub fn new() -> (r: Self)
        ensures
            r.wf(),
            r.model() == empty_model(),
    {
        let r = LibraryParser {
            meta: LibraryMeta {
                name: String::new(),
                language: String::new(),
                version: String::new(),
            },
            current_section: None,
            chords: ChordTable::new(),
            prefixes: ChordTable::new(),
            suffixes: ChordTable::new(),
            exceptions: ChordTable::new(),
        };
        assert(r.model() == empty_model());
        r
    }

    /// Reads one line.
    fn parse_line(&mut self, line: &str)
        requires
            old(self).wf(),
        ensures
            final(self).wf(),
            final(self).model() == library_line(old(self).model(), line@),
    {
        let t = trim(line);
        let n = t.unicode_len();
        if n == 0 || t.get_char(0) == '#' {
            return ;
        }
        if has_prefix(t, "name:") {
            let p = "name:".unicode_len();
            self.meta.name = String::from_str(trim(t.substring_char(p, n)));
            return ;
        }
        if has_prefix(t, "language:") {
            let p = "language:".unicode_len();
            self.meta.language = String::from_str(trim(t.substring_char(p, n)));
            return ;
        }
        if has_prefix(t, "version:") {
            let p = "version:".unicode_len();
            self.meta.version = String::from_str(trim(t.substring_char(p, n)));
            return ;
        }
        if t.get_char(0) == '[' && t.get_char(n - 1) == ']' {
            let name = lowercase(t.substring_char(1, n - 1));
            let s = name.as_str();
            self.current_section = if same_text(s, "prefixes") {
                Some(Section::Prefix)
            } else if same_text(s, "suffixes") {
                Some(Section::Suffix)
            } else if same_text(s, "chords") {
                Some(Section::Chord)
            } else if same_text(s, "exceptions") {
                Some(Section::Exception)
            } else {
                None
            };
            return ;
        }
        let i = match find_arrow(t) {
            Some(i) => i,
            None => return ,
        };
        let key = trim(t.substring_char(0, i));
        let rest = t.substring_char(i + 2, n);
        let value = match find_char(rest, '#') {
            Some(c) => trim(rest.substring_char(0, c)),
            None => trim(rest),
        };
        match self.current_section {
            None => {},
            Some(Section::Prefix) => {
                self.prefixes.insert(String::from_str(key), String::from_str(value));
            },
            Some(Section::Suffix) => {
                self.suffixes.insert(String::from_str(key), String::from_str(value));
            },
            Some(Section::Chord) => {
                self.chords.insert(chord_key_of(key), String::from_str(value));
            },
            Some(Section::Exception) => {
                self.exceptions.insert(String::from_str(key), String::from_str(value));
            },
        }
    }

    /// Reads the text of a library file.
    pub fn parse(&mut self, content: &str)
        requires
            old(self).wf(),
        ensures
            final(self).wf(),
            final(self).model() == library_lines(old(self).model(), lines_of(content@)),
    {
        let lines = split_lines(content);
        let ghost ls = line_views(lines@);
        let ghost init = old(self).model();
        let mut k: usize = 0;
        while k < lines.len()
            invariant
                self.wf(),
                k <= lines@.len(),
                ls == line_views(lines@),
                ls == lines_of(content@),
                init == old(self).model(),
                self.model() == library_lines(init, ls.subrange(0, k as int)),
            decreases lines@.len() - k,
        {
            assert(ls.subrange(0, k + 1).drop_last() =~= ls.subrange(0, k as int));
            assert(ls[k as int] == lines@[k as int]@);
            self.parse_line(lines[k]);
            k = k + 1;
        }
        assert(ls.subrange(0, k as int) =~= ls);
    }

    /// The library read so far.
    pub fn into_library(self) -> (r: ChordLibrary)
        requires
            self.wf(),
        ensures
            r.wf(),
            r.model() == (LibraryModel { section: None, ..self.model() }),
    {
        ChordLibrary {
            meta: self.meta,
            chords: self.chords,
            prefixes: self.prefixes,
            suffixes: self.suffixes,
            exceptions: self.exceptions,
        }
    }
}

} // verus!
