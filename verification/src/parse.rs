//! The simple YAML that the server sends: `key: value` maps and `- item`
//! lists, and typed lookups in such a map.

use vstd::prelude::*;

use crate::number::{parse_u64, parse_u64_spec};
use crate::text::{
    find_from, is_white_space, lemma_lines_of_one_line, lemma_trim_unchanged, occurs_at, trim_end_by,
    trim_start_by,
    chars_eq, chars_of, has_prefix, split_lines, split_once, split_once_slice, string_of,
    strip_prefix, strip_prefix_slice, lines_of, lemma_lines_of_joined, trim, trim_quotes, trim_slice,
};

verus! {

// ------------------------------------------------------------------
// What a YAML text means
// ------------------------------------------------------------------

/// The entry that one line gives: the text before the first `": "` and the
/// text after it, both trimmed, the value also stripped of surrounding
/// double quotes; none for a document marker (a line that starts with
/// `---`) or a line without `": "`.
pub open spec fn yaml_line_entry(line: Seq<char>) -> Option<(Seq<char>, Seq<char>)> {
    if seq!['-', '-', '-'].is_prefix_of(line) {
        None
    } else {
        match split_once(line, seq![':', ' ']) {
            Some((k, v)) => Some((trim(k), trim_quotes(trim(v)))),
            None => None,
        }
    }
}

/// The map that a sequence of lines gives: each entry in turn, a later
/// entry replacing an earlier one with the same key.
pub open spec fn yaml_map_of_lines(lines: Seq<Seq<char>>) -> Map<Seq<char>, Seq<char>>
    decreases lines.len(),
{
    if lines.len() == 0 {
        Map::empty()
    } else {
        let m = yaml_map_of_lines(lines.drop_last());
        match yaml_line_entry(lines.last()) {
            Some((k, v)) => m.insert(k, v),
            None => m,
        }
    }
}

/// The map that a YAML text gives.
pub open spec fn yaml_map(yaml: Seq<char>) -> Map<Seq<char>, Seq<char>> {
    yaml_map_of_lines(lines_of(yaml))
}

/// The items of a sequence of lines: each line that starts with `"- "`,
/// without that prefix, trimmed.
pub open spec fn yaml_list_of_lines(lines: Seq<Seq<char>>) -> Seq<Seq<char>>
    decreases lines.len(),
{
    if lines.len() == 0 {
        Seq::empty()
    } else {
        let items = yaml_list_of_lines(lines.drop_last());
        match strip_prefix(lines.last(), seq!['-', ' ']) {
            Some(rest) => items.push(trim(rest)),
            None => items,
        }
    }
}

/// The list that a YAML text gives.
pub open spec fn yaml_list(yaml: Seq<char>) -> Seq<Seq<char>> {
    yaml_list_of_lines(lines_of(yaml))
}

proof fn lemma_list_of_joined_lines(l1: Seq<Seq<char>>, l2: Seq<Seq<char>>)
    ensures
        yaml_list_of_lines(l1 + l2) =~= yaml_list_of_lines(l1) + yaml_list_of_lines(l2),
    decreases l2.len(),
{
    if l2.len() == 0 {
        assert(l1 + l2 =~= l1);
    } else {
        lemma_list_of_joined_lines(l1, l2.drop_last());
        assert((l1 + l2).drop_last() =~= l1 + l2.drop_last());
        assert((l1 + l2).last() == l2.last());
    }
}

/// The list of two texts joined, the first empty or ending in a newline,
/// is the list of the first followed by the list of the second.
pub proof fn law_list_of_joined_texts(a: Seq<char>, b: Seq<char>)
    requires
        a.len() == 0 || a.last() == '\n',
    ensures
        yaml_list(a + b) == yaml_list(a) + yaml_list(b),
{
    lemma_lines_of_joined(a, b);
    lemma_list_of_joined_lines(lines_of(a), lines_of(b));
}

proof fn lemma_map_of_joined_lines(l1: Seq<Seq<char>>, l2: Seq<Seq<char>>)
    ensures
        yaml_map_of_lines(l1 + l2) =~= yaml_map_of_lines(l1).union_prefer_right(yaml_map_of_lines(l2)),
    decreases l2.len(),
{
    if l2.len() == 0 {
        assert(l1 + l2 =~= l1);
    } else {
        lemma_map_of_joined_lines(l1, l2.drop_last());
        assert((l1 + l2).drop_last() =~= l1 + l2.drop_last());
        assert((l1 + l2).last() == l2.last());
    }
}

/// The map of two texts joined, the first empty or ending in a newline,
/// holds the entries of both, those of the second replacing those of the
/// first with the same key.
pub proof fn law_map_of_joined_texts(a: Seq<char>, b: Seq<char>)
    requires
        a.len() == 0 || a.last() == '\n',
    ensures
        yaml_map(a + b) == yaml_map(a).union_prefer_right(yaml_map(b)),
{
    lemma_lines_of_joined(a, b);
    lemma_map_of_joined_lines(lines_of(a), lines_of(b));
}

/// The text under `key`, or the empty text when `m` has no such key.
pub open spec fn yaml_str(m: Map<Seq<char>, Seq<char>>, key: Seq<char>) -> Seq<char> {
    if m.dom().contains(key) {
        m[key]
    } else {
        Seq::empty()
    }
}

/// The number under `key`, or 0 when `m` has no such key or its text is
/// not a `u64`.
pub open spec fn yaml_u64(m: Map<Seq<char>, Seq<char>>, key: Seq<char>) -> u64 {
    if m.dom().contains(key) {
        match parse_u64_spec(m[key]) {
            Ok(v) => v,
            Err(_) => 0,
        }
    } else {
        0
    }
}

/// Whether the text under `key` is exactly `true`.
pub open spec fn yaml_bool(m: Map<Seq<char>, Seq<char>>, key: Seq<char>) -> bool {
    m.dom().contains(key) && m[key] == "true"@
}

// ------------------------------------------------------------------
// The map type
// ------------------------------------------------------------------

/// The entries of a YAML map, each key at most once.
pub struct YamlMap {
    entries: Vec<(Vec<char>, String)>,
}

/// The map that a list of entries gives, a later entry replacing an
/// earlier one with the same key.
pub open spec fn entries_map(es: Seq<(Vec<char>, String)>) -> Map<Seq<char>, Seq<char>>
    decreases es.len(),
{
    if es.len() == 0 {
        Map::empty()
    } else {
        entries_map(es.drop_last()).insert(es.last().0@, es.last().1@)
    }
}

/// No key occurs twice.
pub open spec fn distinct_keys(es: Seq<(Vec<char>, String)>) -> bool {
    forall|i: int, j: int|
        0 <= i < es.len() && 0 <= j < es.len() && i != j ==> #[trigger] es[i].0@ != #[trigger] es[j].0@
}

proof fn lemma_entries_map_lookup(es: Seq<(Vec<char>, String)>, k: Seq<char>)
    requires
        distinct_keys(es),
    ensures
        entries_map(es).dom().contains(k) <==> exists|i: int| 0 <= i < es.len() && #[trigger] es[i].0@ == k,
        forall|i: int| 0 <= i < es.len() && #[trigger] es[i].0@ == k ==> entries_map(es)[k] == es[i].1@,
    decreases es.len(),
{
    if es.len() > 0 {
        let init = es.drop_last();
        assert forall|i: int, j: int|
            0 <= i < init.len() && 0 <= j < init.len() && i != j implies #[trigger] init[i].0@ != #[trigger] init[j].0@ by {
            assert(init[i] == es[i]);
            assert(init[j] == es[j]);
        }
        lemma_entries_map_lookup(init, k);
        if entries_map(es).dom().contains(k) && es.last().0@ != k {
            let i = choose|i: int| 0 <= i < init.len() && #[trigger] init[i].0@ == k;
            assert(es[i] == init[i]);
        }
        assert forall|i: int| 0 <= i < es.len() && #[trigger] es[i].0@ == k implies entries_map(es)[k] == es[i].1@ by {
            if i < es.len() - 1 {
                assert(es[i] == init[i]);
                assert(es.last() == es[es.len() - 1]);
            }
        }
        if exists|i: int| 0 <= i < es.len() && #[trigger] es[i].0@ == k {
            let i = choose|i: int| 0 <= i < es.len() && #[trigger] es[i].0@ == k;
            if i < es.len() - 1 {
                assert(init[i] == es[i]);
            }
        }
    }
}

proof fn lemma_entries_map_update(es: Seq<(Vec<char>, String)>, j: int, e: (Vec<char>, String))
    requires
        distinct_keys(es),
        0 <= j < es.len(),
        es[j].0@ == e.0@,
    ensures
        entries_map(es.update(j, e)) =~= entries_map(es).insert(e.0@, e.1@),
    decreases es.len(),
{
    let es2 = es.update(j, e);
    if j == es.len() - 1 {
        assert(es2.drop_last() =~= es.drop_last());
    } else {
        let init = es.drop_last();
        assert forall|a: int, b: int|
            0 <= a < init.len() && 0 <= b < init.len() && a != b implies #[trigger] init[a].0@ != #[trigger] init[b].0@ by {
            assert(init[a] == es[a]);
            assert(init[b] == es[b]);
        }
        lemma_entries_map_update(init, j, e);
        assert(es2.drop_last() =~= init.update(j, e));
        assert(es.last() == es[es.len() - 1]);
        assert(es.last().0@ != e.0@);
    }
}

impl YamlMap {
    #[verifier::type_invariant]
    spec fn keys_distinct(self) -> bool {
        distinct_keys(self.entries@)
    }

    /// An empty map.
    pub fn new() -> (m: Self)
        ensures
            m@ == Map::<Seq<char>, Seq<char>>::empty(),
    {
        YamlMap { entries: Vec::new() }
    }

    /// The index of the entry whose key is `key`.
    fn position(&self, key: &[char]) -> (r: Option<usize>)
        ensures
            r matches Some(i) ==> i < self.entries@.len() && self.entries@[i as int].0@ == key@,
            r is None ==> forall|i: int| 0 <= i < self.entries@.len() ==> #[trigger] self.entries@[i].0@ != key@,
    {
        let n = self.entries.len();
        let mut i: usize = 0;
        while i < n
            invariant
                n == self.entries@.len(),
                i <= n,
                forall|k: int| 0 <= k < i ==> #[trigger] self.entries@[k].0@ != key@,
            decreases n - i,
        {
            if chars_eq(self.entries[i].0.as_slice(), key) {
                return Some(i);
            }
            i = i + 1;
        }
        None
    }

    /// Sets the value under `key`, replacing any value it had.
    pub fn insert(&mut self, key: Vec<char>, value: String)
        ensures
            final(self)@ == old(self)@.insert(key@, value@),
    {
        proof {
            use_type_invariant(&*self);
        }
        match self.position(key.as_slice()) {
            Some(j) => {
                let ghost es = self.entries@;
                let ghost e = (key, value);
                proof {
                    lemma_entries_map_update(es, j as int, e);
                    assert forall|a: int, b: int|
                        0 <= a < es.len() && 0 <= b < es.len() && a != b implies #[trigger] es.update(j as int, e)[a].0@
                        != #[trigger] es.update(j as int, e)[b].0@ by {
                        if a != j {
                            assert(es.update(j as int, e)[a] == es[a]);
                        }
                        if b != j {
                            assert(es.update(j as int, e)[b] == es[b]);
                        }
                    }
                }
                let mut es_exec: Vec<(Vec<char>, String)> = Vec::new();
                std::mem::swap(&mut es_exec, &mut self.entries);
                es_exec.set(j, (key, value));
                self.entries = es_exec;
            },
            None => {
                let ghost es = self.entries@;
                let ghost e = (key, value);
                proof {
                    assert(es.push(e).drop_last() =~= es);
                    assert forall|a: int, b: int|
                        0 <= a < es.len() + 1 && 0 <= b < es.len() + 1 && a != b implies #[trigger] es.push(e)[a].0@
                        != #[trigger] es.push(e)[b].0@ by {
                        if a < es.len() {
                            assert(es.push(e)[a] == es[a]);
                        }
                        if b < es.len() {
                            assert(es.push(e)[b] == es[b]);
                        }
                    }
                }
                let mut es_exec: Vec<(Vec<char>, String)> = Vec::new();
                std::mem::swap(&mut es_exec, &mut self.entries);
                es_exec.push((key, value));
                self.entries = es_exec;
            },
        }
    }

    /// The value under `key`, if the map has one.
    pub fn get(&self, key: &str) -> (r: Option<&str>)
        ensures
            r is Some <==> self@.dom().contains(key@),
            r matches Some(v) ==> v@ == self@[key@],
    {
        proof {
            use_type_invariant(self);
            lemma_entries_map_lookup(self.entries@, key@);
        }
        let k = chars_of(key);
        match self.position(k.as_slice()) {
            Some(i) => Some(self.entries[i].1.as_str()),
            None => None,
        }
    }
}

impl View for YamlMap {
    type V = Map<Seq<char>, Seq<char>>;

    closed spec fn view(&self) -> Map<Seq<char>, Seq<char>> {
        entries_map(self.entries@)
    }
}

// ------------------------------------------------------------------
// Parsing
// ------------------------------------------------------------------

/// Parses simple YAML `key: value` lines into a map.
pub fn parse_yaml_map(yaml: &str) -> (m: YamlMap)
    ensures
        m@ == yaml_map(yaml@),
{
    let chars = chars_of(yaml);
    let lines = split_lines(chars.as_slice());
    let dashes: [char; 3] = ['-', '-', '-'];
    let sep: [char; 2] = [':', ' '];
    assert(dashes@ =~= seq!['-', '-', '-']);
    assert(sep@ =~= seq![':', ' ']);
    let ghost all = lines.deep_view();
    let mut map = YamlMap::new();
    let n = lines.len();
    for i in 0..n
        invariant
            n == lines@.len(),
            all == lines.deep_view(),
            all == lines_of(yaml@),
            dashes@ == seq!['-', '-', '-'],
            sep@ == seq![':', ' '],
            map@ == yaml_map_of_lines(all.take(i as int)),
    {
        let line = lines[i].as_slice();
        proof {
            assert(all.take(i + 1).drop_last() =~= all.take(i as int));
            assert(all.take(i + 1).last() == line@);
        }
        if !has_prefix(line, dashes.as_slice()) {
            match split_once_slice(line, sep.as_slice()) {
                Some((k, v)) => {
                    let key = trim_slice(k, None);
                    let value = trim_slice(trim_slice(v, None), Some('"'));
                    map.insert(vstd::slice::slice_to_vec(key), string_of(value));
                },
                None => {},
            }
        }
    }
    proof {
        assert(all.take(n as int) =~= all);
    }
    map
}

/// Parses simple YAML list (`- item`) lines.
pub fn parse_yaml_list(yaml: &str) -> (items: Vec<String>)
    ensures
        items.deep_view() == yaml_list(yaml@),
{
    let chars = chars_of(yaml);
    let lines = split_lines(chars.as_slice());
    let marker: [char; 2] = ['-', ' '];
    assert(marker@ =~= seq!['-', ' ']);
    let ghost all = lines.deep_view();
    let mut items: Vec<String> = Vec::new();
    let n = lines.len();
    for i in 0..n
        invariant
            n == lines@.len(),
            all == lines.deep_view(),
            all == lines_of(yaml@),
            marker@ == seq!['-', ' '],
            items.deep_view() =~= yaml_list_of_lines(all.take(i as int)),
    {
        let line = lines[i].as_slice();
        proof {
            assert(all.take(i + 1).drop_last() =~= all.take(i as int));
            assert(all.take(i + 1).last() == line@);
        }
        match strip_prefix_slice(line, marker.as_slice()) {
            Some(rest) => {
                let item = string_of(trim_slice(rest, None));
                let ghost before = items.deep_view();
                items.push(item);
                assert(items.deep_view() =~= before.push(item@));
            },
            None => {},
        }
    }
    proof {
        assert(all.take(n as int) =~= all);
    }
    items
}

/// Gets a string value from the map, or the empty string.
pub fn get_str(map: &YamlMap, key: &str) -> (s: String)
    ensures
        s@ == yaml_str(map@, key@),
{
    match map.get(key) {
        Some(v) => v.to_owned(),
        None => String::new(),
    }
}

/// Gets a u64 value from the map, defaulting to 0.
pub fn get_u64(map: &YamlMap, key: &str) -> (n: u64)
    ensures
        n == yaml_u64(map@, key@),
{
    match map.get(key) {
        Some(v) => {
            let cs = chars_of(v);
            match parse_u64(cs.as_slice()) {
                Ok(n) => n,
                Err(_) => 0,
            }
        },
        None => 0,
    }
}

/// Gets a bool value from the map (checks for "true").
pub fn get_bool(map: &YamlMap, key: &str) -> (b: bool)
    ensures
        b == yaml_bool(map@, key@),
{
    match map.get(key) {
        Some(v) => {
            let cs = chars_of(v);
            let t = chars_of("true");
            chars_eq(cs.as_slice(), t.as_slice())
        },
        None => false,
    }
}

// ------------------------------------------------------------------
// Laws
// ------------------------------------------------------------------

/// The value under a key is the one on the last line that names the key;
/// a key that no line names is not in the map.
pub proof fn law_last_entry_wins(lines: Seq<Seq<char>>, k: Seq<char>)
    ensures
        (forall|i: int| 0 <= i < lines.len() ==> !(#[trigger] yaml_line_entry(lines[i]) matches Some(e) && e.0 == k))
            ==> !yaml_map_of_lines(lines).dom().contains(k),
        forall|i: int|
            0 <= i < lines.len() && (#[trigger] yaml_line_entry(lines[i]) matches Some(e) && e.0 == k)
            && (forall|j: int| i < j < lines.len() ==> !(#[trigger] yaml_line_entry(lines[j]) matches Some(f) && f.0 == k))
            ==> yaml_map_of_lines(lines).dom().contains(k)
                && yaml_map_of_lines(lines)[k] == yaml_line_entry(lines[i])->Some_0.1,
    decreases lines.len(),
{
    if lines.len() > 0 {
        let init = lines.drop_last();
        let last = lines.len() - 1;
        law_last_entry_wins(init, k);
        assert forall|i: int| 0 <= i < init.len() implies #[trigger] init[i] == lines[i] by {}
        assert(lines.last() == lines[last]);
        assert forall|i: int|
            0 <= i < lines.len() && (#[trigger] yaml_line_entry(lines[i]) matches Some(e) && e.0 == k)
            && (forall|j: int| i < j < lines.len() ==> !(#[trigger] yaml_line_entry(lines[j]) matches Some(f) && f.0 == k))
            implies yaml_map_of_lines(lines).dom().contains(k)
                && yaml_map_of_lines(lines)[k] == yaml_line_entry(lines[i])->Some_0.1 by {
            if i < last {
                assert(!(yaml_line_entry(lines[last]) matches Some(f) && f.0 == k));
                assert(yaml_line_entry(init[i]) == yaml_line_entry(lines[i]));
                assert forall|j: int| i < j < init.len() implies !(#[trigger] yaml_line_entry(init[j]) matches Some(f) && f.0 == k) by {
                    assert(init[j] == lines[j]);
                }
            }
        }
        if forall|i: int| 0 <= i < lines.len() ==> !(#[trigger] yaml_line_entry(lines[i]) matches Some(e) && e.0 == k) {
            assert forall|i: int| 0 <= i < init.len() implies !(#[trigger] yaml_line_entry(init[i]) matches Some(e) && e.0 == k) by {
                assert(init[i] == lines[i]);
            }
            assert(!(yaml_line_entry(lines[last]) matches Some(e) && e.0 == k));
        }
    }
}

proof fn lemma_find_key_end(line: Seq<char>, k: Seq<char>, from: int)
    requires
        0 <= from <= k.len(),
        line.len() >= k.len() + 2,
        forall|i: int| 0 <= i < k.len() ==> line[i] == k[i],
        line[k.len() as int] == ':',
        line[k.len() + 1int] == ' ',
        forall|i: int| 0 <= i < k.len() - 1 ==> !(#[trigger] k[i] == ':' && k[i + 1] == ' '),
    ensures
        find_from(line, seq![':', ' '], from) == Some(k.len() as int),
    decreases k.len() - from,
{
    let p = seq![':', ' '];
    if from == k.len() {
        assert(line.subrange(from, from + 2) =~= p);
    } else {
        if occurs_at(line, p, from) {
            assert(line.subrange(from, from + 2)[0] == line[from]);
            assert(line.subrange(from, from + 2)[1] == line[from + 1]);
            assert(line[from] == k[from]);
            if from + 1 < k.len() {
                assert(line[from + 1] == k[from + 1]);
            }
        }
        lemma_find_key_end(line, k, from + 1);
    }
}

/// A YAML text of one line, `key: value`, whose key holds no `": "` and
/// neither key nor value holds a newline, surrounding whitespace or (for
/// the value) surrounding double quotes, maps that key to that value,
/// unless the line starts a document (`---`).
pub proof fn law_single_entry(k: Seq<char>, v: Seq<char>)
    requires
        !seq!['-', '-', '-'].is_prefix_of(k + seq![':', ' '] + v),
        forall|i: int| 0 <= i < k.len() ==> k[i] != '\n',
        forall|i: int| 0 <= i < k.len() - 1 ==> !(#[trigger] k[i] == ':' && k[i + 1] == ' '),
        k.len() == 0 || (!is_white_space(k[0]) && !is_white_space(k.last())),
        forall|i: int| 0 <= i < v.len() ==> v[i] != '\n',
        v.len() == 0 || (!is_white_space(v[0]) && !is_white_space(v.last()) && v[0] != '"'
            && v.last() != '"'),
    ensures
        yaml_map(k + seq![':', ' '] + v) == map![k => v],
{
    let line = k + seq![':', ' '] + v;
    assert forall|i: int| 0 <= i < line.len() implies line[i] != '\n' by {
        if i < k.len() {
            assert(line[i] == k[i]);
        } else if i >= k.len() + 2 {
            assert(line[i] == v[i - k.len() - 2]);
        }
    }
    lemma_lines_of_one_line(line);
    lemma_find_key_end(line, k, 0);
    assert(line.take(k.len() as int) =~= k);
    assert(line.skip(k.len() + 2int) =~= v);
    if k.len() > 0 {
        lemma_trim_unchanged(k);
    } else {
        assert(trim(k) =~= k);
    }
    if v.len() > 0 {
        lemma_trim_unchanged(v);
        assert(trim_start_by(v, Some('"')) == v);
        assert(trim_end_by(v, Some('"')) == v);
    } else {
        assert(trim(v) =~= v);
        assert(trim_quotes(v) =~= v);
    }
    assert(seq![line].drop_last() =~= Seq::<Seq<char>>::empty());
    assert(yaml_line_entry(line) == Some((k, v)));
    assert(seq![line].last() == line);
    assert(yaml_map_of_lines(Seq::<Seq<char>>::empty()) == Map::<Seq<char>, Seq<char>>::empty());
    assert(yaml_map_of_lines(seq![line]) == Map::<Seq<char>, Seq<char>>::empty().insert(k, v));
    assert(yaml_map_of_lines(seq![line]) =~= map![k => v]);
}

/// A YAML text of one line, `- item`, whose item holds no newline and no
/// surrounding whitespace, lists that one item.
pub proof fn law_single_item(v: Seq<char>)
    requires
        forall|i: int| 0 <= i < v.len() ==> v[i] != '\n',
        v.len() == 0 || (!is_white_space(v[0]) && !is_white_space(v.last())),
    ensures
        yaml_list(seq!['-', ' '] + v) == seq![v],
{
    let line = seq!['-', ' '] + v;
    assert forall|i: int| 0 <= i < line.len() implies line[i] != '\n' by {
        if i >= 2 {
            assert(line[i] == v[i - 2]);
        }
    }
    lemma_lines_of_one_line(line);
    assert(seq!['-', ' '].is_prefix_of(line));
    assert(line.skip(2) =~= v);
    if v.len() > 0 {
        lemma_trim_unchanged(v);
    } else {
        assert(trim(v) =~= v);
    }
    assert(seq![line].drop_last() =~= Seq::<Seq<char>>::empty());
    assert(seq![line].last() == line);
    assert(yaml_list_of_lines(Seq::<Seq<char>>::empty()) == Seq::<Seq<char>>::empty());
    assert(Seq::<Seq<char>>::empty().push(v) =~= seq![v]);
}

} // verus!
