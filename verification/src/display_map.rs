//! Display-identity to AV-index mappings for external displays, keyed by the
//! EDID-derived identity (which survives power cycles and reconnects), and
//! the text file they are kept in: one `vendor:model:serial=index[,name]`
//! line per display. Also the pinned AV index used for the volume fallback.
use crate::ioav::DisplayIdentity;
use crate::text::{
    chars_of, decimal, find_in, free_of, is_ws, lemma_free_of_concat, lemma_radix_text,
    lemma_radix_text_free_of, lemma_split_char_cons, lemma_split_char_single, lemma_trim_unchanged,
    parse_uint, parse_uint_in, push_decimal, split_char, split_once, trim, trim_range,
};
use vstd::prelude::*;
use vstd::string::{StrSliceExecFns, StringExecFns};

verus! {

/// What a mapping holds, as a value: the AV index and the optional label.
pub type MappingValue = (usize, Option<Seq<char>>);

/// The AV index and optional label saved for one display.
pub struct DisplayMapping {
    pub av_index: usize,
    pub name: Option<String>,
}

impl View for DisplayMapping {
    type V = MappingValue;

    open spec fn view(&self) -> MappingValue {
        (
            self.av_index,
            match self.name {
                Some(n) => Some(n@),
                None => None,
            },
        )
    }
}

/// The values of a listing of entries.
pub open spec fn entry_values(s: Seq<(DisplayIdentity, DisplayMapping)>) -> Seq<
    (DisplayIdentity, MappingValue),
> {
    s.map_values(|e: (DisplayIdentity, DisplayMapping)| (e.0, e.1@))
}

/// The map that a listing describes; a later entry for an identity wins.
pub open spec fn map_of(s: Seq<(DisplayIdentity, MappingValue)>) -> Map<
    DisplayIdentity,
    MappingValue,
>
    decreases s.len(),
{
    if s.len() == 0 {
        Map::empty()
    } else {
        map_of(s.drop_last()).insert(s.last().0, s.last().1)
    }
}

/// No identity occurs twice in the listing.
pub open spec fn unique_keys(s: Seq<(DisplayIdentity, MappingValue)>) -> bool {
    forall|i: int, j: int| 0 <= i < j < s.len() ==> #[trigger] s[i].0 != #[trigger] s[j].0
}

proof fn lemma_map_of(s: Seq<(DisplayIdentity, MappingValue)>)
    ensures
        map_of(s).dom().finite(),
        forall|k: DisplayIdentity|
            #[trigger] map_of(s).contains_key(k) <==> exists|i: int| 0 <= i < s.len() && s[i].0 == k,
        unique_keys(s) ==> forall|i: int|
            0 <= i < s.len() ==> #[trigger] map_of(s)[s[i].0] == s[i].1,
        unique_keys(s) ==> map_of(s).dom().len() == s.len(),
    decreases s.len(),
{
    if s.len() > 0 {
        let p = s.drop_last();
        lemma_map_of(p);
        assert forall|k: DisplayIdentity| #[trigger] map_of(s).contains_key(k) <==> exists|i: int|
            0 <= i < s.len() && s[i].0 == k by {
            if map_of(s).contains_key(k) && k != s.last().0 {
                let i = choose|i: int| 0 <= i < p.len() && p[i].0 == k;
                assert(s[i].0 == k);
            }
            if exists|i: int| 0 <= i < s.len() && s[i].0 == k {
                let i = choose|i: int| 0 <= i < s.len() && s[i].0 == k;
                if i < p.len() {
                    assert(p[i].0 == k);
                }
            }
        }
        if unique_keys(s) {
            assert(unique_keys(p));
            assert forall|i: int| 0 <= i < s.len() implies #[trigger] map_of(s)[s[i].0] == s[i].1 by {
                if i < p.len() {
                    assert(s[i].0 != s.last().0);
                    assert(map_of(p)[p[i].0] == p[i].1);
                }
            }
            assert(!map_of(p).contains_key(s.last().0)) by {
                if map_of(p).contains_key(s.last().0) {
                    let i = choose|i: int| 0 <= i < p.len() && p[i].0 == s.last().0;
                    assert(s[i].0 == s[s.len() - 1].0);
                }
            }
        }
    }
}

proof fn lemma_map_of_update(s: Seq<(DisplayIdentity, MappingValue)>, i: int, v: MappingValue)
    requires
        unique_keys(s),
        0 <= i < s.len(),
    ensures
        map_of(s.update(i, (s[i].0, v))) == map_of(s).insert(s[i].0, v),
        unique_keys(s.update(i, (s[i].0, v))),
    decreases s.len(),
{
    let t = s.update(i, (s[i].0, v));
    assert(unique_keys(t)) by {
        assert forall|a: int, b: int| 0 <= a < b < t.len() implies #[trigger] t[a].0
            != #[trigger] t[b].0 by {
            assert(t[a].0 == s[a].0 && t[b].0 == s[b].0);
        }
    }
    if i == s.len() - 1 {
        assert(t.drop_last() =~= s.drop_last());
        assert(map_of(t) =~= map_of(s).insert(s[i].0, v));
    } else {
        let p = s.drop_last();
        assert(unique_keys(p));
        lemma_map_of_update(p, i, v);
        assert(t.drop_last() =~= p.update(i, (p[i].0, v)));
        assert(s[i].0 != s.last().0);
        assert(map_of(t) =~= map_of(s).insert(s[i].0, v));
    }
}

/// Saved display mappings, one entry per identity.
pub struct DisplayMap {
    entries: Vec<(DisplayIdentity, DisplayMapping)>,
}

impl DisplayMap {
    #[verifier::type_invariant]
    spec fn keys_unique(self) -> bool {
        unique_keys(entry_values(self.entries@))
    }

    /// The entries in storage order.
    pub closed spec fn listing(&self) -> Seq<(DisplayIdentity, MappingValue)> {
        entry_values(self.entries@)
    }
}

impl View for DisplayMap {
    type V = Map<DisplayIdentity, MappingValue>;

    open spec fn view(&self) -> Map<DisplayIdentity, MappingValue> {
        map_of(self.listing())
    }
}

impl DisplayMap {
    /// A map with no mappings.
    pub fn new() -> (m: Self)
        ensures
            m@ == Map::<DisplayIdentity, MappingValue>::empty(),
            m.listing().len() == 0,
    {
        let m = DisplayMap { entries: Vec::new() };
        assert(m.listing() =~= Seq::<(DisplayIdentity, MappingValue)>::empty());
        m
    }

    /// Position of `identity` in the entries, if present.
    fn position(&self, identity: DisplayIdentity) -> (r: Option<usize>)
        ensures
            match r {
                Some(i) => i < self.listing().len() && self.listing()[i as int].0 == identity,
                None => forall|i: int|
                    0 <= i < self.listing().len() ==> self.listing()[i].0 != identity,
            },
    {
        let mut i: usize = 0;
        while i < self.entries.len()
            invariant
                0 <= i <= self.entries@.len(),
                forall|j: int| 0 <= j < i ==> self.listing()[j].0 != identity,
            decreases self.entries@.len() - i,
        {
            if self.entries[i].0 == identity {
                return Some(i);
            }
            i = i + 1;
        }
        None
    }

    /// The AV index mapped to `identity`, if any.
    pub fn get(&self, identity: DisplayIdentity) -> (r: Option<usize>)
        ensures
            r == mapped_index(self@, identity),
    {
        proof {
            use_type_invariant(self);
            lemma_map_of(self.listing());
        }
        match self.position(identity) {
            Some(i) => Some(self.entries[i].1.av_index),
            None => None,
        }
    }

    /// The whole mapping saved for `identity`, if any.
    pub fn mapping(&self, identity: DisplayIdentity) -> (r: Option<&DisplayMapping>)
        ensures
            match r {
                Some(m) => self@.contains_key(identity) && self@[identity] == m@,
                None => !self@.contains_key(identity),
            },
    {
        proof {
            use_type_invariant(self);
            lemma_map_of(self.listing());
        }
        match self.position(identity) {
            Some(i) => Some(&self.entries[i].1),
            None => None,
        }
    }

    /// Number of mapped displays.
    pub fn len(&self) -> (n: usize)
        ensures
            n == self@.dom().len(),
    {
        proof {
            use_type_invariant(self);
            lemma_map_of(self.listing());
        }
        self.entries.len()
    }

    /// Every mapping, each identity once, in storage order.
    pub fn all(&self) -> (r: &[(DisplayIdentity, DisplayMapping)])
        ensures
            entry_values(r@) == self.listing(),
            unique_keys(self.listing()),
            map_of(entry_values(r@)) == self@,
    {
        proof {
            use_type_invariant(self);
        }
        self.entries.as_slice()
    }

    /// Maps `identity` to `av_index` with an optional label, replacing any
    /// earlier mapping for it.
    pub fn set(&mut self, identity: DisplayIdentity, av_index: usize, name: Option<String>)
        ensures
            final(self)@ == old(self)@.insert(
                identity,
                (
                    av_index,
                    match name {
                        Some(n) => Some(n@),
                        None => None,
                    },
                ),
            ),
    {
        proof {
            use_type_invariant(&*self);
        }
        let ghost before = self.listing();
        let pos = self.position(identity);
        let mapping = DisplayMapping { av_index, name };
        let ghost v = mapping@;
        let mut entries: Vec<(DisplayIdentity, DisplayMapping)> = Vec::new();
        std::mem::swap(&mut entries, &mut self.entries);
        assert(entry_values(entries@) == before);
        match pos {
            Some(i) => {
                entries.set(i, (identity, mapping));
                proof {
                    lemma_map_of_update(before, i as int, v);
                    assert(entry_values(entries@) =~= before.update(i as int, (identity, v)));
                }
            },
            None => {
                entries.push((identity, mapping));
                proof {
                    assert(entry_values(entries@) =~= before.push((identity, v)));
                    assert(entry_values(entries@).drop_last() =~= before);
                    assert forall|a: int, b: int|
                        0 <= a < b < entry_values(entries@).len() implies #[trigger] entry_values(
                        entries@,
                    )[a].0 != #[trigger] entry_values(entries@)[b].0 by {
                        if b < before.len() {
                            assert(before[a].0 != before[b].0);
                        }
                    }
                }
            },
        }
        self.entries = entries;
    }
}

/// The AV index that `DisplayMap::get` reads from the view `m`.
pub open spec fn mapped_index(m: Map<DisplayIdentity, MappingValue>, identity: DisplayIdentity) -> Option<usize> {
    if m.contains_key(identity) {
        Some(m[identity].0)
    } else {
        None
    }
}

/// The mappings after a run of `set` calls, in order, on `m`.
pub open spec fn after_mapping_sets(
    m: Map<DisplayIdentity, MappingValue>,
    sets: Seq<(DisplayIdentity, MappingValue)>,
) -> Map<DisplayIdentity, MappingValue>
    decreases sets.len(),
{
    if sets.len() == 0 {
        m
    } else {
        after_mapping_sets(m, sets.drop_last()).insert(sets.last().0, sets.last().1)
    }
}

/// The mapping given by the last of `sets` for `identity`, if any.
pub open spec fn last_mapping_set(
    sets: Seq<(DisplayIdentity, MappingValue)>,
    identity: DisplayIdentity,
) -> Option<MappingValue>
    decreases sets.len(),
{
    if sets.len() == 0 {
        None
    } else if sets.last().0 == identity {
        Some(sets.last().1)
    } else {
        last_mapping_set(sets.drop_last(), identity)
    }
}

/// A map read from the mapping file `text` and then given a run of `set`
/// calls holds, for each identity, the mapping of the last set for it, or
/// else what the file holds for it; so `get` reads that mapping's AV index.
pub proof fn lemma_mapping_get_after_load_and_sets(
    text: Seq<char>,
    sets: Seq<(DisplayIdentity, MappingValue)>,
    identity: DisplayIdentity,
)
    ensures
        match last_mapping_set(sets, identity) {
            Some(v) => {
                &&& after_mapping_sets(parsed_mappings(text), sets).contains_key(identity)
                &&& after_mapping_sets(parsed_mappings(text), sets)[identity] == v
                &&& mapped_index(after_mapping_sets(parsed_mappings(text), sets), identity) == Some(v.0)
            },
            None => {
                &&& after_mapping_sets(parsed_mappings(text), sets).contains_key(identity)
                    == parsed_mappings(text).contains_key(identity)
                &&& parsed_mappings(text).contains_key(identity) ==> after_mapping_sets(
                    parsed_mappings(text),
                    sets,
                )[identity] == parsed_mappings(text)[identity]
                &&& mapped_index(after_mapping_sets(parsed_mappings(text), sets), identity)
                    == mapped_index(parsed_mappings(text), identity)
            },
        },
    decreases sets.len(),
{
    if sets.len() > 0 {
        lemma_mapping_get_after_load_and_sets(text, sets.drop_last(), identity);
    }
}

/// A mapping that was set is what is read back for that identity; other
/// identities keep theirs.
pub proof fn lemma_mapping_read_after_write(
    m: Map<DisplayIdentity, MappingValue>,
    identity: DisplayIdentity,
    v: MappingValue,
    other: DisplayIdentity,
)
    ensures
        m.insert(identity, v).contains_key(identity),
        m.insert(identity, v)[identity] == v,
        other != identity ==> m.insert(identity, v).contains_key(other) == m.contains_key(other),
        other != identity && m.contains_key(other) ==> m.insert(identity, v)[other] == m[other],
{
}

// ---------------------------------------------------------------------------
// The mapping file format
// ---------------------------------------------------------------------------

/// The mapping that one line of the file holds, if it holds one.
pub open spec fn mapping_entry(line: Seq<char>) -> Option<(DisplayIdentity, MappingValue)> {
    let l = trim(line);
    if l.len() == 0 || l[0] == '#' {
        None
    } else {
        match split_once(l, '=') {
            None => None,
            Some((id_s, rest)) => {
                let parts = split_char(id_s, ':');
                if parts.len() != 3 {
                    None
                } else {
                    match (
                        parse_uint(trim(parts[0]), 10, u32::MAX as nat),
                        parse_uint(trim(parts[1]), 10, u32::MAX as nat),
                        parse_uint(trim(parts[2]), 10, u32::MAX as nat),
                    ) {
                        (Some(vendor), Some(model), Some(serial)) => {
                            let (idx_s, name) = match split_once(rest, ',') {
                                Some((a, b)) => (a, if b.len() > 0 {
                                    Some(b)
                                } else {
                                    None
                                }),
                                None => (rest, None),
                            };
                            match parse_uint(trim(idx_s), 10, usize::MAX as nat) {
                                Some(idx) => Some(
                                    (
                                        DisplayIdentity {
                                            vendor: vendor as u32,
                                            model: model as u32,
                                            serial: serial as u32,
                                        },
                                        (idx as usize, name),
                                    ),
                                ),
                                None => None,
                            }
                        },
                        _ => None,
                    }
                }
            },
        }
    }
}

/// The mappings that a sequence of lines holds; a later line for an identity wins.
pub open spec fn mappings_from_lines(lines: Seq<Seq<char>>) -> Map<DisplayIdentity, MappingValue>
    decreases lines.len(),
{
    if lines.len() == 0 {
        Map::empty()
    } else {
        let m = mappings_from_lines(lines.drop_last());
        match mapping_entry(lines.last()) {
            Some((k, v)) => m.insert(k, v),
            None => m,
        }
    }
}

/// The mappings that the file `text` holds.
pub open spec fn parsed_mappings(text: Seq<char>) -> Map<DisplayIdentity, MappingValue> {
    mappings_from_lines(split_char(text, '\n'))
}

/// The first line of a written mapping file.
pub open spec fn mappings_header() -> Seq<char> {
    "# mon-osd display-identity (vendor:model:serial) -> av-index mapping -- auto-generated\n"@
}

/// `vendor:model:serial`.
pub open spec fn identity_text(id: DisplayIdentity) -> Seq<char> {
    decimal(id.vendor as nat) + seq![':'] + decimal(id.model as nat) + seq![':'] + decimal(
        id.serial as nat,
    )
}

/// One written line, newline excluded: `vendor:model:serial=index` and,
/// when labelled, `,name`.
pub open spec fn mapping_line(id: DisplayIdentity, v: MappingValue) -> Seq<char> {
    identity_text(id) + seq!['='] + decimal(v.0 as nat) + match v.1 {
        Some(n) => seq![','] + n,
        None => Seq::empty(),
    }
}

/// The written lines for a listing, each followed by a newline.
pub open spec fn mapping_lines_text(s: Seq<(DisplayIdentity, MappingValue)>) -> Seq<char>
    decreases s.len(),
{
    if s.len() == 0 {
        Seq::empty()
    } else {
        mapping_line(s[0].0, s[0].1) + seq!['\n'] + mapping_lines_text(s.drop_first())
    }
}

/// The whole file written for a listing.
pub open spec fn mappings_text(s: Seq<(DisplayIdentity, MappingValue)>) -> Seq<char> {
    mappings_header() + mapping_lines_text(s)
}

/// A label that survives being written and read back: not empty, on one
/// line, and not ending in whitespace (lines are trimmed when read).
pub open spec fn storable_name(n: Seq<char>) -> bool {
    n.len() > 0 && free_of(n, '\n') && !is_ws(n.last())
}

/// A mapping whose label, if any, is storable.
pub open spec fn storable_value(v: MappingValue) -> bool {
    match v.1 {
        Some(n) => storable_name(n),
        None => true,
    }
}

/// Every label in the listing is storable.
pub open spec fn storable(s: Seq<(DisplayIdentity, MappingValue)>) -> bool {
    forall|i: int| 0 <= i < s.len() ==> storable_value(#[trigger] s[i].1)
}

proof fn lemma_mapping_lines_text_push(s: Seq<(DisplayIdentity, MappingValue)>, e: (DisplayIdentity, MappingValue))
    ensures
        mapping_lines_text(s.push(e)) == mapping_lines_text(s) + mapping_line(e.0, e.1) + seq!['\n'],
    decreases s.len(),
{
    if s.len() == 0 {
        assert(s.push(e).drop_first() =~= Seq::<(DisplayIdentity, MappingValue)>::empty());
        assert(s.push(e)[0] == e);
        assert(mapping_lines_text(s) == Seq::<char>::empty());
        assert(mapping_lines_text(s.push(e).drop_first()) == Seq::<char>::empty());
        assert(mapping_lines_text(s.push(e)) =~= mapping_lines_text(s) + mapping_line(e.0, e.1)
            + seq!['\n']);
    } else {
        assert(s.push(e).drop_first() =~= s.drop_first().push(e));
        assert(s.push(e)[0] == s[0]);
        lemma_mapping_lines_text_push(s.drop_first(), e);
        assert(mapping_lines_text(s.push(e)) =~= mapping_lines_text(s) + mapping_line(e.0, e.1)
            + seq!['\n']);
    }
}

// ---------------------------------------------------------------------------
// Parsing and writing
// ---------------------------------------------------------------------------

/// The mapping on the line `v[lo..hi)` of `contents`, as `mapping_entry` reads it.
fn mapping_entry_in(contents: &str, v: &Vec<char>, lo: usize, hi: usize) -> (r: Option<
    (DisplayIdentity, DisplayMapping),
>)
    requires
        v@ == contents@,
        lo <= hi <= v@.len(),
    ensures
        match r {
            Some(e) => mapping_entry(v@.subrange(lo as int, hi as int)) == Some((e.0, e.1@)),
            None => mapping_entry(v@.subrange(lo as int, hi as int)) is None,
        },
{
    let (a, b) = trim_range(v, lo, hi);
    let ghost l = v@.subrange(a as int, b as int);
    if a == b || v[a] == '#' {
        return None;
    }
    let eq = find_in(v, a, b, '=');
    if eq == b {
        return None;
    }
    let ghost id_s = v@.subrange(a as int, eq as int);
    let ghost rest = v@.subrange(eq + 1, b as int);
    assert(l.take(eq - a) =~= id_s);
    assert(l.skip(eq - a + 1) =~= rest);
    // The identity must be exactly three ':'-separated numbers.
    let c1 = find_in(v, a, eq, ':');
    if c1 == eq {
        proof {
            assert(id_s =~= v@.subrange(a as int, c1 as int));
            lemma_split_char_single(id_s, ':');
        }
        return None;
    }
    let ghost r1 = v@.subrange(c1 + 1, eq as int);
    assert(id_s.take(c1 - a) =~= v@.subrange(a as int, c1 as int));
    assert(id_s.skip(c1 - a + 1) =~= r1);
    assert(split_char(id_s, ':') == seq![v@.subrange(a as int, c1 as int)] + split_char(r1, ':'));
    let c2 = find_in(v, c1 + 1, eq, ':');
    if c2 == eq {
        proof {
            assert(r1 =~= v@.subrange(c1 + 1, c2 as int));
            lemma_split_char_single(r1, ':');
        }
        return None;
    }
    let ghost r2 = v@.subrange(c2 + 1, eq as int);
    assert(r1.take(c2 - (c1 + 1)) =~= v@.subrange(c1 + 1, c2 as int));
    assert(r1.skip(c2 - (c1 + 1) + 1) =~= r2);
    assert(split_char(r1, ':') == seq![v@.subrange(c1 + 1, c2 as int)] + split_char(r2, ':'));
    let c3 = find_in(v, c2 + 1, eq, ':');
    if c3 != eq {
        proof {
            lemma_split_char_len(r2.skip(c3 - (c2 + 1) + 1), ':');
            assert(r2.skip(c3 - (c2 + 1) + 1) =~= v@.subrange(c3 + 1, eq as int));
            assert(split_char(r2, ':').len() >= 2);
        }
        return None;
    }
    proof {
        assert(r2 =~= v@.subrange(c2 + 1, c3 as int));
        lemma_split_char_single(r2, ':');
        assert(split_char(id_s, ':') =~= seq![
            v@.subrange(a as int, c1 as int),
            v@.subrange(c1 + 1, c2 as int),
            r2,
        ]);
    }
    let (va, vb) = trim_range(v, a, c1);
    let (ma, mb) = trim_range(v, c1 + 1, c2);
    let (sa, sb) = trim_range(v, c2 + 1, eq);
    let vendor = parse_uint_in(v, va, vb, 10, 0xffff_ffff);
    let model = parse_uint_in(v, ma, mb, 10, 0xffff_ffff);
    let serial = parse_uint_in(v, sa, sb, 10, 0xffff_ffff);
    match (vendor, model, serial) {
        (Some(vendor), Some(model), Some(serial)) => {
            // Index, then an optional label after the first ','.
            let comma = find_in(v, eq + 1, b, ',');
            let idx_end = comma;
            let mut name: Option<String> = None;
            if comma < b {
                assert(rest.take(comma - (eq + 1)) =~= v@.subrange(eq + 1, comma as int));
                assert(rest.skip(comma - (eq + 1) + 1) =~= v@.subrange(comma + 1, b as int));
                if comma + 1 < b {
                    let label = contents.substring_char(comma + 1, b);
                    name = Some(String::from_str(label));
                }
            } else {
                assert(rest =~= v@.subrange(eq + 1, comma as int));
            }
            let (ia, ib) = trim_range(v, eq + 1, idx_end);
            let idx = parse_uint_in(v, ia, ib, 10, usize::MAX as u64);
            match idx {
                Some(i) => {
                    let id = DisplayIdentity {
                        vendor: vendor as u32,
                        model: model as u32,
                        serial: serial as u32,
                    };
                    Some((id, DisplayMapping { av_index: i as usize, name }))
                },
                None => None,
            }
        },
        _ => None,
    }
}

/// Reads a mapping file: every well-formed line, a later line for an
/// identity replacing an earlier one.
pub fn parse_mappings(contents: &str) -> (m: DisplayMap)
    ensures
        m@ == parsed_mappings(contents@),
{
    let v = chars_of(contents);
    let mut map = DisplayMap::new();
    let mut start: usize = 0;
    let ghost mut done: Seq<Seq<char>> = seq![];
    assert(v@.subrange(0, v@.len() as int) =~= v@);
    assert(done + split_char(v@, '\n') =~= split_char(v@, '\n'));
    loop
        invariant_except_break
            v@ == contents@,
            start <= v@.len(),
            split_char(v@, '\n') == done + split_char(
                v@.subrange(start as int, v@.len() as int),
                '\n',
            ),
            map@ == mappings_from_lines(done),
        ensures
            v@ == contents@,
            split_char(v@, '\n') == done,
            map@ == mappings_from_lines(done),
        decreases v@.len() - start,
    {
        let end = find_in(&v, start, v.len(), '\n');
        let ghost rest = v@.subrange(start as int, v@.len() as int);
        let ghost line = v@.subrange(start as int, end as int);
        assert(rest.take(end - start) =~= line);
        let entry = mapping_entry_in(contents, &v, start, end);
        match entry {
            Some((id, mapping)) => {
                map.set(id, mapping.av_index, mapping.name);
            },
            None => {},
        }
        assert(done.push(line).drop_last() =~= done);
        if end == v.len() {
            assert(rest =~= line);
            assert(split_char(rest, '\n') == seq![line]);
            assert(split_char(v@, '\n') =~= done.push(line));
            proof {
                done = done.push(line);
            }
            break;
        }
        assert(rest.skip(end - start + 1) =~= v@.subrange(end + 1, v@.len() as int));
        assert(split_char(rest, '\n') == seq![line] + split_char(
            v@.subrange(end + 1, v@.len() as int),
            '\n',
        ));
        assert(split_char(v@, '\n') =~= done.push(line) + split_char(
            v@.subrange(end + 1, v@.len() as int),
            '\n',
        ));
        proof {
            done = done.push(line);
        }
        start = end + 1;
    }
    map
}

/// Splitting always yields at least one piece.
proof fn lemma_split_char_len(s: Seq<char>, c: char)
    ensures
        split_char(s, c).len() >= 1,
    decreases s.len(),
{
    crate::text::lemma_find_char(s, c);
}

/// Appends the line for one mapping, newline included.
fn push_mapping_line(out: &mut String, id: DisplayIdentity, m: &DisplayMapping)
    ensures
        final(out)@ == old(out)@ + mapping_line(id, m@) + seq!['\n'],
{
    let ghost before = out@;
    proof {
        reveal_strlit(":");
        reveal_strlit("=");
        reveal_strlit(",");
        reveal_strlit("\n");
    }
    push_decimal(out, id.vendor as u64);
    out.append(":");
    push_decimal(out, id.model as u64);
    out.append(":");
    push_decimal(out, id.serial as u64);
    out.append("=");
    push_decimal(out, m.av_index as u64);
    match &m.name {
        Some(n) => {
            out.append(",");
            out.append(n.as_str());
        },
        None => {},
    }
    out.append("\n");
    assert(out@ =~= before + mapping_line(id, m@) + seq!['\n']);
}

/// Writes a mapping file: a comment header, then one line per mapping in
/// storage order.
pub fn serialize_mappings(map: &DisplayMap) -> (out: String)
    ensures
        out@ == mappings_text(map.listing()),
        unique_keys(map.listing()),
        map_of(map.listing()) == map@,
{
    let entries = map.all();
    let mut out = String::from_str(
        "# mon-osd display-identity (vendor:model:serial) -> av-index mapping -- auto-generated\n",
    );
    let mut i: usize = 0;
    while i < entries.len()
        invariant
            0 <= i <= entries@.len(),
            entry_values(entries@) == map.listing(),
            out@ == mappings_header() + mapping_lines_text(entry_values(entries@).take(i as int)),
        decreases entries@.len() - i,
    {
        let (id, m) = &entries[i];
        push_mapping_line(&mut out, *id, m);
        proof {
            let s = entry_values(entries@);
            assert(s.take(i + 1) =~= s.take(i as int).push(s[i as int]));
            lemma_mapping_lines_text_push(s.take(i as int), s[i as int]);
        }
        i = i + 1;
    }
    assert(entry_values(entries@).take(entries@.len() as int) =~= entry_values(entries@));
    out
}

// ---------------------------------------------------------------------------
// Round trip
// ---------------------------------------------------------------------------

proof fn lemma_identity_text(id: DisplayIdentity)
    ensures
        identity_text(id).len() > 0,
        !is_ws(identity_text(id)[0]),
        free_of(identity_text(id), '\n'),
        free_of(identity_text(id), '='),
        split_char(identity_text(id), ':') == seq![
            decimal(id.vendor as nat),
            decimal(id.model as nat),
            decimal(id.serial as nat),
        ],
        parse_uint(trim(decimal(id.vendor as nat)), 10, u32::MAX as nat) == Some(id.vendor as nat),
        parse_uint(trim(decimal(id.model as nat)), 10, u32::MAX as nat) == Some(id.model as nat),
        parse_uint(trim(decimal(id.serial as nat)), 10, u32::MAX as nat) == Some(id.serial as nat),
{
    let dv = decimal(id.vendor as nat);
    let dm = decimal(id.model as nat);
    let ds = decimal(id.serial as nat);
    let ids = identity_text(id);
    lemma_radix_text(id.vendor as nat, 10);
    lemma_radix_text(id.model as nat, 10);
    lemma_radix_text(id.serial as nat, 10);
    lemma_radix_text_free_of(id.vendor as nat, 10, '\n');
    lemma_radix_text_free_of(id.model as nat, 10, '\n');
    lemma_radix_text_free_of(id.serial as nat, 10, '\n');
    lemma_radix_text_free_of(id.vendor as nat, 10, '=');
    lemma_radix_text_free_of(id.model as nat, 10, '=');
    lemma_radix_text_free_of(id.serial as nat, 10, '=');
    lemma_radix_text_free_of(id.vendor as nat, 10, ':');
    lemma_radix_text_free_of(id.model as nat, 10, ':');
    lemma_radix_text_free_of(id.serial as nat, 10, ':');
    assert(free_of(seq![':'], '\n') && free_of(seq![':'], '='));
    lemma_free_of_concat(dv, seq![':'], '\n');
    lemma_free_of_concat(dv + seq![':'], dm, '\n');
    lemma_free_of_concat(dv + seq![':'] + dm, seq![':'], '\n');
    lemma_free_of_concat(dv + seq![':'] + dm + seq![':'], ds, '\n');
    lemma_free_of_concat(dv, seq![':'], '=');
    lemma_free_of_concat(dv + seq![':'], dm, '=');
    lemma_free_of_concat(dv + seq![':'] + dm, seq![':'], '=');
    lemma_free_of_concat(dv + seq![':'] + dm + seq![':'], ds, '=');
    assert(ids[0] == dv[0]);
    assert(ids =~= dv + seq![':'] + (dm + seq![':'] + ds));
    lemma_split_char_cons(dv, ':', dm + seq![':'] + ds);
    lemma_split_char_cons(dm, ':', ds);
    lemma_split_char_single(ds, ':');
    assert(split_char(ids, ':') =~= seq![dv, dm, ds]);
    lemma_trim_unchanged(dv);
    lemma_trim_unchanged(dm);
    lemma_trim_unchanged(ds);
}

/// `index[,name]`: the part of a line after the identity.
pub open spec fn index_text(v: MappingValue) -> Seq<char> {
    decimal(v.0 as nat) + match v.1 {
        Some(n) => seq![','] + n,
        None => Seq::empty(),
    }
}

proof fn lemma_index_text(v: MappingValue)
    requires
        storable_value(v),
    ensures
        free_of(index_text(v), '\n'),
        index_text(v).len() > 0,
        !is_ws(index_text(v).last()),
        split_once(index_text(v), ',') == (match v.1 {
            Some(n) => Some((decimal(v.0 as nat), n)),
            None => None::<(Seq<char>, Seq<char>)>,
        }),
        parse_uint(trim(decimal(v.0 as nat)), 10, usize::MAX as nat) == Some(v.0 as nat),
{
    let di = decimal(v.0 as nat);
    let rest = index_text(v);
    lemma_radix_text(v.0 as nat, 10);
    lemma_radix_text_free_of(v.0 as nat, 10, '\n');
    lemma_radix_text_free_of(v.0 as nat, 10, ',');
    lemma_trim_unchanged(di);
    match v.1 {
        Some(n) => {
            assert(free_of(seq![','], '\n'));
            lemma_free_of_concat(seq![','], n, '\n');
            lemma_free_of_concat(di, seq![','] + n, '\n');
            assert(rest =~= di + seq![','] + n);
            assert(rest.last() == n.last());
            lemma_split_char_cons(di, ',', n);
        },
        None => {
            assert(rest =~= di);
            lemma_split_char_single(di, ',');
        },
    }
}

proof fn lemma_mapping_line(id: DisplayIdentity, v: MappingValue)
    requires
        storable_value(v),
    ensures
        free_of(mapping_line(id, v), '\n'),
        mapping_entry(mapping_line(id, v)) == Some((id, v)),
{
    let ids = identity_text(id);
    let rest = index_text(v);
    let line = mapping_line(id, v);
    lemma_identity_text(id);
    lemma_index_text(v);
    assert(line =~= ids + seq!['='] + rest);
    assert(free_of(seq!['='], '\n'));
    lemma_free_of_concat(ids, seq!['='], '\n');
    lemma_free_of_concat(ids + seq!['='], rest, '\n');
    assert(line[0] == ids[0]);
    assert(line.last() == rest.last());
    lemma_trim_unchanged(line);
    lemma_split_char_cons(ids, '=', rest);
    assert(split_once(line, '=') == Some((ids, rest)));
}

proof fn lemma_split_mapping_lines(s: Seq<(DisplayIdentity, MappingValue)>)
    requires
        storable(s),
    ensures
        split_char(mapping_lines_text(s), '\n') == Seq::new(
            s.len(),
            |i: int| mapping_line(s[i].0, s[i].1),
        ).push(Seq::empty()),
    decreases s.len(),
{
    let t = mapping_lines_text(s);
    if s.len() == 0 {
        lemma_split_char_single(t, '\n');
        assert(t =~= Seq::<char>::empty());
        assert(split_char(t, '\n') =~= Seq::new(
            s.len(),
            |i: int| mapping_line(s[i].0, s[i].1),
        ).push(Seq::empty()));
    } else {
        let first = mapping_line(s[0].0, s[0].1);
        assert(storable_value(s[0].1));
        lemma_mapping_line(s[0].0, s[0].1);
        lemma_split_char_cons(first, '\n', mapping_lines_text(s.drop_first()));
        assert(storable(s.drop_first())) by {
            assert forall|i: int| 0 <= i < s.drop_first().len() implies storable_value(
                #[trigger] s.drop_first()[i].1,
            ) by {
                assert(s.drop_first()[i] == s[i + 1]);
            }
        }
        lemma_split_mapping_lines(s.drop_first());
        assert(split_char(t, '\n') =~= Seq::new(
            s.len(),
            |i: int| mapping_line(s[i].0, s[i].1),
        ).push(Seq::empty()));
    }
}

/// The written lines of a listing, newlines excluded.
pub open spec fn written_mapping_lines(s: Seq<(DisplayIdentity, MappingValue)>) -> Seq<Seq<char>> {
    Seq::new(s.len(), |i: int| mapping_line(s[i].0, s[i].1))
}

proof fn lemma_mappings_from_written_lines(s: Seq<(DisplayIdentity, MappingValue)>)
    requires
        storable(s),
    ensures
        mappings_from_lines(written_mapping_lines(s)) == map_of(s),
    decreases s.len(),
{
    if s.len() > 0 {
        let p = s.drop_last();
        assert(storable(p)) by {
            assert forall|i: int| 0 <= i < p.len() implies storable_value(#[trigger] p[i].1) by {
                assert(p[i] == s[i]);
            }
        }
        lemma_mappings_from_written_lines(p);
        assert(written_mapping_lines(s).drop_last() =~= written_mapping_lines(p));
        assert(storable_value(s[s.len() - 1].1));
        lemma_mapping_line(s.last().0, s.last().1);
    }
}

proof fn lemma_mappings_skip_first(x: Seq<char>, lines: Seq<Seq<char>>)
    requires
        mapping_entry(x) is None,
    ensures
        mappings_from_lines(seq![x] + lines) == mappings_from_lines(lines),
    decreases lines.len(),
{
    let all = seq![x] + lines;
    if lines.len() == 0 {
        assert(all.drop_last() =~= Seq::<Seq<char>>::empty());
        assert(all.last() == x);
        assert(mappings_from_lines(all) == mappings_from_lines(all.drop_last()));
    } else {
        assert(all.drop_last() =~= seq![x] + lines.drop_last());
        assert(all.last() == lines.last());
        lemma_mappings_skip_first(x, lines.drop_last());
        assert(mappings_from_lines(all.drop_last()) == mappings_from_lines(lines.drop_last()));
    }
}

/// Reading back a written mapping file gives the mappings it was written
/// for, whenever every label is storable.
pub proof fn lemma_mappings_round_trip(s: Seq<(DisplayIdentity, MappingValue)>)
    requires
        storable(s),
    ensures
        parsed_mappings(mappings_text(s)) == map_of(s),
{
    let text = mappings_text(s);
    let hdr = mappings_header().drop_last();
    reveal_strlit(
        "# mon-osd display-identity (vendor:model:serial) -> av-index mapping -- auto-generated\n",
    );
    assert(mappings_header() =~= hdr + seq!['\n']);
    assert(forall|j: int| 0 <= j < hdr.len() ==> hdr[j] != '\n');
    assert(text =~= hdr + seq!['\n'] + mapping_lines_text(s));
    lemma_split_char_cons(hdr, '\n', mapping_lines_text(s));
    lemma_split_mapping_lines(s);
    let lines = written_mapping_lines(s);
    assert(split_char(text, '\n') =~= seq![hdr] + lines.push(Seq::empty()));
    assert(mapping_entry(hdr) is None) by {
        lemma_trim_unchanged(hdr);
    }
    lemma_mappings_skip_first(hdr, lines.push(Seq::empty()));
    assert(lines.push(Seq::<char>::empty()).drop_last() =~= lines);
    assert(mapping_entry(Seq::<char>::empty()) is None);
    lemma_mappings_from_written_lines(s);
}

// ---------------------------------------------------------------------------
// Pinned volume index
// ---------------------------------------------------------------------------

/// The AV index held by the pinned-volume-index file: its trimmed contents
/// as a decimal number.
pub open spec fn parsed_volume_index(text: Seq<char>) -> Option<usize> {
    match parse_uint(trim(text), 10, usize::MAX as nat) {
        Some(n) => Some(n as usize),
        None => None,
    }
}

/// Reads the pinned volume AV index from the file contents.
pub fn parse_volume_index(contents: &str) -> (r: Option<usize>)
    ensures
        r == parsed_volume_index(contents@),
{
    let v = chars_of(contents);
    let (a, b) = trim_range(&v, 0, v.len());
    assert(v@.subrange(0, v@.len() as int) =~= v@);
    match parse_uint_in(&v, a, b, 10, usize::MAX as u64) {
        Some(n) => Some(n as usize),
        None => None,
    }
}

/// The file contents that pin `index`: the number in decimal.
pub fn volume_index_text(index: usize) -> (out: String)
    ensures
        out@ == decimal(index as nat),
{
    let mut out = String::new();
    push_decimal(&mut out, index as u64);
    assert(out@ =~= decimal(index as nat));
    out
}

/// A pinned index reads back as itself.
pub proof fn lemma_volume_index_round_trip(index: usize)
    ensures
        parsed_volume_index(decimal(index as nat)) == Some(index),
{
    lemma_radix_text(index as nat, 10);
    lemma_trim_unchanged(decimal(index as nat));
}

} // verus!
