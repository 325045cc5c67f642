//! Last-known VCP values, keyed by VCP code.
//!
//! Some monitors accept Set VCP Feature writes but never answer Get VCP
//! Feature requests, so the last value set (or read, where reads work) is
//! kept locally. The state file holds one `code=current,max` line per code,
//! the code in two hex digits; blank lines, `#` comments and malformed lines
//! are ignored.
use crate::ddc::VcpReply;
use crate::text::{
    all_digits, chars_of, decimal, digit_char, digit_val, digits_value, find_in, hex_byte,
    free_of, lemma_digit_char, lemma_free_of_concat, lemma_radix_text, lemma_radix_text_free_of, lemma_split_char_cons, lemma_split_char_single,
    lemma_trim_unchanged, parse_uint, parse_uint_in, push_decimal, push_hex_byte, split_char,
    split_once, trim, trim_range,
};
use std::collections::HashMap;
use vstd::prelude::*;
use vstd::string::StringExecFns;

verus! {

broadcast use vstd::std_specs::hash::group_hash_axioms;

/// The value stored for `code`, if any.
pub open spec fn lookup(m: Map<u8, (u16, u16)>, code: u8) -> Option<(u16, u16)> {
    if m.contains_key(code) {
        Some(m[code])
    } else {
        None
    }
}

// ---------------------------------------------------------------------------
// The state file format
// ---------------------------------------------------------------------------

/// The entry that one line of the state file holds, if it holds one.
pub open spec fn state_entry(line: Seq<char>) -> Option<(u8, (u16, u16))> {
    let l = trim(line);
    if l.len() == 0 || l[0] == '#' {
        None
    } else {
        match split_once(l, '=') {
            None => None,
            Some((code_s, rest)) => match split_once(rest, ',') {
                None => None,
                Some((cur_s, max_s)) => match (
                    parse_uint(trim(code_s), 16, 255),
                    parse_uint(trim(cur_s), 10, 65535),
                    parse_uint(trim(max_s), 10, 65535),
                ) {
                    (Some(c), Some(u), Some(m)) => Some((c as u8, (u as u16, m as u16))),
                    _ => None,
                },
            },
        }
    }
}

/// The values that a sequence of lines holds; a later line for a code wins.
pub open spec fn state_from_lines(lines: Seq<Seq<char>>) -> Map<u8, (u16, u16)>
    decreases lines.len(),
{
    if lines.len() == 0 {
        Map::empty()
    } else {
        let m = state_from_lines(lines.drop_last());
        match state_entry(lines.last()) {
            Some((k, v)) => m.insert(k, v),
            None => m,
        }
    }
}

/// The values that the state file `text` holds.
pub open spec fn parsed_state(text: Seq<char>) -> Map<u8, (u16, u16)> {
    state_from_lines(split_char(text, '\n'))
}

/// The first line of a written state file.
pub open spec fn state_header() -> Seq<char> {
    "# mon-osd cached VCP state -- auto-generated, safe to delete\n"@
}

/// One written line, newline excluded: `{code:02x}={current},{max}`.
pub open spec fn state_line(code: u8, value: (u16, u16)) -> Seq<char> {
    hex_byte(code) + seq!['='] + decimal(value.0 as nat) + seq![','] + decimal(value.1 as nat)
}

/// The written lines for `entries`, each followed by a newline.
pub open spec fn state_lines_text(entries: Seq<(u8, (u16, u16))>) -> Seq<char>
    decreases entries.len(),
{
    if entries.len() == 0 {
        Seq::empty()
    } else {
        state_line(entries[0].0, entries[0].1) + seq!['\n'] + state_lines_text(entries.drop_first())
    }
}

/// No code occurs twice in `entries`.
pub open spec fn distinct_codes(entries: Seq<(u8, (u16, u16))>) -> bool {
    forall|i: int, j: int|
        0 <= i < j < entries.len() ==> #[trigger] entries[i].0 != #[trigger] entries[j].0
}

/// `entries` lists exactly the values of `m`, each code once, in some order.
pub open spec fn lists_all(m: Map<u8, (u16, u16)>, entries: Seq<(u8, (u16, u16))>) -> bool {
    &&& distinct_codes(entries)
    &&& forall|i: int|
        0 <= i < entries.len() ==> m.contains_key(#[trigger] entries[i].0) && m[entries[i].0]
            == entries[i].1
    &&& forall|k: u8| #[trigger] m.contains_key(k) ==> exists|i: int| 0 <= i < entries.len() && entries[i].0 == k
}

/// `text` is a state file written for `m`: the header, then one line per
/// value of `m` in the order the map happened to be walked.
pub open spec fn is_state_text(m: Map<u8, (u16, u16)>, text: Seq<char>) -> bool {
    exists|entries: Seq<(u8, (u16, u16))>|
        lists_all(m, entries) && text == state_header() + state_lines_text(entries)
}

/// The written lines for `entries`, newlines excluded.
pub open spec fn written_lines(entries: Seq<(u8, (u16, u16))>) -> Seq<Seq<char>> {
    Seq::new(entries.len(), |i: int| state_line(entries[i].0, entries[i].1))
}

proof fn lemma_state_lines_text_push(entries: Seq<(u8, (u16, u16))>, e: (u8, (u16, u16)))
    ensures
        state_lines_text(entries.push(e)) == state_lines_text(entries) + state_line(e.0, e.1)
            + seq!['\n'],
    decreases entries.len(),
{
    if entries.len() == 0 {
        assert(entries.push(e).drop_first() =~= Seq::<(u8, (u16, u16))>::empty());
        assert(entries.push(e)[0] == e);
        assert(state_lines_text(entries) == Seq::<char>::empty());
        assert(state_lines_text(entries.push(e).drop_first()) == Seq::<char>::empty());
        assert(state_lines_text(entries.push(e)) =~= state_lines_text(entries) + state_line(
            e.0,
            e.1,
        ) + seq!['\n']);
    } else {
        assert(entries.push(e).drop_first() =~= entries.drop_first().push(e));
        assert(entries.push(e)[0] == entries[0]);
        lemma_state_lines_text_push(entries.drop_first(), e);
        assert(state_lines_text(entries.push(e)) =~= state_lines_text(entries) + state_line(
            e.0,
            e.1,
        ) + seq!['\n']);
    }
}

// ---------------------------------------------------------------------------
// Parsing and writing
// ---------------------------------------------------------------------------

/// The entry on the line `v[lo..hi)`, as `state_entry` reads it.
fn state_entry_in(v: &Vec<char>, lo: usize, hi: usize) -> (r: Option<(u8, (u16, u16))>)
    requires
        lo <= hi <= v@.len(),
    ensures
        r == state_entry(v@.subrange(lo as int, hi as int)),
{
    let ghost line = v@.subrange(lo as int, hi as int);
    let (a, b) = trim_range(v, lo, hi);
    let ghost l = v@.subrange(a as int, b as int);
    if a == b || v[a] == '#' {
        return None;
    }
    let eq = find_in(v, a, b, '=');
    if eq == b {
        return None;
    }
    let ghost rest = v@.subrange(eq + 1, b as int);
    assert(l.take(eq - a) =~= v@.subrange(a as int, eq as int));
    assert(l.skip(eq - a + 1) =~= rest);
    let comma = find_in(v, eq + 1, b, ',');
    if comma == b {
        return None;
    }
    assert(rest.take(comma - (eq + 1)) =~= v@.subrange(eq + 1, comma as int));
    assert(rest.skip(comma - (eq + 1) + 1) =~= v@.subrange(comma + 1, b as int));
    let (ca, cb) = trim_range(v, a, eq);
    let (ua, ub) = trim_range(v, eq + 1, comma);
    let (ma, mb) = trim_range(v, comma + 1, b);
    let code = parse_uint_in(v, ca, cb, 16, 255);
    let cur = parse_uint_in(v, ua, ub, 10, 65535);
    let max = parse_uint_in(v, ma, mb, 10, 65535);
    match (code, cur, max) {
        (Some(c), Some(u), Some(m)) => Some((c as u8, (u as u16, m as u16))),
        _ => None,
    }
}

/// Reads a state file: every well-formed `code=current,max` line, a later
/// line for a code replacing an earlier one.
pub fn parse_state(contents: &str) -> (values: HashMap<u8, (u16, u16)>)
    ensures
        values@ == parsed_state(contents@),
{
    let v = chars_of(contents);
    let mut values: HashMap<u8, (u16, u16)> = HashMap::new();
    let mut start: usize = 0;
    let ghost mut done: Seq<Seq<char>> = seq![];
    assert(v@.subrange(0, v@.len() as int) =~= v@);
    assert(done + split_char(v@, '\n') =~= split_char(v@, '\n'));
    loop
        invariant_except_break
            v@ == contents@,
            start <= v@.len(),
            split_char(v@, '\n') == done + split_char(v@.subrange(start as int, v@.len() as int), '\n'),
            values@ == state_from_lines(done),
        ensures
            v@ == contents@,
            split_char(v@, '\n') == done,
            values@ == state_from_lines(done),
        decreases v@.len() - start,
    {
        let end = find_in(&v, start, v.len(), '\n');
        let ghost rest = v@.subrange(start as int, v@.len() as int);
        let ghost line = v@.subrange(start as int, end as int);
        assert(rest.take(end - start) =~= line);
        let entry = state_entry_in(&v, start, end);
        match entry {
            Some((k, val)) => {
                values.insert(k, val);
            },
            None => {},
        }
        assert(done.push(line).drop_last() =~= done);
        if end == v.len() {
            assert(rest =~= line);
            assert(split_char(rest, '\n') == seq![line]);
            assert(split_char(v@, '\n') =~= done.push(line));
            proof {
                done = done.push(line);
            }
            break;
        }
        assert(rest.skip(end - start + 1) =~= v@.subrange(end + 1, v@.len() as int));
        assert(split_char(rest, '\n') == seq![line] + split_char(
            v@.subrange(end + 1, v@.len() as int),
            '\n',
        ));
        assert(split_char(v@, '\n') =~= done.push(line) + split_char(
            v@.subrange(end + 1, v@.len() as int),
            '\n',
        ));
        proof {
            done = done.push(line);
        }
        start = end + 1;
    }
    values
}

/// Appends the line for one entry, newline included.
fn push_state_line(out: &mut String, code: u8, value: (u16, u16))
    ensures
        final(out)@ == old(out)@ + state_line(code, value) + seq!['\n'],
{
    let ghost before = out@;
    push_hex_byte(out, code);
    out.append("=");
    push_decimal(out, value.0 as u64);
    out.append(",");
    push_decimal(out, value.1 as u64);
    out.append("\n");
    proof {
        reveal_strlit("=");
        reveal_strlit(",");
        reveal_strlit("\n");
    }
    assert(out@ =~= before + state_line(code, value) + seq!['\n']);
}

/// Writes a state file for `values`: a comment header, then one
/// `{code:02x}={current},{max}` line per code, in the map's walk order.
pub fn serialize_state(values: &HashMap<u8, (u16, u16)>) -> (out: String)
    ensures
        is_state_text(values@, out@),
{
    let mut out = String::from_str(
        "# mon-osd cached VCP state -- auto-generated, safe to delete\n",
    );
    let ghost mut listed: Seq<(u8, (u16, u16))> = seq![];
    for (code, value) in it: values.iter()
        invariant
            forall|i: int|
                0 <= i < it.seq().len() ==> values@.contains_key(*it.seq()[i].0)
                    && values@[*it.seq()[i].0] == *it.seq()[i].1,
            forall|k: u8|
                values@.contains_key(k) ==> it.seq().contains((&k, &values@[k])),
            it.seq().no_duplicates(),
            listed.len() == it.index(),
            forall|i: int|
                0 <= i < it.index() ==> (#[trigger] listed[i]).0 == *it.seq()[i].0 && listed[i].1
                    == *it.seq()[i].1,
            distinct_codes(listed),
            out@ == state_header() + state_lines_text(listed),
            it.index() == it.seq().len() ==> lists_all(values@, listed),
    {
        let ghost before = out@;
        push_state_line(&mut out, *code, *value);
        proof {
            lemma_state_lines_text_push(listed, (*code, *value));
            let old_listed = listed;
            listed = listed.push((*code, *value));
            assert forall|i: int, j: int| 0 <= i < j < listed.len() implies #[trigger] listed[i].0
                != #[trigger] listed[j].0 by {
                if j < old_listed.len() {
                    assert(old_listed[i].0 != old_listed[j].0);
                } else if listed[i].0 == listed[j].0 {
                    let k = listed[j].0;
                    assert(*it.seq()[i].0 == k && *it.seq()[j].0 == k);
                    assert(*it.seq()[i].1 == values@[k] && *it.seq()[j].1 == values@[k]);
                    assert(it.seq()[i] == it.seq()[j]);
                }
            }
        }
        assert(out@ =~= state_header() + state_lines_text(listed));
        assert forall|k: u8|
            #[trigger] values@.contains_key(k) && it.index() + 1 == it.seq().len() implies exists|
            i: int,
        | 0 <= i < listed.len() && listed[i].0 == k by {
            let j = choose|j: int| 0 <= j < it.seq().len() && it.seq()[j] == (&k, &values@[k]);
            assert(listed[j].0 == k);
        }
    }
    out
}

// ---------------------------------------------------------------------------
// Round trip
// ---------------------------------------------------------------------------

proof fn lemma_state_line_chars(code: u8, value: (u16, u16))
    ensures
        free_of(state_line(code, value), '\n'),
        state_entry(state_line(code, value)) == Some((code, value)),
{
    let h = hex_byte(code);
    let c = decimal(value.0 as nat);
    let m = decimal(value.1 as nat);
    let line = state_line(code, value);
    let rest = c + seq![','] + m;
    lemma_digit_char(code as nat / 16);
    lemma_digit_char(code as nat % 16);
    lemma_radix_text(value.0 as nat, 10);
    lemma_radix_text(value.1 as nat, 10);
    lemma_radix_text_free_of(value.0 as nat, 10, '\n');
    lemma_radix_text_free_of(value.1 as nat, 10, '\n');
    lemma_radix_text_free_of(value.0 as nat, 10, ',');
    assert(free_of(h, '\n') && free_of(h, '='));
    assert(free_of(seq!['='], '\n') && free_of(seq![','], '\n'));
    lemma_free_of_concat(c, seq![','], '\n');
    lemma_free_of_concat(c + seq![','], m, '\n');
    assert(line =~= h + seq!['='] + rest);
    lemma_free_of_concat(h, seq!['='], '\n');
    lemma_free_of_concat(h + seq!['='], rest, '\n');
    // The line is its own trim: it starts with a hex digit and ends with a digit.
    assert(line[0] == h[0]);
    assert(line.last() == m.last());
    lemma_trim_unchanged(line);
    // Split at '=': the hex code, then "current,max"; then at ','.
    lemma_split_char_cons(h, '=', rest);
    lemma_split_char_cons(c, ',', m);
    // Each piece is its own trim and reads back as its number.
    lemma_trim_unchanged(h);
    lemma_trim_unchanged(c);
    lemma_trim_unchanged(m);
    assert(h.drop_last() =~= seq![digit_char(code as nat / 16)]);
    assert(seq![digit_char(code as nat / 16)].drop_last() =~= Seq::<char>::empty());
    let d1 = seq![digit_char(code as nat / 16)];
    assert(d1.last() == digit_char(code as nat / 16));
    assert(digits_value(d1.drop_last(), 16) == 0);
    assert(digits_value(d1, 16) == digits_value(d1.drop_last(), 16) * 16 + digit_val(d1.last()));
    assert(digits_value(d1, 16) == code as nat / 16);
    assert(h.last() == digit_char(code as nat % 16));
    assert(digits_value(h, 16) == code as nat);
    assert(all_digits(h, 16));
    assert(parse_uint(h, 16, 255) == Some(code as nat));
    assert(parse_uint(c, 10, 65535) == Some(value.0 as nat));
    assert(parse_uint(m, 10, 65535) == Some(value.1 as nat));
}

proof fn lemma_split_state_lines(entries: Seq<(u8, (u16, u16))>)
    ensures
        split_char(state_lines_text(entries), '\n') == written_lines(entries).push(Seq::empty()),
    decreases entries.len(),
{
    let t = state_lines_text(entries);
    if entries.len() == 0 {
        lemma_split_char_single(t, '\n');
        assert(t =~= Seq::<char>::empty());
        assert(split_char(t, '\n') =~= written_lines(entries).push(Seq::empty()));
    } else {
        let first = state_line(entries[0].0, entries[0].1);
        lemma_state_line_chars(entries[0].0, entries[0].1);
        lemma_split_char_cons(first, '\n', state_lines_text(entries.drop_first()));
        lemma_split_state_lines(entries.drop_first());
        assert(split_char(t, '\n') =~= written_lines(entries).push(Seq::empty()));
    }
}

proof fn lemma_state_from_lines_skip_first(x: Seq<char>, lines: Seq<Seq<char>>)
    requires
        state_entry(x) is None,
    ensures
        state_from_lines(seq![x] + lines) == state_from_lines(lines),
    decreases lines.len(),
{
    let all = seq![x] + lines;
    if lines.len() == 0 {
        assert(all.drop_last() =~= Seq::<Seq<char>>::empty());
        assert(all.last() == x);
        assert(state_from_lines(all) == state_from_lines(all.drop_last()));
    } else {
        assert(all.drop_last() =~= seq![x] + lines.drop_last());
        assert(all.last() == lines.last());
        lemma_state_from_lines_skip_first(x, lines.drop_last());
        assert(state_from_lines(all.drop_last()) == state_from_lines(lines.drop_last()));
    }
}

/// The values read back from written lines, folded in order.
proof fn lemma_state_from_written_lines(entries: Seq<(u8, (u16, u16))>)
    ensures
        forall|k: u8|
            #[trigger] state_from_lines(
                written_lines(entries),
            ).contains_key(k) <==> exists|i: int| 0 <= i < entries.len() && entries[i].0 == k,
        forall|k: u8|
            #[trigger] state_from_lines(
                written_lines(entries),
            ).contains_key(k) ==> exists|i: int|
                0 <= i < entries.len() && entries[i].0 == k && state_from_lines(
                    written_lines(entries),
                )[k] == entries[i].1,
    decreases entries.len(),
{
    let lines = written_lines(entries);
    if entries.len() > 0 {
        let pre = entries.drop_last();
        let pre_lines = written_lines(pre);
        assert(lines.drop_last() =~= pre_lines);
        lemma_state_from_written_lines(pre);
        let e = entries.last();
        lemma_state_line_chars(e.0, e.1);
        assert(lines.last() == state_line(e.0, e.1));
        let m = state_from_lines(lines);
        assert(m == state_from_lines(written_lines(pre)).insert(e.0, e.1));
        assert forall|k: u8| #[trigger] m.contains_key(k) implies exists|i: int|
            0 <= i < entries.len() && entries[i].0 == k && m[k] == entries[i].1 by {
            if k == e.0 {
                assert(entries[entries.len() - 1].0 == k);
            } else {
                let i = choose|i: int|
                    0 <= i < pre.len() && pre[i].0 == k && state_from_lines(pre_lines)[k]
                        == pre[i].1;
                assert(entries[i] == pre[i]);
            }
        }
        assert forall|k: u8| (exists|i: int| 0 <= i < entries.len() && entries[i].0 == k) implies #[trigger] m.contains_key(k) by {
            let i = choose|i: int| 0 <= i < entries.len() && entries[i].0 == k;
            if i < entries.len() - 1 {
                assert(pre[i].0 == k);
                assert(state_from_lines(written_lines(pre)).contains_key(k));
            }
        }
    }
}

/// Reading back a written state file gives the values it was written for.
pub proof fn lemma_state_round_trip(m: Map<u8, (u16, u16)>, text: Seq<char>)
    requires
        is_state_text(m, text),
    ensures
        parsed_state(text) == m,
{
    let entries = choose|entries: Seq<(u8, (u16, u16))>|
        lists_all(m, entries) && text == state_header() + state_lines_text(entries);
    let lines = written_lines(entries);
    let hdr = state_header().drop_last();
    reveal_strlit("# mon-osd cached VCP state -- auto-generated, safe to delete\n");
    assert(state_header() =~= hdr + seq!['\n']);
    assert(forall|j: int| 0 <= j < hdr.len() ==> hdr[j] != '\n');
    assert(text =~= hdr + seq!['\n'] + state_lines_text(entries));
    lemma_split_char_cons(hdr, '\n', state_lines_text(entries));
    lemma_split_state_lines(entries);
    assert(split_char(text, '\n') =~= seq![hdr] + lines.push(Seq::empty()));
    assert(state_entry(hdr) is None) by {
        lemma_trim_unchanged(hdr);
    }
    lemma_state_from_lines_skip_first(hdr, lines.push(Seq::empty()));
    assert(lines.push(Seq::<char>::empty()).drop_last() =~= lines);
    assert(state_entry(Seq::<char>::empty()) is None);
    lemma_state_from_written_lines(entries);
    let p = state_from_lines(lines);
    assert(parsed_state(text) == p);
    assert forall|k: u8| #[trigger] p.contains_key(k) <==> m.contains_key(k) by {
        if m.contains_key(k) {
            let i = choose|i: int| 0 <= i < entries.len() && entries[i].0 == k;
        }
        if p.contains_key(k) {
            let i = choose|i: int| 0 <= i < entries.len() && entries[i].0 == k;
            assert(m.contains_key(entries[i].0));
        }
    }
    assert forall|k: u8| p.contains_key(k) implies #[trigger] p[k] == m[k] by {
        let i = choose|i: int| 0 <= i < entries.len() && entries[i].0 == k && p[k] == entries[i].1;
        assert(m[entries[i].0] == entries[i].1);
    }
    assert(p =~= m);
}

// ---------------------------------------------------------------------------
// The cache
// ---------------------------------------------------------------------------

/// Last-known `(current, max)` per VCP code.
pub struct Cache {
    values: HashMap<u8, (u16, u16)>,
}

impl View for Cache {
    type V = Map<u8, (u16, u16)>;

    closed spec fn view(&self) -> Map<u8, (u16, u16)> {
        self.values@
    }
}

impl Cache {
    /// A cache holding the values of the state file `contents`.
    pub fn from_state(contents: &str) -> (c: Self)
        ensures
            c@ == parsed_state(contents@),
    {
        Cache { values: parse_state(contents) }
    }

    /// The values, for writing the state file.
    pub fn values(&self) -> (r: &HashMap<u8, (u16, u16)>)
        ensures
            r@ == self@,
    {
        &self.values
    }

    /// The state file text for the current values.
    pub fn to_state(&self) -> (out: String)
        ensures
            is_state_text(self@, out@),
    {
        serialize_state(&self.values)
    }

    /// Last-known `(current, max)` for a VCP code, if it was ever set or read.
    pub fn get(&self, vcp_code: u8) -> (r: Option<(u16, u16)>)
        ensures
            r == lookup(self@, vcp_code),
    {
        match self.values.get(&vcp_code) {
            Some(v) => Some(*v),
            None => None,
        }
    }

    /// Records `(current, max)` for a VCP code.
    pub fn set(&mut self, vcp_code: u8, current: u16, max: u16)
        ensures
            final(self)@ == old(self)@.insert(vcp_code, (current, max)),
    {
        self.values.insert(vcp_code, (current, max));
    }

    /// The reading to report for `vcp_code`: a live reply when the monitor
    /// gave one (and it is recorded), else the last-known value, else 50 of 100.
    pub fn reading_or_cached(&mut self, vcp_code: u8, live: Option<VcpReply>) -> (r: VcpReply)
        ensures
            match live {
                Some(reply) => r == reply && final(self)@ == old(self)@.insert(
                    vcp_code,
                    (reply.current, reply.max),
                ),
                None => final(self)@ == old(self)@ && r == match lookup(old(self)@, vcp_code) {
                    Some((current, max)) => VcpReply { current, max },
                    None => VcpReply { current: 50, max: 100 },
                },
            },
    {
        match live {
            Some(reply) => {
                self.set(vcp_code, reply.current, reply.max);
                reply
            },
            None => match self.get(vcp_code) {
                Some((current, max)) => VcpReply { current, max },
                None => VcpReply { current: 50, max: 100 },
            },
        }
    }

    /// Records a value just written to the monitor, keeping the known maximum
    /// (100 when none is known).
    pub fn record_written(&mut self, vcp_code: u8, value: u16)
        ensures
            final(self)@ == old(self)@.insert(
                vcp_code,
                (
                    value,
                    match lookup(old(self)@, vcp_code) {
                        Some((_, max)) => max,
                        None => 100,
                    },
                ),
            ),
    {
        let max = match self.get(vcp_code) {
            Some((_, m)) => m,
            None => 100,
        };
        self.set(vcp_code, value, max);
    }
}

/// The values after a run of `set` calls, in order, on `m`.
pub open spec fn after_sets(m: Map<u8, (u16, u16)>, sets: Seq<(u8, (u16, u16))>) -> Map<
    u8,
    (u16, u16),
>
    decreases sets.len(),
{
    if sets.len() == 0 {
        m
    } else {
        after_sets(m, sets.drop_last()).insert(sets.last().0, sets.last().1)
    }
}

/// The value of the last of `sets` for `code`, if any.
pub open spec fn last_set(sets: Seq<(u8, (u16, u16))>, code: u8) -> Option<(u16, u16)>
    decreases sets.len(),
{
    if sets.len() == 0 {
        None
    } else if sets.last().0 == code {
        Some(sets.last().1)
    } else {
        last_set(sets.drop_last(), code)
    }
}

/// A cache loaded from the state file `text` and then given a run of `set`
/// calls reads, for each code, the value of the last set for it, or else
/// what the file holds for it (nothing when it holds nothing).
pub proof fn lemma_cache_get_after_load_and_sets(
    text: Seq<char>,
    sets: Seq<(u8, (u16, u16))>,
    code: u8,
)
    ensures
        lookup(after_sets(parsed_state(text), sets), code) == match last_set(sets, code) {
            Some(v) => Some(v),
            None => lookup(parsed_state(text), code),
        },
    decreases sets.len(),
{
    if sets.len() > 0 {
        lemma_cache_get_after_load_and_sets(text, sets.drop_last(), code);
    }
}

/// What was stored for a code is what is read back; other codes are untouched.
pub proof fn lemma_cache_read_after_write(
    m: Map<u8, (u16, u16)>,
    code: u8,
    current: u16,
    max: u16,
    other: u8,
)
    ensures
        lookup(m.insert(code, (current, max)), code) == Some((current, max)),
        other != code ==> lookup(m.insert(code, (current, max)), other) == lookup(m, other),
{
}

} // verus!
