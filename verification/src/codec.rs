//! The persisted form of a timer store: a JSON array with one object per
//! entry, `{"name":...,"active":...,"total":...,"active_since":...}`,
//! written and read by this module. Reading accepts exactly what writing
//! produces; anything else is malformed.

use vstd::prelude::*;

use crate::chars::{char_vec_to_string, str_to_char_vec};
use crate::digits::{dec_digits, parse_number, parse_u64_at, push_decimal};
use crate::store::{EntryModel, TimerEntry, TimerStore};

verus! {

/// Error returned when persisted text is not a well-formed store.
#[derive(Debug, Clone, Copy, PartialEq, Eq, Structural)]
pub enum LoadError {
    Malformed,
}

/// The text that opens an entry, up to and including the name's quote.
pub open spec fn lit_name() -> Seq<char> {
    "{\"name\":\""@
}

/// The text between the name's closing quote and the active flag.
pub open spec fn lit_active() -> Seq<char> {
    ",\"active\":"@
}

/// The text between the active flag and the accumulated total.
pub open spec fn lit_total() -> Seq<char> {
    ",\"total\":"@
}

/// The text between the total and the start of the active interval.
pub open spec fn lit_since() -> Seq<char> {
    ",\"active_since\":"@
}

/// A name with every quote and backslash preceded by a backslash.
pub open spec fn escape_text(s: Seq<char>) -> Seq<char>
    decreases s.len(),
{
    if s.len() == 0 {
        Seq::<char>::empty()
    } else {
        (if s[0] == '"' || s[0] == '\\' {
            seq!['\\', s[0]]
        } else {
            seq![s[0]]
        }) + escape_text(s.skip(1))
    }
}

/// The text of a boolean.
pub open spec fn bool_text(b: bool) -> Seq<char> {
    if b {
        "true"@
    } else {
        "false"@
    }
}

/// The persisted text of one entry.
pub open spec fn entry_text(e: EntryModel) -> Seq<char> {
    lit_name() + (escape_text(e.name) + (seq!['"'] + (lit_active() + (bool_text(e.active) + (
    lit_total() + (dec_digits(e.total as int) + (lit_since() + (dec_digits(e.active_since as int)
        + seq!['}']))))))))
}

/// The persisted text of every entry after the first, each preceded by a
/// comma.
pub open spec fn tail_text(entries: Seq<EntryModel>) -> Seq<char>
    decreases entries.len(),
{
    if entries.len() == 0 {
        Seq::<char>::empty()
    } else {
        seq![','] + (entry_text(entries[0]) + tail_text(entries.skip(1)))
    }
}

/// The persisted text of a sequence of entries, comma-separated.
pub open spec fn entries_text(entries: Seq<EntryModel>) -> Seq<char> {
    if entries.len() == 0 {
        Seq::<char>::empty()
    } else {
        entry_text(entries[0]) + tail_text(entries.skip(1))
    }
}

/// The persisted text of a whole store.
pub open spec fn store_text(entries: Seq<EntryModel>) -> Seq<char> {
    seq!['['] + (entries_text(entries) + seq![']'])
}

/// Consumes `lit` from the front of `s`, yielding what follows it.
pub open spec fn expect_text(s: Seq<char>, lit: Seq<char>) -> Option<Seq<char>> {
    if lit.len() <= s.len() && s.take(lit.len() as int) == lit {
        Some(s.skip(lit.len() as int))
    } else {
        None
    }
}

/// Consumes one expected character from the front of `s`.
pub open spec fn expect_one(s: Seq<char>, c: char) -> Option<Seq<char>> {
    if s.len() > 0 && s[0] == c {
        Some(s.skip(1))
    } else {
        None
    }
}

/// Reads a name up to its closing quote, undoing the escaping; yields the
/// name and what follows the quote.
pub open spec fn parse_text(s: Seq<char>) -> Option<(Seq<char>, Seq<char>)>
    decreases s.len(),
{
    if s.len() == 0 {
        None
    } else if s[0] == '"' {
        Some((Seq::<char>::empty(), s.skip(1)))
    } else if s[0] == '\\' {
        if s.len() >= 2 {
            match parse_text(s.skip(2)) {
                Some(p) => Some((seq![s[1]] + p.0, p.1)),
                None => None,
            }
        } else {
            None
        }
    } else {
        match parse_text(s.skip(1)) {
            Some(p) => Some((seq![s[0]] + p.0, p.1)),
            None => None,
        }
    }
}

/// Reads a boolean from the front of `s`.
pub open spec fn parse_bool(s: Seq<char>) -> Option<(bool, Seq<char>)> {
    match expect_text(s, "true"@) {
        Some(r) => Some((true, r)),
        None => match expect_text(s, "false"@) {
            Some(r) => Some((false, r)),
            None => None,
        },
    }
}

/// Reads one entry from the front of `s`.
pub open spec fn parse_entry_text(s: Seq<char>) -> Option<(EntryModel, Seq<char>)> {
    match expect_text(s, lit_name()) {
        None => None,
        Some(s1) => match parse_text(s1) {
            None => None,
            Some(p_name) => match expect_text(p_name.1, lit_active()) {
                None => None,
                Some(s2) => match parse_bool(s2) {
                    None => None,
                    Some(p_active) => match expect_text(p_active.1, lit_total()) {
                        None => None,
                        Some(s3) => match parse_number(s3) {
                            None => None,
                            Some(p_total) => match expect_text(p_total.1, lit_since()) {
                                None => None,
                                Some(s4) => match parse_number(s4) {
                                    None => None,
                                    Some(p_since) => match expect_one(p_since.1, '}') {
                                        None => None,
                                        Some(s5) => Some(
                                            (
                                                EntryModel {
                                                    name: p_name.0,
                                                    active: p_active.0,
                                                    total: p_total.0,
                                                    active_since: p_since.0,
                                                },
                                                s5,
                                            ),
                                        ),
                                    },
                                },
                            },
                        },
                    },
                },
            },
        },
    }
}

/// Reads every entry after the first, each preceded by a comma, through the
/// closing bracket; yields the entries and what follows the bracket.
pub open spec fn parse_entries_rest(s: Seq<char>) -> Option<(Seq<EntryModel>, Seq<char>)>
    decreases s.len(),
{
    match expect_one(s, ']') {
        Some(r) => Some((Seq::<EntryModel>::empty(), r)),
        None => match expect_one(s, ',') {
            None => None,
            Some(s1) => match parse_entry_text(s1) {
                None => None,
                Some(p) => if p.1.len() < s.len() {
                    match parse_entries_rest(p.1) {
                        None => None,
                        Some(q) => Some((seq![p.0] + q.0, q.1)),
                    }
                } else {
                    None
                },
            },
        },
    }
}

/// Reads a whole store from `s`; the closing bracket must end the text.
pub open spec fn parse_store_text(s: Seq<char>) -> Option<Seq<EntryModel>> {
    match expect_one(s, '[') {
        None => None,
        Some(s1) => match expect_one(s1, ']') {
            Some(r) => if r.len() == 0 {
                Some(Seq::<EntryModel>::empty())
            } else {
                None
            },
            None => match parse_entry_text(s1) {
                None => None,
                Some(p) => match parse_entries_rest(p.1) {
                    None => None,
                    Some(q) => if q.1.len() == 0 {
                        Some(seq![p.0] + q.0)
                    } else {
                        None
                    },
                },
            },
        },
    }
}

fn push_chars(out: &mut Vec<char>, src: &Vec<char>)
    ensures
        final(out)@ == old(out)@ + src@,
{
    let mut k: usize = 0;
    while k < src.len()
        invariant
            k <= src@.len(),
            out@ == old(out)@ + src@.take(k as int),
        decreases src@.len() - k,
    {
        let ghost before = out@;
        out.push(src[k]);
        proof {
            assert(out@ =~= old(out)@ + src@.take(k as int + 1));
        }
        k = k + 1;
    }
    proof {
        assert(old(out)@ + src@.take(k as int) =~= old(out)@ + src@);
    }
}

fn write_escaped(out: &mut Vec<char>, name: &Vec<char>, i: usize)
    requires
        i <= name@.len(),
    ensures
        final(out)@ == old(out)@ + escape_text(name@.skip(i as int)),
    decreases name@.len() - i,
{
    if i == name.len() {
        proof {
            assert(name@.skip(i as int) =~= Seq::<char>::empty());
            assert(final(out)@ =~= old(out)@ + escape_text(name@.skip(i as int)));
        }
        return ;
    }
    let c = name[i];
    if c == '"' || c == '\\' {
        out.push('\\');
        out.push(c);
    } else {
        out.push(c);
    }
    write_escaped(out, name, i + 1);
    proof {
        assert(name@.skip(i as int)[0] == name@[i as int]);
        assert(name@.skip(i as int).skip(1) =~= name@.skip(i as int + 1));
        assert(final(out)@ =~= old(out)@ + escape_text(name@.skip(i as int)));
    }
}

fn write_bool(out: &mut Vec<char>, b: bool)
    ensures
        final(out)@ == old(out)@ + bool_text(b),
{
    let text = if b {
        str_to_char_vec("true")
    } else {
        str_to_char_vec("false")
    };
    push_chars(out, &text);
}

fn write_entry(out: &mut Vec<char>, entry: &TimerEntry)
    ensures
        final(out)@ == old(out)@ + entry_text(entry@),
{
    let start = str_to_char_vec("{\"name\":\"");
    push_chars(out, &start);
    let name_chars = str_to_char_vec(entry.name.as_str());
    write_escaped(out, &name_chars, 0);
    out.push('"');
    let active = str_to_char_vec(",\"active\":");
    push_chars(out, &active);
    write_bool(out, entry.active);
    let total = str_to_char_vec(",\"total\":");
    push_chars(out, &total);
    push_decimal(out, entry.total);
    let since = str_to_char_vec(",\"active_since\":");
    push_chars(out, &since);
    push_decimal(out, entry.active_since);
    out.push('}');
    proof {
        assert(name_chars@.skip(0) =~= name_chars@);
        assert(final(out)@ =~= old(out)@ + entry_text(entry@));
    }
}

fn write_tail(out: &mut Vec<char>, store: &TimerStore, i: usize)
    requires
        i <= store@.len(),
    ensures
        final(out)@ == old(out)@ + tail_text(store@.skip(i as int)),
    decreases store@.len() - i,
{
    if i == store.entries.len() {
        proof {
            assert(store@.skip(i as int) =~= Seq::<EntryModel>::empty());
            assert(final(out)@ =~= old(out)@ + tail_text(store@.skip(i as int)));
        }
        return ;
    }
    out.push(',');
    write_entry(out, &store.entries[i]);
    write_tail(out, store, i + 1);
    proof {
        assert(store@.skip(i as int)[0] == store@[i as int]);
        assert(store@[i as int] == store.entries@[i as int]@);
        assert(store@.skip(i as int).skip(1) =~= store@.skip(i as int + 1));
        assert(final(out)@ =~= old(out)@ + tail_text(store@.skip(i as int)));
    }
}

/// Writes the whole store as persisted text.
pub fn save(store: &TimerStore) -> (r: String)
    ensures
        r@ == store_text(store@),
{
    let mut out: Vec<char> = Vec::new();
    out.push('[');
    if store.entries.len() > 0 {
        write_entry(&mut out, &store.entries[0]);
        write_tail(&mut out, store, 1);
        proof {
            assert(store@[0] == store.entries@[0]@);
        }
    } else {
        proof {
            assert(store@.len() == 0);
        }
    }
    out.push(']');
    proof {
        assert(store@.skip(1).len() == store@.len() - 1 || store@.len() == 0);
        assert(out@ =~= store_text(store@));
    }
    char_vec_to_string(&out)
}

fn match_lit_at(s: &Vec<char>, i: usize, lit: &Vec<char>) -> (r: Option<usize>)
    requires
        i <= s@.len(),
    ensures
        match r {
            Some(j) => i <= j <= s@.len() && expect_text(s@.skip(i as int), lit@) == Some(
                s@.skip(j as int),
            ),
            None => expect_text(s@.skip(i as int), lit@) is None,
        },
{
    if s.len() - i < lit.len() {
        proof {
            assert(s@.skip(i as int).len() < lit@.len());
        }
        return None;
    }
    let slen = s.len();
    let mut k: usize = 0;
    while k < lit.len()
        invariant
            i <= s@.len(),
            slen == s@.len(),
            k <= lit@.len(),
            lit@.len() <= s@.len() - i,
            forall|m: int| 0 <= m < k ==> s@[i + m] == lit@[m],
        decreases lit@.len() - k,
    {
        proof {
            assert(i + k < slen);
        }
        if s[i + k] != lit[k] {
            proof {
                let tail = s@.skip(i as int);
                assert(tail.take(lit@.len() as int)[k as int] == s@[i + k]);
                assert(tail.take(lit@.len() as int) != lit@);
            }
            return None;
        }
        k = k + 1;
    }
    proof {
        let tail = s@.skip(i as int);
        assert(tail.take(lit@.len() as int) =~= lit@);
        assert(tail.skip(lit@.len() as int) =~= s@.skip(i as int + lit@.len() as int));
    }
    Some(i + lit.len())
}

fn expect_one_at(s: &Vec<char>, i: usize, c: char) -> (r: Option<usize>)
    requires
        i <= s@.len(),
    ensures
        match r {
            Some(j) => j == i + 1 && j <= s@.len() && expect_one(s@.skip(i as int), c) == Some(
                s@.skip(j as int),
            ),
            None => expect_one(s@.skip(i as int), c) is None,
        },
{
    if i < s.len() {
        proof {
            assert(s@.skip(i as int)[0] == s@[i as int]);
        }
        if s[i] == c {
            proof {
                assert(s@.skip(i as int).skip(1) =~= s@.skip(i as int + 1));
            }
            return Some(i + 1);
        }
        return None;
    }
    proof {
        assert(s@.skip(i as int).len() == 0);
    }
    None
}

fn parse_text_at(s: &Vec<char>, i: usize) -> (r: Option<(Vec<char>, usize)>)
    requires
        i <= s@.len(),
    ensures
        match r {
            Some(p) => i < p.1 <= s@.len() && parse_text(s@.skip(i as int)) == Some(
                (p.0@, s@.skip(p.1 as int)),
            ),
            None => parse_text(s@.skip(i as int)) is None,
        },
    decreases s@.len() - i,
{
    if i >= s.len() {
        proof {
            assert(s@.skip(i as int).len() == 0);
        }
        return None;
    }
    let c = s[i];
    proof {
        assert(s@.skip(i as int)[0] == s@[i as int]);
    }
    if c == '"' {
        proof {
            assert(s@.skip(i as int).skip(1) =~= s@.skip(i as int + 1));
        }
        return Some((Vec::new(), i + 1));
    }
    if c == '\\' {
        if i + 1 >= s.len() {
            proof {
                assert(s@.skip(i as int).len() < 2);
            }
            return None;
        }
        let c2 = s[i + 1];
        proof {
            assert(s@.skip(i as int)[1] == s@[i as int + 1]);
            assert(s@.skip(i as int).skip(2) =~= s@.skip(i as int + 2));
        }
        match parse_text_at(s, i + 2) {
            Some((mut t, j)) => {
                let ghost t0 = t@;
                t.insert(0, c2);
                proof {
                    assert(t@ =~= seq![c2] + t0);
                }
                Some((t, j))
            },
            None => None,
        }
    } else {
        proof {
            assert(s@.skip(i as int).skip(1) =~= s@.skip(i as int + 1));
        }
        match parse_text_at(s, i + 1) {
            Some((mut t, j)) => {
                let ghost t0 = t@;
                t.insert(0, c);
                proof {
                    assert(t@ =~= seq![c] + t0);
                }
                Some((t, j))
            },
            None => None,
        }
    }
}

fn parse_bool_at(s: &Vec<char>, i: usize) -> (r: Option<(bool, usize)>)
    requires
        i <= s@.len(),
    ensures
        match r {
            Some(p) => i <= p.1 <= s@.len() && parse_bool(s@.skip(i as int)) == Some(
                (p.0, s@.skip(p.1 as int)),
            ),
            None => parse_bool(s@.skip(i as int)) is None,
        },
{
    let lit_true = str_to_char_vec("true");
    match match_lit_at(s, i, &lit_true) {
        Some(j) => Some((true, j)),
        None => {
            let lit_false = str_to_char_vec("false");
            match match_lit_at(s, i, &lit_false) {
                Some(j) => Some((false, j)),
                None => None,
            }
        },
    }
}

fn parse_entry_at(s: &Vec<char>, i: usize) -> (r: Option<(TimerEntry, usize)>)
    requires
        i <= s@.len(),
    ensures
        match r {
            Some(p) => i <= p.1 <= s@.len() && parse_entry_text(s@.skip(i as int)) == Some(
                (p.0@, s@.skip(p.1 as int)),
            ),
            None => parse_entry_text(s@.skip(i as int)) is None,
        },
{
    let lit1 = str_to_char_vec("{\"name\":\"");
    let j1 = match match_lit_at(s, i, &lit1) {
        Some(j) => j,
        None => {
            return None;
        },
    };
    let (name_chars, j2) = match parse_text_at(s, j1) {
        Some(p) => p,
        None => {
            return None;
        },
    };
    let lit2 = str_to_char_vec(",\"active\":");
    let j3 = match match_lit_at(s, j2, &lit2) {
        Some(j) => j,
        None => {
            return None;
        },
    };
    let (active, j4) = match parse_bool_at(s, j3) {
        Some(p) => p,
        None => {
            return None;
        },
    };
    let lit3 = str_to_char_vec(",\"total\":");
    let j5 = match match_lit_at(s, j4, &lit3) {
        Some(j) => j,
        None => {
            return None;
        },
    };
    let (total, j6) = match parse_u64_at(s, j5) {
        Some(p) => p,
        None => {
            return None;
        },
    };
    let lit4 = str_to_char_vec(",\"active_since\":");
    let j7 = match match_lit_at(s, j6, &lit4) {
        Some(j) => j,
        None => {
            return None;
        },
    };
    let (active_since, j8) = match parse_u64_at(s, j7) {
        Some(p) => p,
        None => {
            return None;
        },
    };
    let j9 = match expect_one_at(s, j8, '}') {
        Some(j) => j,
        None => {
            return None;
        },
    };
    let entry = TimerEntry { name: char_vec_to_string(&name_chars), active, total, active_since };
    Some((entry, j9))
}

fn parse_rest_at(s: &Vec<char>, i: usize) -> (r: Option<(Vec<TimerEntry>, usize)>)
    requires
        i <= s@.len(),
    ensures
        match r {
            Some(p) => i <= p.1 <= s@.len() && parse_entries_rest(s@.skip(i as int)) == Some(
                (p.0@.map_values(|e: TimerEntry| e@), s@.skip(p.1 as int)),
            ),
            None => parse_entries_rest(s@.skip(i as int)) is None,
        },
    decreases s@.len() - i,
{
    match expect_one_at(s, i, ']') {
        Some(j) => {
            let done: Vec<TimerEntry> = Vec::new();
            proof {
                assert(done@.map_values(|e: TimerEntry| e@) =~= Seq::<EntryModel>::empty());
            }
            return Some((done, j));
        },
        None => {},
    }
    let j1 = match expect_one_at(s, i, ',') {
        Some(j) => j,
        None => {
            return None;
        },
    };
    let (entry, j2) = match parse_entry_at(s, j1) {
        Some(p) => p,
        None => {
            return None;
        },
    };
    proof {
        assert(s@.skip(j2 as int).len() < s@.skip(i as int).len());
    }
    match parse_rest_at(s, j2) {
        Some((mut rest, j3)) => {
            let ghost rest0 = rest@;
            rest.insert(0, entry);
            proof {
                assert(rest@.map_values(|e: TimerEntry| e@) =~= seq![entry@] + rest0.map_values(
                    |e: TimerEntry| e@,
                ));
            }
            Some((rest, j3))
        },
        None => None,
    }
}

/// Reads a store back from persisted text. Missing files are the caller's
/// concern; this function sees text, and rejects any text that the store
/// writer could not have produced.
pub fn load(text: &str) -> (r: Result<TimerStore, LoadError>)
    ensures
        match r {
            Ok(store) => parse_store_text(text@) == Some(store@),
            Err(e) => e == LoadError::Malformed && parse_store_text(text@) is None,
        },
{
    let s = str_to_char_vec(text);
    proof {
        assert(s@.skip(0) =~= text@);
    }
    let j0 = match expect_one_at(&s, 0, '[') {
        Some(j) => j,
        None => {
            return Err(LoadError::Malformed);
        },
    };
    match expect_one_at(&s, j0, ']') {
        Some(j) => {
            if j == s.len() {
                let empty_store = TimerStore { entries: Vec::new() };
                proof {
                    assert(s@.skip(j as int).len() == 0);
                    assert(empty_store@ =~= Seq::<EntryModel>::empty());
                }
                return Ok(empty_store);
            } else {
                proof {
                    assert(s@.skip(j as int).len() != 0);
                }
                return Err(LoadError::Malformed);
            }
        },
        None => {},
    }
    let (first, j1) = match parse_entry_at(&s, j0) {
        Some(p) => p,
        None => {
            return Err(LoadError::Malformed);
        },
    };
    let (mut entries, j2) = match parse_rest_at(&s, j1) {
        Some(p) => p,
        None => {
            return Err(LoadError::Malformed);
        },
    };
    if j2 != s.len() {
        proof {
            assert(s@.skip(j2 as int).len() != 0);
        }
        return Err(LoadError::Malformed);
    }
    let ghost entries0 = entries@;
    entries.insert(0, first);
    let store = TimerStore { entries };
    proof {
        assert(s@.skip(j2 as int).len() == 0);
        assert(store@ =~= seq![first@] + entries0.map_values(|e: TimerEntry| e@));
    }
    Ok(store)
}

proof fn lemma_lit_facts()
    ensures
        lit_name().len() == 9,
        lit_name()[0] == '{',
        lit_since().len() == 16,
        lit_since()[0] == ',',
        "true"@.len() == 4,
        "true"@[0] == 't',
        "false"@.len() == 5,
        "false"@[0] == 'f',
{
    reveal_strlit("{\"name\":\"");
    reveal_strlit(",\"active_since\":");
    reveal_strlit("true");
    reveal_strlit("false");
}

/// Consuming a literal from text that starts with it leaves the rest.
proof fn lemma_expect_concat(lit: Seq<char>, rest: Seq<char>)
    ensures
        expect_text(lit + rest, lit) == Some(rest),
{
    let s = lit + rest;
    assert(s.take(lit.len() as int) =~= lit);
    assert(s.skip(lit.len() as int) =~= rest);
}

/// Reading an escaped name followed by its closing quote recovers the name
/// and stops right after the quote.
proof fn lemma_parse_text_escape(name: Seq<char>, rest: Seq<char>)
    ensures
        parse_text(escape_text(name) + (seq!['"'] + rest)) == Some((name, rest)),
    decreases name.len(),
{
    let s = escape_text(name) + (seq!['"'] + rest);
    if name.len() == 0 {
        assert(s =~= seq!['"'] + rest);
        assert(s[0] == '"');
        assert(s.skip(1) =~= rest);
        assert(name =~= Seq::<char>::empty());
    } else {
        let c = name[0];
        let inner = escape_text(name.skip(1)) + (seq!['"'] + rest);
        lemma_parse_text_escape(name.skip(1), rest);
        if c == '"' || c == '\\' {
            assert(s =~= seq!['\\', c] + inner);
            assert(s[0] == '\\');
            assert(s[1] == c);
            assert(s.len() >= 2);
            assert(s.skip(2) =~= inner);
            assert(seq![c] + name.skip(1) =~= name);
        } else {
            assert(s =~= seq![c] + inner);
            assert(s[0] == c);
            assert(s.skip(1) =~= inner);
            assert(seq![c] + name.skip(1) =~= name);
        }
    }
}

/// Reading a boolean's text recovers the boolean.
proof fn lemma_parse_bool_text(b: bool, rest: Seq<char>)
    ensures
        parse_bool(bool_text(b) + rest) == Some((b, rest)),
{
    lemma_lit_facts();
    let s = bool_text(b) + rest;
    if b {
        lemma_expect_concat("true"@, rest);
    } else {
        assert(s[0] == 'f');
        assert(s.len() >= 4);
        assert(s.take(4)[0] == 'f');
        assert(s.take(4) != "true"@);
        assert(expect_text(s, "true"@) is None);
        lemma_expect_concat("false"@, rest);
    }
}

/// Reading one entry's text recovers the entry and stops right after it.
proof fn lemma_parse_entry_of_text(e: EntryModel, rest: Seq<char>)
    ensures
        parse_entry_text(entry_text(e) + rest) == Some((e, rest)),
{
    lemma_lit_facts();
    let r8 = seq!['}'] + rest;
    let r7 = dec_digits(e.active_since as int) + r8;
    let r6 = lit_since() + r7;
    let r5 = dec_digits(e.total as int) + r6;
    let r4 = lit_total() + r5;
    let r3 = bool_text(e.active) + r4;
    let r2 = lit_active() + r3;
    let r1 = escape_text(e.name) + (seq!['"'] + r2);
    assert(entry_text(e) + rest =~= lit_name() + r1);
    lemma_expect_concat(lit_name(), r1);
    lemma_parse_text_escape(e.name, r2);
    lemma_expect_concat(lit_active(), r3);
    lemma_parse_bool_text(e.active, r4);
    lemma_expect_concat(lit_total(), r5);
    assert(r6[0] == ',');
    assert(!crate::digits::is_digit_char(','));
    crate::digits::lemma_parse_number_of_decimal(e.total, r6);
    lemma_expect_concat(lit_since(), r7);
    assert(r8[0] == '}');
    assert(!crate::digits::is_digit_char('}'));
    crate::digits::lemma_parse_number_of_decimal(e.active_since, r8);
    assert(r8.skip(1) =~= rest);
    let parsed = parse_entry_text(entry_text(e) + rest);
    assert(parsed is Some);
    assert(parsed->Some_0.0 =~= e);
    assert(parsed->Some_0.1 == rest);
}

/// Reading the comma-separated text of the entries after the first, closed
/// by the bracket, recovers those entries and consumes all the text.
proof fn lemma_parse_tail_of_text(entries: Seq<EntryModel>)
    ensures
        parse_entries_rest(tail_text(entries) + seq![']']) == Some(
            (entries, Seq::<char>::empty()),
        ),
    decreases entries.len(),
{
    lemma_lit_facts();
    let s = tail_text(entries) + seq![']'];
    if entries.len() == 0 {
        assert(s =~= seq![']']);
        assert(s[0] == ']');
        assert(s.skip(1) =~= Seq::<char>::empty());
        assert(entries =~= Seq::<EntryModel>::empty());
    } else {
        let e0 = entries[0];
        let tail2 = tail_text(entries.skip(1)) + seq![']'];
        let s1 = entry_text(e0) + tail2;
        assert(s =~= seq![','] + s1);
        assert(s[0] == ',');
        assert(expect_one(s, ']') is None);
        assert(s.skip(1) =~= s1);
        lemma_parse_entry_of_text(e0, tail2);
        assert(tail2.len() < s.len());
        lemma_parse_tail_of_text(entries.skip(1));
        assert(seq![e0] + entries.skip(1) =~= entries);
    }
}

/// Reading back the persisted text of any store recovers exactly its
/// entries: every name, active flag, total and interval start. Together
/// with the contracts of `save` and `load`, loading what was saved yields
/// the saved store.
pub proof fn lemma_save_load_round_trip(entries: Seq<EntryModel>)
    ensures
        parse_store_text(store_text(entries)) == Some(entries),
{
    lemma_lit_facts();
    let s = store_text(entries);
    let s1 = entries_text(entries) + seq![']'];
    assert(s =~= seq!['['] + s1);
    assert(s[0] == '[');
    assert(s.skip(1) =~= s1);
    if entries.len() == 0 {
        assert(s1 =~= seq![']']);
        assert(s1[0] == ']');
        assert(s1.skip(1) =~= Seq::<char>::empty());
        assert(entries =~= Seq::<EntryModel>::empty());
    } else {
        let e0 = entries[0];
        let tail2 = tail_text(entries.skip(1)) + seq![']'];
        assert(s1 =~= entry_text(e0) + tail2);
        assert(entry_text(e0)[0] == lit_name()[0]);
        assert(s1[0] == '{');
        assert(expect_one(s1, ']') is None);
        lemma_parse_entry_of_text(e0, tail2);
        lemma_parse_tail_of_text(entries.skip(1));
        assert(seq![e0] + entries.skip(1) =~= entries);
    }
}

} // verus!
