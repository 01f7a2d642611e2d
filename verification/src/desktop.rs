//! The descriptor parser: one descriptor file's lines become a key/value
//! entry map. Blank lines and `#` comments are skipped, every other line is
//! split at its first `=`, and a later line overwrites an earlier entry with
//! the same key.

use vstd::prelude::*;
use vstd::string::StrSliceExecFns;

use crate::text::{str_eq, trim, trim_spec};

verus! {

/// Index of the first `=` in `s`, or `s.len()` if there is none.
pub open spec fn eq_split(s: Seq<char>) -> int
    decreases s.len(),
{
    if s.len() == 0 {
        0
    } else if s[0] == '=' {
        0
    } else {
        1 + eq_split(s.skip(1))
    }
}

/// `eq_split` is the position of the first `=`.
pub proof fn lemma_eq_split(s: Seq<char>)
    ensures
        0 <= eq_split(s) <= s.len(),
        forall|j: int| 0 <= j < eq_split(s) ==> s[j] != '=',
        eq_split(s) < s.len() ==> s[eq_split(s)] == '=',
    decreases s.len(),
{
    if s.len() > 0 && s[0] != '=' {
        lemma_eq_split(s.skip(1));
        assert forall|j: int| 0 <= j < eq_split(s) implies s[j] != '=' by {
            if j > 0 {
                assert(s.skip(1)[j - 1] == s[j]);
            }
        }
        if eq_split(s) < s.len() {
            assert(s.skip(1)[eq_split(s) - 1] == s[eq_split(s)]);
        }
    }
}

/// Whether the parser passes the line over: blank once trimmed, or a comment.
pub open spec fn skipped_line(l: Seq<char>) -> bool {
    trim_spec(l).len() == 0 || trim_spec(l)[0] == '#'
}

/// The key of a line: the trimmed text before the first `=`.
pub open spec fn line_key(l: Seq<char>) -> Seq<char> {
    trim_spec(l).take(eq_split(trim_spec(l)))
}

/// The value of a line: the text after the first `=`, empty when there is none.
pub open spec fn line_value(l: Seq<char>) -> Seq<char> {
    let t = trim_spec(l);
    if eq_split(t) < t.len() {
        t.skip(eq_split(t) + 1)
    } else {
        Seq::empty()
    }
}

/// Whether the line puts an entry into the map.
pub open spec fn line_inserts(l: Seq<char>) -> bool {
    !skipped_line(l) && line_key(l).len() > 0
}

/// The entry map of a descriptor text, line by line; a later line's entry
/// overwrites an earlier one under the same key.
pub open spec fn parse_lines(lines: Seq<Seq<char>>) -> Map<Seq<char>, Seq<char>>
    decreases lines.len(),
{
    if lines.len() == 0 {
        Map::empty()
    } else {
        let m = parse_lines(lines.drop_last());
        let l = lines.last();
        if line_inserts(l) {
            m.insert(line_key(l), line_value(l))
        } else {
            m
        }
    }
}

/// The map denoted by an association sequence; a later pair overwrites an
/// earlier one with the same key.
pub open spec fn kv_map(s: Seq<(String, String)>) -> Map<Seq<char>, Seq<char>>
    decreases s.len(),
{
    if s.len() == 0 {
        Map::empty()
    } else {
        kv_map(s.drop_last()).insert(s.last().0@, s.last().1@)
    }
}

/// No two pairs of the sequence share a key.
pub open spec fn kv_wf(s: Seq<(String, String)>) -> bool {
    forall|i: int, j: int| 0 <= i < j < s.len() ==> s[i].0@ != s[j].0@
}

proof fn lemma_kv_contains(s: Seq<(String, String)>, k: Seq<char>)
    ensures
        kv_map(s).contains_key(k) <==> exists|i: int| 0 <= i < s.len() && s[i].0@ == k,
    decreases s.len(),
{
    if s.len() > 0 {
        lemma_kv_contains(s.drop_last(), k);
        if s.last().0@ == k {
            assert(s[s.len() - 1].0@ == k);
        } else {
            assert forall|i: int| 0 <= i < s.len() && s[i].0@ == k implies kv_map(
                s,
            ).contains_key(k) by {
                assert(s.drop_last()[i] == s[i]);
            }
            if kv_map(s).contains_key(k) {
                let i = choose|i: int| 0 <= i < s.drop_last().len() && s.drop_last()[i].0@ == k;
                assert(s[i].0@ == k);
            }
        }
    }
}

proof fn lemma_kv_index(s: Seq<(String, String)>, i: int)
    requires
        kv_wf(s),
        0 <= i < s.len(),
    ensures
        kv_map(s).contains_key(s[i].0@),
        kv_map(s)[s[i].0@] == s[i].1@,
    decreases s.len(),
{
    if i < s.len() - 1 {
        assert(kv_wf(s.drop_last()));
        lemma_kv_index(s.drop_last(), i);
        assert(s.drop_last()[i] == s[i]);
        assert(s.last().0@ != s[i].0@);
    }
}

proof fn lemma_kv_len(s: Seq<(String, String)>)
    requires
        kv_wf(s),
    ensures
        kv_map(s).dom().finite(),
        kv_map(s).dom().len() == s.len(),
    decreases s.len(),
{
    if s.len() > 0 {
        assert(kv_wf(s.drop_last()));
        lemma_kv_len(s.drop_last());
        lemma_kv_contains(s.drop_last(), s.last().0@);
        assert(forall|i: int|
            0 <= i < s.drop_last().len() ==> s.drop_last()[i] == s[i]);
        assert(!kv_map(s.drop_last()).contains_key(s.last().0@));
        assert(kv_map(s).dom() =~= kv_map(s.drop_last()).dom().insert(s.last().0@));
    }
}

proof fn lemma_kv_update(s: Seq<(String, String)>, i: int, p: (String, String))
    requires
        kv_wf(s),
        0 <= i < s.len(),
        s[i].0@ == p.0@,
    ensures
        kv_wf(s.update(i, p)),
        kv_map(s.update(i, p)) == kv_map(s).insert(p.0@, p.1@),
    decreases s.len(),
{
    let u = s.update(i, p);
    assert forall|x: int, y: int| 0 <= x < y < u.len() implies u[x].0@ != u[y].0@ by {
        assert(s[x].0@ != s[y].0@);
    }
    if i == s.len() - 1 {
        assert(u.drop_last() =~= s.drop_last());
        assert(u.last() == p);
        assert(kv_map(s).insert(p.0@, p.1@) =~= kv_map(s.drop_last()).insert(p.0@, p.1@));
    } else {
        assert(kv_wf(s.drop_last()));
        assert(u.drop_last() =~= s.drop_last().update(i, p));
        assert(s.drop_last()[i] == s[i]);
        lemma_kv_update(s.drop_last(), i, p);
        assert(u.last() == s.last());
        assert(s.last().0@ != p.0@);
        assert(kv_map(s.drop_last()).insert(p.0@, p.1@).insert(s.last().0@, s.last().1@)
            =~= kv_map(s.drop_last()).insert(s.last().0@, s.last().1@).insert(p.0@, p.1@));
    }
}

/// One parsed descriptor file: string keys to string values, no duplicate
/// keys; under a repeated key the last inserted value stands.
pub struct EntryMap {
    entries: Vec<(String, String)>,
}

impl View for EntryMap {
    type V = Map<Seq<char>, Seq<char>>;

    closed spec fn view(&self) -> Map<Seq<char>, Seq<char>> {
        kv_map(self.entries@)
    }
}

impl EntryMap {
    /// No two stored entries share a key.
    pub closed spec fn wf(&self) -> bool {
        kv_wf(self.entries@)
    }

    /// An empty entry map.
    pub fn new() -> (m: EntryMap)
        ensures
            m.wf(),
            m@ == Map::<Seq<char>, Seq<char>>::empty(),
    {
        EntryMap { entries: Vec::new() }
    }

    fn find_key(&self, key: &str) -> (r: Option<usize>)
        ensures
            match r {
                Some(i) => i < self.entries@.len() && self.entries@[i as int].0@ == key@,
                None => forall|i: int|
                    0 <= i < self.entries@.len() ==> self.entries@[i].0@ != key@,
            },
    {
        let mut i: usize = 0;
        while i < self.entries.len()
            invariant
                0 <= i <= self.entries@.len(),
                forall|j: int| 0 <= j < i ==> self.entries@[j].0@ != key@,
            decreases self.entries@.len() - i,
        {
            if str_eq(self.entries[i].0.as_str(), key) {
                return Some(i);
            }
            i = i + 1;
        }
        None
    }

    /// Put `key := value` into the map; an entry already stored under the
    /// same key is overwritten.
    pub fn insert(&mut self, key: String, value: String)
        requires
            old(self).wf(),
        ensures
            final(self).wf(),
            final(self)@ == old(self)@.insert(key@, value@),
    {
        let found = self.find_key(key.as_str());
        match found {
            Some(i) => {
                proof {
                    lemma_kv_update(self.entries@, i as int, (key, value));
                }
                self.entries.set(i, (key, value));
            },
            None => {
                proof {
                    let s = self.entries@;
                    let p = (key, value);
                    assert(s.push(p).drop_last() =~= s);
                    assert(s.push(p).last() == p);
                    assert forall|x: int, y: int|
                        0 <= x < y < s.push(p).len() implies s.push(p)[x].0@ != s.push(p)[y].0@ by {
                        if y < s.len() {
                            assert(s[x].0@ != s[y].0@);
                        }
                    }
                }
                self.entries.push((key, value));
            },
        }
    }

    /// The value stored under `key`, if any.
    pub fn get<'a>(&'a self, key: &str) -> (r: Option<&'a String>)
        requires
            self.wf(),
        ensures
            match r {
                Some(v) => self@.contains_key(key@) && v@ == self@[key@],
                None => !self@.contains_key(key@),
            },
    {
        proof {
            lemma_kv_contains(self.entries@, key@);
        }
        let found = self.find_key(key);
        match found {
            Some(i) => {
                proof {
                    lemma_kv_index(self.entries@, i as int);
                }
                Some(&self.entries[i].1)
            },
            None => None,
        }
    }

    /// The number of entries.
    pub fn len(&self) -> (n: usize)
        requires
            self.wf(),
        ensures
            n == self@.dom().len(),
    {
        proof {
            lemma_kv_len(self.entries@);
        }
        self.entries.len()
    }
}

/// Parse one descriptor file's lines into an entry map. A line is trimmed at
/// both ends; blank and `#` comment lines are skipped; every other line splits
/// at its first `=` into key and value (a line without `=` yields the whole
/// trimmed line as key and an empty value); a line with an empty key is
/// skipped; a later line overwrites an earlier entry under the same key.
pub fn parse_desktop_file(lines: &Vec<String>) -> (m: EntryMap)
    ensures
        m.wf(),
        m@ == parse_lines(lines.deep_view()),
{
    let ghost dv = lines.deep_view();
    let mut m = EntryMap::new();
    proof {
        assert(dv.take(0) =~= Seq::<Seq<char>>::empty());
    }
    let mut i: usize = 0;
    while i < lines.len()
        invariant
            0 <= i <= lines@.len(),
            dv == lines.deep_view(),
            dv.len() == lines@.len(),
            m.wf(),
            m@ == parse_lines(dv.take(i as int)),
        decreases lines@.len() - i,
    {
        let ghost prev = m@;
        let line: &String = &lines[i];
        proof {
            assert(dv[i as int] == line@);
        }
        let t: &str = trim(line.as_str());
        let tlen: usize = t.unicode_len();
        if tlen > 0 && t.get_char(0) != '#' {
            let mut epos: usize = 0;
            while epos < tlen && t.get_char(epos) != '='
                invariant
                    0 <= epos <= tlen,
                    tlen == t@.len(),
                    forall|j: int| 0 <= j < epos ==> t@[j] != '=',
                decreases tlen - epos,
            {
                epos = epos + 1;
            }
            proof {
                lemma_eq_split(t@);
                assert(epos as int == eq_split(t@)) by {
                    if epos < tlen {
                        assert(t@[epos as int] == '=');
                    }
                };
            }
            if epos > 0 {
                let key = t.substring_char(0, epos).to_owned();
                let value = if epos < tlen {
                    t.substring_char(epos + 1, tlen).to_owned()
                } else {
                    String::new()
                };
                proof {
                    assert(key@ =~= line_key(line@));
                    assert(value@ =~= line_value(line@));
                    assert(line_inserts(line@));
                }
                m.insert(key, value);
            } else {
                proof {
                    assert(line_key(line@).len() == 0);
                    assert(!line_inserts(line@));
                }
            }
        } else {
            proof {
                assert(skipped_line(line@));
            }
        }
        proof {
            assert(dv.take(i + 1).drop_last() =~= dv.take(i as int));
            assert(dv.take(i + 1).last() == line@);
            if line_inserts(line@) {
                assert(m@ == prev.insert(line_key(line@), line_value(line@)));
            } else {
                assert(m@ == prev);
            }
        }
        i = i + 1;
    }
    proof {
        assert(dv.take(lines@.len() as int) =~= dv);
    }
    m
}

/// A key that appears on more than one line takes the value of its last
/// occurrence: when line `i` inserts key `k` and no later line inserts `k`,
/// the parsed map holds line `i`'s value under `k`.
pub proof fn lemma_last_occurrence_wins(lines: Seq<Seq<char>>, i: int)
    requires
        0 <= i < lines.len(),
        line_inserts(lines[i]),
        forall|j: int|
            i < j < lines.len() ==> !(line_inserts(lines[j]) && line_key(lines[j]) == line_key(
                lines[i],
            )),
    ensures
        parse_lines(lines).contains_key(line_key(lines[i])),
        parse_lines(lines)[line_key(lines[i])] == line_value(lines[i]),
    decreases lines.len(),
{
    if i < lines.len() - 1 {
        assert(lines.drop_last()[i] == lines[i]);
        assert forall|j: int|
            i < j < lines.drop_last().len() implies !(line_inserts(lines.drop_last()[j])
            && line_key(lines.drop_last()[j]) == line_key(lines.drop_last()[i])) by {
            assert(lines.drop_last()[j] == lines[j]);
        }
        lemma_last_occurrence_wins(lines.drop_last(), i);
        if line_inserts(lines.last()) {
            assert(line_key(lines.last()) != line_key(lines[i]));
        }
    }
}

/// A blank or comment line adds no entry: parsing with such a line appended
/// gives the same map as parsing without it.
pub proof fn lemma_skipped_line_no_entry(lines: Seq<Seq<char>>, l: Seq<char>)
    requires
        skipped_line(l),
    ensures
        parse_lines(lines.push(l)) == parse_lines(lines),
{
    assert(lines.push(l).drop_last() =~= lines);
    assert(lines.push(l).last() == l);
}

/// Every entry of the parsed map comes from a line that inserts it: a blank
/// line, a comment line, or a line with an empty key never produces an entry.
pub proof fn lemma_entry_has_source(lines: Seq<Seq<char>>, k: Seq<char>)
    requires
        parse_lines(lines).contains_key(k),
    ensures
        exists|i: int|
            0 <= i < lines.len() && line_inserts(#[trigger] lines[i]) && line_key(lines[i]) == k,
    decreases lines.len(),
{
    if lines.len() > 0 {
        if line_inserts(lines.last()) && line_key(lines.last()) == k {
            assert(line_inserts(lines[lines.len() - 1]) && line_key(lines[lines.len() - 1]) == k);
        } else {
            assert(parse_lines(lines.drop_last()).contains_key(k));
            lemma_entry_has_source(lines.drop_last(), k);
            let i = choose|i: int|
                0 <= i < lines.drop_last().len() && line_inserts(
                    #[trigger] lines.drop_last()[i],
                ) && line_key(lines.drop_last()[i]) == k;
            assert(lines[i] == lines.drop_last()[i]);
        }
    }
}

/// A line without `=` yields the whole trimmed line as its key and an empty
/// value.
pub proof fn lemma_no_equals_line(l: Seq<char>)
    requires
        forall|j: int| 0 <= j < trim_spec(l).len() ==> trim_spec(l)[j] != '=',
    ensures
        line_key(l) == trim_spec(l),
        line_value(l) == Seq::<char>::empty(),
{
    let t = trim_spec(l);
    lemma_eq_split(t);
    assert(eq_split(t) == t.len());
    assert(t.take(t.len() as int) =~= t);
}

} // verus!
