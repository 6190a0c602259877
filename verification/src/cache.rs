//! The verification cache: from normalized URI to the status code that its check gave.

use crate::classifier::Rules;
use crate::keyed::{
    distinct, has_key, lemma_place, lemma_push_map, lemma_remove_map, lemma_update_map, map_of,
    place_of,
};
use crate::status::Status;
use crate::text::{
    chars_of, code_of, decimal, find_first_in, find_last_in, lemma_decimal_holds_no,
    lemma_decimal_number, push_chars, push_decimal, read_code, string_of, string_of_range,
};
use crate::uri::{is_normal, normalized, Uri};
use vstd::prelude::*;

verus! {

/// The cache of one run. It holds each URI once, and only status codes that the rules of the
/// run classify as success or error and do not exclude from caching.
pub struct Cache {
    entries: Vec<(Uri, u16)>,
    rules: Rules,
}

/// Records that a cache may hold under `rules`: each key once, each key a normalized URI,
/// each code one that may stand in the cache.
pub open spec fn valid(records: Seq<(Seq<char>, u16)>, rules: Rules) -> bool {
    &&& distinct(records)
    &&& forall|i: int|
        0 <= i < records.len() ==> is_normal((#[trigger] records[i]).0) && rules.storable(
            records[i].1,
        )
}

/// What the cache answers for `key`: the status that the rules give to the code that is kept
/// for it.
pub open spec fn hit(map: Map<Seq<char>, u16>, rules: Rules, key: Seq<char>) -> Option<Status> {
    if map.contains_key(key) {
        Some(rules.status_of(map[key]))
    } else {
        None
    }
}

/// The cache after the check of `key` has ended in `status`: the code of a cacheable status
/// is kept, in place of what was kept for the key; for any other status nothing is kept for
/// the key any more.
pub open spec fn updated(
    map: Map<Seq<char>, u16>,
    rules: Rules,
    key: Seq<char>,
    status: Status,
) -> Map<Seq<char>, u16> {
    if rules.cacheable(status) && rules.storable(status.spec_code()->Some_0) {
        map.insert(key, status.spec_code()->Some_0)
    } else {
        map.remove(key)
    }
}

impl View for Cache {
    type V = Map<Seq<char>, u16>;

    open spec fn view(&self) -> Self::V {
        map_of(self.records())
    }
}

impl Cache {
    /// The records in the order in which they are written out.
    pub closed spec fn records(&self) -> Seq<(Seq<char>, u16)> {
        Seq::new(self.entries@.len(), |i: int| (self.entries@[i].0@, self.entries@[i].1))
    }

    /// The rules of the run.
    pub closed spec fn rules(&self) -> Rules {
        self.rules
    }

    /// The cache is well formed: its records are valid under its rules.
    pub open spec fn wf(&self) -> bool {
        valid(self.records(), self.rules())
    }

    /// An empty cache.
    pub fn new(rules: Rules) -> (out: Cache)
        ensures
            out.wf(),
            out.rules() == rules,
            out.records().len() == 0,
            out@ == Map::<Seq<char>, u16>::empty(),
    {
        let out = Cache { entries: Vec::new(), rules };
        proof {
            assert(out@ =~= Map::<Seq<char>, u16>::empty());
        }
        out
    }

    /// The number of URIs in the cache.
    pub fn len(&self) -> (out: usize)
        ensures
            out == self.records().len(),
    {
        self.entries.len()
    }

    /// Where `uri` stands among the entries.
    fn position(&self, uri: &Uri) -> (out: Option<usize>)
        requires
            self.wf(),
        ensures
            match out {
                Some(at) => at < self.records().len() && self.records()[at as int].0 == uri@
                    && self@.contains_key(uri@) && self@[uri@] == self.records()[at as int].1,
                None => !has_key(self.records(), uri@) && !self@.contains_key(uri@),
            },
    {
        let mut i: usize = 0;
        while i < self.entries.len()
            invariant
                self.wf(),
                i <= self.entries@.len(),
                self.entries@.len() == self.records().len(),
                forall|j: int| 0 <= j < i ==> (#[trigger] self.records()[j]).0 != uri@,
            decreases self.entries@.len() - i,
        {
            if self.entries[i].0.same_as(uri) {
                proof {
                    lemma_place(self.records(), i as int);
                }
                return Some(i);
            }
            i = i + 1;
        }
        None
    }

    /// Whether `status` may be cached.
    pub fn is_cacheable(&self, status: &Status) -> (out: bool)
        ensures
            out == self.rules().cacheable(*status),
    {
        self.rules.is_cacheable(status)
    }

    /// The status that is cached for `uri`, if one is.
    pub fn lookup(&self, uri: &Uri) -> (out: Option<Status>)
        requires
            self.wf(),
        ensures
            out == hit(self@, self.rules(), uri@),
    {
        match self.position(uri) {
            Some(at) => Some(self.rules.classify_code(self.entries[at].1)),
            None => None,
        }
    }

    /// Keeps `code` for `uri`, in place of what was kept for it.
    fn put(&mut self, uri: Uri, code: u16)
        requires
            old(self).wf(),
            old(self).rules().storable(code),
        ensures
            final(self).wf(),
            final(self).rules() == old(self).rules(),
            final(self)@ == old(self)@.insert(uri@, code),
    {
        proof {
            use_type_invariant(&uri);
        }
        let ghost before = self.records();
        match self.position(&uri) {
            Some(at) => {
                self.entries[at] = (uri, code);
                proof {
                    assert(self.records() == before.update(at as int, (uri@, code)));
                    lemma_update_map(before, at as int, code);
                }
            },
            None => {
                self.entries.push((uri, code));
                proof {
                    assert(self.records() == before.push((uri@, code)));
                    lemma_push_map(before, (uri@, code));
                }
            },
        }
    }

    /// Keeps nothing for `uri` any more.
    fn drop_key(&mut self, uri: &Uri)
        requires
            old(self).wf(),
        ensures
            final(self).wf(),
            final(self).rules() == old(self).rules(),
            final(self)@ == old(self)@.remove(uri@),
    {
        let ghost before = self.records();
        match self.position(uri) {
            Some(at) => {
                self.entries.remove(at);
                proof {
                    assert(self.records() == before.remove(at as int));
                    lemma_remove_map(before, at as int);
                }
            },
            None => {
                proof {
                    assert(self@ =~= old(self)@.remove(uri@));
                }
            },
        }
    }

    /// Records that the check of `uri` has ended in `status`. A cacheable status is kept for
    /// the URI; any other status removes what was kept for it.
    pub fn insert(&mut self, uri: Uri, status: &Status)
        requires
            old(self).wf(),
        ensures
            final(self).wf(),
            final(self).rules() == old(self).rules(),
            final(self)@ == updated(old(self)@, old(self).rules(), uri@, *status),
    {
        if self.rules.is_cacheable(status) {
            match status.code() {
                Some(code) => {
                    if self.rules.is_storable(code) {
                        self.put(uri, code);
                    } else {
                        self.drop_key(&uri);
                    }
                },
                None => {
                    self.drop_key(&uri);
                },
            }
        } else {
            self.drop_key(&uri);
        }
    }
}

/// One record as a line of the cache file: the URI, a comma, the status code in decimal.
pub open spec fn line_of(record: (Seq<char>, u16)) -> Seq<char> {
    record.0 + seq![','] + decimal(record.1 as nat)
}

/// The cache file for `records`: one line for each, every line ended by a line break.
pub open spec fn render(records: Seq<(Seq<char>, u16)>) -> Seq<char>
    decreases records.len(),
{
    if records.len() == 0 {
        Seq::empty()
    } else {
        line_of(records[0]) + seq!['\n'] + render(records.drop_first())
    }
}

/// What one line of a cache file holds: the text before its last comma, normalized, and the
/// status code behind it. `None` for a line that is malformed: one without a comma, with a
/// text that is no URI, with a code that is no number, or with a code that may not stand in
/// the cache under `rules`.
pub open spec fn record_of(line: Seq<char>, rules: Rules) -> Option<(Seq<char>, u16)> {
    match line.index_of_last(',') {
        None => None,
        Some(comma) => match normalized(line.take(comma)) {
            None => None,
            Some(uri) => match code_of(line.skip(comma + 1)) {
                None => None,
                Some(code) => if rules.storable(code) {
                    Some((uri, code))
                } else {
                    None
                },
            },
        },
    }
}

/// The map after one line was read: the record of the line is kept, in place of what was
/// kept for its URI; a malformed line changes nothing.
pub open spec fn noted(map: Map<Seq<char>, u16>, line: Seq<char>, rules: Rules) -> Map<
    Seq<char>,
    u16,
> {
    match record_of(line, rules) {
        Some(record) => map.insert(record.0, record.1),
        None => map,
    }
}

/// The map after the lines of `text` were read in order, starting from `map`. Lines end at
/// line breaks; what stands behind the last line break is a line too, unless it is empty.
pub open spec fn loaded(text: Seq<char>, rules: Rules, map: Map<Seq<char>, u16>) -> Map<
    Seq<char>,
    u16,
>
    decreases text.len(),
{
    if text.len() == 0 {
        map
    } else {
        match text.index_of_first('\n') {
            Some(end) => {
                proof {
                    text.index_of_first_ensures('\n');
                }
                loaded(text.skip(end + 1), rules, noted(map, text.take(end), rules))
            },
            None => noted(map, text, rules),
        }
    }
}

/// The map after `records` were kept in order, starting from `map`.
pub open spec fn kept(map: Map<Seq<char>, u16>, records: Seq<(Seq<char>, u16)>) -> Map<
    Seq<char>,
    u16,
>
    decreases records.len(),
{
    if records.len() == 0 {
        map
    } else {
        kept(map.insert(records[0].0, records[0].1), records.drop_first())
    }
}

/// A line that was written for a valid record is read back as that record.
proof fn lemma_line_read_back(record: (Seq<char>, u16), rules: Rules)
    requires
        is_normal(record.0),
        rules.storable(record.1),
    ensures
        record_of(line_of(record), rules) == Some(record),
        !line_of(record).contains('\n'),
{
    let line = line_of(record);
    let digits = decimal(record.1 as nat);
    let comma = record.0.len() as int;
    lemma_decimal_number(record.1 as nat);
    lemma_decimal_holds_no(record.1 as nat, ',');
    lemma_decimal_holds_no(record.1 as nat, '\n');
    assert(line[comma] == ',');
    line.index_of_last_ensures(',');
    let found = line.index_of_last(',')->Some_0;
    if found < comma {
        assert(line[comma] != ',');
    } else if found > comma {
        assert(digits[found - comma - 1] == ',');
    }
    assert(line.take(comma) == record.0);
    assert(line.skip(comma + 1) == digits);
    if line.contains('\n') {
        let at = choose|i: int| 0 <= i < line.len() && line[i] == '\n';
        if at < comma {
            assert(record.0[at] == '\n');
        } else if at > comma {
            assert(digits[at - comma - 1] == '\n');
        }
    }
}

/// Reading what was written for valid records keeps those records, in order.
proof fn lemma_read_back(records: Seq<(Seq<char>, u16)>, rules: Rules, map: Map<Seq<char>, u16>)
    requires
        forall|i: int|
            0 <= i < records.len() ==> is_normal((#[trigger] records[i]).0) && rules.storable(
                records[i].1,
            ),
    ensures
        loaded(render(records), rules, map) == kept(map, records),
    decreases records.len(),
{
    if records.len() > 0 {
        let line = line_of(records[0]);
        let rest = records.drop_first();
        let text = render(records);
        lemma_line_read_back(records[0], rules);
        let end = line.len() as int;
        assert(text[end] == '\n');
        assert(text.len() > 0);
        text.index_of_first_ensures('\n');
        let found = text.index_of_first('\n')->Some_0;
        if found < end {
            assert(line[found] == '\n');
        }
        assert(found == end);
        assert(text.take(end) == line);
        assert(text.skip(end + 1) == render(rest));
        assert forall|i: int| 0 <= i < rest.len() implies is_normal((#[trigger] rest[i]).0)
            && rules.storable(rest[i].1) by {
            assert(rest[i] == records[i + 1]);
        }
        lemma_read_back(rest, rules, noted(map, line, rules));
    }
}

/// Keeping records with distinct keys gives the map of the records, over what was there.
proof fn lemma_kept(map: Map<Seq<char>, u16>, records: Seq<(Seq<char>, u16)>)
    requires
        distinct(records),
    ensures
        kept(map, records) == map.union_prefer_right(map_of(records)),
    decreases records.len(),
{
    if records.len() == 0 {
        assert(map.union_prefer_right(map_of(records)) =~= map);
    } else {
        let rest = records.drop_first();
        let first = records[0];
        assert forall|i: int, j: int| 0 <= i < j < rest.len() implies (#[trigger] rest[i]).0 != (
        #[trigger] rest[j]).0 by {
            assert(rest[i] == records[i + 1]);
            assert(rest[j] == records[j + 1]);
        }
        lemma_kept(map.insert(first.0, first.1), rest);
        let left = map.insert(first.0, first.1).union_prefer_right(map_of(rest));
        let right = map.union_prefer_right(map_of(records));
        assert forall|key: Seq<char>| has_key(records, key) == (key == first.0 || has_key(
            rest,
            key,
        )) by {
            if has_key(records, key) {
                let i = place_of(records, key);
                if i > 0 {
                    assert(rest[i - 1].0 == key);
                }
            }
            if has_key(rest, key) {
                let i = place_of(rest, key);
                assert(records[i + 1].0 == key);
            }
            if key == first.0 {
                assert(records[0].0 == key);
            }
        }
        lemma_place(records, 0);
        if has_key(rest, first.0) {
            let i = place_of(rest, first.0);
            assert(records[i + 1].0 == records[0].0);
        }
        assert forall|key: Seq<char>| has_key(rest, key) implies map_of(rest)[key] == map_of(
            records,
        )[key] by {
            let i = place_of(rest, key);
            lemma_place(rest, i);
            lemma_place(records, i + 1);
        }
        assert(left =~= right);
    }
}

/// Cache round trip: the file that is written for a cache, read under the same rules, gives
/// the cache back. Every URI has the status code that was kept for it, and no URI is added.
pub proof fn lemma_persist_then_reload(cache: Cache)
    requires
        cache.wf(),
    ensures
        loaded(render(cache.records()), cache.rules(), Map::empty()) == cache@,
{
    lemma_read_back(cache.records(), cache.rules(), Map::empty());
    lemma_kept(Map::empty(), cache.records());
    assert(Map::<Seq<char>, u16>::empty().union_prefer_right(cache@) =~= cache@);
}

/// A cacheable status that the rules give to its own status code is found again: once the
/// check of `uri` has ended in `status`, the cache answers `status` for `uri`, and so does
/// the cache that is read from the file written for it.
pub proof fn lemma_cached_status_round_trip(before: Cache, after: Cache, uri: Seq<char>, status: Status)
    requires
        before.wf(),
        after.wf(),
        after.rules() == before.rules(),
        after@ == updated(before@, before.rules(), uri, status),
        before.rules().cacheable(status),
        status == before.rules().status_of(status.spec_code()->Some_0),
    ensures
        hit(after@, after.rules(), uri) == Some(status),
        hit(loaded(render(after.records()), after.rules(), Map::empty()), after.rules(), uri)
            == Some(status),
{
    lemma_persist_then_reload(after);
}

/// A status that may not be cached is never written out: once the check of `uri` has ended
/// in it, the file written for the cache holds no record for `uri`.
pub proof fn lemma_uncacheable_never_persisted(
    before: Cache,
    after: Cache,
    uri: Seq<char>,
    status: Status,
)
    requires
        before.wf(),
        after.wf(),
        after.rules() == before.rules(),
        after@ == updated(before@, before.rules(), uri, status),
        !before.rules().cacheable(status),
    ensures
        !after@.contains_key(uri),
        !has_key(after.records(), uri),
        !loaded(render(after.records()), after.rules(), Map::empty()).contains_key(uri),
{
    lemma_persist_then_reload(after);
}

/// What a well-formed cache holds is a success or an error that carries its code: neither
/// `Excluded` nor `Unsupported` nor `Unknown` is ever answered, nor written out.
pub proof fn lemma_only_classified_codes(cache: Cache, uri: Seq<char>)
    requires
        cache.wf(),
        cache@.contains_key(uri),
    ensures
        cache.rules().storable(cache@[uri]),
        cache.rules().cacheable(cache.rules().status_of(cache@[uri])),
        hit(cache@, cache.rules(), uri) matches Some(status) && (status is Success
            || status is Error),
{
    let at = place_of(cache.records(), uri);
    lemma_place(cache.records(), at);
}

impl Cache {
    /// The cache file: one line for each URI, `<uri>,<status code>`.
    pub fn persist(&self) -> (out: String)
        ensures
            out@ == render(self.records()),
    {
        let mut out: Vec<char> = Vec::new();
        let mut i: usize = 0;
        proof {
            assert(self.records().skip(0) == self.records());
            assert(out@ + render(self.records()) == render(self.records()));
        }
        while i < self.entries.len()
            invariant
                i <= self.entries@.len(),
                self.entries@.len() == self.records().len(),
                render(self.records()) == out@ + render(self.records().skip(i as int)),
            decreases self.entries@.len() - i,
        {
            let ghost before = out@;
            let ghost rest = self.records().skip(i as int);
            push_chars(&mut out, self.entries[i].0.as_str());
            out.push(',');
            push_decimal(&mut out, self.entries[i].1 as u64);
            out.push('\n');
            proof {
                assert(rest[0] == self.records()[i as int]);
                assert(rest.drop_first() == self.records().skip(i + 1));
                assert(out@ == before + (line_of(rest[0]) + seq!['\n']));
                assert(render(rest) == line_of(rest[0]) + seq!['\n'] + render(rest.drop_first()));
                assert(before + render(rest) == out@ + render(rest.drop_first()));
            }
            i = i + 1;
        }
        proof {
            assert(self.records().skip(i as int).len() == 0);
            assert(out@ + Seq::<char>::empty() == out@);
        }
        string_of(&out)
    }

    /// Reads the line `chars[from..to]`.
    fn read_line(chars: &Vec<char>, from: usize, to: usize, rules: &Rules) -> (out: Option<
        (Uri, u16),
    >)
        requires
            from <= to <= chars@.len(),
        ensures
            match out {
                Some(record) => record_of(chars@.subrange(from as int, to as int), *rules)
                    == Some((record.0@, record.1)),
                None => record_of(chars@.subrange(from as int, to as int), *rules) is None,
            },
    {
        let ghost line = chars@.subrange(from as int, to as int);
        match find_last_in(chars, from, to, ',') {
            None => None,
            Some(comma) => {
                proof {
                    assert(line.take(comma - from) == chars@.subrange(from as int, comma as int));
                    assert(line.skip(comma - from + 1) == chars@.subrange(
                        comma + 1,
                        to as int,
                    ));
                }
                let text = string_of_range(chars, from, comma);
                match Uri::parse(text.as_str()) {
                    None => None,
                    Some(uri) => match read_code(chars, comma + 1, to) {
                        None => None,
                        Some(code) => if rules.is_storable(code) {
                            Some((uri, code))
                        } else {
                            None
                        },
                    },
                }
            },
        }
    }

    /// Reads a cache file. Malformed lines are skipped. Where a URI stands in several lines,
    /// the last of them counts.
    pub fn load(text: &str, rules: Rules) -> (out: Cache)
        ensures
            out.wf(),
            out.rules() == rules,
            out@ == loaded(text@, rules, Map::empty()),
    {
        let chars = chars_of(text);
        let n = chars.len();
        let mut cache = Cache::new(rules);
        let mut from: usize = 0;
        proof {
            assert(chars@.skip(0) == text@);
        }
        while from < n
            invariant
                from <= n == chars@.len(),
                chars@ == text@,
                cache.wf(),
                cache.rules() == rules,
                loaded(text@, rules, Map::empty()) == loaded(
                    chars@.skip(from as int),
                    rules,
                    cache@,
                ),
            decreases n - from,
        {
            let ghost rest = chars@.skip(from as int);
            proof {
                assert(rest == chars@.subrange(from as int, n as int));
            }
            match find_first_in(&chars, from, n, '\n') {
                Some(end) => {
                    proof {
                        assert(rest.take(end - from) == chars@.subrange(from as int, end as int));
                        assert(rest.skip(end - from + 1) == chars@.skip(end + 1));
                    }
                    match Cache::read_line(&chars, from, end, &cache.rules) {
                        Some(record) => {
                            cache.put(record.0, record.1);
                        },
                        None => {},
                    }
                    from = end + 1;
                },
                None => {
                    match Cache::read_line(&chars, from, n, &cache.rules) {
                        Some(record) => {
                            cache.put(record.0, record.1);
                        },
                        None => {},
                    }
                    from = n;
                    proof {
                        assert(chars@.skip(n as int).len() == 0);
                    }
                },
            }
        }
        proof {
            assert(chars@.skip(from as int).len() == 0);
        }
        cache
    }
}

} // verus!
