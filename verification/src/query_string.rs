//! The query string: a multi-map parsed from the text after `?`.
//!
//! The text is split on `&` into subqueries; each subquery splits at its
//! first `=` into a key and a value (a subquery without `=` is all key, with
//! the empty value). A key seen once maps to `Single`; the moment the same
//! key appears again its entry becomes `Multiple`, accumulating every value
//! in encounter order. Malformed input is never rejected: empty subqueries
//! yield the empty key and the empty value.

use vstd::prelude::*;

use crate::text::find_char;
use crate::text::find_char_in;
use crate::text::lemma_find_char;
use crate::text::lemma_find_char_none;
use crate::text::str_eq;

verus! {

/// The value(s) recorded for one key: one occurrence, or every value of a
/// repeated key in encounter order.
#[derive(Debug)]
pub enum QueryStringValue {
    Single(String),
    Multiple(Vec<String>),
}

impl View for QueryStringValue {
    type V = Seq<Seq<char>>;

    open spec fn view(&self) -> Seq<Seq<char>> {
        match self {
            QueryStringValue::Single(v) => seq![v@],
            QueryStringValue::Multiple(vs) => vs@.map_values(|v: String| v@),
        }
    }
}

impl QueryStringValue {
    /// `Multiple` only ever holds the values of a key that occurred at
    /// least twice, so the variant is determined by the number of values.
    pub open spec fn wf(&self) -> bool {
        self matches QueryStringValue::Multiple(vs) ==> vs@.len() >= 2
    }
}

/// A mapping from each key of a query string to its value(s). Keys are
/// unique by construction.
#[derive(Debug)]
pub struct QueryString {
    data: Vec<(String, QueryStringValue)>,
}

/// The mapping that a list of key/value entries denotes.
pub open spec fn entries_map(entries: Seq<(String, QueryStringValue)>) -> Map<
    Seq<char>,
    Seq<Seq<char>>,
>
    decreases entries.len(),
{
    if entries.len() == 0 {
        Map::empty()
    } else {
        entries_map(entries.drop_last()).insert(entries.last().0@, entries.last().1@)
    }
}

/// Entries have pairwise distinct keys and well-formed values.
pub open spec fn wf_entries(entries: Seq<(String, QueryStringValue)>) -> bool {
    &&& forall|i: int, j: int|
        #![trigger entries[i], entries[j]]
        0 <= i < j < entries.len() ==> entries[i].0@ != entries[j].0@
    &&& forall|i: int| 0 <= i < entries.len() ==> (#[trigger] entries[i].1).wf()
}

impl View for QueryString {
    type V = Map<Seq<char>, Seq<Seq<char>>>;

    closed spec fn view(&self) -> Map<Seq<char>, Seq<Seq<char>>> {
        entries_map(self.data@)
    }
}

impl QueryString {
    /// Keys are pairwise distinct and every value is well formed.
    pub closed spec fn wf(&self) -> bool {
        wf_entries(self.data@)
    }
}

/// The subquery segments of a text: the text split on `sep`. Splitting the
/// empty text yields one empty segment.
pub open spec fn split_on(s: Seq<char>, sep: char) -> Seq<Seq<char>>
    decreases s.len(),
    via split_on_decreases
{
    match find_char(s, sep) {
        None => seq![s],
        Some(i) => seq![s.take(i)] + split_on(s.skip(i + 1), sep),
    }
}

#[via_fn]
proof fn split_on_decreases(s: Seq<char>, sep: char) {
    lemma_find_char(s, sep);
}

/// The key of a subquery: the text before its first `=`, or all of it.
pub open spec fn segment_key(seg: Seq<char>) -> Seq<char> {
    match find_char(seg, '=') {
        None => seg,
        Some(i) => seg.take(i),
    }
}

/// The value of a subquery: the text after its first `=`, or empty.
pub open spec fn segment_value(seg: Seq<char>) -> Seq<char> {
    match find_char(seg, '=') {
        None => Seq::empty(),
        Some(i) => seg.skip(i + 1),
    }
}

/// One key/value pair folded into an accumulated mapping: a new key starts
/// its value list, a known key appends to it.
pub open spec fn insert_pair_map(
    m: Map<Seq<char>, Seq<Seq<char>>>,
    k: Seq<char>,
    v: Seq<char>,
) -> Map<Seq<char>, Seq<Seq<char>>> {
    if m.contains_key(k) {
        m.insert(k, m[k].push(v))
    } else {
        m.insert(k, seq![v])
    }
}

/// The mapping that a list of subquery segments denotes, folded in order.
pub open spec fn segments_map(segs: Seq<Seq<char>>) -> Map<Seq<char>, Seq<Seq<char>>>
    decreases segs.len(),
{
    if segs.len() == 0 {
        Map::empty()
    } else {
        insert_pair_map(
            segments_map(segs.drop_last()),
            segment_key(segs.last()),
            segment_value(segs.last()),
        )
    }
}

/// The mapping that a whole query string text denotes.
pub open spec fn query_string_map(s: Seq<char>) -> Map<Seq<char>, Seq<Seq<char>>> {
    segments_map(split_on(s, '&'))
}

/// The values of key `k` among the segments, in encounter order.
pub open spec fn key_values(segs: Seq<Seq<char>>, k: Seq<char>) -> Seq<Seq<char>>
    decreases segs.len(),
{
    if segs.len() == 0 {
        Seq::empty()
    } else {
        let rest = key_values(segs.drop_last(), k);
        if segment_key(segs.last()) == k {
            rest.push(segment_value(segs.last()))
        } else {
            rest
        }
    }
}

/// Law: folding segments maps each key to exactly the values of its
/// subqueries, in encounter order — however often the key repeats.
pub proof fn lemma_key_values(segs: Seq<Seq<char>>, k: Seq<char>)
    ensures
        segments_map(segs).contains_key(k) <==> key_values(segs, k).len() > 0,
        segments_map(segs).contains_key(k) ==> segments_map(segs)[k] == key_values(segs, k),
    decreases segs.len(),
{
    if segs.len() > 0 {
        lemma_key_values(segs.drop_last(), k);
    }
}

/// Law: a query string maps each key to the values of its subqueries, in
/// encounter order, whatever unrelated keys stand in between.
pub proof fn lemma_query_values(s: Seq<char>, k: Seq<char>)
    ensures
        query_string_map(s).contains_key(k) <==> key_values(split_on(s, '&'), k).len() > 0,
        query_string_map(s).contains_key(k) ==> query_string_map(s)[k] == key_values(
            split_on(s, '&'),
            k,
        ),
{
    lemma_key_values(split_on(s, '&'), k);
}

/// Text free of the separator splits into itself as the one segment.
pub proof fn lemma_split_on_no_sep(s: Seq<char>, sep: char)
    requires
        forall|j: int| 0 <= j < s.len() ==> s[j] != sep,
    ensures
        split_on(s, sep) == seq![s],
{
    lemma_find_char_none(s, sep);
}

/// Law: a subquery without `=` is all key, with the empty value.
pub proof fn lemma_segment_no_equals(seg: Seq<char>)
    requires
        forall|j: int| 0 <= j < seg.len() ==> seg[j] != '=',
    ensures
        segment_key(seg) == seg,
        segment_value(seg) == Seq::<char>::empty(),
{
    lemma_find_char_none(seg, '=');
}

/// Law: a lone `k=v` query string maps `k` to the single value `v`.
pub proof fn lemma_single_pair(k: Seq<char>, v: Seq<char>)
    requires
        forall|j: int| 0 <= j < k.len() ==> k[j] != '&' && k[j] != '=',
        forall|j: int| 0 <= j < v.len() ==> v[j] != '&',
    ensures
        query_string_map(k + seq!['='] + v) == Map::<Seq<char>, Seq<Seq<char>>>::empty().insert(
            k,
            seq![v],
        ),
{
    let s = k + seq!['='] + v;
    assert forall|j: int| 0 <= j < s.len() implies s[j] != '&' by {
        if j < k.len() {
            assert(s[j] == k[j]);
        } else if j == k.len() {
            assert(s[j] == '=');
        } else {
            assert(s[j] == v[j - k.len() - 1]);
        }
    }
    lemma_split_on_no_sep(s, '&');
    let segs = seq![s];
    assert(segs.drop_last() =~= Seq::<Seq<char>>::empty());
    assert(segs.last() == s);
    crate::text::lemma_find_char_concat(k, '=', v);
    assert(segment_key(s) =~= k);
    assert(segment_value(s) =~= v);
    assert(segs.len() == 1);
    assert(segments_map(segs) == insert_pair_map(
        segments_map(segs.drop_last()),
        segment_key(s),
        segment_value(s),
    ));
    assert(segments_map(segs.drop_last()) == Map::<Seq<char>, Seq<Seq<char>>>::empty());
    assert(segment_key(s) == k);
    assert(segment_value(s) == v);
    assert(segments_map(segs) == insert_pair_map(Map::empty(), k, v));
}

/// With pairwise distinct keys, the mapping of a list of entries holds a key
/// exactly when some entry holds it, and maps it to that entry's values.
proof fn lemma_entries_map_lookup(entries: Seq<(String, QueryStringValue)>, k: Seq<char>)
    requires
        wf_entries(entries),
    ensures
        entries_map(entries).contains_key(k) <==> exists|i: int|
            0 <= i < entries.len() && (#[trigger] entries[i]).0@ == k,
        forall|i: int|
            0 <= i < entries.len() && (#[trigger] entries[i]).0@ == k ==> entries_map(
                entries,
            ).contains_key(k) && entries_map(entries)[k] == entries[i].1@,
    decreases entries.len(),
{
    if entries.len() > 0 {
        let prefix = entries.drop_last();
        assert(forall|i: int| 0 <= i < prefix.len() ==> prefix[i] == entries[i]);
        assert(wf_entries(prefix));
        lemma_entries_map_lookup(prefix, k);
        let last = entries.last();
        assert(entries[entries.len() - 1] == last);
        if last.0@ == k {
            assert(entries_map(entries).contains_key(k));
            assert(entries_map(entries)[k] == last.1@);
            assert forall|i: int|
                0 <= i < entries.len() && (#[trigger] entries[i]).0@ == k implies entries_map(
                entries,
            )[k] == entries[i].1@ by {
                if i < entries.len() - 1 {
                    assert(entries[i].0@ != last.0@);
                }
            }
        } else {
            assert(entries_map(entries).contains_key(k) <==> entries_map(prefix).contains_key(k));
            if entries_map(prefix).contains_key(k) {
                let w = choose|i: int| 0 <= i < prefix.len() && (#[trigger] prefix[i]).0@ == k;
                assert(entries[w].0@ == k);
            }
            assert forall|i: int|
                0 <= i < entries.len() && (#[trigger] entries[i]).0@ == k implies entries_map(
                entries,
            )[k] == entries[i].1@ by {
                assert(i < prefix.len());
                assert(prefix[i].0@ == k);
            }
        }
    }
}

/// Replacing the entry of a key rewrites exactly that key's values in the
/// mapping.
proof fn lemma_entries_map_update(
    entries: Seq<(String, QueryStringValue)>,
    i: int,
    p: (String, QueryStringValue),
)
    requires
        wf_entries(entries),
        0 <= i < entries.len(),
        p.0@ == entries[i].0@,
    ensures
        entries_map(entries.update(i, p)) == entries_map(entries).insert(p.0@, p.1@),
    decreases entries.len(),
{
    let updated = entries.update(i, p);
    let prefix = entries.drop_last();
    let last = entries.last();
    assert(forall|j: int| 0 <= j < prefix.len() ==> prefix[j] == entries[j]);
    assert(wf_entries(prefix));
    if i == entries.len() - 1 {
        assert(updated.drop_last() =~= prefix);
        assert(updated.last() == p);
        assert(entries_map(updated) == entries_map(prefix).insert(p.0@, p.1@));
        assert(entries_map(entries) == entries_map(prefix).insert(last.0@, last.1@));
        assert(entries_map(prefix).insert(last.0@, last.1@).insert(p.0@, p.1@) =~= entries_map(
            prefix,
        ).insert(p.0@, p.1@));
    } else {
        assert(updated.drop_last() =~= prefix.update(i, p));
        assert(updated.last() == last);
        lemma_entries_map_update(prefix, i, p);
        assert(entries_map(updated) == entries_map(prefix).insert(p.0@, p.1@).insert(
            last.0@,
            last.1@,
        ));
        assert(p.0@ != last.0@);
        assert(entries_map(prefix).insert(p.0@, p.1@).insert(last.0@, last.1@) =~= entries_map(
            prefix,
        ).insert(last.0@, last.1@).insert(p.0@, p.1@));
    }
}

/// Index of the entry holding `key`, if any.
fn find_key(data: &Vec<(String, QueryStringValue)>, key: &str) -> (r: Option<usize>)
    ensures
        match r {
            Some(i) => i < data@.len() && data@[i as int].0@ == key@,
            None => forall|j: int| 0 <= j < data@.len() ==> (#[trigger] data@[j]).0@ != key@,
        },
{
    let n: usize = data.len();
    let mut i: usize = 0;
    while i < n
        invariant
            n == data@.len(),
            i <= n,
            forall|j: int| 0 <= j < i ==> (#[trigger] data@[j]).0@ != key@,
        decreases n - i,
    {
        if str_eq(data[i].0.as_str(), key) {
            return Some(i);
        }
        i = i + 1;
    }
    None
}

/// Records one key/value pair: a new key starts as `Single`, a repeated key
/// is promoted to `Multiple` or extended.
fn insert_value(data: &mut Vec<(String, QueryStringValue)>, key: &str, value: &str)
    requires
        wf_entries(old(data)@),
    ensures
        wf_entries(final(data)@),
        entries_map(final(data)@) == insert_pair_map(entries_map(old(data)@), key@, value@),
{
    let ghost old_entries = data@;
    proof {
        lemma_entries_map_lookup(old_entries, key@);
    }
    match find_key(data, key) {
        None => {
            data.push((key.to_owned(), QueryStringValue::Single(value.to_owned())));
            proof {
                assert(data@.drop_last() =~= old_entries);
                assert(data@.last().0@ == key@);
                assert(data@.last().1@ =~= seq![value@]);
                assert(!entries_map(old_entries).contains_key(key@));
                assert(forall|j: int| 0 <= j < old_entries.len() ==> data@[j] == old_entries[j]);
            }
        },
        Some(i) => {
            let removed = data.remove(i);
            let k_owned = removed.0;
            let old_val = removed.1;
            let ghost old_val_view = old_val@;
            let new_val = match old_val {
                QueryStringValue::Single(prev) => {
                    let mut vs: Vec<String> = Vec::new();
                    vs.push(prev);
                    vs.push(value.to_owned());
                    QueryStringValue::Multiple(vs)
                },
                QueryStringValue::Multiple(vs) => {
                    let mut vs2 = vs;
                    vs2.push(value.to_owned());
                    QueryStringValue::Multiple(vs2)
                },
            };
            proof {
                assert(new_val@ =~= old_val_view.push(value@));
                assert(old_val_view.len() >= 1);
            }
            data.insert(i, (k_owned, new_val));
            proof {
                let p = (k_owned, new_val);
                assert(data@ =~= old_entries.update(i as int, p));
                lemma_entries_map_update(old_entries, i as int, p);
                assert(entries_map(old_entries).contains_key(key@));
                assert(entries_map(old_entries)[key@] == old_val_view);
                assert(forall|j: int|
                    0 <= j < data@.len() ==> (#[trigger] data@[j]).0@ == old_entries[j].0@);
            }
        },
    }
}

/// Records one whole subquery, split at its first `=`.
fn insert_segment(data: &mut Vec<(String, QueryStringValue)>, seg: &str)
    requires
        wf_entries(old(data)@),
    ensures
        wf_entries(final(data)@),
        entries_map(final(data)@) == insert_pair_map(
            entries_map(old(data)@),
            segment_key(seg@),
            segment_value(seg@),
        ),
{
    let len: usize = seg.unicode_len();
    match find_char_in(seg, '=') {
        Some(i) => {
            proof {
                lemma_find_char(seg@, '=');
            }
            let key: &str = seg.substring_char(0, i);
            let value: &str = seg.substring_char(i + 1, len);
            proof {
                assert(key@ =~= segment_key(seg@));
                assert(value@ =~= segment_value(seg@));
            }
            insert_value(data, key, value);
        },
        None => {
            proof {
                reveal_strlit("");
                assert(""@ =~= segment_value(seg@));
            }
            insert_value(data, seg, "");
        },
    }
}

impl QueryString {
    /// Parses the text after `?` into its mapping. Never fails: malformed
    /// subqueries are represented, not rejected.
    pub fn from(s: &str) -> (r: QueryString)
        ensures
            r.wf(),
            r@ == query_string_map(s@),
    {
        let mut data: Vec<(String, QueryStringValue)> = Vec::new();
        let mut rest: &str = s;
        let ghost mut segs: Seq<Seq<char>> = Seq::empty();
        proof {
            assert(split_on(s@, '&') =~= segs + split_on(rest@, '&'));
        }
        loop
            invariant_except_break
                split_on(s@, '&') == segs + split_on(rest@, '&'),
            invariant
                wf_entries(data@),
                entries_map(data@) == segments_map(segs),
            ensures
                wf_entries(data@),
                entries_map(data@) == query_string_map(s@),
            decreases rest@.len(),
        {
            match find_char_in(rest, '&') {
                Some(i) => {
                    proof {
                        lemma_find_char(rest@, '&');
                    }
                    let len: usize = rest.unicode_len();
                    let seg: &str = rest.substring_char(0, i);
                    let next: &str = rest.substring_char(i + 1, len);
                    insert_segment(&mut data, seg);
                    proof {
                        assert(seg@ =~= rest@.take(i as int));
                        assert(next@ =~= rest@.skip(i as int + 1));
                        assert((segs.push(seg@)).drop_last() =~= segs);
                        assert(segments_map(segs.push(seg@)) == entries_map(data@));
                        assert(split_on(rest@, '&') == seq![seg@] + split_on(next@, '&'));
                        segs = segs.push(seg@);
                        assert(split_on(s@, '&') =~= segs + split_on(next@, '&'));
                    }
                    rest = next;
                },
                None => {
                    insert_segment(&mut data, rest);
                    proof {
                        assert((segs.push(rest@)).drop_last() =~= segs);
                        assert(segments_map(segs.push(rest@)) == entries_map(data@));
                        assert(split_on(rest@, '&') == seq![rest@]);
                        segs = segs.push(rest@);
                        assert(segs =~= split_on(s@, '&'));
                    }
                    break;
                },
            }
        }
        QueryString { data }
    }

    /// Looks a key up by exact match: `Single` for a key seen once,
    /// `Multiple` with every value for a repeated key, `None` for an absent
    /// one.
    pub fn get(&self, key: &str) -> (r: Option<&QueryStringValue>)
        requires
            self.wf(),
        ensures
            match r {
                Some(v) => self@.contains_key(key@) && v@ == self@[key@] && v.wf(),
                None => !self@.contains_key(key@),
            },
    {
        proof {
            lemma_entries_map_lookup(self.data@, key@);
        }
        match find_key(&self.data, key) {
            Some(i) => Some(&self.data[i].1),
            None => None,
        }
    }
}

} // verus!
