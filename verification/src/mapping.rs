//! The query-string splitter and its multi-valued mapping.
//!
//! [`split`] partitions a raw query string on `&` into candidate pairs,
//! drops every pair without a `=` separator, splits each retained pair on
//! its first `=`, form-url-decodes both halves, and accumulates the decoded
//! values per decoded key, in order of appearance. A pair whose key fails to
//! decode is dropped entirely; a pair whose value fails to decode keeps the
//! key but drops that one value.
//!
//! The byte `0x26` is `&` and the byte `0x3d` is `=` throughout.

use vstd::prelude::*;
use vstd::string::StringExecFns;
use vstd::utf8::encode_utf8;

use crate::decode::decode_bytes;
use crate::decode::form_url_decode_spec;
use crate::decode::FormUrlDecoded;

verus! {

/// Splits a byte sequence at the first occurrence of `sep`: the part before
/// it and the part after it, or nothing when `sep` does not occur.
pub open spec fn split_first(s: Seq<u8>, sep: u8) -> Option<(Seq<u8>, Seq<u8>)>
    decreases s.len(),
{
    if s.len() == 0 {
        None
    } else if s[0] == sep {
        Some((Seq::empty(), s.skip(1)))
    } else {
        match split_first(s.skip(1), sep) {
            None => None,
            Some(p) => Some((seq![s[0]] + p.0, p.1)),
        }
    }
}

/// State of a left-to-right scan for `sep`: the segments completed so far
/// and the partial segment after the last separator.
pub open spec fn split_state(s: Seq<u8>, sep: u8) -> (Seq<Seq<u8>>, Seq<u8>)
    decreases s.len(),
{
    if s.len() == 0 {
        (Seq::empty(), Seq::empty())
    } else {
        let st = split_state(s.drop_last(), sep);
        if s.last() == sep {
            (st.0.push(st.1), Seq::empty())
        } else {
            (st.0, st.1.push(s.last()))
        }
    }
}

/// The `sep`-separated segments of a byte sequence. An empty sequence yields
/// one empty segment, and a trailing separator yields a trailing empty
/// segment, exactly as splitting a string does.
pub open spec fn split_segments(s: Seq<u8>, sep: u8) -> Seq<Seq<u8>> {
    split_state(s, sep).0.push(split_state(s, sep).1)
}

/// The decoded key of one candidate pair: the bytes before the first `=`,
/// form-url-decoded. Nothing when the pair has no `=` or the key fails to
/// decode.
pub open spec fn seg_key(seg: Seq<u8>) -> Option<Seq<char>> {
    match split_first(seg, 0x3du8) {
        None => None,
        Some(kv) => form_url_decode_spec(kv.0),
    }
}

/// The decoded value of one candidate pair: the bytes after the first `=`,
/// form-url-decoded. Nothing when the pair has no `=` or the value fails to
/// decode.
pub open spec fn seg_value(seg: Seq<u8>) -> Option<Seq<char>> {
    match split_first(seg, 0x3du8) {
        None => None,
        Some(kv) => form_url_decode_spec(kv.1),
    }
}

/// Records one decoded pair under key `k`: the key's sequence is created if
/// absent, and the value is appended to it when one decoded successfully.
pub open spec fn map_push(
    m: Map<Seq<char>, Seq<Seq<char>>>,
    k: Seq<char>,
    v: Option<Seq<char>>,
) -> Map<Seq<char>, Seq<Seq<char>>> {
    let prev = if m.dom().contains(k) {
        m[k]
    } else {
        Seq::empty()
    };
    match v {
        None => m.insert(k, prev),
        Some(vv) => m.insert(k, prev.push(vv)),
    }
}

/// Effect of one candidate pair on the mapping: dropped without `=` or when
/// its key fails to decode, recorded under its decoded key otherwise.
pub open spec fn add_pair(
    m: Map<Seq<char>, Seq<Seq<char>>>,
    seg: Seq<u8>,
) -> Map<Seq<char>, Seq<Seq<char>>> {
    match split_first(seg, 0x3du8) {
        None => m,
        Some(kv) => match form_url_decode_spec(kv.0) {
            None => m,
            Some(k) => map_push(m, k, form_url_decode_spec(kv.1)),
        },
    }
}

/// The mapping built by folding the candidate pairs left to right.
pub open spec fn pairs_map(segs: Seq<Seq<u8>>) -> Map<Seq<char>, Seq<Seq<char>>>
    decreases segs.len(),
{
    if segs.len() == 0 {
        Map::empty()
    } else {
        add_pair(pairs_map(segs.drop_last()), segs.last())
    }
}

/// The mapping that the raw bytes of a query string denote.
pub open spec fn split_bytes_spec(raw: Seq<u8>) -> Map<Seq<char>, Seq<Seq<char>>> {
    pairs_map(split_segments(raw, 0x26u8))
}

/// The mapping that an optional query string denotes: an absent query string
/// denotes the empty mapping.
pub open spec fn split_spec(query: Option<Seq<char>>) -> Map<Seq<char>, Seq<Seq<char>>> {
    match query {
        None => Map::empty(),
        Some(q) => split_bytes_spec(encode_utf8(q)),
    }
}

/// The view of an optional borrowed query string.
pub open spec fn opt_str_view(query: Option<&str>) -> Option<Seq<char>> {
    match query {
        None => None,
        Some(q) => Some(q@),
    }
}

proof fn lemma_split_first_found(s: Seq<u8>, sep: u8, j: int)
    requires
        0 <= j < s.len(),
        s[j] == sep,
        forall|t: int| 0 <= t < j ==> s[t] != sep,
    ensures
        split_first(s, sep) == Some((s.take(j), s.skip(j + 1))),
    decreases j,
{
    if j == 0 {
        assert(s.take(0) =~= Seq::<u8>::empty());
    } else {
        lemma_split_first_found(s.skip(1), sep, j - 1);
        assert(seq![s[0]] + s.skip(1).take(j - 1) =~= s.take(j));
        assert(s.skip(1).skip(j) =~= s.skip(j + 1));
    }
}

proof fn lemma_split_first_none(s: Seq<u8>, sep: u8)
    requires
        forall|t: int| 0 <= t < s.len() ==> s[t] != sep,
    ensures
        split_first(s, sep) is None,
    decreases s.len(),
{
    if s.len() > 0 {
        lemma_split_first_none(s.skip(1), sep);
    }
}

/// The view sequence of a sequence of decoded values.
pub open spec fn value_views(vs: Seq<FormUrlDecoded>) -> Seq<Seq<char>> {
    vs.map_values(|v: FormUrlDecoded| v@)
}

spec fn assoc_map(entries: Seq<(String, Vec<FormUrlDecoded>)>) -> Map<Seq<char>, Seq<Seq<char>>>
    decreases entries.len(),
{
    if entries.len() == 0 {
        Map::empty()
    } else {
        assoc_map(entries.drop_last()).insert(
            entries.last().0@,
            value_views(entries.last().1@),
        )
    }
}

proof fn lemma_assoc_dom(entries: Seq<(String, Vec<FormUrlDecoded>)>, k: Seq<char>)
    ensures
        assoc_map(entries).dom().contains(k) <==> (exists|i: int|
            0 <= i < entries.len() && entries[i].0@ == k),
    decreases entries.len(),
{
    if entries.len() > 0 {
        lemma_assoc_dom(entries.drop_last(), k);
        if entries.last().0@ == k {
            assert(entries[entries.len() - 1].0@ == k);
        } else if assoc_map(entries).dom().contains(k) {
            let i = choose|i: int| 0 <= i < entries.drop_last().len()
                && entries.drop_last()[i].0@ == k;
            assert(entries[i].0@ == k);
        } else if exists|i: int| 0 <= i < entries.len() && entries[i].0@ == k {
            let i = choose|i: int| 0 <= i < entries.len() && entries[i].0@ == k;
            assert(entries.drop_last()[i].0@ == k);
        }
    }
}

proof fn lemma_assoc_at(entries: Seq<(String, Vec<FormUrlDecoded>)>, k: Seq<char>, i: int)
    requires
        0 <= i < entries.len(),
        entries[i].0@ == k,
        forall|j: int| i < j < entries.len() ==> entries[j].0@ != k,
    ensures
        assoc_map(entries).dom().contains(k),
        assoc_map(entries)[k] == value_views(entries[i].1@),
    decreases entries.len(),
{
    if i < entries.len() - 1 {
        lemma_assoc_at(entries.drop_last(), k, i);
    }
}

proof fn lemma_assoc_update(
    entries: Seq<(String, Vec<FormUrlDecoded>)>,
    i: int,
    e2: (String, Vec<FormUrlDecoded>),
)
    requires
        0 <= i < entries.len(),
        e2.0@ == entries[i].0@,
        forall|j: int| 0 <= j < entries.len() && j != i ==> entries[j].0@ != e2.0@,
    ensures
        assoc_map(entries.update(i, e2)) == assoc_map(entries).insert(
            e2.0@,
            value_views(e2.1@),
        ),
    decreases entries.len(),
{
    let upd = entries.update(i, e2);
    if i == entries.len() - 1 {
        assert(upd.drop_last() =~= entries.drop_last());
        assert(assoc_map(upd) =~= assoc_map(entries).insert(e2.0@, value_views(e2.1@)));
    } else {
        assert(upd.drop_last() =~= entries.drop_last().update(i, e2));
        lemma_assoc_update(entries.drop_last(), i, e2);
        assert(upd.last() == entries.last());
        assert(assoc_map(upd) =~= assoc_map(entries).insert(e2.0@, value_views(e2.1@)));
    }
}

/// A mapping from decoded query-string keys to the ordered decoded values
/// supplied for them.
#[derive(Debug)]
pub struct QueryStringMapping {
    data: Vec<(String, Vec<FormUrlDecoded>)>,
}

impl View for QueryStringMapping {
    type V = Map<Seq<char>, Seq<Seq<char>>>;

    closed spec fn view(&self) -> Map<Seq<char>, Seq<Seq<char>>> {
        assoc_map(self.data@)
    }
}

impl QueryStringMapping {
    /// Each key is stored at most once.
    pub closed spec fn wf(&self) -> bool {
        forall|i: int, j: int|
            0 <= i < j < self.data@.len() ==> self.data@[i].0@ != self.data@[j].0@
    }

    /// An empty mapping.
    pub fn new() -> (r: QueryStringMapping)
        ensures
            r.wf(),
            r@ == Map::<Seq<char>, Seq<Seq<char>>>::empty(),
    {
        QueryStringMapping { data: Vec::new() }
    }

    fn find_index(&self, key: &str) -> (r: Option<usize>)
        ensures
            match r {
                Some(i) => i < self.data@.len() && self.data@[i as int].0@ == key@,
                None => forall|i: int| 0 <= i < self.data@.len() ==> self.data@[i].0@ != key@,
            },
    {
        let k = String::from_str(key);
        let mut i: usize = 0;
        while i < self.data.len()
            invariant
                i <= self.data@.len(),
                k@ == key@,
                forall|j: int| 0 <= j < i ==> self.data@[j].0@ != key@,
            decreases self.data@.len() - i,
        {
            if self.data[i].0 == k {
                return Some(i);
            }
            i += 1;
        }
        None
    }

    /// Returns the values recorded for the key, or nothing when the key is
    /// absent.
    pub fn get(&self, key: &str) -> (r: Option<&Vec<FormUrlDecoded>>)
        requires
            self.wf(),
        ensures
            match r {
                Some(vs) => self@.dom().contains(key@) && value_views(vs@) == self@[key@],
                None => !self@.dom().contains(key@),
            },
    {
        proof {
            lemma_assoc_dom(self.data@, key@);
        }
        match self.find_index(key) {
            Some(i) => {
                proof {
                    lemma_assoc_at(self.data@, key@, i as int);
                }
                Some(&self.data[i].1)
            },
            None => None,
        }
    }

    /// Whether any values (possibly none) are recorded for the key.
    pub fn contains_key(&self, key: &str) -> (r: bool)
        ensures
            r == self@.dom().contains(key@),
    {
        proof {
            lemma_assoc_dom(self.data@, key@);
        }
        match self.find_index(key) {
            Some(_) => true,
            None => false,
        }
    }

    /// Records one decoded pair: creates the key's sequence if it is new and
    /// appends the value to it when one is given.
    fn push_value(&mut self, key: String, value: Option<FormUrlDecoded>)
        requires
            old(self).wf(),
        ensures
            final(self).wf(),
            final(self)@ == map_push(
                old(self)@,
                key@,
                match value {
                    None => None,
                    Some(d) => Some(d@),
                },
            ),
    {
        proof {
            lemma_assoc_dom(self.data@, key@);
        }
        match self.find_index(key.as_str()) {
            Some(i) => {
                proof {
                    lemma_assoc_at(self.data@, key@, i as int);
                }
                let ghost entries0 = self.data@;
                let mut entry = self.data.remove(i);
                match value {
                    Some(d) => entry.1.push(d),
                    None => (),
                }
                let ghost entry2 = entry;
                self.data.insert(i, entry);
                proof {
                    assert(self.data@ =~= entries0.update(i as int, entry2));
                    lemma_assoc_update(entries0, i as int, entry2);
                    if value is None {
                        assert(self@ =~= map_push(
                            old(self)@,
                            key@,
                            None::<Seq<char>>,
                        ));
                    } else {
                        assert(value_views(entry2.1@) =~= old(self)@[key@].push(
                            (value->0)@,
                        ));
                    }
                }
            },
            None => {
                let mut vs: Vec<FormUrlDecoded> = Vec::new();
                match value {
                    Some(d) => vs.push(d),
                    None => (),
                }
                let ghost entries0 = self.data@;
                let ghost vsg = vs@;
                self.data.push((key, vs));
                proof {
                    assert(self.data@.drop_last() =~= entries0);
                    if value is Some {
                        assert(value_views(vsg) =~= Seq::<Seq<char>>::empty().push(
                            (value->0)@,
                        ));
                    } else {
                        assert(value_views(vsg) =~= Seq::<Seq<char>>::empty());
                    }
                }
            },
        }
    }

    /// Adds an empty value sequence for a key that was not supplied in the
    /// query string. The key is decoded first; when decoding fails, or when
    /// the key is already present, the mapping is left unchanged.
    pub fn add_unmapped_segment(&mut self, key: &str)
        requires
            old(self).wf(),
        ensures
            final(self).wf(),
            match form_url_decode_spec(encode_utf8(key@)) {
                None => final(self)@ == old(self)@,
                Some(k) => if old(self)@.dom().contains(k) {
                    final(self)@ == old(self)@
                } else {
                    final(self)@ == old(self)@.insert(k, Seq::<Seq<char>>::empty())
                },
            },
    {
        match crate::decode::form_url_decode(key) {
            Some(k) => {
                let ghost kview = k@;
                self.push_value(k, None);
                proof {
                    if old(self)@.dom().contains(kview) {
                        assert(self@ =~= old(self)@);
                    }
                }
            },
            None => (),
        }
    }
}

/// Processes one `&`-separated candidate pair.
fn process_segment(m: &mut QueryStringMapping, seg: &[u8])
    requires
        old(m).wf(),
    ensures
        final(m).wf(),
        final(m)@ == add_pair(old(m)@, seg@),
{
    let mut j: usize = 0;
    while j < seg.len()
        invariant
            old(m).wf(),
            *m == *old(m),
            j <= seg@.len(),
            forall|t: int| 0 <= t < j ==> seg@[t] != 0x3du8,
        decreases seg@.len() - j,
    {
        if seg[j] == 0x3d {
            proof {
                lemma_split_first_found(seg@, 0x3du8, j as int);
            }
            let kraw = &seg[0..j];
            let vraw = &seg[j + 1..seg.len()];
            proof {
                assert(kraw@ =~= seg@.take(j as int));
                assert(vraw@ =~= seg@.skip(j + 1));
            }
            match decode_bytes(kraw) {
                None => {
                    return ;
                },
                Some(kstr) => {
                    let dv = FormUrlDecoded::from_bytes(vraw);
                    let ghost dview = match &dv {
                        None => None::<Seq<char>>,
                        Some(d) => Some(d@),
                    };
                    proof {
                        assert(dview == form_url_decode_spec(vraw@));
                    }
                    m.push_value(kstr, dv);
                    return ;
                },
            }
        }
        j += 1;
    }
    proof {
        lemma_split_first_none(seg@, 0x3du8);
    }
}

/// Splits a query string into pairs and provides a mapping of decoded keys
/// to decoded values.
///
/// A key that occurs several times accumulates each of its values, left to
/// right. A key given with an empty value (a trailing `=`) stores an empty
/// string. A candidate pair without `=` is dropped, as is a pair whose key
/// fails to decode; a value that fails to decode is dropped while its key is
/// kept. An absent query string yields the empty mapping.
pub fn split(query: Option<&str>) -> (r: QueryStringMapping)
    ensures
        r.wf(),
        r@ == split_spec(opt_str_view(query)),
{
    match query {
        None => QueryStringMapping::new(),
        Some(q) => {
            let bytes = q.as_bytes();
            let mut m = QueryStringMapping::new();
            let mut start: usize = 0;
            let mut i: usize = 0;
            while i < bytes.len()
                invariant
                    m.wf(),
                    start <= i <= bytes@.len(),
                    m@ == pairs_map(split_state(bytes@.take(i as int), 0x26u8).0),
                    split_state(bytes@.take(i as int), 0x26u8).1 == bytes@.subrange(
                        start as int,
                        i as int,
                    ),
                decreases bytes@.len() - i,
            {
                proof {
                    let tprev = bytes@.take(i as int);
                    let tnext = bytes@.take(i + 1);
                    assert(tnext =~= tprev.push(bytes@[i as int]));
                    assert(tnext.drop_last() =~= tprev);
                    assert(tnext.last() == bytes@[i as int]);
                }
                if bytes[i] == 0x26 {
                    let seg = &bytes[start..i];
                    process_segment(&mut m, seg);
                    proof {
                        let st = split_state(bytes@.take(i as int), 0x26u8);
                        assert(split_state(bytes@.take(i + 1), 0x26u8) == (
                            st.0.push(st.1),
                            Seq::<u8>::empty(),
                        ));
                        assert(st.0.push(st.1).drop_last() =~= st.0);
                        assert(pairs_map(st.0.push(st.1)) == add_pair(
                            pairs_map(st.0),
                            st.1,
                        ));
                        assert(bytes@.subrange(i + 1, i + 1) =~= Seq::<u8>::empty());
                    }
                    start = i + 1;
                } else {
                    proof {
                        assert(bytes@.subrange(start as int, i + 1) =~= bytes@.subrange(
                            start as int,
                            i as int,
                        ).push(bytes@[i as int]));
                    }
                }
                i += 1;
            }
            proof {
                assert(bytes@.take(bytes@.len() as int) =~= bytes@);
            }
            let seg = &bytes[start..bytes.len()];
            process_segment(&mut m, seg);
            proof {
                let st = split_state(bytes@, 0x26u8);
                assert(st.0.push(st.1).drop_last() =~= st.0);
            }
            m
        },
    }
}

/// Whether some candidate pair's raw key decodes to `k`.
pub open spec fn key_appears(segs: Seq<Seq<u8>>, k: Seq<char>) -> bool {
    exists|i: int| 0 <= i < segs.len() && seg_key(segs[i]) == Some(k)
}

/// The decoded values of the candidate pairs whose key decodes to `k`, in
/// left-to-right order.
pub open spec fn values_for(segs: Seq<Seq<u8>>, k: Seq<char>) -> Seq<Seq<char>>
    decreases segs.len(),
{
    if segs.len() == 0 {
        Seq::empty()
    } else if seg_key(segs.last()) == Some(k) {
        match seg_value(segs.last()) {
            Some(v) => values_for(segs.drop_last(), k).push(v),
            None => values_for(segs.drop_last(), k),
        }
    } else {
        values_for(segs.drop_last(), k)
    }
}

/// Law: a key is present in the folded mapping exactly when some candidate
/// pair contains `=` and its raw key decodes to that key.
pub proof fn lemma_key_membership(segs: Seq<Seq<u8>>, k: Seq<char>)
    ensures
        pairs_map(segs).dom().contains(k) <==> key_appears(segs, k),
    decreases segs.len(),
{
    if segs.len() > 0 {
        let st = segs.drop_last();
        let l = segs.last();
        lemma_key_membership(st, k);
        if seg_key(l) == Some(k) {
            assert(seg_key(segs[segs.len() - 1]) == Some(k));
            assert(key_appears(segs, k));
        } else {
            if key_appears(segs, k) {
                let i = choose|i: int| 0 <= i < segs.len() && seg_key(segs[i]) == Some(k);
                assert(seg_key(st[i]) == Some(k));
                assert(key_appears(st, k));
            }
            if key_appears(st, k) {
                let i = choose|i: int| 0 <= i < st.len() && seg_key(st[i]) == Some(k);
                assert(seg_key(segs[i]) == Some(k));
                assert(key_appears(segs, k));
            }
        }
    }
}

/// Law: the folded mapping's value sequence for a key lists, left to right,
/// the decoded values of exactly those candidate pairs whose key decodes to
/// it; in particular its length is the number of such pairs whose value also
/// decoded.
pub proof fn lemma_values_in_order(segs: Seq<Seq<u8>>, k: Seq<char>)
    ensures
        pairs_map(segs).dom().contains(k) ==> pairs_map(segs)[k] == values_for(segs, k),
        !pairs_map(segs).dom().contains(k) ==> values_for(segs, k) == Seq::<Seq<char>>::empty(),
    decreases segs.len(),
{
    lemma_key_membership(segs, k);
    if segs.len() > 0 {
        let st = segs.drop_last();
        let l = segs.last();
        lemma_values_in_order(st, k);
        lemma_key_membership(st, k);
        if seg_key(l) == Some(k) {
            assert(pairs_map(segs) == map_push(pairs_map(st), k, seg_value(l)));
        }
    }
}

/// The number of candidate pairs whose key decodes to `k` and whose value
/// also decodes.
pub open spec fn decoded_pair_count(segs: Seq<Seq<u8>>, k: Seq<char>) -> int
    decreases segs.len(),
{
    if segs.len() == 0 {
        0
    } else {
        decoded_pair_count(segs.drop_last(), k) + (if seg_key(segs.last()) == Some(k)
            && seg_value(segs.last()) is Some {
            1int
        } else {
            0int
        })
    }
}

/// Law: a key's value sequence is exactly as long as the number of candidate
/// pairs whose key decodes to it and whose value also decodes.
pub proof fn lemma_value_count(segs: Seq<Seq<u8>>, k: Seq<char>)
    ensures
        values_for(segs, k).len() == decoded_pair_count(segs, k),
    decreases segs.len(),
{
    if segs.len() > 0 {
        lemma_value_count(segs.drop_last(), k);
    }
}

/// Law: an absent query string denotes the empty mapping: no key is present
/// in it.
pub proof fn lemma_split_none_has_no_keys(k: Seq<char>)
    ensures
        !split_spec(None).dom().contains(k),
{
}

/// Law: membership and value order for a whole raw query string, over its
/// `&`-separated candidate pairs.
pub proof fn lemma_split_characterization(raw: Seq<u8>, k: Seq<char>)
    ensures
        split_bytes_spec(raw).dom().contains(k) <==> key_appears(
            split_segments(raw, 0x26u8),
            k,
        ),
        split_bytes_spec(raw).dom().contains(k) ==> split_bytes_spec(raw)[k] == values_for(
            split_segments(raw, 0x26u8),
            k,
        ),
{
    lemma_key_membership(split_segments(raw, 0x26u8), k);
    lemma_values_in_order(split_segments(raw, 0x26u8), k);
}

} // verus!
