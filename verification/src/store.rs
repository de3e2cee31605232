//! An ordered key-value store of persisted metadata records: one singleton
//! playlist record plus one record per entry slot, keyed by record name.
//!
//! Discovery follows a lexicographic pattern scan: record names matching a
//! fixed prefix/suffix pattern are collected and processed in sorted name
//! order, which tolerates sparse slot indices. Entry records are written once
//! and never overwritten; the playlist record is always overwritten.
//!
//! The store itself is an in-memory value; a filesystem backend loads a
//! directory listing into it and persists what it reports written.

use vstd::multiset::Multiset;
use vstd::prelude::*;

use crate::error::{Error, ErrorKind};
use crate::text::{
    lemma_padded5_value,
    lemma_str_le_trans,
    lemma_str_lt_total,
    push_decimal_padded5,
    spec_decimal_padded5,
    spec_ends_with,
    spec_starts_with,
    spec_str_le,
    str_ends_with,
    str_eq,
    str_lt,
    str_starts_with,
};

verus! {

broadcast use
    vstd::seq_lib::group_to_multiset_ensures,
    vstd::multiset::group_multiset_axioms,
;

/// The name under which the single playlist record is stored.
pub fn playlist_record_name() -> (r: String)
    ensures
        r@ == "playlist-meta.feedme"@,
{
    "playlist-meta.feedme".to_owned()
}

/// The record name for the entry at the given slot index: the slot rendered in
/// decimal, zero-padded to five digits, between the fixed prefix and suffix.
pub open spec fn spec_entry_slot_name(slot: int) -> Seq<char> {
    "playlist-entry"@ + spec_decimal_padded5(slot) + ".feedme"@
}

/// Renders the record name for the entry at the given slot index.
pub fn entry_slot_name(slot: u64) -> (r: String)
    ensures
        r@ == spec_entry_slot_name(slot as int),
{
    let mut out = "playlist-entry".to_owned();
    push_decimal_padded5(&mut out, slot);
    out.append(".feedme");
    proof {
        assert(out@ =~= spec_entry_slot_name(slot as int));
    }
    out
}

/// Whether a record name matches the entry discovery pattern.
pub open spec fn spec_is_entry_name(name: Seq<char>) -> bool {
    spec_starts_with(name, "playlist-entry"@) && spec_ends_with(name, ".feedme"@)
}

/// Whether the given filename matches the entry discovery pattern.
pub fn is_entry_record_name(name: &str) -> (r: bool)
    ensures
        r == spec_is_entry_name(name@),
{
    str_starts_with(name, "playlist-entry") && str_ends_with(name, ".feedme")
}

/// Every slot name matches the discovery pattern.
pub proof fn lemma_slot_name_is_entry_name(slot: int)
    ensures
        spec_is_entry_name(spec_entry_slot_name(slot)),
{
    reveal_strlit("playlist-entry");
    reveal_strlit(".feedme");
    let n = spec_entry_slot_name(slot);
    assert(n.subrange(0, 14) =~= "playlist-entry"@);
    assert(n.subrange(n.len() - 7, n.len() as int) =~= ".feedme"@);
}

/// Distinct slot indices get distinct record names.
pub proof fn lemma_slot_name_injective(i: int, j: int)
    requires
        0 <= i,
        0 <= j,
        spec_entry_slot_name(i) == spec_entry_slot_name(j),
    ensures
        i == j,
{
    let a = spec_decimal_padded5(i);
    let b = spec_decimal_padded5(j);
    let pa = "playlist-entry"@ + a;
    let pb = "playlist-entry"@ + b;
    let ni = pa + ".feedme"@;
    let nj = pb + ".feedme"@;
    assert(ni == spec_entry_slot_name(i));
    assert(nj == spec_entry_slot_name(j));
    assert(a.len() == b.len());
    assert forall|t: int| 0 <= t < a.len() implies a[t] == b[t] by {
        let p = "playlist-entry"@.len() as int;
        assert(ni[p + t] == pa[p + t]);
        assert(pa[p + t] == a[t]);
        assert(nj[p + t] == pb[p + t]);
        assert(pb[p + t] == b[t]);
    }
    assert(a =~= b);
    lemma_padded5_value(i);
    lemma_padded5_value(j);
}

/// Whether some record in `s` carries the given name.
pub open spec fn spec_has_name(s: Seq<(String, Vec<u8>)>, name: Seq<char>) -> bool {
    exists|i: int| 0 <= i < s.len() && (#[trigger] s[i]).0@ == name
}

/// Whether some record in `s` carries the given name and bytes.
pub open spec fn spec_has_record(s: Seq<(String, Vec<u8>)>, name: Seq<char>, record: Seq<u8>) -> bool {
    exists|i: int| 0 <= i < s.len() && (#[trigger] s[i]).0@ == name && s[i].1@ == record
}

/// Whether the records of `s` stand in non-decreasing name order.
pub open spec fn records_sorted(s: Seq<(String, Vec<u8>)>) -> bool {
    forall|i: int, j: int|
        0 <= i < j < s.len() ==> spec_str_le((#[trigger] s[i]).0@, (#[trigger] s[j]).0@)
}

/// The record store: the singleton playlist record and the entry records.
pub struct MetadataStore {
    /// The single playlist record, if present.
    playlist: Option<Vec<u8>>,
    /// The entry records as (name, bytes) pairs, in insertion order.
    entries: Vec<(String, Vec<u8>)>,
}

impl MetadataStore {
    /// The playlist record.
    pub closed spec fn spec_playlist(self) -> Option<Vec<u8>> {
        self.playlist
    }

    /// The entry records in insertion order.
    pub closed spec fn spec_entries(self) -> Seq<(String, Vec<u8>)> {
        self.entries@
    }

    /// Well-formed: entry names are distinct and match the discovery pattern.
    pub open spec fn wf(self) -> bool {
        &&& forall|i: int, j: int|
            0 <= i < j < self.spec_entries().len() ==> (#[trigger] self.spec_entries()[i]).0@ != (
            #[trigger] self.spec_entries()[j]).0@
        &&& forall|i: int|
            0 <= i < self.spec_entries().len() ==> spec_is_entry_name(
                (#[trigger] self.spec_entries()[i]).0@,
            )
    }

    /// Creates an empty store.
    pub fn new() -> (r: Self)
        ensures
            r.wf(),
            r.spec_playlist() is None,
            r.spec_entries() == Seq::<(String, Vec<u8>)>::empty(),
    {
        Self { playlist: None, entries: Vec::new() }
    }

    /// Whether an entry record with the given name is present.
    pub fn contains_entry(&self, name: &str) -> (r: bool)
        ensures
            r == spec_has_name(self.spec_entries(), name@),
    {
        let mut i: usize = 0;
        while i < self.entries.len()
            invariant
                i <= self.entries@.len(),
                forall|j: int| 0 <= j < i ==> (#[trigger] self.entries@[j]).0@ != name@,
            decreases self.entries@.len() - i,
        {
            if str_eq(self.entries[i].0.as_str(), name) {
                proof {
                    assert(0 <= i < self.entries@.len() && self.entries@[i as int].0@ == name@);
                }
                return true;
            }
            i = i + 1;
        }
        false
    }

    /// Overwrites the single playlist record; rebuilding a playlist is always
    /// allowed.
    pub fn write_playlist(&mut self, record: Vec<u8>)
        ensures
            final(self).spec_playlist() == Some(record),
            final(self).spec_entries() == old(self).spec_entries(),
    {
        self.playlist = Some(record);
    }

    /// Writes the record for `slot` once. If the slot already holds a record,
    /// the store is left exactly as it was and nothing is reported written:
    /// re-processing an occupied slot is a no-op, not an error.
    pub fn write_entry(&mut self, slot: u64, record: Vec<u8>) -> (written: bool)
        requires
            old(self).wf(),
        ensures
            final(self).wf(),
            final(self).spec_playlist() == old(self).spec_playlist(),
            written == !spec_has_name(old(self).spec_entries(), spec_entry_slot_name(slot as int)),
            !written ==> final(self).spec_entries() == old(self).spec_entries(),
            written ==> {
                &&& final(self).spec_entries().len() == old(self).spec_entries().len() + 1
                &&& final(self).spec_entries().subrange(
                    0,
                    old(self).spec_entries().len() as int,
                ) == old(self).spec_entries()
                &&& final(self).spec_entries().last().0@ == spec_entry_slot_name(slot as int)
                &&& final(self).spec_entries().last().1 == record
            },
    {
        let name = entry_slot_name(slot);
        if self.contains_entry(name.as_str()) {
            return false;
        }
        proof {
            lemma_slot_name_is_entry_name(slot as int);
        }
        self.entries.push((name, record));
        proof {
            assert(self.entries@.subrange(0, old(self).spec_entries().len() as int)
                =~= old(self).spec_entries());
        }
        true
    }

    /// Routes one record from a directory listing into the store: the playlist
    /// record by its fixed name, entry records by the discovery pattern (first
    /// occurrence wins), anything else is ignored.
    pub fn insert_record(&mut self, name: String, record: Vec<u8>)
        requires
            old(self).wf(),
        ensures
            final(self).wf(),
            name@ == "playlist-meta.feedme"@ ==> {
                &&& final(self).spec_playlist() == Some(record)
                &&& final(self).spec_entries() == old(self).spec_entries()
            },
            name@ != "playlist-meta.feedme"@ ==> final(self).spec_playlist() == old(
                self,
            ).spec_playlist(),
            (name@ != "playlist-meta.feedme"@ && spec_is_entry_name(name@) && !spec_has_name(
                old(self).spec_entries(),
                name@,
            )) ==> {
                &&& final(self).spec_entries().len() == old(self).spec_entries().len() + 1
                &&& final(self).spec_entries().subrange(
                    0,
                    old(self).spec_entries().len() as int,
                ) == old(self).spec_entries()
                &&& final(self).spec_entries().last().0 == name
                &&& final(self).spec_entries().last().1 == record
            },
            (name@ != "playlist-meta.feedme"@ && !(spec_is_entry_name(name@) && !spec_has_name(
                old(self).spec_entries(),
                name@,
            ))) ==> final(self).spec_entries() == old(self).spec_entries(),
    {
        if str_eq(name.as_str(), "playlist-meta.feedme") {
            self.playlist = Some(record);
            return;
        }
        if is_entry_record_name(name.as_str()) && !self.contains_entry(name.as_str()) {
            self.entries.push((name, record));
            proof {
                assert(self.entries@.subrange(0, old(self).spec_entries().len() as int)
                    =~= old(self).spec_entries());
            }
        }
    }

    /// Batch-processes prepared records in the given order: the record at
    /// position `i` is written to slot `i` once (an occupied slot keeps its
    /// existing record, without an error), and the playlist record is then
    /// written, overwriting any previous one. `written[i]` reports whether
    /// slot `i` was free.
    pub fn batch_process(&mut self, playlist_record: Vec<u8>, entry_records: Vec<Vec<u8>>) -> (written: Vec<bool>)
        requires
            old(self).wf(),
        ensures
            final(self).wf(),
            final(self).spec_playlist() == Some(playlist_record),
            written@.len() == entry_records@.len(),
            final(self).spec_entries().subrange(0, old(self).spec_entries().len() as int) == old(
                self,
            ).spec_entries(),
            forall|i: int|
                0 <= i < entry_records@.len() ==> written@[i] == !spec_has_name(
                    old(self).spec_entries(),
                    spec_entry_slot_name(i),
                ),
            forall|i: int|
                0 <= i < entry_records@.len() ==> spec_has_name(
                    final(self).spec_entries(),
                    spec_entry_slot_name(i),
                ),
            forall|i: int|
                0 <= i < entry_records@.len() && written@[i] ==> spec_has_record(
                    final(self).spec_entries(),
                    spec_entry_slot_name(i),
                    (#[trigger] entry_records@[i])@,
                ),
    {
        let ghost orig = self.spec_entries();
        let ghost recs = entry_records@;
        let mut rest = entry_records;
        let mut written: Vec<bool> = Vec::new();
        let total = rest.len();
        let mut i: usize = 0;
        proof {
            assert(recs.skip(0) =~= recs);
            assert(self.spec_entries().subrange(0, orig.len() as int) =~= orig);
        }
        while i < total
            invariant
                self.wf(),
                i <= total,
                total == recs.len(),
                rest@ == recs.skip(i as int),
                written@.len() == i,
                self.spec_playlist() == old(self).spec_playlist(),
                orig == old(self).spec_entries(),
                orig.len() <= self.spec_entries().len(),
                self.spec_entries().subrange(0, orig.len() as int) == orig,
                forall|k: int|
                    0 <= k < i ==> written@[k] == !spec_has_name(orig, spec_entry_slot_name(k)),
                forall|k: int|
                    0 <= k < i ==> spec_has_name(self.spec_entries(), spec_entry_slot_name(k)),
                forall|k: int|
                    0 <= k < i && written@[k] ==> spec_has_record(
                        self.spec_entries(),
                        spec_entry_slot_name(k),
                        recs[k]@,
                    ),
                forall|j: int|
                    orig.len() <= j < self.spec_entries().len() ==> (exists|k: int|
                        0 <= k < i && (#[trigger] self.spec_entries()[j]).0@
                            == spec_entry_slot_name(k)),
            decreases total - i,
        {
            let ghost pre = self.spec_entries();
            let record = rest.remove(0);
            proof {
                assert(record == recs.skip(i as int)[0]);
                assert(recs.skip(i as int)[0] == recs[i as int]);
                assert(rest@ =~= recs.skip(i + 1));
            }
            proof {
                let slot = spec_entry_slot_name(i as int);
                if spec_has_name(orig, slot) {
                    let k = choose|k: int| 0 <= k < orig.len() && (#[trigger] orig[k]).0@ == slot;
                    assert(pre.subrange(0, orig.len() as int)[k] == pre[k]);
                    assert(pre[k].0@ == slot);
                    assert(spec_has_name(pre, slot));
                } else if spec_has_name(pre, slot) {
                    let j = choose|j: int| 0 <= j < pre.len() && (#[trigger] pre[j]).0@ == slot;
                    if j < orig.len() {
                        assert(pre.subrange(0, orig.len() as int)[j] == pre[j]);
                        assert(orig[j].0@ == slot);
                        assert(false);
                    } else {
                        let k = choose|k: int| 0 <= k < i && pre[j].0@ == spec_entry_slot_name(k);
                        lemma_slot_name_injective(k, i as int);
                        assert(false);
                    }
                }
                assert(spec_has_name(pre, slot) == spec_has_name(orig, slot));
            }
            let w = self.write_entry(i as u64, record);
            written.push(w);
            proof {
                let cur = self.spec_entries();
                assert forall|t: int| 0 <= t < orig.len() implies cur.subrange(
                    0,
                    orig.len() as int,
                )[t] == orig[t] by {
                    assert(cur.subrange(0, pre.len() as int)[t] == cur[t]);
                    assert(pre.subrange(0, orig.len() as int)[t] == pre[t]);
                }
                assert(cur.subrange(0, orig.len() as int) =~= orig);
                assert forall|k: int|
                    0 <= k < i && spec_has_name(pre, spec_entry_slot_name(k)) implies spec_has_name(
                    cur,
                    spec_entry_slot_name(k),
                ) by {
                    let j = choose|j: int| 0 <= j < pre.len() && (#[trigger] pre[j]).0@
                        == spec_entry_slot_name(k);
                    assert(cur.subrange(0, pre.len() as int)[j] == cur[j]);
                    assert(cur[j].0@ == spec_entry_slot_name(k));
                }
                assert forall|k: int|
                    0 <= k < i && written@[k] && spec_has_record(
                        pre,
                        spec_entry_slot_name(k),
                        recs[k]@,
                    ) implies spec_has_record(cur, spec_entry_slot_name(k), recs[k]@) by {
                    let j = choose|j: int| 0 <= j < pre.len() && (#[trigger] pre[j]).0@
                        == spec_entry_slot_name(k) && pre[j].1@ == recs[k]@;
                    assert(cur.subrange(0, pre.len() as int)[j] == cur[j]);
                    assert(cur[j].0@ == spec_entry_slot_name(k) && cur[j].1@ == recs[k]@);
                }
                if w {
                    assert(cur.last().0@ == spec_entry_slot_name(i as int));
                    assert(cur.last().1@ == recs[i as int]@);
                    assert(spec_has_name(cur, spec_entry_slot_name(i as int)));
                    assert(spec_has_record(cur, spec_entry_slot_name(i as int), recs[i as int]@));
                } else {
                    assert(spec_has_name(orig, spec_entry_slot_name(i as int)));
                    assert(spec_has_name(cur, spec_entry_slot_name(i as int)));
                }
                assert forall|j: int|
                    orig.len() <= j < cur.len() implies (exists|k: int|
                        0 <= k < i + 1 && (#[trigger] cur[j]).0@ == spec_entry_slot_name(k)) by {
                    if j < pre.len() {
                        assert(cur.subrange(0, pre.len() as int)[j] == cur[j]);
                        assert(cur[j] == pre[j]);
                        let k = choose|k: int| 0 <= k < i && pre[j].0@ == spec_entry_slot_name(k);
                        assert(0 <= k < i + 1 && cur[j].0@ == spec_entry_slot_name(k));
                    } else {
                        assert(cur[j] == cur.last());
                        assert(cur[j].0@ == spec_entry_slot_name(i as int));
                    }
                }
            }
            i = i + 1;
        }
        self.write_playlist(playlist_record);
        written
    }

    /// Collects the playlist record and the entry records in sorted name
    /// order. Fails with a `NotFound` error when the playlist record is
    /// absent.
    pub fn collect(self) -> (r: Result<(Vec<u8>, Vec<(String, Vec<u8>)>), Error>)
        ensures
            r is Ok <==> self.spec_playlist() is Some,
            r matches Ok(p) ==> {
                &&& Some(p.0) == self.spec_playlist()
                &&& records_sorted(p.1@)
                &&& p.1@.to_multiset() == self.spec_entries().to_multiset()
            },
            r matches Err(e) ==> e.kind == ErrorKind::NotFound,
    {
        let MetadataStore { playlist, entries } = self;
        match playlist {
            None => Err(Error::new(ErrorKind::NotFound, "missing playlist record".to_owned())),
            Some(p) => {
                let sorted = sort_records(entries);
                Ok((p, sorted))
            },
        }
    }
}

/// Sorts records by name in lexicographic order; the result holds exactly the
/// given records.
fn sort_records(input: Vec<(String, Vec<u8>)>) -> (out: Vec<(String, Vec<u8>)>)
    ensures
        records_sorted(out@),
        out@.to_multiset() == input@.to_multiset(),
{
    let ghost orig = input@;
    let mut rest = input;
    let mut out: Vec<(String, Vec<u8>)> = Vec::new();
    proof {
        assert(out@.to_multiset().add(rest@.to_multiset()) =~= orig.to_multiset());
    }
    while rest.len() > 0
        invariant
            out@.to_multiset().add(rest@.to_multiset()) == orig.to_multiset(),
            records_sorted(out@),
            forall|k: int, i: int|
                0 <= k < out@.len() && 0 <= i < rest@.len() ==> spec_str_le(
                    (#[trigger] out@[k]).0@,
                    (#[trigger] rest@[i]).0@,
                ),
        decreases rest@.len(),
    {
        let mut min: usize = 0;
        let mut j: usize = 1;
        while j < rest.len()
            invariant
                0 < rest@.len(),
                min < j,
                j <= rest@.len(),
                forall|i: int|
                    0 <= i < j ==> spec_str_le(rest@[min as int].0@, (#[trigger] rest@[i]).0@),
            decreases rest@.len() - j,
        {
            if str_lt(rest[j].0.as_str(), rest[min].0.as_str()) {
                proof {
                    assert forall|i: int| 0 <= i < j implies spec_str_le(
                        rest@[j as int].0@,
                        rest@[i].0@,
                    ) by {
                        lemma_str_le_trans(rest@[j as int].0@, rest@[min as int].0@, rest@[i].0@);
                    }
                }
                min = j;
            } else {
                proof {
                    lemma_str_lt_total(rest@[j as int].0@, rest@[min as int].0@);
                }
            }
            j = j + 1;
        }
        let ghost pre_rest = rest@;
        let ghost pre_out = out@;
        let rec = rest.remove(min);
        out.push(rec);
        proof {
            pre_rest.remove_ensures(min as int);
            assert(pre_rest[min as int] == rec);
            assert(pre_rest.contains(rec));
            assert(pre_rest.to_multiset().count(rec) > 0);
            assert(out@.to_multiset() =~= pre_out.to_multiset().insert(rec));
            assert(rest@.to_multiset() =~= pre_rest.to_multiset().remove(rec));
            assert(out@.to_multiset().add(rest@.to_multiset()) =~= orig.to_multiset());
            assert forall|a: int, b: int| 0 <= a < b < out@.len() implies spec_str_le(
                out@[a].0@,
                out@[b].0@,
            ) by {
                if b == pre_out.len() {
                    assert(spec_str_le(pre_out[a].0@, pre_rest[min as int].0@));
                }
            }
            assert forall|k: int, i: int|
                0 <= k < out@.len() && 0 <= i < rest@.len() implies spec_str_le(
                out@[k].0@,
                rest@[i].0@,
            ) by {
                let witness = if i < min { pre_rest[i] } else { pre_rest[i + 1] };
                assert(rest@[i] == witness);
                if k < pre_out.len() {
                    assert(spec_str_le(pre_out[k].0@, witness.0@));
                } else {
                    assert(out@[k] == rec);
                    assert(spec_str_le(pre_rest[min as int].0@, witness.0@));
                }
            }
        }
    }
    proof {
        assert(rest@.to_multiset() =~= Multiset::<(String, Vec<u8>)>::empty());
        assert(out@.to_multiset() =~= orig.to_multiset());
    }
    out
}

} // verus!
