//! The directory B-tree traversal and the decoded directory listing.
//!
//! The table of contents names the root block of a B-tree whose keys are
//! filenames.  A node block starts with a pair count: zero marks a leaf
//! (a record count, then that many records), nonzero an internal node
//! (that many pairs of child block ID and separator record).  In-order
//! traversal — child first, then the separator — yields the records in
//! ascending filename order whenever the file keeps its keys sorted.
//!
//! The format gives no acyclicity guarantee, so the traversal carries a
//! depth budget of one more than the node count declared in the root
//! block; a deeper nesting can only be a cycle or a lying header and
//! fails with `RecursionLimit` instead of recursing without bound.
//!
//! Records for one filename fold into that name's attribute list; a tag
//! seen twice for one name is last-write-wins, and first appearance
//! decides the order of both entries and attributes.

use crate::allocator::{spec_block_range, Allocator};
use crate::cursor::{spec_expect4, spec_u32};
use crate::record::{read_record, spec_record, Record, RecordModel, RecordValue, ValueModel};
use crate::{BadDataReason, Error};
use vstd::prelude::*;

verus! {

/// One directory entry: a filename and the attribute values decoded for
/// it, keyed by the four tag bytes packed big-endian.  Attributes keep
/// the order in which their tags first appeared.
#[derive(Debug, PartialEq, Eq)]
pub struct DirEntry {
    /// The file or directory name.
    pub name: String,
    /// The (tag, value) pairs for this name; each tag at most once.
    pub attrs: Vec<(u32, RecordValue)>,
}

/// The mathematical shape of a `DirEntry`.
pub struct EntryModel {
    pub name: Seq<char>,
    pub attrs: Seq<(u32, ValueModel)>,
}

impl DeepView for DirEntry {
    type V = EntryModel;

    open spec fn deep_view(&self) -> EntryModel {
        EntryModel { name: self.name@, attrs: self.attrs.deep_view() }
    }
}

/// `attrs` with the value under `tag` replaced in place, or appended if
/// the tag is new: last write wins, first appearance fixes the order.
pub open spec fn spec_upsert_attrs(
    attrs: Seq<(u32, ValueModel)>,
    tag: u32,
    v: ValueModel,
) -> Seq<(u32, ValueModel)>
    decreases attrs.len(),
{
    if attrs.len() == 0 {
        seq![(tag, v)]
    } else if attrs[0].0 == tag {
        seq![(tag, v)] + attrs.skip(1)
    } else {
        seq![attrs[0]] + spec_upsert_attrs(attrs.skip(1), tag, v)
    }
}

/// `entries` with record `r` folded in: the value lands in the entry
/// whose name matches, or in a fresh entry at the end.
pub open spec fn spec_upsert(entries: Seq<EntryModel>, r: RecordModel) -> Seq<EntryModel>
    decreases entries.len(),
{
    if entries.len() == 0 {
        seq![EntryModel { name: r.name, attrs: seq![(r.tag, r.value)] }]
    } else if entries[0].name == r.name {
        seq![
            EntryModel {
                name: entries[0].name,
                attrs: spec_upsert_attrs(entries[0].attrs, r.tag, r.value),
            },
        ] + entries.skip(1)
    } else {
        seq![entries[0]] + spec_upsert(entries.skip(1), r)
    }
}

/// The record stream folded into directory entries, in order.
pub open spec fn spec_fold(rs: Seq<RecordModel>) -> Seq<EntryModel>
    decreases rs.len(),
{
    if rs.len() == 0 {
        Seq::empty()
    } else {
        spec_upsert(spec_fold(rs.drop_last()), rs.last())
    }
}

/// Each tag occurs at most once in an attribute list.
pub open spec fn attrs_distinct(attrs: Seq<(u32, ValueModel)>) -> bool {
    forall|i: int, j: int| 0 <= i < j < attrs.len() ==> attrs[i].0 != attrs[j].0
}

/// Some pair in `attrs` carries the tag `t`.
pub open spec fn has_tag(attrs: Seq<(u32, ValueModel)>, t: u32) -> bool {
    exists|i: int| 0 <= i < attrs.len() && (#[trigger] attrs[i]).0 == t
}

/// Each name occurs at most once among the entries, and every entry's
/// attribute list keeps its tags distinct: the fold output is a map of
/// maps.
pub open spec fn entries_distinct(entries: Seq<EntryModel>) -> bool {
    &&& forall|i: int, j: int|
        0 <= i < j < entries.len() ==> entries[i].name != entries[j].name
    &&& forall|i: int| 0 <= i < entries.len() ==> attrs_distinct(#[trigger] entries[i].attrs)
}

/// Some entry carries the name `n`.
pub open spec fn has_name(entries: Seq<EntryModel>, n: Seq<char>) -> bool {
    exists|i: int| 0 <= i < entries.len() && (#[trigger] entries[i]).name == n
}

/// Upserting under `tag` adds that tag and no other.
proof fn lemma_upsert_attrs_tags(attrs: Seq<(u32, ValueModel)>, tag: u32, v: ValueModel, t: u32)
    ensures
        has_tag(spec_upsert_attrs(attrs, tag, v), t) <==> (has_tag(attrs, t) || t == tag),
    decreases attrs.len(),
{
    let up = spec_upsert_attrs(attrs, tag, v);
    if attrs.len() == 0 {
        assert(up[0].0 == tag);
        assert(has_tag(up, t) ==> t == tag);
    } else if attrs[0].0 == tag {
        assert(forall|i: int| 0 <= i < attrs.len() - 1 ==> (#[trigger] up[i + 1]) == attrs[i + 1]);
        assert(has_tag(attrs, t) || t == tag ==> has_tag(up, t)) by {
            if t == tag {
                assert(up[0].0 == t);
            } else if has_tag(attrs, t) {
                let w = choose|i: int| 0 <= i < attrs.len() && (#[trigger] attrs[i]).0 == t;
                assert(up[w].0 == t);
            }
        }
        assert(has_tag(up, t) ==> has_tag(attrs, t) || t == tag) by {
            if has_tag(up, t) {
                let w = choose|i: int| 0 <= i < up.len() && (#[trigger] up[i]).0 == t;
                if w > 0 {
                    assert(attrs[w].0 == t);
                }
            }
        }
    } else {
        lemma_upsert_attrs_tags(attrs.skip(1), tag, v, t);
        assert(forall|i: int|
            0 <= i < spec_upsert_attrs(attrs.skip(1), tag, v).len() ==> (#[trigger] up[i + 1])
                == spec_upsert_attrs(attrs.skip(1), tag, v)[i]);
        assert(has_tag(attrs, t) || t == tag ==> has_tag(up, t)) by {
            if attrs[0].0 == t {
                assert(up[0].0 == t);
            } else if has_tag(attrs, t) {
                let w = choose|i: int| 0 <= i < attrs.len() && (#[trigger] attrs[i]).0 == t;
                assert(attrs.skip(1)[w - 1].0 == t);
                assert(has_tag(attrs.skip(1), t));
                let u = choose|i: int|
                    0 <= i < spec_upsert_attrs(attrs.skip(1), tag, v).len()
                        && (#[trigger] spec_upsert_attrs(attrs.skip(1), tag, v)[i]).0 == t;
                assert(up[u + 1].0 == t);
            } else if t == tag {
                let u = choose|i: int|
                    0 <= i < spec_upsert_attrs(attrs.skip(1), tag, v).len()
                        && (#[trigger] spec_upsert_attrs(attrs.skip(1), tag, v)[i]).0 == t;
                assert(up[u + 1].0 == t);
            }
        }
        assert(has_tag(up, t) ==> has_tag(attrs, t) || t == tag) by {
            if has_tag(up, t) {
                let w = choose|i: int| 0 <= i < up.len() && (#[trigger] up[i]).0 == t;
                if w == 0 {
                    assert(attrs[0].0 == t);
                } else {
                    assert(spec_upsert_attrs(attrs.skip(1), tag, v)[w - 1].0 == t);
                    if has_tag(attrs.skip(1), t) {
                        let u = choose|i: int|
                            0 <= i < attrs.skip(1).len() && (#[trigger] attrs.skip(1)[i]).0 == t;
                        assert(attrs[u + 1].0 == t);
                    }
                }
            }
        }
    }
}

/// Upserting keeps the tags of an attribute list distinct.
proof fn lemma_upsert_attrs_distinct(attrs: Seq<(u32, ValueModel)>, tag: u32, v: ValueModel)
    requires
        attrs_distinct(attrs),
    ensures
        attrs_distinct(spec_upsert_attrs(attrs, tag, v)),
    decreases attrs.len(),
{
    let up = spec_upsert_attrs(attrs, tag, v);
    if attrs.len() == 0 {
    } else if attrs[0].0 == tag {
        assert(forall|i: int| 0 <= i < attrs.len() - 1 ==> (#[trigger] up[i + 1]) == attrs[i + 1]);
        assert forall|i: int, j: int| 0 <= i < j < up.len() implies up[i].0 != up[j].0 by {
            if i == 0 {
                assert(up[j] == attrs[j]);
                assert(attrs[0].0 != attrs[j].0);
            } else {
                assert(up[i] == attrs[i] && up[j] == attrs[j]);
            }
        }
    } else {
        assert(forall|i: int, j: int|
            0 <= i < j < attrs.skip(1).len() ==> attrs.skip(1)[i].0 != attrs.skip(1)[j].0);
        lemma_upsert_attrs_distinct(attrs.skip(1), tag, v);
        let rest = spec_upsert_attrs(attrs.skip(1), tag, v);
        assert(forall|i: int| 0 <= i < rest.len() ==> (#[trigger] up[i + 1]) == rest[i]);
        assert forall|i: int, j: int| 0 <= i < j < up.len() implies up[i].0 != up[j].0 by {
            if i == 0 {
                lemma_upsert_attrs_tags(attrs.skip(1), tag, v, attrs[0].0);
                assert(up[j] == rest[j - 1]);
                if up[j].0 == attrs[0].0 {
                    assert(has_tag(rest, attrs[0].0)) by {
                        assert(rest[j - 1].0 == attrs[0].0);
                    }
                    assert(has_tag(attrs.skip(1), attrs[0].0) || attrs[0].0 == tag);
                    if has_tag(attrs.skip(1), attrs[0].0) {
                        let w = choose|k: int|
                            0 <= k < attrs.skip(1).len() && (#[trigger] attrs.skip(1)[k]).0
                                == attrs[0].0;
                        assert(attrs[w + 1].0 == attrs[0].0);
                    }
                }
            } else {
                assert(up[i] == rest[i - 1] && up[j] == rest[j - 1]);
            }
        }
    }
}

/// Upserting a record adds its name and no other.
proof fn lemma_upsert_names(entries: Seq<EntryModel>, r: RecordModel, n: Seq<char>)
    ensures
        has_name(spec_upsert(entries, r), n) <==> (has_name(entries, n) || n == r.name),
    decreases entries.len(),
{
    let up = spec_upsert(entries, r);
    if entries.len() == 0 {
        assert(up[0].name == r.name);
        assert(has_name(up, n) ==> n == r.name);
    } else if entries[0].name == r.name {
        assert(forall|i: int| 0 <= i < entries.len() - 1 ==> (#[trigger] up[i + 1]) == entries[i + 1]);
        assert(has_name(entries, n) || n == r.name ==> has_name(up, n)) by {
            if n == r.name {
                assert(up[0].name == n);
            } else if has_name(entries, n) {
                let w = choose|i: int|
                    0 <= i < entries.len() && (#[trigger] entries[i]).name == n;
                assert(up[w].name == n);
            }
        }
        assert(has_name(up, n) ==> has_name(entries, n) || n == r.name) by {
            if has_name(up, n) {
                let w = choose|i: int| 0 <= i < up.len() && (#[trigger] up[i]).name == n;
                if w > 0 {
                    assert(entries[w].name == n);
                }
            }
        }
    } else {
        lemma_upsert_names(entries.skip(1), r, n);
        let rest = spec_upsert(entries.skip(1), r);
        assert(forall|i: int| 0 <= i < rest.len() ==> (#[trigger] up[i + 1]) == rest[i]);
        assert(has_name(entries, n) || n == r.name ==> has_name(up, n)) by {
            if entries[0].name == n {
                assert(up[0].name == n);
            } else if has_name(entries, n) {
                let w = choose|i: int|
                    0 <= i < entries.len() && (#[trigger] entries[i]).name == n;
                assert(entries.skip(1)[w - 1].name == n);
                assert(has_name(entries.skip(1), n));
                let u = choose|i: int| 0 <= i < rest.len() && (#[trigger] rest[i]).name == n;
                assert(up[u + 1].name == n);
            } else if n == r.name {
                let u = choose|i: int| 0 <= i < rest.len() && (#[trigger] rest[i]).name == n;
                assert(up[u + 1].name == n);
            }
        }
        assert(has_name(up, n) ==> has_name(entries, n) || n == r.name) by {
            if has_name(up, n) {
                let w = choose|i: int| 0 <= i < up.len() && (#[trigger] up[i]).name == n;
                if w == 0 {
                    assert(entries[0].name == n);
                } else {
                    assert(rest[w - 1].name == n);
                    if has_name(entries.skip(1), n) {
                        let u = choose|i: int|
                            0 <= i < entries.skip(1).len() && (#[trigger] entries.skip(1)[i]).name
                                == n;
                        assert(entries[u + 1].name == n);
                    }
                }
            }
        }
    }
}

/// Folding one record in keeps names unique and attribute tags distinct.
proof fn lemma_upsert_distinct(entries: Seq<EntryModel>, r: RecordModel)
    requires
        entries_distinct(entries),
    ensures
        entries_distinct(spec_upsert(entries, r)),
    decreases entries.len(),
{
    let up = spec_upsert(entries, r);
    if entries.len() == 0 {
        assert(attrs_distinct(up[0].attrs));
    } else if entries[0].name == r.name {
        assert(forall|i: int| 0 <= i < entries.len() - 1 ==> (#[trigger] up[i + 1]) == entries[i + 1]);
        lemma_upsert_attrs_distinct(entries[0].attrs, r.tag, r.value);
        assert forall|i: int, j: int| 0 <= i < j < up.len() implies up[i].name != up[j].name by {
            if i == 0 {
                assert(up[j] == entries[j]);
                assert(entries[0].name != entries[j].name);
            } else {
                assert(up[i] == entries[i] && up[j] == entries[j]);
            }
        }
    } else {
        assert(forall|i: int, j: int|
            0 <= i < j < entries.skip(1).len() ==> entries.skip(1)[i].name != entries.skip(
                1,
            )[j].name);
        assert(forall|i: int|
            0 <= i < entries.skip(1).len() ==> attrs_distinct(
                #[trigger] entries.skip(1)[i].attrs,
            ));
        lemma_upsert_distinct(entries.skip(1), r);
        let rest = spec_upsert(entries.skip(1), r);
        assert(forall|i: int| 0 <= i < rest.len() ==> (#[trigger] up[i + 1]) == rest[i]);
        assert forall|i: int, j: int| 0 <= i < j < up.len() implies up[i].name != up[j].name by {
            if i == 0 {
                lemma_upsert_names(entries.skip(1), r, entries[0].name);
                assert(up[j] == rest[j - 1]);
                if up[j].name == entries[0].name {
                    assert(has_name(rest, entries[0].name)) by {
                        assert(rest[j - 1].name == entries[0].name);
                    }
                    assert(has_name(entries.skip(1), entries[0].name) || entries[0].name
                        == r.name);
                    if has_name(entries.skip(1), entries[0].name) {
                        let w = choose|k: int|
                            0 <= k < entries.skip(1).len() && (#[trigger] entries.skip(1)[k]).name
                                == entries[0].name;
                        assert(entries[w + 1].name == entries[0].name);
                    }
                }
            } else {
                assert(up[i] == rest[i - 1] && up[j] == rest[j - 1]);
            }
        }
    }
}

/// The decoded listing is a map of maps: however the records run, the
/// fold leaves each filename in one entry and each tag at most once in
/// that entry's attribute list.
pub proof fn lemma_fold_distinct(rs: Seq<RecordModel>)
    ensures
        entries_distinct(spec_fold(rs)),
    decreases rs.len(),
{
    if rs.len() == 0 {
    } else {
        lemma_fold_distinct(rs.drop_last());
        lemma_upsert_distinct(spec_fold(rs.drop_last()), rs.last());
    }
}

/// Replacing the first occurrence of `tag` is an in-place update.
proof fn lemma_upsert_attrs_found(attrs: Seq<(u32, ValueModel)>, tag: u32, v: ValueModel, j: int)
    requires
        0 <= j < attrs.len(),
        attrs[j].0 == tag,
        forall|t: int| 0 <= t < j ==> attrs[t].0 != tag,
    ensures
        spec_upsert_attrs(attrs, tag, v) == attrs.update(j, (tag, v)),
    decreases j,
{
    if j == 0 {
        assert(seq![(tag, v)] + attrs.skip(1) =~= attrs.update(0, (tag, v)));
    } else {
        assert(forall|t: int| 0 <= t < j - 1 ==> attrs.skip(1)[t].0 != tag);
        lemma_upsert_attrs_found(attrs.skip(1), tag, v, j - 1);
        assert(seq![attrs[0]] + attrs.skip(1).update(j - 1, (tag, v)) =~= attrs.update(
            j,
            (tag, v),
        ));
    }
}

/// A tag seen for the first time is appended at the end.
proof fn lemma_upsert_attrs_missing(attrs: Seq<(u32, ValueModel)>, tag: u32, v: ValueModel)
    requires
        forall|t: int| 0 <= t < attrs.len() ==> attrs[t].0 != tag,
    ensures
        spec_upsert_attrs(attrs, tag, v) == attrs.push((tag, v)),
    decreases attrs.len(),
{
    if attrs.len() == 0 {
        assert(seq![(tag, v)] =~= attrs.push((tag, v)));
    } else {
        assert(forall|t: int| 0 <= t < attrs.skip(1).len() ==> attrs.skip(1)[t].0 != tag);
        lemma_upsert_attrs_missing(attrs.skip(1), tag, v);
        assert(seq![attrs[0]] + attrs.skip(1).push((tag, v)) =~= attrs.push((tag, v)));
    }
}

/// Folding a record into the entry that already holds its name is an
/// in-place update of that entry.
proof fn lemma_upsert_found(entries: Seq<EntryModel>, r: RecordModel, i: int)
    requires
        0 <= i < entries.len(),
        entries[i].name == r.name,
        forall|t: int| 0 <= t < i ==> entries[t].name != r.name,
    ensures
        spec_upsert(entries, r) == entries.update(
            i,
            EntryModel {
                name: entries[i].name,
                attrs: spec_upsert_attrs(entries[i].attrs, r.tag, r.value),
            },
        ),
    decreases i,
{
    let upd = EntryModel {
        name: entries[i].name,
        attrs: spec_upsert_attrs(entries[i].attrs, r.tag, r.value),
    };
    if i == 0 {
        assert(seq![upd] + entries.skip(1) =~= entries.update(0, upd));
    } else {
        assert(forall|t: int| 0 <= t < i - 1 ==> entries.skip(1)[t].name != r.name);
        lemma_upsert_found(entries.skip(1), r, i - 1);
        assert(seq![entries[0]] + entries.skip(1).update(
            i - 1,
            EntryModel {
                name: entries.skip(1)[i - 1].name,
                attrs: spec_upsert_attrs(entries.skip(1)[i - 1].attrs, r.tag, r.value),
            },
        ) =~= entries.update(i, upd));
    }
}

/// A name seen for the first time gets a fresh entry at the end.
proof fn lemma_upsert_missing(entries: Seq<EntryModel>, r: RecordModel)
    requires
        forall|t: int| 0 <= t < entries.len() ==> entries[t].name != r.name,
    ensures
        spec_upsert(entries, r) == entries.push(
            EntryModel { name: r.name, attrs: seq![(r.tag, r.value)] },
        ),
    decreases entries.len(),
{
    let fresh = EntryModel { name: r.name, attrs: seq![(r.tag, r.value)] };
    if entries.len() == 0 {
        assert(seq![fresh] =~= entries.push(fresh));
    } else {
        assert(forall|t: int|
            0 <= t < entries.skip(1).len() ==> entries.skip(1)[t].name != r.name);
        lemma_upsert_missing(entries.skip(1), r);
        assert(seq![entries[0]] + entries.skip(1).push(fresh) =~= entries.push(fresh));
    }
}

/// Put `value` under `tag` in the attribute list: replace the first
/// occurrence of the tag in place, or append the pair.
#[verifier::loop_isolation(false)]
fn upsert_attr(attrs: &mut Vec<(u32, RecordValue)>, tag: u32, value: RecordValue)
    ensures
        final(attrs).deep_view() == spec_upsert_attrs(old(attrs).deep_view(), tag, value@),
{
    let ghost attrs0 = old(attrs).deep_view();
    let mut j: usize = 0;
    while j < attrs.len()
        invariant
            j <= attrs@.len(),
            *attrs == *old(attrs),
            forall|t: int| 0 <= t < j ==> attrs.deep_view()[t].0 != tag,
        decreases attrs@.len() - j,
    {
        if attrs[j].0 == tag {
            let slot = &mut attrs[j];
            *slot = (tag, value);
            proof {
                lemma_upsert_attrs_found(attrs0, tag, value@, j as int);
                assert(attrs.deep_view() =~= attrs0.update(j as int, (tag, value@)));
            }
            return;
        }
        j = j + 1;
    }
    attrs.push((tag, value));
    proof {
        lemma_upsert_attrs_missing(attrs0, tag, value@);
        assert(attrs.deep_view() =~= attrs0.push((tag, value@)));
    }
}

/// Fold one record into the entry list: into the entry that already
/// holds its name, or a fresh entry at the end.
#[verifier::loop_isolation(false)]
fn upsert_record(entries: &mut Vec<DirEntry>, rec: Record)
    ensures
        final(entries).deep_view() == spec_upsert(old(entries).deep_view(), rec@),
{
    let ghost entries0 = old(entries).deep_view();
    let ghost rm = rec@;
    let Record { name, tag, value } = rec;
    let mut i: usize = 0;
    while i < entries.len()
        invariant
            i <= entries@.len(),
            *entries == *old(entries),
            forall|t: int| 0 <= t < i ==> entries.deep_view()[t].name != name@,
        decreases entries@.len() - i,
    {
        if entries[i].name == name {
            let entry = &mut entries[i];
            upsert_attr(&mut entry.attrs, tag, value);
            proof {
                lemma_upsert_found(entries0, rm, i as int);
                assert(entries.deep_view() =~= entries0.update(
                    i as int,
                    EntryModel {
                        name: entries0[i as int].name,
                        attrs: spec_upsert_attrs(entries0[i as int].attrs, rm.tag, rm.value),
                    },
                ));
            }
            return;
        }
        i = i + 1;
    }
    let mut attrs: Vec<(u32, RecordValue)> = Vec::new();
    attrs.push((tag, value));
    entries.push(DirEntry { name, attrs });
    proof {
        lemma_upsert_missing(entries0, rm);
        assert(entries.deep_view()[entries0.len() as int].attrs =~= seq![(rm.tag, rm.value)]);
        assert(entries.deep_view() =~= entries0.push(
            EntryModel { name: rm.name, attrs: seq![(rm.tag, rm.value)] },
        ));
    }
}

/// Fold the in-order record stream into directory entries.
#[verifier::loop_isolation(false)]
fn fold_records(records: Vec<Record>) -> (r: Vec<DirEntry>)
    ensures
        r.deep_view() == spec_fold(records.deep_view()),
{
    let ghost all = records.deep_view();
    let mut entries: Vec<DirEntry> = Vec::new();
    let mut recs = records;
    let mut i: usize = 0;
    let total: usize = recs.len();
    proof {
        assert(all.take(0) =~= Seq::<RecordModel>::empty());
        assert(recs.deep_view() =~= all.skip(0));
        assert(all.len() == total as int);
    }
    while recs.len() > 0
        invariant
            all.len() <= usize::MAX,
            i + recs@.len() == all.len(),
            recs.deep_view() == all.skip(i as int),
            entries.deep_view() == spec_fold(all.take(i as int)),
        decreases recs@.len(),
    {
        let ghost recs_before = recs.deep_view();
        let rec = recs.remove(0);
        proof {
            assert(rec.deep_view() == all.skip(i as int)[0]);
        }
        upsert_record(&mut entries, rec);
        i = i + 1;
        proof {
            assert(recs.deep_view() =~= recs_before.skip(1));
            assert(recs_before.skip(1) =~= all.skip(i as int));
            assert(all.take(i as int).drop_last() =~= all.take(i as int - 1));
            assert(all.take(i as int).last() == all[i as int - 1]);
        }
    }
    proof {
        assert(all.take(all.len() as int) =~= all);
    }
    entries
}

/// The decoded directory: the counts from the B-tree's root block and
/// the accumulated name-to-attributes listing, in traversal order.
#[derive(Debug, PartialEq, Eq)]
pub struct Directory {
    /// The internal-node count declared in the root block.
    pub num_internals: u32,
    /// The record count declared in the root block.
    pub num_records: u32,
    /// The node count declared in the root block.
    pub num_nodes: u32,
    /// One entry per filename, each holding that name's attribute map.
    pub contents: Vec<DirEntry>,
}

/// The depth budget for the traversal: one more than the node count the
/// root block declares, so an honest tree always fits and a cyclic block
/// graph still runs out.
pub open spec fn spec_depth_budget(num_nodes: u32) -> u32 {
    if num_nodes == 0xFFFFFFFFu32 {
        0xFFFFFFFFu32
    } else {
        (num_nodes + 1) as u32
    }
}

/// The whole traversal: resolve the root block named by the table of
/// contents, read its counts and sentinel, then walk the tree.  On
/// success: (internal-node count, record count, node count) and the
/// in-order record stream.
pub open spec fn spec_traverse(d: Seq<u8>, offsets: Seq<u32>, dsdb: u32) -> Result<
    ((u32, u32, u32), Seq<RecordModel>),
    Error,
> {
    match spec_block_range(d.len() as int, offsets, dsdb) {
        Ok(se) => match spec_u32(d, se.1, se.0) {
            Ok((root_node, p)) => match spec_u32(d, se.1, p) {
                Ok((num_internals, p2)) => match spec_u32(d, se.1, p2) {
                    Ok((num_records, p3)) => match spec_u32(d, se.1, p3) {
                        Ok((num_nodes, p4)) => match spec_expect4(
                            d,
                            se.1,
                            p4,
                            TREE_SENTINEL,
                            BadDataReason::TreeSentinel,
                        ) {
                            Ok(_) => match spec_tree(
                                d,
                                offsets,
                                root_node,
                                spec_depth_budget(num_nodes) as nat,
                            ) {
                                Ok(rs) => Ok(((num_internals, num_records, num_nodes), rs)),
                                Err(e) => Err(e),
                            },
                            Err(e) => Err(e),
                        },
                        Err(e) => Err(e),
                    },
                    Err(e) => Err(e),
                },
                Err(e) => Err(e),
            },
            Err(e) => Err(e),
        },
        Err(e) => Err(e),
    }
}

/// The four sentinel bytes after the root block's counts.
pub const TREE_SENTINEL: u32 = 0x00001000;

/// Read `n` consecutive records.
pub open spec fn spec_records_n(d: Seq<u8>, end: int, pos: int, n: int) -> Result<
    (Seq<RecordModel>, int),
    Error,
>
    decreases n,
{
    if n <= 0 {
        Ok((Seq::empty(), pos))
    } else {
        match spec_record(d, end, pos) {
            Ok((r, p)) => match spec_records_n(d, end, p, n - 1) {
                Ok((rest, p2)) => Ok((seq![r] + rest, p2)),
                Err(e) => Err(e),
            },
            Err(e) => Err(e),
        }
    }
}

/// The in-order record sequence of the node in block `id`, with `fuel`
/// bounding the nesting depth that may still be entered.
pub open spec fn spec_tree(d: Seq<u8>, offsets: Seq<u32>, id: u32, fuel: nat) -> Result<
    Seq<RecordModel>,
    Error,
>
    decreases fuel, 1int, 0int,
{
    if fuel == 0 {
        Err(Error::RecursionLimit)
    } else {
        match spec_block_range(d.len() as int, offsets, id) {
            Ok(se) => match spec_u32(d, se.1, se.0) {
                Ok((pair_count, p)) => if pair_count == 0 {
                    match spec_u32(d, se.1, p) {
                        Ok((count, p2)) => match spec_records_n(d, se.1, p2, count as int) {
                            Ok((rs, _)) => Ok(rs),
                            Err(e) => Err(e),
                        },
                        Err(e) => Err(e),
                    }
                } else {
                    match spec_pairs(d, offsets, se.1, p, pair_count as int, fuel) {
                        Ok((rs, _)) => Ok(rs),
                        Err(e) => Err(e),
                    }
                },
                Err(e) => Err(e),
            },
            Err(e) => Err(e),
        }
    }
}

/// `n` (child block ID, separator record) pairs of an internal node:
/// each child subtree's records, then the separator, in order.
pub open spec fn spec_pairs(
    d: Seq<u8>,
    offsets: Seq<u32>,
    end: int,
    pos: int,
    n: int,
    fuel: nat,
) -> Result<(Seq<RecordModel>, int), Error>
    decreases fuel, 0int, n,
{
    if n <= 0 {
        Ok((Seq::empty(), pos))
    } else if fuel == 0 {
        Err(Error::RecursionLimit)
    } else {
        match spec_u32(d, end, pos) {
            Ok((child, p)) => match spec_tree(d, offsets, child, (fuel - 1) as nat) {
                Ok(crs) => match spec_record(d, end, p) {
                    Ok((r, p2)) => match spec_pairs(d, offsets, end, p2, n - 1, fuel) {
                        Ok((rest, p3)) => Ok((crs + seq![r] + rest, p3)),
                        Err(e) => Err(e),
                    },
                    Err(e) => Err(e),
                },
                Err(e) => Err(e),
            },
            Err(e) => Err(e),
        }
    }
}

impl Allocator {
    /// Walk the directory B-tree rooted at the block the table of
    /// contents names, and fold its in-order record stream into the
    /// decoded directory listing.
    pub fn traverse(&self) -> (r: Result<Directory, Error>)
        ensures
            match spec_traverse(self.data@, self.offsets@, self.dsdb_location) {
                Ok(m) => r is Ok && r->Ok_0.num_internals == m.0.0 && r->Ok_0.num_records == m.0.1
                    && r->Ok_0.num_nodes == m.0.2 && r->Ok_0.contents.deep_view() == spec_fold(m.1),
                Err(e) => r == Err::<Directory, Error>(e),
            },
    {
        let mut c = match self.get_block(self.dsdb_location) {
            Ok(c) => c,
            Err(e) => {
                return Err(e);
            },
        };
        let root_node = match c.read_u32(&self.data) {
            Ok(v) => v,
            Err(e) => {
                return Err(e);
            },
        };
        let num_internals = match c.read_u32(&self.data) {
            Ok(v) => v,
            Err(e) => {
                return Err(e);
            },
        };
        let num_records = match c.read_u32(&self.data) {
            Ok(v) => v,
            Err(e) => {
                return Err(e);
            },
        };
        let num_nodes = match c.read_u32(&self.data) {
            Ok(v) => v,
            Err(e) => {
                return Err(e);
            },
        };
        match c.expect4(&self.data, TREE_SENTINEL, BadDataReason::TreeSentinel) {
            Ok(()) => (),
            Err(e) => {
                return Err(e);
            },
        };
        let depth: u32 = if num_nodes == 0xFFFFFFFF {
            0xFFFFFFFF
        } else {
            num_nodes + 1
        };
        let mut records: Vec<Record> = Vec::new();
        let ghost empty_records = records.deep_view();
        match self.traverse_tree(root_node, depth, &mut records) {
            Ok(()) => (),
            Err(e) => {
                return Err(e);
            },
        };
        proof {
            assert(empty_records + spec_tree(
                self.data@,
                self.offsets@,
                root_node,
                depth as nat,
            )->Ok_0 =~= spec_tree(self.data@, self.offsets@, root_node, depth as nat)->Ok_0);
        }
        let contents = fold_records(records);
        Ok(Directory { num_internals, num_records, num_nodes, contents })
    }

    /// Visit the node in block `block_id`, appending its records to
    /// `out` in traversal order.  `depth` is the nesting budget that may
    /// still be entered; a node met with none left fails with
    /// `RecursionLimit`.
    #[verifier::loop_isolation(false)]
    fn traverse_tree(&self, block_id: u32, depth: u32, out: &mut Vec<Record>) -> (r: Result<
        (),
        Error,
    >)
        ensures
            match spec_tree(self.data@, self.offsets@, block_id, depth as nat) {
                Ok(rs) => r is Ok && final(out).deep_view() == old(out).deep_view() + rs,
                Err(e) => r == Err::<(), Error>(e),
            },
        decreases depth,
    {
        let ghost d = self.data@;
        let ghost offsets = self.offsets@;
        if depth == 0 {
            return Err(Error::RecursionLimit);
        }
        let mut c = match self.get_block(block_id) {
            Ok(c) => c,
            Err(e) => {
                return Err(e);
            },
        };
        let ghost bend = c.end as int;
        let pair_count = match c.read_u32(&self.data) {
            Ok(v) => v,
            Err(e) => {
                return Err(e);
            },
        };
        if pair_count == 0 {
            let count = match c.read_u32(&self.data) {
                Ok(v) => v,
                Err(e) => {
                    return Err(e);
                },
            };
            let ghost p2 = c.pos as int;
            let ghost base = out.deep_view();
            let ghost mut done: Seq<RecordModel> = Seq::empty();
            proof {
                assert(done + Seq::<RecordModel>::empty() =~= done);
            }
            let mut j: u32 = 0;
            while j < count
                invariant
                    self.data@ == d,
                    c.wf(d.len() as int),
                    c.end as int == bend,
                    j <= count,
                    out.deep_view() == base + done,
                    spec_records_n(d, bend, p2, count as int) == (match spec_records_n(
                        d,
                        bend,
                        c.pos as int,
                        count as int - j as int,
                    ) {
                        Ok(vp) => Ok::<(Seq<RecordModel>, int), Error>((done + vp.0, vp.1)),
                        Err(e) => Err::<(Seq<RecordModel>, int), Error>(e),
                    }),
                decreases count - j,
            {
                let ghost done_before = done;
                let rec = match read_record(&self.data, &mut c) {
                    Ok(v) => v,
                    Err(e) => {
                        return Err(e);
                    },
                };
                let ghost rm = rec.deep_view();
                let ghost out_before = out.deep_view();
                out.push(rec);
                j = j + 1;
                proof {
                    done = done + seq![rm];
                    assert(out.deep_view() =~~= out_before + seq![rm]);
                    assert(out.deep_view() =~= base + done);
                    if spec_records_n(d, bend, c.pos as int, count as int - j as int) is Ok {
                        let vp = spec_records_n(d, bend, c.pos as int, count as int - j as int)->Ok_0;
                        assert(done_before + (seq![rm] + vp.0) =~= done + vp.0);
                    }
                }
            }
            proof {
                assert(done + Seq::<RecordModel>::empty() =~= done);
            }
            Ok(())
        } else {
            let ghost p_start = c.pos as int;
            let ghost base = out.deep_view();
            let ghost mut done: Seq<RecordModel> = Seq::empty();
            proof {
                assert(done + Seq::<RecordModel>::empty() =~= done);
            }
            let mut k: u32 = 0;
            while k < pair_count
                invariant
                    self.data@ == d,
                    self.offsets@ == offsets,
                    c.wf(d.len() as int),
                    c.end as int == bend,
                    k <= pair_count,
                    1 <= depth,
                    out.deep_view() == base + done,
                    spec_pairs(d, offsets, bend, p_start, pair_count as int, depth as nat) == (
                    match spec_pairs(d, offsets, bend, c.pos as int, pair_count as int - k as int,
                        depth as nat) {
                        Ok(vp) => Ok::<(Seq<RecordModel>, int), Error>((done + vp.0, vp.1)),
                        Err(e) => Err::<(Seq<RecordModel>, int), Error>(e),
                    }),
                decreases pair_count - k,
            {
                let ghost done_before = done;
                let child = match c.read_u32(&self.data) {
                    Ok(v) => v,
                    Err(e) => {
                        return Err(e);
                    },
                };
                let ghost out_before_child = out.deep_view();
                match self.traverse_tree(child, depth - 1, out) {
                    Ok(()) => (),
                    Err(e) => {
                        return Err(e);
                    },
                };
                let ghost crs = spec_tree(d, offsets, child, (depth - 1) as nat)->Ok_0;
                let rec = match read_record(&self.data, &mut c) {
                    Ok(v) => v,
                    Err(e) => {
                        return Err(e);
                    },
                };
                let ghost rm = rec.deep_view();
                let ghost out_before_push = out.deep_view();
                out.push(rec);
                k = k + 1;
                proof {
                    done = done + crs + seq![rm];
                    assert(out.deep_view() =~= out_before_push + seq![rm]);
                    assert(out.deep_view() =~= base + done);
                    if spec_pairs(d, offsets, bend, c.pos as int, pair_count as int - k as int,
                        depth as nat) is Ok {
                        let vp = spec_pairs(d, offsets, bend, c.pos as int,
                            pair_count as int - k as int, depth as nat)->Ok_0;
                        assert(done_before + (crs + seq![rm] + vp.0) =~= done + vp.0);
                    }
                }
            }
            proof {
                assert(done + Seq::<RecordModel>::empty() =~= done);
            }
            Ok(())
        }
    }
}


/// `leq` is transitive.
pub open spec fn order_transitive(leq: spec_fn(Seq<char>, Seq<char>) -> bool) -> bool {
    forall|a: Seq<char>, b: Seq<char>, c: Seq<char>|
        #![trigger leq(a, b), leq(b, c)]
        leq(a, b) && leq(b, c) ==> leq(a, c)
}

/// The record stream is ascending under `leq`: every earlier name
/// relates to every later one.
pub open spec fn stream_sorted(
    rs: Seq<RecordModel>,
    leq: spec_fn(Seq<char>, Seq<char>) -> bool,
) -> bool {
    forall|i: int, j: int|
        0 <= i < j < rs.len() ==> leq((#[trigger] rs[i]).name, (#[trigger] rs[j]).name)
}

/// Every name in `rs` relates to `n` under `leq`.
pub open spec fn stream_below(
    rs: Seq<RecordModel>,
    n: Seq<char>,
    leq: spec_fn(Seq<char>, Seq<char>) -> bool,
) -> bool {
    forall|i: int| 0 <= i < rs.len() ==> leq((#[trigger] rs[i]).name, n)
}

/// `n` relates to every name in `rs` under `leq`.
pub open spec fn stream_above(
    n: Seq<char>,
    rs: Seq<RecordModel>,
    leq: spec_fn(Seq<char>, Seq<char>) -> bool,
) -> bool {
    forall|i: int| 0 <= i < rs.len() ==> leq(n, (#[trigger] rs[i]).name)
}

/// The format's sorted-key invariant of the subtree in block `id`, under
/// the order `leq`: each leaf's records are ascending, and at every
/// internal node each pair's child subtree stands entirely no later than
/// its separator, which stands no later than everything the remaining
/// pairs yield.  The predicate says nothing of what does not parse.
pub open spec fn keys_sorted(
    d: Seq<u8>,
    offsets: Seq<u32>,
    id: u32,
    fuel: nat,
    leq: spec_fn(Seq<char>, Seq<char>) -> bool,
) -> bool
    decreases fuel, 1int, 0int,
{
    if fuel == 0 {
        true
    } else {
        match spec_block_range(d.len() as int, offsets, id) {
            Ok(se) => match spec_u32(d, se.1, se.0) {
                Ok((pair_count, p)) => if pair_count == 0 {
                    match spec_u32(d, se.1, p) {
                        Ok((count, p2)) => match spec_records_n(d, se.1, p2, count as int) {
                            Ok((rs, _)) => stream_sorted(rs, leq),
                            Err(_) => true,
                        },
                        Err(_) => true,
                    }
                } else {
                    pairs_keys_sorted(d, offsets, se.1, p, pair_count as int, fuel, leq)
                },
                Err(_) => true,
            },
            Err(_) => true,
        }
    }
}

/// The sorted-key invariant of `n` (child, separator) pairs of an
/// internal node.
pub open spec fn pairs_keys_sorted(
    d: Seq<u8>,
    offsets: Seq<u32>,
    end: int,
    pos: int,
    n: int,
    fuel: nat,
    leq: spec_fn(Seq<char>, Seq<char>) -> bool,
) -> bool
    decreases fuel, 0int, n,
{
    if n <= 0 || fuel == 0 {
        true
    } else {
        match spec_u32(d, end, pos) {
            Ok((child, p)) => keys_sorted(d, offsets, child, (fuel - 1) as nat, leq) && (
            match spec_tree(d, offsets, child, (fuel - 1) as nat) {
                Ok(crs) => match spec_record(d, end, p) {
                    Ok((r, p2)) => stream_below(crs, r.name, leq) && (
                    match spec_pairs(d, offsets, end, p2, n - 1, fuel) {
                        Ok((rest, _)) => stream_above(r.name, rest, leq),
                        Err(_) => true,
                    }) && pairs_keys_sorted(d, offsets, end, p2, n - 1, fuel, leq),
                    Err(_) => true,
                },
                Err(_) => true,
            }),
            Err(_) => true,
        }
    }
}

/// In-order traversal of a tree whose keys satisfy the sorted-key
/// invariant yields an ascending record stream — whatever the on-disk
/// placement of the node blocks, which the invariant never mentions.
pub proof fn lemma_tree_sorted(
    d: Seq<u8>,
    offsets: Seq<u32>,
    id: u32,
    fuel: nat,
    leq: spec_fn(Seq<char>, Seq<char>) -> bool,
)
    requires
        order_transitive(leq),
        keys_sorted(d, offsets, id, fuel, leq),
        spec_tree(d, offsets, id, fuel) is Ok,
    ensures
        stream_sorted(spec_tree(d, offsets, id, fuel)->Ok_0, leq),
    decreases fuel, 1int, 0int,
{
    let se = spec_block_range(d.len() as int, offsets, id)->Ok_0;
    let (pair_count, p) = spec_u32(d, se.1, se.0)->Ok_0;
    if pair_count != 0 {
        lemma_pairs_sorted(d, offsets, se.1, p, pair_count as int, fuel, leq);
    }
}

/// The pair-sequence half of `lemma_tree_sorted`.
proof fn lemma_pairs_sorted(
    d: Seq<u8>,
    offsets: Seq<u32>,
    end: int,
    pos: int,
    n: int,
    fuel: nat,
    leq: spec_fn(Seq<char>, Seq<char>) -> bool,
)
    requires
        order_transitive(leq),
        pairs_keys_sorted(d, offsets, end, pos, n, fuel, leq),
        fuel > 0,
        spec_pairs(d, offsets, end, pos, n, fuel) is Ok,
    ensures
        stream_sorted(spec_pairs(d, offsets, end, pos, n, fuel)->Ok_0.0, leq),
    decreases fuel, 0int, n,
{
    if n <= 0 {
    } else {
        let (child, p) = spec_u32(d, end, pos)->Ok_0;
        let crs = spec_tree(d, offsets, child, (fuel - 1) as nat)->Ok_0;
        let (r, p2) = spec_record(d, end, p)->Ok_0;
        let rest = spec_pairs(d, offsets, end, p2, n - 1, fuel)->Ok_0.0;
        lemma_tree_sorted(d, offsets, child, (fuel - 1) as nat, leq);
        lemma_pairs_sorted(d, offsets, end, p2, n - 1, fuel, leq);
        let total = crs + seq![r] + rest;
        assert forall|i: int, j: int| 0 <= i < j < total.len() implies leq(
            (#[trigger] total[i]).name,
            (#[trigger] total[j]).name,
        ) by {
            let cl = crs.len() as int;
            if j < cl {
                assert(total[i] == crs[i] && total[j] == crs[j]);
            } else if j == cl {
                assert(total[i] == crs[i] && total[j] == r);
            } else {
                assert(total[j] == rest[j - cl - 1]);
                if i < cl {
                    assert(total[i] == crs[i]);
                    assert(leq(crs[i].name, r.name));
                    assert(leq(r.name, rest[j - cl - 1].name));
                } else if i == cl {
                    assert(total[i] == r);
                } else {
                    assert(total[i] == rest[i - cl - 1]);
                }
            }
        }
    }
}

/// The ascending-order law of the whole traversal: if every node of the
/// file keeps its B-tree keys sorted under a transitive order, the
/// traversal's record stream is ascending under that order, regardless
/// of where the node blocks sit in the file.
pub proof fn lemma_traverse_sorted(
    d: Seq<u8>,
    offsets: Seq<u32>,
    dsdb: u32,
    leq: spec_fn(Seq<char>, Seq<char>) -> bool,
)
    requires
        order_transitive(leq),
        forall|id: u32, fuel: nat| #[trigger] keys_sorted(d, offsets, id, fuel, leq),
        spec_traverse(d, offsets, dsdb) is Ok,
    ensures
        stream_sorted(spec_traverse(d, offsets, dsdb)->Ok_0.1, leq),
{
    let se = spec_block_range(d.len() as int, offsets, dsdb)->Ok_0;
    let (root_node, p) = spec_u32(d, se.1, se.0)->Ok_0;
    let (_, p2) = spec_u32(d, se.1, p)->Ok_0;
    let (_, p3) = spec_u32(d, se.1, p2)->Ok_0;
    let (num_nodes, _) = spec_u32(d, se.1, p3)->Ok_0;
    lemma_tree_sorted(d, offsets, root_node, spec_depth_budget(num_nodes) as nat, leq);
}


} // verus!
