//! DescribeAcls, CreateAcls and DeleteAcls.

use bytes::{Bytes, BytesMut};
use vstd::prelude::*;
use vstd::string::*;

use crate::acl;
use crate::acl::{
    kafka_principal, kafka_resource_name, parse_acl_creation, parse_acl_filter, volant_op_to_kafka,
    volant_perm_to_kafka, volant_rt_to_kafka, AclEntry, AclEntryView, AclFilter, AclFilterView,
    KAFKA_PATTERN_LITERAL,
};
use crate::api::KafkaErrorCode;
use crate::buffer::{put_i16, put_i32, put_i8, Contents};
use crate::codec::{put_end, put_opt_text, put_text};
use crate::error::{Error, Result};
use crate::message;
use crate::message::{put_rows, read_count, Row};
use crate::produce;
use crate::text;
use crate::text::{concat_decimal, starts_with, str_before};
use crate::wire;
use crate::wire::{Out, Src, Step};

verus! {

/// Whether an entry is one of those that a filter means, as far as operation and
/// permission go.
pub open spec fn matches_filter(e: AclEntryView, f: AclFilterView) -> bool {
    &&& f.operation is Some ==> f.operation == Some(e.operation)
    &&& f.permission is Some ==> f.permission == Some(e.permission)
}

/// The entries of `all` that the filter means. `all` are those with the principal,
/// resource type and resource name of the filter.
pub fn filter_acl_entries(all: &Vec<AclEntry>, filter: &AclFilter) -> (r: Vec<AclEntry>)
    ensures
        r.deep_view() == all.deep_view().filter(
            |e: AclEntryView| matches_filter(e, filter.deep_view()),
        ),
{
    let ghost f = |e: AclEntryView| matches_filter(e, filter.deep_view());
    let ghost entries = all.deep_view();
    let mut r: Vec<AclEntry> = Vec::new();
    let mut i: usize = 0;
    proof {
        reveal(Seq::filter);
        assert(entries.take(0).len() == 0);
        assert(r.deep_view() =~= Seq::empty());
    }
    while i < all.len()
        invariant
            i <= all@.len(),
            entries == all.deep_view(),
            f == |e: AclEntryView| matches_filter(e, filter.deep_view()),
            r.deep_view() == entries.take(i as int).filter(f),
        decreases all@.len() - i,
    {
        let e = &all[i];
        let ghost seen = r.deep_view();
        proof {
            reveal(Seq::filter);
            assert(entries.take(i + 1).drop_last() =~= entries.take(i as int));
            assert(entries.take(i + 1).last() == e.deep_view());
        }
        let op_fits = match filter.operation {
            Some(op) => e.operation == op,
            None => true,
        };
        let perm_fits = match filter.permission {
            Some(p) => e.permission == p,
            None => true,
        };
        if op_fits && perm_fits {
            r.push(e.clone());
            assert(r.deep_view() =~= seen.push(e.deep_view()));
        }
        i += 1;
    }
    assert(entries.take(entries.len() as int) =~= entries);
    r
}

/// The entries about one resource.
#[derive(Debug)]
pub struct AclGroup {
    /// The number of the resource type on the wire.
    pub resource_type: i8,
    /// The name of the resource on the wire.
    pub name: String,
    pub acls: Vec<AclEntry>,
}

/// What an [`AclGroup`] says.
#[verifier::ext_equal]
pub struct AclGroupView {
    pub resource_type: i8,
    pub name: Seq<char>,
    pub acls: Seq<AclEntryView>,
}

impl DeepView for AclGroup {
    type V = AclGroupView;

    open spec fn deep_view(&self) -> AclGroupView {
        AclGroupView {
            resource_type: self.resource_type,
            name: self.name@,
            acls: self.acls.deep_view(),
        }
    }
}

/// Whether the resource of type `rt` and name `name` comes before another one.
pub open spec fn resource_before(
    rt: i8,
    name: Seq<char>,
    other_rt: i8,
    other: Seq<char>,
) -> bool {
    rt < other_rt || (rt == other_rt && text::before(name, other))
}

/// `groups` with `e` added to the group of its resource, which is put in its place in
/// the order of the resources where it is new.
pub open spec fn add_entry(groups: Seq<AclGroupView>, e: AclEntryView) -> Seq<AclGroupView>
    decreases groups.len(),
{
    let rt = e.resource_type.number();
    let name = acl::wire_name(e.resource_type, e.resource);
    if groups.len() == 0 {
        seq![AclGroupView { resource_type: rt, name, acls: seq![e] }]
    } else if groups[0].resource_type == rt && groups[0].name == name {
        seq![AclGroupView { acls: groups[0].acls.push(e), ..groups[0] }] + groups.skip(1)
    } else if resource_before(rt, name, groups[0].resource_type, groups[0].name) {
        seq![AclGroupView { resource_type: rt, name, acls: seq![e] }] + groups
    } else {
        seq![groups[0]] + add_entry(groups.skip(1), e)
    }
}

/// The entries by resource, in the order of the resources.
pub open spec fn grouped(entries: Seq<AclEntryView>) -> Seq<AclGroupView>
    decreases entries.len(),
{
    if entries.len() == 0 {
        Seq::empty()
    } else {
        add_entry(grouped(entries.drop_last()), entries.last())
    }
}

fn one_entry(e: &AclEntry) -> (v: Vec<AclEntry>)
    ensures
        v.deep_view() == seq![e.deep_view()],
{
    let mut v: Vec<AclEntry> = Vec::new();
    v.push(e.clone());
    assert(v.deep_view() =~= seq![e.deep_view()]);
    v
}

fn add_to_groups(groups: &mut Vec<AclGroup>, e: &AclEntry)
    ensures
        final(groups).deep_view() == add_entry(old(groups).deep_view(), e.deep_view()),
{
    let rt: i8 = volant_rt_to_kafka(e.resource_type);
    let name = kafka_resource_name(e.resource_type, e.resource.as_str());
    let ghost all = groups.deep_view();
    let ghost ev = e.deep_view();
    let ghost want = add_entry(all, ev);
    let mut i: usize = 0;
    proof {
        assert(all.skip(0) =~= all);
        assert(all.take(0) + add_entry(all.skip(0), ev) =~= add_entry(all.skip(0), ev));
    }
    while i < groups.len()
        invariant
            i <= groups@.len(),
            all == groups.deep_view(),
            all == old(groups).deep_view(),
            ev == e.deep_view(),
            rt == ev.resource_type.number(),
            name@ == acl::wire_name(ev.resource_type, ev.resource),
            want == add_entry(all, ev),
            want == all.take(i as int) + add_entry(all.skip(i as int), ev),
        decreases groups@.len() - i,
    {
        let ghost tail = all.skip(i as int);
        assert(tail[0] == all[i as int]);
        assert(all[i as int] == groups@[i as int].deep_view());
        assert(tail.skip(1) =~= all.skip(i + 1));
        let here = &groups[i];
        let same_rt = here.resource_type == rt;
        if same_rt && here.name == name {
            let mut g = groups.remove(i);
            let ghost before = g.acls.deep_view();
            g.acls.push(e.clone());
            assert(g.acls.deep_view() =~= before.push(ev));
            let ghost gv = g.deep_view();
            groups.insert(i, g);
            assert(groups.deep_view() =~= all.take(i as int) + (seq![gv] + all.skip(i + 1)));
            return;
        }
        let earlier = rt < here.resource_type || (same_rt && str_before(
            name.as_str(),
            here.name.as_str(),
        ));
        if earlier {
            let g = AclGroup { resource_type: rt, name, acls: one_entry(e) };
            let ghost gv = g.deep_view();
            groups.insert(i, g);
            assert(groups.deep_view() =~= all.take(i as int) + (seq![gv] + all.skip(i as int)));
            return;
        }
        assert(all.take(i as int) + (seq![all[i as int]] + add_entry(all.skip(i + 1), ev))
            =~= all.take(i + 1) + add_entry(all.skip(i + 1), ev));
        i += 1;
    }
    let g = AclGroup { resource_type: rt, name, acls: one_entry(e) };
    let ghost gv = g.deep_view();
    groups.push(g);
    assert(groups.deep_view() =~= all.take(i as int) + seq![gv]);
}

/// The entries by resource, in the order of the resources.
pub fn group_acls_by_resource(entries: &Vec<AclEntry>) -> (groups: Vec<AclGroup>)
    ensures
        groups.deep_view() == grouped(entries.deep_view()),
{
    let mut groups: Vec<AclGroup> = Vec::new();
    let ghost all = entries.deep_view();
    let mut i: usize = 0;
    assert(groups.deep_view() =~= Seq::empty());
    assert(all.take(0).len() == 0);
    while i < entries.len()
        invariant
            i <= entries@.len(),
            all == entries.deep_view(),
            groups.deep_view() == grouped(all.take(i as int)),
        decreases entries@.len() - i,
    {
        assert(all.take(i + 1).drop_last() =~= all.take(i as int));
        assert(all[i as int] == entries@[i as int].deep_view());
        add_to_groups(&mut groups, &entries[i]);
        i += 1;
    }
    assert(all.take(all.len() as int) =~= all);
    groups
}

/// How many entries the groups hold.
pub open spec fn entries_in(groups: Seq<AclGroupView>) -> nat
    decreases groups.len(),
{
    if groups.len() == 0 {
        0
    } else {
        groups[0].acls.len() + entries_in(groups.skip(1))
    }
}

/// Whether every entry stands in the group of its resource.
pub open spec fn placed(groups: Seq<AclGroupView>) -> bool {
    forall|i: int, k: int|
        0 <= i < groups.len() && 0 <= k < groups[i].acls.len() ==> {
            let e = #[trigger] groups[i].acls[k];
            groups[i].resource_type == e.resource_type.number() && groups[i].name
                == acl::wire_name(e.resource_type, e.resource)
        }
}

proof fn lemma_add_entry(groups: Seq<AclGroupView>, e: AclEntryView)
    ensures
        entries_in(add_entry(groups, e)) == entries_in(groups) + 1,
        placed(groups) ==> placed(add_entry(groups, e)),
    decreases groups.len(),
{
    let rt = e.resource_type.number();
    let name = acl::wire_name(e.resource_type, e.resource);
    let g = add_entry(groups, e);
    if groups.len() == 0 {
        assert(g.skip(1) =~= Seq::empty());
        assert(entries_in(g.skip(1)) == 0);
    } else if groups[0].resource_type == rt && groups[0].name == name {
        assert(g.skip(1) =~= groups.skip(1));
        if placed(groups) {
            assert forall|i: int, k: int| 0 <= i < g.len() && 0 <= k < g[i].acls.len() implies {
                let x = #[trigger] g[i].acls[k];
                g[i].resource_type == x.resource_type.number() && g[i].name == acl::wire_name(
                    x.resource_type,
                    x.resource,
                )
            } by {
                if i > 0 {
                    assert(g[i] == groups[i]);
                } else if k < groups[0].acls.len() {
                    assert(g[0].acls[k] == groups[0].acls[k]);
                }
            }
        }
    } else if resource_before(rt, name, groups[0].resource_type, groups[0].name) {
        assert(g.skip(1) =~= groups);
        if placed(groups) {
            assert forall|i: int, k: int| 0 <= i < g.len() && 0 <= k < g[i].acls.len() implies {
                let x = #[trigger] g[i].acls[k];
                g[i].resource_type == x.resource_type.number() && g[i].name == acl::wire_name(
                    x.resource_type,
                    x.resource,
                )
            } by {
                if i > 0 {
                    assert(g[i] == groups[i - 1]);
                }
            }
        }
    } else {
        let tail = groups.skip(1);
        lemma_add_entry(tail, e);
        let t = add_entry(tail, e);
        assert(g.skip(1) =~= t);
        if placed(groups) {
            assert(placed(tail)) by {
                assert forall|i: int, k: int|
                    0 <= i < tail.len() && 0 <= k < tail[i].acls.len() implies {
                    let x = #[trigger] tail[i].acls[k];
                    tail[i].resource_type == x.resource_type.number() && tail[i].name
                        == acl::wire_name(x.resource_type, x.resource)
                } by {
                    assert(tail[i].acls[k] == groups[i + 1].acls[k]);
                }
            }
            assert forall|i: int, k: int| 0 <= i < g.len() && 0 <= k < g[i].acls.len() implies {
                let x = #[trigger] g[i].acls[k];
                g[i].resource_type == x.resource_type.number() && g[i].name == acl::wire_name(
                    x.resource_type,
                    x.resource,
                )
            } by {
                if i > 0 {
                    assert(g[i].acls[k] == t[i - 1].acls[k]);
                } else {
                    assert(g[0].acls[k] == groups[0].acls[k]);
                }
            }
        }
    }
}

/// Whether an entry is for the resource of type `rt` and name `name`.
pub open spec fn is_for(e: AclEntryView, rt: i8, name: Seq<char>) -> bool {
    e.resource_type.number() == rt && acl::wire_name(e.resource_type, e.resource) == name
}

/// The entries for one resource, in their order.
pub open spec fn entries_for(entries: Seq<AclEntryView>, rt: i8, name: Seq<char>) -> Seq<
    AclEntryView,
> {
    entries.filter(|e: AclEntryView| is_for(e, rt, name))
}

/// Whether the resources of the groups strictly increase.
pub open spec fn in_order(groups: Seq<AclGroupView>) -> bool {
    forall|i: int, j: int|
        #![trigger groups[i], groups[j]]
        0 <= i < j < groups.len() ==> resource_before(
            groups[i].resource_type,
            groups[i].name,
            groups[j].resource_type,
            groups[j].name,
        )
}

/// Whether every group holds the entries of its resource, in their order, and at least one.
pub open spec fn complete(groups: Seq<AclGroupView>, entries: Seq<AclEntryView>) -> bool {
    forall|i: int|
        0 <= i < groups.len() ==> (#[trigger] groups[i]).acls.len() > 0 && groups[i].acls
            == entries_for(entries, groups[i].resource_type, groups[i].name)
}

/// The group that `e` is in after it was added, and where the other groups come from.
proof fn lemma_added_at(groups: Seq<AclGroupView>, e: AclEntryView) -> (k: int)
    requires
        in_order(groups),
    ensures
        0 <= k < add_entry(groups, e).len(),
        in_order(add_entry(groups, e)),
        is_for(e, add_entry(groups, e)[k].resource_type, add_entry(groups, e)[k].name),
        ({
            let g = add_entry(groups, e);
            ||| {
                &&& k < groups.len()
                &&& is_for(e, groups[k].resource_type, groups[k].name)
                &&& g == groups.update(
                    k,
                    AclGroupView { acls: groups[k].acls.push(e), ..groups[k] },
                )
            }
            ||| {
                &&& k <= groups.len()
                &&& g == groups.insert(k, g[k])
                &&& g[k].acls == seq![e]
                &&& forall|i: int|
                    0 <= i < groups.len() ==> !is_for(
                        e,
                        (#[trigger] groups[i]).resource_type,
                        groups[i].name,
                    )
            }
        }),
    decreases groups.len(),
{
    let rt = e.resource_type.number();
    let name = acl::wire_name(e.resource_type, e.resource);
    let g = add_entry(groups, e);
    if groups.len() == 0 {
        assert(g =~= groups.insert(0, g[0]));
        0
    } else if groups[0].resource_type == rt && groups[0].name == name {
        assert(g =~= groups.update(
            0,
            AclGroupView { acls: groups[0].acls.push(e), ..groups[0] },
        ));
        assert forall|i: int, j: int|
            #![trigger g[i], g[j]]
            0 <= i < j < g.len() implies resource_before(
            g[i].resource_type,
            g[i].name,
            g[j].resource_type,
            g[j].name,
        ) by {
            assert(groups[i].name == g[i].name && groups[j].name == g[j].name);
        }
        0
    } else if resource_before(rt, name, groups[0].resource_type, groups[0].name) {
        assert(g =~= groups.insert(0, g[0]));
        assert forall|j: int| 0 <= j < groups.len() implies resource_before(
            rt,
            name,
            (#[trigger] groups[j]).resource_type,
            groups[j].name,
        ) by {
            text::law_before(name, groups[0].name, groups[j].name);
            if j > 0 {
                assert(resource_before(
                    groups[0].resource_type,
                    groups[0].name,
                    groups[j].resource_type,
                    groups[j].name,
                ));
            }
        }
        assert forall|i: int| 0 <= i < groups.len() implies !is_for(
            e,
            (#[trigger] groups[i]).resource_type,
            groups[i].name,
        ) by {
            text::law_before(name, name, name);
        }
        assert forall|i: int, j: int|
            #![trigger g[i], g[j]]
            0 <= i < j < g.len() implies resource_before(
            g[i].resource_type,
            g[i].name,
            g[j].resource_type,
            g[j].name,
        ) by {
            assert(g[j] == groups[j - 1]);
            if i > 0 {
                assert(g[i] == groups[i - 1]);
            }
        }
        0
    } else {
        let tail = groups.skip(1);
        let t = add_entry(tail, e);
        assert forall|i: int, j: int|
            #![trigger tail[i], tail[j]]
            0 <= i < j < tail.len() implies resource_before(
            tail[i].resource_type,
            tail[i].name,
            tail[j].resource_type,
            tail[j].name,
        ) by {
            assert(tail[i] == groups[i + 1] && tail[j] == groups[j + 1]);
        }
        let k = lemma_added_at(tail, e);
        assert(g =~= seq![groups[0]] + t);
        text::law_before(name, groups[0].name, name);
        assert forall|j: int| 0 <= j < t.len() implies resource_before(
            groups[0].resource_type,
            groups[0].name,
            (#[trigger] t[j]).resource_type,
            t[j].name,
        ) by {
            if j != k {
                if t.len() == tail.len() {
                    assert(t[j] == groups[j + 1]);
                } else if j < k {
                    assert(t[j] == groups[j + 1]);
                } else {
                    assert(t[j] == groups[j]);
                }
            }
        }
        assert forall|i: int, j: int|
            #![trigger g[i], g[j]]
            0 <= i < j < g.len() implies resource_before(
            g[i].resource_type,
            g[i].name,
            g[j].resource_type,
            g[j].name,
        ) by {
            assert(g[j] == t[j - 1]);
            if i > 0 {
                assert(g[i] == t[i - 1]);
            }
        }
        assert(g[k + 1] == t[k]);
        if t.len() == tail.len() {
            assert(tail[k] == groups[k + 1]);
            assert(g =~= groups.update(
                k + 1,
                AclGroupView { acls: groups[k + 1].acls.push(e), ..groups[k + 1] },
            ));
        } else {
            assert(g =~= groups.insert(k + 1, g[k + 1]));
            assert forall|i: int| 0 <= i < groups.len() implies !is_for(
                e,
                (#[trigger] groups[i]).resource_type,
                groups[i].name,
            ) by {
                if i > 0 {
                    assert(groups[i] == tail[i - 1]);
                }
            }
        }
        k + 1
    }
}

/// The entries for one resource, with one entry more.
proof fn lemma_entries_for(entries: Seq<AclEntryView>, rt: i8, name: Seq<char>)
    requires
        entries.len() > 0,
    ensures
        entries_for(entries, rt, name) == if is_for(entries.last(), rt, name) {
            entries_for(entries.drop_last(), rt, name).push(entries.last())
        } else {
            entries_for(entries.drop_last(), rt, name)
        },
{
    reveal(Seq::filter);
}

/// Grouping loses no entry and puts each with its resource. The resources strictly
/// increase, and each group holds all the entries of its resource in the order in which
/// they were given, and at least one; a resource with an entry has a group.
pub proof fn law_grouped(entries: Seq<AclEntryView>)
    ensures
        entries_in(grouped(entries)) == entries.len(),
        placed(grouped(entries)),
        in_order(grouped(entries)),
        complete(grouped(entries), entries),
        forall|rt: i8, name: Seq<char>|
            (#[trigger] entries_for(entries, rt, name)).len() > 0 ==> exists|i: int|
                0 <= i < grouped(entries).len() && (#[trigger] grouped(entries)[i]).resource_type
                    == rt && grouped(entries)[i].name == name,
    decreases entries.len(),
{
    let g = grouped(entries);
    if entries.len() > 0 {
        let init = entries.drop_last();
        let e = entries.last();
        let h = grouped(init);
        law_grouped(init);
        lemma_add_entry(h, e);
        let k = lemma_added_at(h, e);
        let rt = e.resource_type.number();
        let name = acl::wire_name(e.resource_type, e.resource);
        lemma_entries_for(entries, rt, name);
        if h.len() == g.len() {
            assert(h[k].resource_type == rt);
        } else {
            assert(entries_for(init, rt, name).len() == 0);
            assert(entries_for(init, rt, name).push(e) =~= seq![e]);
        }
        assert forall|i: int| 0 <= i < g.len() implies (#[trigger] g[i]).acls.len() > 0
            && g[i].acls == entries_for(entries, g[i].resource_type, g[i].name) by {
            lemma_entries_for(entries, g[i].resource_type, g[i].name);
            if i != k {
                assert(resource_before(
                    g[i].resource_type,
                    g[i].name,
                    g[k].resource_type,
                    g[k].name,
                ) || resource_before(
                    g[k].resource_type,
                    g[k].name,
                    g[i].resource_type,
                    g[i].name,
                )) by {
                    if i < k {
                        assert(g[i].resource_type <= g[k].resource_type);
                    } else {
                        assert(g[k].resource_type <= g[i].resource_type);
                    }
                }
                text::law_before(g[i].name, g[i].name, g[i].name);
                assert(!is_for(e, g[i].resource_type, g[i].name));
                if h.len() == g.len() || i < k {
                    assert(g[i] == h[i]);
                } else {
                    assert(g[i] == h[i - 1]);
                }
            }
        }
        assert forall|r: i8, n: Seq<char>|
            (#[trigger] entries_for(entries, r, n)).len() > 0 implies exists|i: int|
            0 <= i < g.len() && (#[trigger] g[i]).resource_type == r && g[i].name == n by {
            lemma_entries_for(entries, r, n);
            if is_for(e, r, n) {
                assert(g[k].resource_type == r && g[k].name == n);
            } else {
                let i = choose|i: int|
                    0 <= i < h.len() && (#[trigger] h[i]).resource_type == r && h[i].name == n;
                if h.len() == g.len() || i < k {
                    assert(g[i].resource_type == r && g[i].name == n);
                } else {
                    assert(g[i + 1].resource_type == r && g[i + 1].name == n);
                }
            }
        }
    }
}

impl Row for AclEntry {
    open spec fn row(&self, o: Out, version: i16, flexible: bool) -> Out {
        o.text(flexible, acl::wire_principal(self.principal@)).text(flexible, "*"@).byte(
            self.operation.number() as int,
        ).byte(self.permission.number() as int).end(flexible)
    }

    fn put(&self, out: &mut BytesMut, version: i16, flexible: bool) {
        let p = kafka_principal(self.principal.as_str());
        put_text(out, flexible, p.as_str());
        put_text(out, flexible, "*");
        put_i8(out, volant_op_to_kafka(self.operation));
        put_i8(out, volant_perm_to_kafka(self.permission));
        put_end(out, flexible);
    }
}

impl Row for AclGroup {
    open spec fn row(&self, o: Out, version: i16, flexible: bool) -> Out {
        let o = o.byte(self.resource_type as int).text(flexible, self.name@);
        let o = if version >= 1 {
            o.byte(KAFKA_PATTERN_LITERAL as int)
        } else {
            o
        };
        message::rows_out(o, self.acls@, version, flexible).end(flexible)
    }

    fn put(&self, out: &mut BytesMut, version: i16, flexible: bool) {
        put_i8(out, self.resource_type);
        put_text(out, flexible, self.name.as_str());
        if version >= 1 {
            put_i8(out, KAFKA_PATTERN_LITERAL);
        }
        put_rows(out, self.acls.as_slice(), version, flexible);
        put_end(out, flexible);
    }
}

/// A DescribeAcls response.
pub open spec fn describe_acls_out(
    o: Out,
    version: i16,
    error: i16,
    message: Option<Seq<char>>,
    groups: Seq<AclGroup>,
) -> Out {
    let flexible = version >= 2;
    message::rows_out(
        o.i32(0).i16(error as int).opt_text(flexible, message),
        groups,
        version,
        flexible,
    ).end(flexible)
}

/// What a DescribeAcls request asks for, or the code and text that it is refused with.
/// `allowed`: the client may describe the cluster.
pub open spec fn describe_acls_of(
    b: Src,
    version: i16,
    allowed: bool,
    cluster: Seq<char>,
) -> core::result::Result<AclFilterView, (i16, Seq<char>)> {
    if !allowed {
        Err((KafkaErrorCode::ClusterAuthorizationFailed.code(), "Cluster Describe denied"@))
    } else {
        match acl::filter_at(b, version, version >= 2, cluster).value {
            Ok(f) => Ok(f),
            Err(m) => Err((KafkaErrorCode::InvalidRequest.code(), m)),
        }
    }
}

/// Reads a DescribeAcls request.
pub fn decode_describe_acls(src: &mut Bytes, version: i16, allowed: bool, cluster: &str) -> (r:
    core::result::Result<AclFilter, (i16, String)>)
    ensures
        match (r, describe_acls_of(old(src)@, version, allowed, cluster@)) {
            (Ok(f), Ok(w)) => f.deep_view() == w,
            (Err(e), Err(w)) => e.0 == w.0 && e.1@ == w.1,
            _ => false,
        },
{
    if !allowed {
        return Err(
            (
                KafkaErrorCode::ClusterAuthorizationFailed.as_i16(),
                "Cluster Describe denied".to_owned(),
            ),
        );
    }
    match parse_acl_filter(src, version, version >= 2, cluster) {
        Ok(f) => Ok(f),
        Err(m) => Err((KafkaErrorCode::InvalidRequest.as_i16(), m)),
    }
}

/// Writes a DescribeAcls response. One that is refused has no groups.
pub fn encode_describe_acls(
    out: &mut BytesMut,
    version: i16,
    error: i16,
    message: Option<&str>,
    groups: &Vec<AclGroup>,
)
    ensures
        final(out)@ == describe_acls_out(
            old(out)@,
            version,
            error,
            message.deep_view(),
            groups@,
        ),
{
    let flexible = version >= 2;
    put_i32(out, 0);
    put_i16(out, error);
    put_opt_text(out, flexible, message);
    put_rows(out, groups.as_slice(), version, flexible);
    put_end(out, flexible);
}

/// Whether access control entries may be changed here.
#[derive(Debug, Clone, Copy, PartialEq, Eq, Structural)]
pub enum AdminGate {
    /// Another broker is the controller: the one with this id.
    NotController(u32),
    /// The client may not alter the cluster.
    Denied,
    /// They may.
    Open,
}

/// Whether access control entries may be changed here. `controller`: the broker that is
/// the controller where this one should be and is not. `allowed`: the client may alter the
/// cluster.
pub open spec fn gate_of(controller: Option<u32>, allowed: bool) -> AdminGate {
    match controller {
        Some(id) => AdminGate::NotController(id),
        None => if allowed {
            AdminGate::Open
        } else {
            AdminGate::Denied
        },
    }
}

/// Whether access control entries may be changed here.
pub fn admin_gate(controller: Option<u32>, allowed: bool) -> (g: AdminGate)
    ensures
        g == gate_of(controller, allowed),
{
    match controller {
        Some(id) => AdminGate::NotController(id),
        None => {
            if allowed {
                AdminGate::Open
            } else {
                AdminGate::Denied
            }
        },
    }
}

/// The text for a broker that is not the controller.
pub open spec fn not_controller_text(controller_id: u32) -> Seq<char> {
    "not controller; controller_id="@ + text::decimal(controller_id as int)
}

/// The text for a broker that is not the controller.
pub fn not_controller_message(controller_id: u32) -> (s: String)
    ensures
        s@ == not_controller_text(controller_id),
{
    concat_decimal("not controller; controller_id=", controller_id as i64)
}

/// An entry of a CreateAcls request.
#[derive(Debug)]
pub enum Creation {
    /// An entry to create.
    Entry(AclEntry),
    /// What is wrong with it.
    Invalid(String),
}

/// What a [`Creation`] says.
pub enum CreationView {
    Entry(AclEntryView),
    Invalid(Seq<char>),
}

impl DeepView for Creation {
    type V = CreationView;

    open spec fn deep_view(&self) -> CreationView {
        match *self {
            Creation::Entry(e) => CreationView::Entry(e.deep_view()),
            Creation::Invalid(m) => CreationView::Invalid(m@),
        }
    }
}

/// One round over the entries of a request. An entry that cannot be read is told of,
/// and reading goes on behind it.
pub open spec fn creation_step(version: i16, cluster: Seq<char>) -> spec_fn(Src) -> Step<
    CreationView,
> {
    |b: Src|
        {
            let p = acl::creation_at(b, version, version >= 2, cluster);
            wire::keep(
                match p.value {
                    Ok(e) => CreationView::Entry(e),
                    Err(m) => CreationView::Invalid(m),
                },
                p.rest,
            )
        }
}

/// The number of elements of an array that has to fit 32 bits: a null array has none.
pub open spec fn count_or_none(b: Src, flexible: bool) -> wire::Parsed<nat> {
    let c = message::count_at(b, flexible);
    match c.value {
        Ok(Some(n)) => wire::done(produce::count32(n), c.rest),
        Ok(None) => wire::done(0, c.rest),
        Err(m) => wire::fail(m, c.rest),
    }
}

fn read_count_or_none(src: &mut Bytes, flexible: bool) -> (r: Option<usize>)
    ensures
        match (r, count_or_none(old(src)@, flexible).value) {
            (Some(n), Ok(w)) => n == w,
            (None, Err(_)) => true,
            _ => false,
        },
        final(src)@ == count_or_none(old(src)@, flexible).rest,
{
    match read_count(src, flexible) {
        Ok(Some(n)) => {
            let m: u64 = n as u64 % 0x1_0000_0000;
            if m <= 0x7fff_ffff {
                Some(m as usize)
            } else {
                Some(0)
            }
        },
        Ok(None) => Some(0),
        Err(_) => None,
    }
}

/// The entries of a CreateAcls request, or nothing where they cannot be counted.
pub open spec fn create_acls_at(b: Src, version: i16, cluster: Seq<char>) -> Option<
    Seq<CreationView>,
> {
    let c = count_or_none(b, version >= 2);
    match c.value {
        Err(_) => None,
        Ok(n) => Some(wire::rounds(c.rest, n, creation_step(version, cluster)).0),
    }
}

/// Reads a CreateAcls request.
pub fn decode_create_acls(src: &mut Bytes, version: i16, cluster: &str) -> (r: Option<Vec<Creation>>)
    ensures
        r.deep_view() == create_acls_at(old(src)@, version, cluster@),
{
    let ghost f = creation_step(version, cluster@);
    let n: usize = match read_count_or_none(src, version >= 2) {
        None => return None,
        Some(n) => n,
    };
    let mut v: Vec<Creation> = Vec::new();
    let mut i: usize = 0;
    let ghost whole = wire::rounds(src@, n as nat, f);
    proof {
        wire::lemma_rounds_start(src@, n as nat, f);
        assert(v.deep_view() =~= Seq::empty());
    }
    while i < n
        invariant
            i <= n,
            f == creation_step(version, cluster@),
            create_acls_at(old(src)@, version, cluster@) == Some(whole.0),
            whole == wire::after(v.deep_view(), wire::rounds(src@, (n - i) as nat, f)),
        decreases n - i,
    {
        let ghost here = src@;
        let ghost seen = v.deep_view();
        let item = match parse_acl_creation(src, version, version >= 2, cluster) {
            Ok(e) => Creation::Entry(e),
            Err(m) => Creation::Invalid(m),
        };
        proof {
            wire::lemma_round_keep(seen, here, (n - i) as nat, f, item.deep_view(), src@);
        }
        v.push(item);
        assert(v.deep_view() =~= seen.push(item.deep_view()));
        i += 1;
    }
    proof {
        wire::lemma_rounds_none(v.deep_view(), src@, f);
    }
    Some(v)
}

/// The entries that are to be created.
pub open spec fn wanted(items: Seq<CreationView>) -> Seq<AclEntryView>
    decreases items.len(),
{
    if items.len() == 0 {
        Seq::empty()
    } else {
        match items.last() {
            CreationView::Entry(e) => wanted(items.drop_last()).push(e),
            CreationView::Invalid(_) => wanted(items.drop_last()),
        }
    }
}

/// The entries that are to be created.
pub fn entries_to_create(items: &Vec<Creation>) -> (r: Vec<AclEntry>)
    ensures
        r.deep_view() == wanted(items.deep_view()),
{
    let ghost all = items.deep_view();
    let mut r: Vec<AclEntry> = Vec::new();
    let mut i: usize = 0;
    assert(r.deep_view() =~= Seq::empty());
    assert(all.take(0).len() == 0);
    while i < items.len()
        invariant
            i <= items@.len(),
            all == items.deep_view(),
            r.deep_view() == wanted(all.take(i as int)),
        decreases items@.len() - i,
    {
        let ghost seen = r.deep_view();
        assert(all.take(i + 1).drop_last() =~= all.take(i as int));
        assert(all[i as int] == items@[i as int].deep_view());
        match &items[i] {
            Creation::Entry(e) => {
                r.push(e.clone());
                assert(r.deep_view() =~= seen.push(e.deep_view()));
            },
            Creation::Invalid(_) => {},
        }
        i += 1;
    }
    assert(all.take(all.len() as int) =~= all);
    r
}

/// What came of a change to the stored entries.
#[derive(Debug)]
pub enum AclOutcome {
    /// It was made.
    Stored,
    /// Another broker is the controller.
    NotController(String),
    /// It failed.
    Failed,
}

/// What an [`AclOutcome`] says.
pub enum AclOutcomeView {
    Stored,
    NotController(Seq<char>),
    Failed,
}

impl DeepView for AclOutcome {
    type V = AclOutcomeView;

    open spec fn deep_view(&self) -> AclOutcomeView {
        match *self {
            AclOutcome::Stored => AclOutcomeView::Stored,
            AclOutcome::NotController(m) => AclOutcomeView::NotController(m@),
            AclOutcome::Failed => AclOutcomeView::Failed,
        }
    }
}

/// What a failed change to the stored entries means.
pub fn acl_failure(e: &Error) -> (o: AclOutcome)
    ensures
        o.deep_view() == (match *e {
            Error::InvalidArgument(m) => if "not controller"@.is_prefix_of(m@) {
                AclOutcomeView::NotController(m@)
            } else {
                AclOutcomeView::Failed
            },
            _ => AclOutcomeView::Failed,
        }),
{
    match e {
        Error::InvalidArgument(m) => if starts_with(m.as_str(), "not controller") {
            AclOutcome::NotController(m.clone())
        } else {
            AclOutcome::Failed
        },
        _ => AclOutcome::Failed,
    }
}

/// The answer for an entry of a CreateAcls request.
#[derive(Debug)]
pub struct CreationRow {
    pub error: i16,
    pub message: Option<String>,
}

/// What a [`CreationRow`] says.
#[verifier::ext_equal]
pub struct CreationRowView {
    pub error: i16,
    pub message: Option<Seq<char>>,
}

impl DeepView for CreationRow {
    type V = CreationRowView;

    open spec fn deep_view(&self) -> CreationRowView {
        CreationRowView { error: self.error, message: self.message.deep_view() }
    }
}

/// The text, borrowed.
pub(crate) fn borrowed(s: &Option<String>) -> (r: Option<&str>)
    ensures
        r.deep_view() == s.deep_view(),
{
    match s {
        Some(t) => Some(t.as_str()),
        None => None,
    }
}

impl Row for CreationRow {
    open spec fn row(&self, o: Out, version: i16, flexible: bool) -> Out {
        o.i16(self.error as int).opt_text(flexible, self.message.deep_view()).end(flexible)
    }

    fn put(&self, out: &mut BytesMut, version: i16, flexible: bool) {
        put_i16(out, self.error);
        put_opt_text(out, flexible, borrowed(&self.message));
        put_end(out, flexible);
    }
}

/// The answer for an entry. `outcome`: what came of creating the entries, where the
/// gate is open.
pub open spec fn creation_row(
    item: CreationView,
    gate: AdminGate,
    outcome: AclOutcomeView,
) -> CreationRowView {
    match gate {
        AdminGate::NotController(id) => CreationRowView {
            error: KafkaErrorCode::NotController.code(),
            message: Some(not_controller_text(id)),
        },
        AdminGate::Denied => CreationRowView {
            error: KafkaErrorCode::ClusterAuthorizationFailed.code(),
            message: Some("Cluster Alter denied"@),
        },
        AdminGate::Open => match item {
            CreationView::Invalid(m) => CreationRowView {
                error: KafkaErrorCode::InvalidRequest.code(),
                message: Some(m),
            },
            CreationView::Entry(_) => match outcome {
                AclOutcomeView::Stored => CreationRowView { error: 0, message: None },
                AclOutcomeView::NotController(m) => CreationRowView {
                    error: KafkaErrorCode::NotController.code(),
                    message: Some(m),
                },
                AclOutcomeView::Failed => CreationRowView {
                    error: KafkaErrorCode::Unknown.code(),
                    message: Some("failed to persist ACLs"@),
                },
            },
        },
    }
}

fn answer_creation(item: &Creation, gate: AdminGate, outcome: &AclOutcome) -> (r: CreationRow)
    ensures
        r.deep_view() == creation_row(item.deep_view(), gate, outcome.deep_view()),
{
    match gate {
        AdminGate::NotController(id) => CreationRow {
            error: KafkaErrorCode::NotController.as_i16(),
            message: Some(not_controller_message(id)),
        },
        AdminGate::Denied => CreationRow {
            error: KafkaErrorCode::ClusterAuthorizationFailed.as_i16(),
            message: Some("Cluster Alter denied".to_owned()),
        },
        AdminGate::Open => match item {
            Creation::Invalid(m) => CreationRow {
                error: KafkaErrorCode::InvalidRequest.as_i16(),
                message: Some(m.clone()),
            },
            Creation::Entry(_) => match outcome {
                AclOutcome::Stored => CreationRow { error: 0, message: None },
                AclOutcome::NotController(m) => CreationRow {
                    error: KafkaErrorCode::NotController.as_i16(),
                    message: Some(m.clone()),
                },
                AclOutcome::Failed => CreationRow {
                    error: KafkaErrorCode::Unknown.as_i16(),
                    message: Some("failed to persist ACLs".to_owned()),
                },
            },
        },
    }
}

/// The answers for the entries of a CreateAcls request.
pub fn create_acls_rows(items: &Vec<Creation>, gate: AdminGate, outcome: &AclOutcome) -> (rows: Vec<
    CreationRow,
>)
    ensures
        rows.deep_view() == Seq::new(
            items@.len(),
            |i: int| creation_row(items.deep_view()[i], gate, outcome.deep_view()),
        ),
{
    let mut rows: Vec<CreationRow> = Vec::new();
    let mut i: usize = 0;
    while i < items.len()
        invariant
            i <= items@.len(),
            rows@.len() == i,
            forall|j: int|
                0 <= j < i ==> (#[trigger] rows@[j]).deep_view() == creation_row(
                    items.deep_view()[j],
                    gate,
                    outcome.deep_view(),
                ),
        decreases items@.len() - i,
    {
        let row = answer_creation(&items[i], gate, outcome);
        rows.push(row);
        i += 1;
    }
    assert(rows.deep_view() =~= Seq::new(
        items@.len(),
        |i: int| creation_row(items.deep_view()[i], gate, outcome.deep_view()),
    ));
    rows
}

/// A CreateAcls response.
pub open spec fn create_acls_out(o: Out, version: i16, rows: Seq<CreationRow>) -> Out {
    message::rows_out(o.i32(0), rows, version, version >= 2).end(version >= 2)
}

/// Writes a CreateAcls response. The answer to a request that cannot be read has no
/// rows.
pub fn encode_create_acls(out: &mut BytesMut, version: i16, rows: &Vec<CreationRow>)
    ensures
        final(out)@ == create_acls_out(old(out)@, version, rows@),
{
    put_i32(out, 0);
    put_rows(out, rows.as_slice(), version, version >= 2);
    put_end(out, version >= 2);
}

/// A filter of a DeleteAcls request.
#[derive(Debug)]
pub enum Deletion {
    /// Which entries to delete.
    Filter(AclFilter),
    /// What is wrong with it.
    Invalid(String),
}

/// What a [`Deletion`] says.
pub enum DeletionView {
    Filter(AclFilterView),
    Invalid(Seq<char>),
}

impl DeepView for Deletion {
    type V = DeletionView;

    open spec fn deep_view(&self) -> DeletionView {
        match *self {
            Deletion::Filter(f) => DeletionView::Filter(f.deep_view()),
            Deletion::Invalid(m) => DeletionView::Invalid(m@),
        }
    }
}

/// One round over the filters of a request. A filter that cannot be read is told of,
/// and reading goes on behind it.
pub open spec fn deletion_step(version: i16, cluster: Seq<char>) -> spec_fn(Src) -> Step<
    DeletionView,
> {
    |b: Src|
        {
            let p = acl::filter_at(b, version, version >= 2, cluster);
            wire::keep(
                match p.value {
                    Ok(f) => DeletionView::Filter(f),
                    Err(m) => DeletionView::Invalid(m),
                },
                p.rest,
            )
        }
}

/// The filters of a DeleteAcls request, or nothing where they cannot be counted.
pub open spec fn delete_acls_at(b: Src, version: i16, cluster: Seq<char>) -> Option<
    Seq<DeletionView>,
> {
    let c = count_or_none(b, version >= 2);
    match c.value {
        Err(_) => None,
        Ok(n) => Some(wire::rounds(c.rest, n, deletion_step(version, cluster)).0),
    }
}

/// Reads a DeleteAcls request.
pub fn decode_delete_acls(src: &mut Bytes, version: i16, cluster: &str) -> (r: Option<Vec<Deletion>>)
    ensures
        r.deep_view() == delete_acls_at(old(src)@, version, cluster@),
{
    let ghost f = deletion_step(version, cluster@);
    let n: usize = match read_count_or_none(src, version >= 2) {
        None => return None,
        Some(n) => n,
    };
    let mut v: Vec<Deletion> = Vec::new();
    let mut i: usize = 0;
    let ghost whole = wire::rounds(src@, n as nat, f);
    proof {
        wire::lemma_rounds_start(src@, n as nat, f);
        assert(v.deep_view() =~= Seq::empty());
    }
    while i < n
        invariant
            i <= n,
            f == deletion_step(version, cluster@),
            delete_acls_at(old(src)@, version, cluster@) == Some(whole.0),
            whole == wire::after(v.deep_view(), wire::rounds(src@, (n - i) as nat, f)),
        decreases n - i,
    {
        let ghost here = src@;
        let ghost seen = v.deep_view();
        let item = match parse_acl_filter(src, version, version >= 2, cluster) {
            Ok(x) => Deletion::Filter(x),
            Err(m) => Deletion::Invalid(m),
        };
        proof {
            wire::lemma_round_keep(seen, here, (n - i) as nat, f, item.deep_view(), src@);
        }
        v.push(item);
        assert(v.deep_view() =~= seen.push(item.deep_view()));
        i += 1;
    }
    proof {
        wire::lemma_rounds_none(v.deep_view(), src@, f);
    }
    Some(v)
}

/// An entry that was deleted.
#[derive(Debug)]
pub struct DeletedAcl {
    pub entry: AclEntry,
}

impl Row for DeletedAcl {
    open spec fn row(&self, o: Out, version: i16, flexible: bool) -> Out {
        let e = self.entry;
        let o = o.i16(0).opt_text(flexible, None).byte(e.resource_type.number() as int).text(
            flexible,
            acl::wire_name(e.resource_type, e.resource@),
        );
        let o = if version >= 1 {
            o.byte(KAFKA_PATTERN_LITERAL as int)
        } else {
            o
        };
        e.row(o, version, flexible)
    }

    fn put(&self, out: &mut BytesMut, version: i16, flexible: bool) {
        let e = &self.entry;
        put_i16(out, 0);
        put_opt_text(out, flexible, None);
        put_i8(out, volant_rt_to_kafka(e.resource_type));
        let name = kafka_resource_name(e.resource_type, e.resource.as_str());
        put_text(out, flexible, name.as_str());
        if version >= 1 {
            put_i8(out, KAFKA_PATTERN_LITERAL);
        }
        e.put(out, version, flexible);
    }
}

/// The answer for a filter of a DeleteAcls request.
#[derive(Debug)]
pub struct DeletionRow {
    pub error: i16,
    pub message: Option<String>,
    /// The entries that were deleted.
    pub matched: Vec<DeletedAcl>,
}

/// What a [`DeletionRow`] says.
#[verifier::ext_equal]
pub struct DeletionRowView {
    pub error: i16,
    pub message: Option<Seq<char>>,
    pub matched: Seq<AclEntryView>,
}

impl DeepView for DeletedAcl {
    type V = AclEntryView;

    open spec fn deep_view(&self) -> AclEntryView {
        self.entry.deep_view()
    }
}

impl DeepView for DeletionRow {
    type V = DeletionRowView;

    open spec fn deep_view(&self) -> DeletionRowView {
        DeletionRowView {
            error: self.error,
            message: self.message.deep_view(),
            matched: self.matched.deep_view(),
        }
    }
}

impl Row for DeletionRow {
    open spec fn row(&self, o: Out, version: i16, flexible: bool) -> Out {
        message::rows_out(
            o.i16(self.error as int).opt_text(flexible, self.message.deep_view()),
            self.matched@,
            version,
            flexible,
        ).end(flexible)
    }

    fn put(&self, out: &mut BytesMut, version: i16, flexible: bool) {
        put_i16(out, self.error);
        put_opt_text(out, flexible, borrowed(&self.message));
        put_rows(out, self.matched.as_slice(), version, flexible);
        put_end(out, flexible);
    }
}

/// The answer for a filter. `matched`: the entries that it means. `outcome`: what came
/// of deleting them.
pub open spec fn deletion_row(
    item: DeletionView,
    gate: AdminGate,
    matched: Seq<AclEntryView>,
    outcome: AclOutcomeView,
) -> DeletionRowView {
    let refused = |error: i16, message: Seq<char>| DeletionRowView {
        error,
        message: Some(message),
        matched: Seq::empty(),
    };
    match gate {
        AdminGate::NotController(id) => refused(
            KafkaErrorCode::NotController.code(),
            not_controller_text(id),
        ),
        AdminGate::Denied => refused(
            KafkaErrorCode::ClusterAuthorizationFailed.code(),
            "Cluster Alter denied"@,
        ),
        AdminGate::Open => match item {
            DeletionView::Invalid(m) => refused(KafkaErrorCode::InvalidRequest.code(), m),
            DeletionView::Filter(_) => match outcome {
                AclOutcomeView::Stored => DeletionRowView { error: 0, message: None, matched },
                AclOutcomeView::NotController(m) => refused(
                    KafkaErrorCode::NotController.code(),
                    m,
                ),
                AclOutcomeView::Failed => refused(
                    KafkaErrorCode::Unknown.code(),
                    "failed to delete ACLs"@,
                ),
            },
        },
    }
}

fn refuse_deletion(error: i16, message: String) -> (r: DeletionRow)
    ensures
        r.deep_view() == (DeletionRowView {
            error,
            message: Some(message@),
            matched: Seq::empty(),
        }),
{
    let matched: Vec<DeletedAcl> = Vec::new();
    assert(matched.deep_view() =~= Seq::empty());
    DeletionRow { error, message: Some(message), matched }
}

/// The answer for a filter of a DeleteAcls request.
pub fn delete_acls_row(
    item: &Deletion,
    gate: AdminGate,
    matched: &Vec<AclEntry>,
    outcome: &AclOutcome,
) -> (r: DeletionRow)
    ensures
        r.deep_view() == deletion_row(
            item.deep_view(),
            gate,
            matched.deep_view(),
            outcome.deep_view(),
        ),
{
    match gate {
        AdminGate::NotController(id) => refuse_deletion(
            KafkaErrorCode::NotController.as_i16(),
            not_controller_message(id),
        ),
        AdminGate::Denied => refuse_deletion(
            KafkaErrorCode::ClusterAuthorizationFailed.as_i16(),
            "Cluster Alter denied".to_owned(),
        ),
        AdminGate::Open => match item {
            Deletion::Invalid(m) => refuse_deletion(
                KafkaErrorCode::InvalidRequest.as_i16(),
                m.clone(),
            ),
            Deletion::Filter(_) => match outcome {
                AclOutcome::Stored => {
                    let mut rows: Vec<DeletedAcl> = Vec::new();
                    let mut i: usize = 0;
                    while i < matched.len()
                        invariant
                            i <= matched@.len(),
                            rows@.len() == i,
                            forall|j: int|
                                0 <= j < i ==> (#[trigger] rows@[j]).deep_view()
                                    == matched.deep_view()[j],
                        decreases matched@.len() - i,
                    {
                        rows.push(DeletedAcl { entry: matched[i].clone() });
                        i += 1;
                    }
                    assert(rows.deep_view() =~= matched.deep_view());
                    DeletionRow { error: 0, message: None, matched: rows }
                },
                AclOutcome::NotController(m) => refuse_deletion(
                    KafkaErrorCode::NotController.as_i16(),
                    m.clone(),
                ),
                AclOutcome::Failed => refuse_deletion(
                    KafkaErrorCode::Unknown.as_i16(),
                    "failed to delete ACLs".to_owned(),
                ),
            },
        },
    }
}

/// A DeleteAcls response.
pub open spec fn delete_acls_out(o: Out, version: i16, rows: Seq<DeletionRow>) -> Out {
    message::rows_out(o.i32(0), rows, version, version >= 2).end(version >= 2)
}

/// Writes a DeleteAcls response. The answer to a request that cannot be read has no
/// rows.
pub fn encode_delete_acls(out: &mut BytesMut, version: i16, rows: &Vec<DeletionRow>)
    ensures
        final(out)@ == delete_acls_out(old(out)@, version, rows@),
{
    put_i32(out, 0);
    put_rows(out, rows.as_slice(), version, version >= 2);
    put_end(out, version >= 2);
}

/// Behind a closed gate nothing is created or deleted: every answer is the refusal.
pub proof fn law_gate(
    item: CreationView,
    deletion: DeletionView,
    matched: Seq<AclEntryView>,
    gate: AdminGate,
    outcome: AclOutcomeView,
)
    requires
        gate != AdminGate::Open,
    ensures
        creation_row(item, gate, outcome).error == KafkaErrorCode::NotController.code()
            || creation_row(item, gate, outcome).error
            == KafkaErrorCode::ClusterAuthorizationFailed.code(),
        deletion_row(deletion, gate, matched, outcome).matched.len() == 0,
        deletion_row(deletion, gate, matched, outcome).error == creation_row(
            item,
            gate,
            outcome,
        ).error,
{
}

} // verus!
