//! The consumer group protocol: what members subscribe to and what they are assigned.

use bytes::{Bytes, BytesMut};
use vstd::prelude::*;
use vstd::utf8::*;

use crate::buffer::{
    copy_bytes, get_i32, get_u32, new_buf, put_i16, put_u32, remaining, advance, Contents,
};
use crate::codec::{get_string, put_bytes, put_len32, put_string};
use crate::error::{protocol, Result};
use crate::text;
use crate::wire;
use crate::wire::{Out, Parsed, Src};

verus! {

/// The topic names of a subscription: a version, the topics, and user data that
/// is not looked at.
pub open spec fn subscription_at(data: Seq<u8>) -> core::result::Result<
    Seq<Seq<char>>,
    Seq<char>,
> {
    let b = Src::of(data);
    if data.len() == 0 {
        Ok(Seq::empty())
    } else if b.left() < 2 {
        Err("truncated consumer subscription"@)
    } else if b.skip(2).left() < 4 {
        Err("truncated subscription topics"@)
    } else {
        let n = b.skip(2).i32();
        if n < 0 {
            Err("negative subscription topic count"@)
        } else {
            wire::all_of(b.skip(6), n as nat, |c: Src| c.string()).value
        }
    }
}

/// Decode Kafka consumer protocol subscription metadata → topic names.
///
/// Layout: `version:i16 | topics:[string] | user_data:bytes`.
pub fn decode_consumer_subscription(data: &[u8]) -> (r: Result<Vec<String>>)
    ensures
        crate::error::agrees(r, subscription_at(data@)),
{
    let mut topics: Vec<String> = Vec::new();
    assert(topics.deep_view() =~= Seq::empty());
    if data.len() == 0 {
        return Ok(topics);
    }
    let mut src = copy_bytes(data);
    let ghost b = src@;
    if remaining(&src) < 2 {
        return Err(protocol("truncated consumer subscription"));
    }
    advance(&mut src, 2);
    if remaining(&src) < 4 {
        return Err(protocol("truncated subscription topics"));
    }
    let n: i32 = get_i32(&mut src);
    if n < 0 {
        return Err(protocol("negative subscription topic count"));
    }
    assert(src@ =~= b.skip(6));
    let ghost f = |c: Src| c.string();
    let ghost whole = wire::all_of(src@, n as nat, f);
    let mut i: i32 = 0;
    proof {
        wire::lemma_all_start(src@, n as nat, f);
    }
    while i < n
        invariant
            0 <= i <= n,
            f == |c: Src| c.string(),
            whole.value == subscription_at(data@),
            whole == wire::all_after(topics.deep_view(), wire::all_of(src@, (n - i) as nat, f)),
        decreases n - i,
    {
        let ghost here = src@;
        let ghost seen = topics.deep_view();
        match get_string(&mut src) {
            Err(e) => return Err(e),
            Ok(t) => {
                proof {
                    wire::lemma_all_step(seen, here, (n - i) as nat, f, t@);
                }
                topics.push(t);
                assert(topics.deep_view() =~= seen.push(t@));
            },
        }
        i += 1;
    }
    proof {
        wire::lemma_all_done(topics.deep_view(), src@, f);
    }
    Ok(topics)
}

/// A subscription to the given topics, without user data.
pub open spec fn subscription_out(topics: Seq<Seq<char>>) -> Seq<u8> {
    Out::new().i16(0).i32(topics.len() as int).each(
        topics,
        |o: Out, t: Seq<char>| o.string(t),
    ).blob(Some(Seq::empty())).bytes
}

/// Encode Kafka consumer subscription metadata.
pub fn encode_consumer_subscription(topics: &[&str]) -> (out: BytesMut)
    ensures
        out@.bytes == subscription_out(topics.deep_view()),
{
    let ghost f = |o: Out, t: Seq<char>| o.string(t);
    let ghost ts = topics.deep_view();
    let mut out = new_buf();
    put_i16(&mut out, 0);
    put_len32(&mut out, topics.len());
    let ghost start = out@;
    let mut i: usize = 0;
    proof {
        wire::lemma_each_all(start, ts, f);
    }
    while i < topics.len()
        invariant
            i <= topics@.len(),
            ts == topics.deep_view(),
            f == |o: Out, t: Seq<char>| o.string(t),
            out@ == start.each(ts.take(i as int), f),
        decreases topics@.len() - i,
    {
        put_string(&mut out, topics[i]);
        proof {
            assert(ts[i as int] == topics@[i as int]@);
            wire::lemma_each_step(start, ts, i as int, f);
        }
        i += 1;
    }
    proof {
        wire::lemma_each_all(start, ts, f);
    }
    let none: [u8; 0] = [];
    put_bytes(&mut out, Some(&none));
    assert(none@ =~= Seq::empty());
    out
}

/// A topic with the partitions of it that are assigned.
pub type TopicParts = (Seq<char>, Seq<u32>);

/// `groups` with `part` added to the group of `topic`, which is put in its place
/// in the order of the topics where it is new.
pub open spec fn add_part<P>(
    groups: Seq<(Seq<char>, Seq<P>)>,
    topic: Seq<char>,
    part: P,
) -> Seq<(Seq<char>, Seq<P>)>
    decreases groups.len(),
{
    if groups.len() == 0 {
        seq![(topic, seq![part])]
    } else if groups[0].0 == topic {
        seq![(topic, groups[0].1.push(part))] + groups.skip(1)
    } else if text::before(topic, groups[0].0) {
        seq![(topic, seq![part])] + groups
    } else {
        seq![groups[0]] + add_part(groups.skip(1), topic, part)
    }
}

/// An assignment by topic, in the order of the topics.
pub open spec fn by_topic<P>(assignment: Seq<(Seq<char>, P)>) -> Seq<(Seq<char>, Seq<P>)>
    decreases assignment.len(),
{
    if assignment.len() == 0 {
        Seq::empty()
    } else {
        add_part(
            by_topic(assignment.drop_last()),
            assignment.last().0,
            assignment.last().1,
        )
    }
}

/// A topic with its partitions.
pub open spec fn topic_parts_out(o: Out, t: TopicParts) -> Out {
    o.string(t.0).i32(t.1.len() as int).each(t.1, |o: Out, p: u32| o.i32(p as int))
}

/// An assignment, without user data.
pub open spec fn assignment_out(groups: Seq<TopicParts>) -> Seq<u8> {
    Out::new().i16(0).i32(groups.len() as int).each(
        groups,
        |o: Out, t: TopicParts| topic_parts_out(o, t),
    ).blob(Some(Seq::empty())).bytes
}

/// Adds `item` to the group of `topic`.
pub(crate) fn add_to_groups<T: DeepView>(
    groups: &mut Vec<(String, Vec<T>)>,
    topic: &String,
    item: T,
)
    ensures
        final(groups).deep_view() == add_part(
            old(groups).deep_view(),
            topic@,
            item.deep_view(),
        ),
{
    let ghost part = item.deep_view();
    let ghost all = groups.deep_view();
    let ghost want = add_part(all, topic@, part);
    let mut i: usize = 0;
    proof {
        assert(all.take(0) + add_part(all.skip(0), topic@, part) =~= add_part(
            all.skip(0),
            topic@,
            part,
        ));
        assert(all.skip(0) =~= all);
    }
    while i < groups.len()
        invariant
            i <= groups@.len(),
            all == groups.deep_view(),
            all == old(groups).deep_view(),
            part == item.deep_view(),
            want == add_part(all, topic@, part),
            want == all.take(i as int) + add_part(all.skip(i as int), topic@, part),
        decreases groups@.len() - i,
    {
        let ghost tail = all.skip(i as int);
        assert(tail[0] == all[i as int]);
        assert(tail.skip(1) =~= all.skip(i + 1));
        if groups[i].0 == *topic {
            let ghost g0 = groups@;
            let mut entry = groups.remove(i);
            entry.1.push(item);
            groups.insert(i, entry);
            proof {
                assert(entry.deep_view() == (topic@, all[i as int].1.push(part))) by {
                    assert(entry.1.deep_view() =~= all[i as int].1.push(part));
                }
                assert(groups.deep_view() =~= all.take(i as int) + (seq![
                    (topic@, all[i as int].1.push(part)),
                ] + all.skip(i + 1)));
            }
            return;
        }
        if text::str_before(topic.as_str(), groups[i].0.as_str()) {
            let mut parts: Vec<T> = Vec::new();
            parts.push(item);
            assert(parts.deep_view() =~= seq![part]);
            groups.insert(i, (topic.clone(), parts));
            assert(groups.deep_view() =~= all.take(i as int) + (seq![(topic@, seq![part])]
                + all.skip(i as int)));
            return;
        }
        assert(all.take(i as int) + (seq![all[i as int]] + add_part(
            all.skip(i + 1),
            topic@,
            part,
        )) =~= all.take(i + 1) + add_part(all.skip(i + 1), topic@, part));
        i += 1;
    }
    let mut parts: Vec<T> = Vec::new();
    parts.push(item);
    assert(parts.deep_view() =~= seq![part]);
    groups.push((topic.clone(), parts));
    assert(groups.deep_view() =~= all.take(i as int) + seq![(topic@, seq![part])]);
}

fn group_by_topic(assignment: &[(String, u32)]) -> (groups: Vec<(String, Vec<u32>)>)
    ensures
        groups.deep_view() == by_topic(assignment.deep_view()),
{
    let mut groups: Vec<(String, Vec<u32>)> = Vec::new();
    let ghost all = assignment.deep_view();
    let mut i: usize = 0;
    assert(groups.deep_view() =~= Seq::empty());
    assert(all.take(0).len() == 0);
    while i < assignment.len()
        invariant
            i <= assignment@.len(),
            all == assignment.deep_view(),
            groups.deep_view() == by_topic(all.take(i as int)),
        decreases assignment@.len() - i,
    {
        assert(all.take(i + 1).drop_last() =~= all.take(i as int));
        assert(all[i as int] == (assignment@[i as int].0@, assignment@[i as int].1));
        add_to_groups(&mut groups, &assignment[i].0, assignment[i].1);
        i += 1;
    }
    assert(all.take(all.len() as int) =~= all);
    groups
}

fn put_topic_parts(out: &mut BytesMut, topic: &String, parts: &Vec<u32>)
    ensures
        final(out)@ == topic_parts_out(old(out)@, (topic@, parts.deep_view())),
{
    let ghost f = |o: Out, p: u32| o.i32(p as int);
    let ghost ps = parts.deep_view();
    put_string(out, topic.as_str());
    put_len32(out, parts.len());
    let ghost start = out@;
    let mut i: usize = 0;
    proof {
        wire::lemma_each_all(start, ps, f);
    }
    while i < parts.len()
        invariant
            i <= parts@.len(),
            ps == parts.deep_view(),
            f == |o: Out, p: u32| o.i32(p as int),
            out@ == start.each(ps.take(i as int), f),
        decreases parts@.len() - i,
    {
        put_u32(out, parts[i]);
        proof {
            wire::lemma_each_step(start, ps, i as int, f);
        }
        i += 1;
    }
    proof {
        wire::lemma_each_all(start, ps, f);
    }
}

/// Encode Kafka consumer protocol member assignment bytes.
///
/// Layout: `version:i16 | [topic [partition:i32]] | user_data:bytes`.
pub fn encode_consumer_assignment(assignment: &[(String, u32)]) -> (out: BytesMut)
    ensures
        out@.bytes == assignment_out(by_topic(assignment.deep_view())),
{
    let groups = group_by_topic(assignment);
    let ghost f = |o: Out, t: TopicParts| topic_parts_out(o, t);
    let ghost gs = groups.deep_view();
    let mut out = new_buf();
    put_i16(&mut out, 0);
    put_len32(&mut out, groups.len());
    let ghost start = out@;
    let mut i: usize = 0;
    proof {
        wire::lemma_each_all(start, gs, f);
    }
    while i < groups.len()
        invariant
            i <= groups@.len(),
            gs == groups.deep_view(),
            f == |o: Out, t: TopicParts| topic_parts_out(o, t),
            out@ == start.each(gs.take(i as int), f),
        decreases groups@.len() - i,
    {
        put_topic_parts(&mut out, &groups[i].0, &groups[i].1);
        proof {
            assert(gs[i as int] == (groups@[i as int].0@, groups@[i as int].1.deep_view()));
            wire::lemma_each_step(start, gs, i as int, f);
        }
        i += 1;
    }
    proof {
        wire::lemma_each_all(start, gs, f);
    }
    let none: [u8; 0] = [];
    put_bytes(&mut out, Some(&none));
    assert(none@ =~= Seq::empty());
    out
}

/// A partition number of an assignment.
pub open spec fn part_at(b: Src) -> Parsed<u32> {
    if b.left() < 4 {
        wire::fail("truncated assignment partition id"@, b)
    } else {
        wire::done(b.u32() as u32, b.skip(4))
    }
}

/// A topic of an assignment with its partitions.
pub open spec fn topic_parts_at(b: Src) -> Parsed<TopicParts> {
    let t = b.string();
    match t.value {
        Err(m) => wire::fail(m, t.rest),
        Ok(topic) => if t.rest.left() < 4 {
            wire::fail("truncated assignment partitions"@, t.rest)
        } else {
            let n = t.rest.i32();
            let p = wire::all_of(
                t.rest.skip(4),
                if n < 0 {
                    0
                } else {
                    n as nat
                },
                |c: Src| part_at(c),
            );
            match p.value {
                Err(m) => wire::fail(m, p.rest),
                Ok(parts) => wire::done((topic, parts), p.rest),
            }
        },
    }
}

/// The partitions of a topic, each with the topic.
pub open spec fn pairs(t: TopicParts) -> Seq<(Seq<char>, u32)> {
    Seq::new(t.1.len(), |i: int| (t.0, t.1[i]))
}

/// The partitions of all the topics, each with its topic.
pub open spec fn all_pairs(groups: Seq<TopicParts>) -> Seq<(Seq<char>, u32)>
    decreases groups.len(),
{
    if groups.len() == 0 {
        Seq::empty()
    } else {
        all_pairs(groups.drop_last()) + pairs(groups.last())
    }
}

/// The topics of an assignment with their partitions.
pub open spec fn assignment_topics_at(data: Seq<u8>) -> core::result::Result<
    Seq<TopicParts>,
    Seq<char>,
> {
    let b = Src::of(data);
    if data.len() == 0 {
        Ok(Seq::empty())
    } else if b.left() < 6 {
        Err("truncated member assignment"@)
    } else {
        let n = b.skip(2).i32();
        if n < 0 {
            Err("negative assignment topic count"@)
        } else {
            wire::all_of(b.skip(6), n as nat, |c: Src| topic_parts_at(c)).value
        }
    }
}

/// An assignment: the topic and number of every partition.
pub open spec fn assignment_at(data: Seq<u8>) -> core::result::Result<
    Seq<(Seq<char>, u32)>,
    Seq<char>,
> {
    match assignment_topics_at(data) {
        Err(m) => Err(m),
        Ok(groups) => Ok(all_pairs(groups)),
    }
}

fn read_topic_parts(src: &mut Bytes, out: &mut Vec<(String, u32)>) -> (r: Result<()>)
    ensures
        match (r, topic_parts_at(old(src)@).value) {
            (Ok(_), Ok(t)) => final(out).deep_view() == old(out).deep_view() + pairs(t),
            (Err(e), Err(m)) => e.is_protocol(m),
            _ => false,
        },
        final(src)@ == topic_parts_at(old(src)@).rest,
{
    let topic = match get_string(src) {
        Err(e) => return Err(e),
        Ok(t) => t,
    };
    if remaining(src) < 4 {
        return Err(protocol("truncated assignment partitions"));
    }
    let pc: i32 = get_i32(src);
    let n: i32 = if pc < 0 {
        0
    } else {
        pc
    };
    let ghost f = |c: Src| part_at(c);
    let ghost whole = wire::all_of(src@, n as nat, f);
    let ghost base = out.deep_view();
    let ghost mut seen: Seq<u32> = Seq::empty();
    let mut i: i32 = 0;
    proof {
        wire::lemma_all_start(src@, n as nat, f);
        assert(base + pairs((topic@, seen)) =~= base);
    }
    while i < n
        invariant
            0 <= i <= n,
            f == |c: Src| part_at(c),
            base == old(out).deep_view(),
            out.deep_view() == base + pairs((topic@, seen)),
            whole == wire::all_after(seen, wire::all_of(src@, (n - i) as nat, f)),
            match (topic_parts_at(old(src)@).value, whole.value) {
                (Ok(t), Ok(p)) => t == (topic@, p),
                (Err(m), Err(k)) => m == k,
                _ => false,
            },
            topic_parts_at(old(src)@).rest == whole.rest,
        decreases n - i,
    {
        let ghost here = src@;
        if remaining(src) < 4 {
            return Err(protocol("truncated assignment partition id"));
        }
        let p: u32 = get_u32(src);
        proof {
            wire::lemma_all_step(seen, here, (n - i) as nat, f, p);
        }
        let ghost before = out.deep_view();
        out.push((topic.clone(), p));
        proof {
            assert(out.deep_view() =~= before.push((topic@, p)));
            assert(out.deep_view() =~= base + pairs((topic@, seen.push(p))));
            seen = seen.push(p);
        }
        i += 1;
    }
    proof {
        wire::lemma_all_done(seen, src@, f);
    }
    Ok(())
}

/// Decode Kafka consumer protocol member assignment.
pub fn decode_consumer_assignment(data: &[u8]) -> (r: Result<Vec<(String, u32)>>)
    ensures
        crate::error::agrees(r, assignment_at(data@)),
{
    let mut out: Vec<(String, u32)> = Vec::new();
    assert(out.deep_view() =~= Seq::empty());
    if data.len() == 0 {
        return Ok(out);
    }
    let mut src = copy_bytes(data);
    let ghost b = src@;
    if remaining(&src) < 6 {
        return Err(protocol("truncated member assignment"));
    }
    advance(&mut src, 2);
    let n: i32 = get_i32(&mut src);
    if n < 0 {
        return Err(protocol("negative assignment topic count"));
    }
    assert(src@ =~= b.skip(6));
    let ghost f = |c: Src| topic_parts_at(c);
    let ghost whole = wire::all_of(src@, n as nat, f);
    let ghost mut seen: Seq<TopicParts> = Seq::empty();
    let mut i: i32 = 0;
    proof {
        wire::lemma_all_start(src@, n as nat, f);
    }
    while i < n
        invariant
            0 <= i <= n,
            f == |c: Src| topic_parts_at(c),
            whole.value == assignment_topics_at(data@),
            out.deep_view() == all_pairs(seen),
            whole == wire::all_after(seen, wire::all_of(src@, (n - i) as nat, f)),
        decreases n - i,
    {
        let ghost here = src@;
        match read_topic_parts(&mut src, &mut out) {
            Err(e) => return Err(e),
            Ok(_) => {},
        }
        proof {
            let t = topic_parts_at(here).value->Ok_0;
            wire::lemma_all_step(seen, here, (n - i) as nat, f, t);
            assert(seen.push(t).drop_last() =~= seen);
            seen = seen.push(t);
        }
        i += 1;
    }
    proof {
        wire::lemma_all_done(seen, src@, f);
    }
    Ok(out)
}

} // verus!
