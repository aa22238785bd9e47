use vstd::prelude::*;

use crate::packets::enums::QosLevel;
use crate::pattern::{filter_matches, Pattern};
use crate::utils::{split_levels, view_strings};

verus! {

/// A flat subscription map: each stored filter name carries its subscribers
/// with their granted QoS. Matching walks every stored name against the
/// published topic.
#[derive(Debug)]
pub struct Topics {
    pub entries: Vec<(String, Vec<(String, QosLevel)>)>,
}

/// Whether a delivery list holds a client at a QoS.
pub open spec fn in_res_q(r: Seq<(String, QosLevel)>, c: Seq<char>, q: QosLevel) -> bool {
    exists|k: int| 0 <= k < r.len() && (#[trigger] r[k]).0@ == c && r[k].1 == q
}

impl Topics {
    /// Whether a client subscribes under a stored filter name.
    pub open spec fn has_sub(self, t: Seq<char>, c: Seq<char>) -> bool {
        exists|i: int, j: int|
            #![trigger self.entries@[i].1@[j]]
            0 <= i < self.entries@.len() && self.entries@[i].0@ == t && 0 <= j
                < self.entries@[i].1@.len() && self.entries@[i].1@[j].0@ == c
    }

    /// Whether a client subscribes under a stored filter name at a QoS.
    pub open spec fn has_sub_qos(self, t: Seq<char>, c: Seq<char>, q: QosLevel) -> bool {
        exists|i: int, j: int|
            #![trigger self.entries@[i].1@[j]]
            0 <= i < self.entries@.len() && self.entries@[i].0@ == t && 0 <= j
                < self.entries@[i].1@.len() && self.entries@[i].1@[j].0@ == c
                && self.entries@[i].1@[j].1 == q
    }

    /// Whether a client subscribes, at a QoS, under a stored filter name
    /// that matches the topic.
    pub open spec fn has_matching(self, c: Seq<char>, q: QosLevel, tl: Seq<Seq<char>>) -> bool {
        exists|i: int, j: int|
            #![trigger self.entries@[i].1@[j]]
            0 <= i < self.entries@.len() && filter_matches(
                split_levels(self.entries@[i].0@),
                tl,
            ) && 0 <= j < self.entries@[i].1@.len() && self.entries@[i].1@[j].0@ == c
                && self.entries@[i].1@[j].1 == q
    }

    /// Well-formedness: one entry per filter name, one subscriber record per
    /// client inside an entry, and no empty entry.
    pub open spec fn wf(self) -> bool {
        topics_wf(self.entries@)
    }

    /// An empty map.
    pub fn new() -> (r: Self)
        ensures
            r.entries@.len() == 0,
            r.wf(),
    {
        Topics { entries: Vec::new() }
    }

    /// Every subscriber of every stored filter name that matches the topic,
    /// with its granted QoS; a client subscribed under several matching
    /// names appears once for each.
    pub fn get_matches(&self, topic: &String) -> (r: Vec<(String, QosLevel)>)
        ensures
            forall|k: int|
                0 <= k < r@.len() ==> self.has_matching(
                    (#[trigger] r@[k]).0@,
                    r@[k].1,
                    split_levels(topic@),
                ),
            forall|i: int, j: int|
                #![trigger self.entries@[i].1@[j]]
                0 <= i < self.entries@.len() && filter_matches(
                    split_levels(self.entries@[i].0@),
                    split_levels(topic@),
                ) && 0 <= j < self.entries@[i].1@.len() ==> in_res_q(
                    r@,
                    self.entries@[i].1@[j].0@,
                    self.entries@[i].1@[j].1,
                ),
    {
        let ghost tl = split_levels(topic@);
        let pattern = Pattern::new(topic.as_str());
        let mut out: Vec<(String, QosLevel)> = Vec::new();
        let mut i: usize = 0;
        while i < self.entries.len()
            invariant
                0 <= i <= self.entries@.len(),
                tl == split_levels(topic@),
                pattern.spec_levels() == tl,
                forall|k: int|
                    0 <= k < out@.len() ==> self.has_matching((#[trigger] out@[k]).0@, out@[k].1, tl),
                forall|i2: int, j2: int|
                    #![trigger self.entries@[i2].1@[j2]]
                    0 <= i2 < i && filter_matches(split_levels(self.entries@[i2].0@), tl) && 0 <= j2
                        < self.entries@[i2].1@.len() ==> in_res_q(
                        out@,
                        self.entries@[i2].1@[j2].0@,
                        self.entries@[i2].1@[j2].1,
                    ),
            decreases self.entries@.len() - i,
        {
            if pattern.matches(self.entries[i].0.as_str()) {
                let mut j: usize = 0;
                while j < self.entries[i].1.len()
                    invariant
                        0 <= j <= self.entries@[i as int].1@.len(),
                        i < self.entries@.len(),
                        tl == split_levels(topic@),
                        filter_matches(split_levels(self.entries@[i as int].0@), tl),
                        forall|k: int|
                            0 <= k < out@.len() ==> self.has_matching(
                                (#[trigger] out@[k]).0@,
                                out@[k].1,
                                tl,
                            ),
                        forall|i2: int, j2: int|
                            #![trigger self.entries@[i2].1@[j2]]
                            0 <= i2 < i && filter_matches(split_levels(self.entries@[i2].0@), tl)
                                && 0 <= j2 < self.entries@[i2].1@.len() ==> in_res_q(
                                out@,
                                self.entries@[i2].1@[j2].0@,
                                self.entries@[i2].1@[j2].1,
                            ),
                        forall|j2: int|
                            0 <= j2 < j ==> in_res_q(
                                out@,
                                (#[trigger] self.entries@[i as int].1@[j2]).0@,
                                self.entries@[i as int].1@[j2].1,
                            ),
                    decreases self.entries@[i as int].1@.len() - j,
                {
                    let ghost pre = out@;
                    out.push(
                        (self.entries[i].1[j].0.clone(), self.entries[i].1[j].1),
                    );
                    proof {
                        assert(out@.last().0@ == self.entries@[i as int].1@[j as int].0@);
                        assert(self.has_matching(out@.last().0@, out@.last().1, tl));
                        assert forall|k: int|
                            0 <= k < pre.len() implies (#[trigger] out@[k]) == pre[k] by {}
                        assert forall|i2: int, j2: int|
                            #![trigger self.entries@[i2].1@[j2]]
                            0 <= i2 < i && filter_matches(split_levels(self.entries@[i2].0@), tl)
                                && 0 <= j2 < self.entries@[i2].1@.len() implies in_res_q(
                            out@,
                            self.entries@[i2].1@[j2].0@,
                            self.entries@[i2].1@[j2].1,
                        ) by {
                            assert(in_res_q(
                                pre,
                                self.entries@[i2].1@[j2].0@,
                                self.entries@[i2].1@[j2].1,
                            ));
                            let w = choose|w: int|
                                0 <= w < pre.len() && (#[trigger] pre[w]).0@
                                    == self.entries@[i2].1@[j2].0@ && pre[w].1
                                    == self.entries@[i2].1@[j2].1;
                            assert(out@[w] == pre[w]);
                        }
                        assert forall|j2: int|
                            0 <= j2 < j + 1 implies in_res_q(
                            out@,
                            (#[trigger] self.entries@[i as int].1@[j2]).0@,
                            self.entries@[i as int].1@[j2].1,
                        ) by {
                            if j2 < j {
                                assert(in_res_q(
                                    pre,
                                    self.entries@[i as int].1@[j2].0@,
                                    self.entries@[i as int].1@[j2].1,
                                ));
                                let w = choose|w: int|
                                    0 <= w < pre.len() && (#[trigger] pre[w]).0@
                                        == self.entries@[i as int].1@[j2].0@ && pre[w].1
                                        == self.entries@[i as int].1@[j2].1;
                                assert(out@[w] == pre[w]);
                            } else {
                                assert(out@[out@.len() - 1].0@
                                    == self.entries@[i as int].1@[j2].0@);
                            }
                        }
                    }
                    j = j + 1;
                }
            }
            i = i + 1;
        }
        out
    }

    /// Record a subscription: a fresh filter name gains an entry, a fresh
    /// client joins its entry, and a client already there has its QoS
    /// replaced by the new one.
    pub fn subscribe(&mut self, topic_name: String, qos: QosLevel, cid: &String) -> (r: Result<
        (),
        u8,
    >)
        requires
            old(self).wf(),
        ensures
            final(self).wf(),
            r is Ok,
            final(self).has_sub_qos(topic_name@, cid@, qos),
            forall|t2: Seq<char>, c2: Seq<char>, q2: QosLevel|
                !(t2 == topic_name@ && c2 == cid@) && old(self).has_sub_qos(t2, c2, q2)
                    ==> #[trigger] final(self).has_sub_qos(t2, c2, q2),
    {
        let ghost t = topic_name@;
        let ghost c = cid@;
        let mut i: usize = 0;
        while i < self.entries.len()
            invariant_except_break
                0 <= i <= self.entries@.len(),
                *self == *old(self),
                old(self).wf(),
                t == topic_name@,
                c == cid@,
                forall|k: int| 0 <= k < i ==> (#[trigger] self.entries@[k]).0@ != t,
            ensures
                0 <= i <= self.entries@.len(),
                *self == *old(self),
                old(self).wf(),
                t == topic_name@,
                c == cid@,
                forall|k: int| 0 <= k < i ==> (#[trigger] self.entries@[k]).0@ != t,
                i < self.entries@.len() ==> self.entries@[i as int].0@ == t,
            decreases self.entries@.len() - i,
        {
            if self.entries[i].0.eq(&topic_name) {
                break ;
            }
            i = i + 1;
        }
        if i < self.entries.len() {
            let mut j: usize = 0;
            while j < self.entries[i].1.len()
                invariant_except_break
                    0 <= j <= self.entries@[i as int].1@.len(),
                    i < self.entries@.len(),
                    *self == *old(self),
                    old(self).wf(),
                    t == topic_name@,
                    c == cid@,
                    self.entries@[i as int].0@ == t,
                    forall|k: int|
                        0 <= k < j ==> (#[trigger] self.entries@[i as int].1@[k]).0@ != c,
                ensures
                    0 <= j <= self.entries@[i as int].1@.len(),
                    i < self.entries@.len(),
                    *self == *old(self),
                    old(self).wf(),
                    t == topic_name@,
                    c == cid@,
                    self.entries@[i as int].0@ == t,
                    forall|k: int|
                        0 <= k < j ==> (#[trigger] self.entries@[i as int].1@[k]).0@ != c,
                    j < self.entries@[i as int].1@.len() ==> self.entries@[i as int].1@[j as int].0@
                        == c,
                decreases self.entries@[i as int].1@.len() - j,
            {
                if self.entries[i].1[j].0.eq(cid) {
                    break ;
                }
                j = j + 1;
            }
            let ghost pre = self.entries@;
            if j < self.entries[i].1.len() {
                self.entries[i].1[j].1 = qos;
                proof {
                    assert(self.entries@[i as int].1@ =~= pre[i as int].1@.update(
                        j as int,
                        (pre[i as int].1@[j as int].0, qos),
                    ));
                    lemma_topics_frame(pre, self.entries@, i as int, j as int, c, qos);
                    assert(self.entries@[i as int].1@[j as int].0@ == c);
                    assert(self.entries@[i as int].1@[j as int].1 == qos);
                    assert forall|t2: Seq<char>, c2: Seq<char>, q2: QosLevel|
                        !(t2 == t && c2 == c) && old(self).has_sub_qos(t2, c2, q2)
                            implies #[trigger] self.has_sub_qos(t2, c2, q2) by {
                        let (i2, j2): (int, int) = choose|i2: int, j2: int|
                            #![trigger pre[i2].1@[j2]]
                            0 <= i2 < pre.len() && pre[i2].0@ == t2 && 0 <= j2 < pre[i2].1@.len()
                                && pre[i2].1@[j2].0@ == c2 && pre[i2].1@[j2].1 == q2;
                        if i2 == i as int && j2 == j as int {
                            assert(false);
                        } else {
                            assert(self.entries@[i2].1@[j2] == pre[i2].1@[j2]);
                            assert(self.entries@[i2].0 == pre[i2].0);
                        }
                    }
                }
            } else {
                self.entries[i].1.push((cid.clone(), qos));
                proof {
                    let newlen = self.entries@[i as int].1@.len();
                    assert(self.entries@[i as int].1@[newlen - 1].0@ == c);
                    lemma_topics_frame_push(pre, self.entries@, i as int, c, qos);
                    assert forall|t2: Seq<char>, c2: Seq<char>, q2: QosLevel|
                        !(t2 == t && c2 == c) && old(self).has_sub_qos(t2, c2, q2)
                            implies #[trigger] self.has_sub_qos(t2, c2, q2) by {
                        let (i2, j2): (int, int) = choose|i2: int, j2: int|
                            #![trigger pre[i2].1@[j2]]
                            0 <= i2 < pre.len() && pre[i2].0@ == t2 && 0 <= j2 < pre[i2].1@.len()
                                && pre[i2].1@[j2].0@ == c2 && pre[i2].1@[j2].1 == q2;
                        assert(self.entries@[i2].1@[j2] == pre[i2].1@[j2]);
                        assert(self.entries@[i2].0 == pre[i2].0);
                    }
                }
            }
            Ok(())
        } else {
            let mut subs: Vec<(String, QosLevel)> = Vec::new();
            subs.push((cid.clone(), qos));
            let ghost pre = self.entries@;
            self.entries.push((topic_name, subs));
            proof {
                let last = self.entries@.len() - 1;
                assert(self.entries@[last].0@ == t);
                assert(self.entries@[last].1@[0].0@ == c);
                assert forall|k: int|
                    0 <= k < pre.len() implies (#[trigger] self.entries@[k]) == pre[k] by {}
                assert forall|a: int, b: int|
                    0 <= a < b < self.entries@.len() implies (#[trigger] self.entries@[a]).0@ != (
                #[trigger] self.entries@[b]).0@ by {
                    if b < pre.len() {
                        assert(self.entries@[a] == pre[a]);
                        assert(self.entries@[b] == pre[b]);
                    } else {
                        assert(self.entries@[a] == pre[a]);
                    }
                }
                assert forall|t2: Seq<char>, c2: Seq<char>, q2: QosLevel|
                    !(t2 == t && c2 == c) && old(self).has_sub_qos(t2, c2, q2)
                        implies #[trigger] self.has_sub_qos(t2, c2, q2) by {
                    let (i2, j2): (int, int) = choose|i2: int, j2: int|
                        #![trigger pre[i2].1@[j2]]
                        0 <= i2 < pre.len() && pre[i2].0@ == t2 && 0 <= j2 < pre[i2].1@.len()
                            && pre[i2].1@[j2].0@ == c2 && pre[i2].1@[j2].1 == q2;
                    assert(self.entries@[i2] == pre[i2]);
                }
            }
            Ok(())
        }
    }

    /// Remove a client's subscription under a filter name; an entry left
    /// without subscribers disappears.
    pub fn unsubscribe(&mut self, cid: &String, topic_name: &String)
        requires
            old(self).wf(),
        ensures
            final(self).wf(),
            !final(self).has_sub(topic_name@, cid@),
            forall|t2: Seq<char>, c2: Seq<char>, q2: QosLevel|
                !(t2 == topic_name@ && c2 == cid@) && old(self).has_sub_qos(t2, c2, q2)
                    ==> #[trigger] final(self).has_sub_qos(t2, c2, q2),
    {
        let ghost t = topic_name@;
        let ghost c = cid@;
        let mut i: usize = 0;
        while i < self.entries.len()
            invariant_except_break
                0 <= i <= self.entries@.len(),
                *self == *old(self),
                old(self).wf(),
                t == topic_name@,
                c == cid@,
                forall|k: int| 0 <= k < i ==> (#[trigger] self.entries@[k]).0@ != t,
            ensures
                0 <= i <= self.entries@.len(),
                *self == *old(self),
                old(self).wf(),
                t == topic_name@,
                c == cid@,
                forall|k: int| 0 <= k < i ==> (#[trigger] self.entries@[k]).0@ != t,
                i < self.entries@.len() ==> self.entries@[i as int].0@ == t,
            decreases self.entries@.len() - i,
        {
            if self.entries[i].0.eq(topic_name) {
                break ;
            }
            i = i + 1;
        }
        if i >= self.entries.len() {
            proof {
                lemma_topics_no_entry(*self, t, c);
            }
            return ;
        }
        let mut j: usize = 0;
        while j < self.entries[i].1.len()
            invariant_except_break
                0 <= j <= self.entries@[i as int].1@.len(),
                i < self.entries@.len(),
                *self == *old(self),
                old(self).wf(),
                t == topic_name@,
                c == cid@,
                self.entries@[i as int].0@ == t,
                forall|k: int| 0 <= k < i ==> (#[trigger] self.entries@[k]).0@ != t,
                forall|k: int| 0 <= k < j ==> (#[trigger] self.entries@[i as int].1@[k]).0@ != c,
            ensures
                0 <= j <= self.entries@[i as int].1@.len(),
                i < self.entries@.len(),
                *self == *old(self),
                old(self).wf(),
                t == topic_name@,
                c == cid@,
                self.entries@[i as int].0@ == t,
                forall|k: int| 0 <= k < i ==> (#[trigger] self.entries@[k]).0@ != t,
                forall|k: int| 0 <= k < j ==> (#[trigger] self.entries@[i as int].1@[k]).0@ != c,
                j < self.entries@[i as int].1@.len() ==> self.entries@[i as int].1@[j as int].0@
                    == c,
            decreases self.entries@[i as int].1@.len() - j,
        {
            if self.entries[i].1[j].0.eq(cid) {
                break ;
            }
            j = j + 1;
        }
        let ghost pre = self.entries@;
        if j >= self.entries[i].1.len() {
            proof {
                lemma_topics_no_sub(*self, i as int, t, c);
            }
            return ;
        }
        if self.entries[i].1.len() <= 1 {
            self.entries.remove(i);
            proof {
                lemma_topics_entry_removed(pre, self.entries@, i as int, t, c);
                assert forall|t2: Seq<char>, c2: Seq<char>, q2: QosLevel|
                    !(t2 == t && c2 == c) && old(self).has_sub_qos(t2, c2, q2)
                        implies #[trigger] self.has_sub_qos(t2, c2, q2) by {
                    let (i2, j2): (int, int) = choose|i2: int, j2: int|
                        #![trigger pre[i2].1@[j2]]
                        0 <= i2 < pre.len() && pre[i2].0@ == t2 && 0 <= j2 < pre[i2].1@.len()
                            && pre[i2].1@[j2].0@ == c2 && pre[i2].1@[j2].1 == q2;
                    if i2 == i as int {
                        assert(pre[i2].1@.len() == 1);
                        assert(j2 == 0);
                        assert(false);
                    } else {
                        let i3 = if i2 < i as int {
                            i2
                        } else {
                            i2 - 1
                        };
                        assert(self.entries@[i3] == pre[i2]);
                        assert(self.entries@[i3].1@[j2].0@ == c2);
                    }
                }
            }
        } else {
            self.entries[i].1.remove(j);
            proof {
                assert(self.entries@[i as int].1@ =~= pre[i as int].1@.remove(j as int));
                lemma_topics_sub_removed(pre, self.entries@, i as int, j as int, t, c);
                assert forall|t2: Seq<char>, c2: Seq<char>, q2: QosLevel|
                    !(t2 == t && c2 == c) && old(self).has_sub_qos(t2, c2, q2)
                        implies #[trigger] self.has_sub_qos(t2, c2, q2) by {
                    let (i2, j2): (int, int) = choose|i2: int, j2: int|
                        #![trigger pre[i2].1@[j2]]
                        0 <= i2 < pre.len() && pre[i2].0@ == t2 && 0 <= j2 < pre[i2].1@.len()
                            && pre[i2].1@[j2].0@ == c2 && pre[i2].1@[j2].1 == q2;
                    if i2 == i as int {
                        assert(t2 == t);
                        assert(c2 != c);
                        assert(j2 != j as int);
                        let j3 = if j2 < j as int {
                            j2
                        } else {
                            j2 - 1
                        };
                        assert(self.entries@[i2].1@[j3] == pre[i2].1@[j2]);
                        assert(self.entries@[i2].0 == pre[i2].0);
                    } else {
                        assert(self.entries@[i2] == pre[i2]);
                    }
                }
            }
        }
    }
}

/// Updating one subscriber's QoS keeps the map well formed and every other
/// subscription in place.
proof fn lemma_topics_frame(
    pre: Seq<(String, Vec<(String, QosLevel)>)>,
    post: Seq<(String, Vec<(String, QosLevel)>)>,
    i: int,
    j: int,
    c: Seq<char>,
    qos: QosLevel,
)
    requires
        0 <= i < pre.len(),
        0 <= j < pre[i].1@.len(),
        pre[i].1@[j].0@ == c,
        post.len() == pre.len(),
        forall|k: int| 0 <= k < pre.len() && k != i ==> post[k] == pre[k],
        post[i].0 == pre[i].0,
        post[i].1@ == pre[i].1@.update(j, (pre[i].1@[j].0, qos)),
        topics_wf(pre),
    ensures
        topics_wf(post),
        forall|i2: int, j2: int|
            #![trigger post[i2].1@[j2]]
            0 <= i2 < post.len() && 0 <= j2 < post[i2].1@.len() && !(i2 == i && j2 == j)
                ==> post[i2].1@[j2] == pre[i2].1@[j2],
        forall|i2: int, j2: int|
            #![trigger post[i2].1@[j2]]
            0 <= i2 < post.len() && 0 <= j2 < post[i2].1@.len() ==> post[i2].1@[j2].0
                == pre[i2].1@[j2].0,
{
    assert forall|i2: int, j2: int|
        #![trigger post[i2].1@[j2]]
        0 <= i2 < post.len() && 0 <= j2 < post[i2].1@.len() implies post[i2].1@[j2].0
        == pre[i2].1@[j2].0 by {
        if i2 != i {
            assert(post[i2] == pre[i2]);
        }
    }
}

/// Adding a subscriber to an entry keeps the map well formed and every other
/// subscription in place.
proof fn lemma_topics_frame_push(
    pre: Seq<(String, Vec<(String, QosLevel)>)>,
    post: Seq<(String, Vec<(String, QosLevel)>)>,
    i: int,
    c: Seq<char>,
    qos: QosLevel,
)
    requires
        0 <= i < pre.len(),
        forall|k: int| 0 <= k < pre[i].1@.len() ==> (#[trigger] pre[i].1@[k]).0@ != c,
        post.len() == pre.len(),
        forall|k: int| 0 <= k < pre.len() && k != i ==> post[k] == pre[k],
        post[i].0 == pre[i].0,
        post[i].1@.len() == pre[i].1@.len() + 1,
        forall|k: int| 0 <= k < pre[i].1@.len() ==> post[i].1@[k] == pre[i].1@[k],
        post[i].1@.last().0@ == c,
        post[i].1@.last().1 == qos,
        topics_wf(pre),
    ensures
        topics_wf(post),
        forall|i2: int, j2: int|
            #![trigger post[i2].1@[j2]]
            0 <= i2 < post.len() && 0 <= j2 < post[i2].1@.len() && !(i2 == i && j2 == post[i2].1@.len()
                - 1) ==> post[i2].1@[j2] == pre[i2].1@[j2],
{
    assert forall|i2: int, j2: int|
        #![trigger post[i2].1@[j2]]
        0 <= i2 < post.len() && 0 <= j2 < post[i2].1@.len() && !(i2 == i && j2 == post[i2].1@.len()
            - 1) implies post[i2].1@[j2] == pre[i2].1@[j2] by {
        if i2 != i {
            assert(post[i2] == pre[i2]);
        }
    }
    assert forall|i2: int, j1: int, j2: int|
        0 <= i2 < post.len() && 0 <= j1 < j2 < (#[trigger] post[i2]).1@.len() implies (
    #[trigger] post[i2].1@[j1]).0@ != (#[trigger] post[i2].1@[j2]).0@ by {
        if i2 == i {
            if j2 < pre[i].1@.len() {
                assert(post[i2].1@[j1] == pre[i2].1@[j1]);
                assert(post[i2].1@[j2] == pre[i2].1@[j2]);
            } else {
                assert(post[i2].1@[j1] == pre[i2].1@[j1]);
                assert(post[i2].1@[j2].0@ == c);
            }
        } else {
            assert(post[i2] == pre[i2]);
        }
    }
}

/// The well-formedness of a subscription map, over its raw entries.
pub open spec fn topics_wf(entries: Seq<(String, Vec<(String, QosLevel)>)>) -> bool {
    &&& forall|a: int, b: int|
        0 <= a < b < entries.len() ==> (#[trigger] entries[a]).0@ != (#[trigger] entries[b]).0@
    &&& forall|i: int| 0 <= i < entries.len() ==> (#[trigger] entries[i]).1@.len() >= 1
    &&& forall|i: int, j1: int, j2: int|
        0 <= i < entries.len() && 0 <= j1 < j2 < (#[trigger] entries[i]).1@.len() ==> (
        #[trigger] entries[i].1@[j1]).0@ != (#[trigger] entries[i].1@[j2]).0@
}

/// Without an entry for the name, no client subscribes under it.
proof fn lemma_topics_no_entry(s: Topics, t: Seq<char>, c: Seq<char>)
    requires
        forall|k: int| 0 <= k < s.entries@.len() ==> (#[trigger] s.entries@[k]).0@ != t,
    ensures
        !s.has_sub(t, c),
{
}

/// Without a record for the client in the name's entry, the client does not
/// subscribe under it.
proof fn lemma_topics_no_sub(s: Topics, i: int, t: Seq<char>, c: Seq<char>)
    requires
        topics_wf(s.entries@),
        0 <= i < s.entries@.len(),
        s.entries@[i].0@ == t,
        forall|k: int| 0 <= k < s.entries@[i].1@.len() ==> (#[trigger] s.entries@[i].1@[k]).0@ != c,
    ensures
        !s.has_sub(t, c),
{
    assert forall|i2: int, j2: int|
        #![trigger s.entries@[i2].1@[j2]]
        !(0 <= i2 < s.entries@.len() && s.entries@[i2].0@ == t && 0 <= j2
            < s.entries@[i2].1@.len() && s.entries@[i2].1@[j2].0@ == c) by {
        if 0 <= i2 < s.entries@.len() && s.entries@[i2].0@ == t {
            assert(i2 == i);
        }
    }
}

/// Removing a whole entry removes its one subscriber's subscription and
/// keeps every other subscription in place.
proof fn lemma_topics_entry_removed(
    pre: Seq<(String, Vec<(String, QosLevel)>)>,
    post: Seq<(String, Vec<(String, QosLevel)>)>,
    i: int,
    t: Seq<char>,
    c: Seq<char>,
)
    requires
        topics_wf(pre),
        0 <= i < pre.len(),
        pre[i].0@ == t,
        pre[i].1@.len() == 1,
        pre[i].1@[0].0@ == c,
        post == pre.remove(i),
        forall|k: int| 0 <= k < pre.len() ==> !(k != i && (#[trigger] pre[k]).0@ == t),
    ensures
        topics_wf(post),
        forall|i2: int, j2: int|
            #![trigger post[i2].1@[j2]]
            !(0 <= i2 < post.len() && post[i2].0@ == t && 0 <= j2 < post[i2].1@.len()
                && post[i2].1@[j2].0@ == c),
{
    assert forall|k: int| 0 <= k < post.len() implies (#[trigger] post[k]) == (if k < i {
        pre[k]
    } else {
        pre[k + 1]
    }) by {}
    assert forall|i2: int, j2: int|
        #![trigger post[i2].1@[j2]]
        !(0 <= i2 < post.len() && post[i2].0@ == t && 0 <= j2 < post[i2].1@.len()
            && post[i2].1@[j2].0@ == c) by {
        if 0 <= i2 < post.len() && post[i2].0@ == t && 0 <= j2 < post[i2].1@.len()
            && post[i2].1@[j2].0@ == c {
            let i0 = if i2 < i {
                i2
            } else {
                i2 + 1
            };
            assert(post[i2] == pre[i0]);
            assert(i0 != i);
            assert(!(i0 != i && pre[i0].0@ == t));
            assert(false);
        }
    }
    assert forall|a: int, b: int|
        0 <= a < b < post.len() implies (#[trigger] post[a]).0@ != (#[trigger] post[b]).0@ by {
        let a0 = if a < i {
            a
        } else {
            a + 1
        };
        let b0 = if b < i {
            b
        } else {
            b + 1
        };
        assert(post[a] == pre[a0]);
        assert(post[b] == pre[b0]);
    }
    assert forall|k: int| 0 <= k < post.len() implies (#[trigger] post[k]).1@.len() >= 1 by {
        if k < i {
            assert(post[k] == pre[k]);
        } else {
            assert(post[k] == pre[k + 1]);
        }
    }
    assert forall|k: int, j1: int, j2: int|
        0 <= k < post.len() && 0 <= j1 < j2 < (#[trigger] post[k]).1@.len() implies (
    #[trigger] post[k].1@[j1]).0@ != (#[trigger] post[k].1@[j2]).0@ by {
        if k < i {
            assert(post[k] == pre[k]);
        } else {
            assert(post[k] == pre[k + 1]);
        }
    }
}

/// Removing one subscriber record removes that subscription and keeps every
/// other in place.
proof fn lemma_topics_sub_removed(
    pre: Seq<(String, Vec<(String, QosLevel)>)>,
    post: Seq<(String, Vec<(String, QosLevel)>)>,
    i: int,
    j: int,
    t: Seq<char>,
    c: Seq<char>,
)
    requires
        topics_wf(pre),
        0 <= i < pre.len(),
        pre[i].0@ == t,
        0 <= j < pre[i].1@.len(),
        pre[i].1@.len() >= 2,
        pre[i].1@[j].0@ == c,
        post.len() == pre.len(),
        forall|k: int| 0 <= k < pre.len() && k != i ==> post[k] == pre[k],
        post[i].0 == pre[i].0,
        post[i].1@ == pre[i].1@.remove(j),
        forall|k: int| 0 <= k < pre.len() ==> !(k != i && (#[trigger] pre[k]).0@ == t),
    ensures
        topics_wf(post),
        forall|i2: int, j2: int|
            #![trigger post[i2].1@[j2]]
            !(0 <= i2 < post.len() && post[i2].0@ == t && 0 <= j2 < post[i2].1@.len()
                && post[i2].1@[j2].0@ == c),
{
    assert forall|k: int|
        0 <= k < post[i].1@.len() implies (#[trigger] post[i].1@[k]) == (if k < j {
        pre[i].1@[k]
    } else {
        pre[i].1@[k + 1]
    }) by {}
    assert forall|a: int, b: int|
        0 <= a < b < post.len() implies (#[trigger] post[a]).0@ != (#[trigger] post[b]).0@ by {
        assert(post[a].0 == pre[a].0);
        assert(post[b].0 == pre[b].0);
    }
    assert forall|k: int| 0 <= k < post.len() implies (#[trigger] post[k]).1@.len() >= 1 by {
        if k != i {
            assert(post[k] == pre[k]);
        }
    }
    assert forall|i2: int, j1: int, j2: int|
        0 <= i2 < post.len() && 0 <= j1 < j2 < (#[trigger] post[i2]).1@.len() implies (
    #[trigger] post[i2].1@[j1]).0@ != (#[trigger] post[i2].1@[j2]).0@ by {
        if i2 == i {
            let a = if j1 < j {
                j1
            } else {
                j1 + 1
            };
            let b = if j2 < j {
                j2
            } else {
                j2 + 1
            };
            assert(post[i2].1@[j1] == pre[i].1@[a]);
            assert(post[i2].1@[j2] == pre[i].1@[b]);
        } else {
            assert(post[i2] == pre[i2]);
        }
    }
    assert forall|i2: int, j2: int|
        #![trigger post[i2].1@[j2]]
        !(0 <= i2 < post.len() && post[i2].0@ == t && 0 <= j2 < post[i2].1@.len()
            && post[i2].1@[j2].0@ == c) by {
        if 0 <= i2 < post.len() && post[i2].0@ == t && 0 <= j2 < post[i2].1@.len()
            && post[i2].1@[j2].0@ == c {
            if i2 != i {
                assert(post[i2] == pre[i2]);
                assert(!(i2 != i && pre[i2].0@ == t));
                assert(false);
            } else {
                let a = if j2 < j {
                    j2
                } else {
                    j2 + 1
                };
                assert(post[i].1@[j2] == pre[i].1@[a]);
                assert(a != j);
                assert(false);
            }
        }
    }
}

} // verus!
