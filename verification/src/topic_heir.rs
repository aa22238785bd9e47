use vstd::prelude::*;

use crate::packets::enums::QosLevel;
use crate::pattern::{filter_matches, filter_matches_levels};
use crate::utils::{share_split, spec_share_split, split_levels, split_topic, view_strings};

verus! {

/// One subscription: the subscriber, the granted QoS, and the two option
/// bits MQTT 3.1.1 parses but defaults to false.
#[derive(Debug, Clone)]
pub struct SubscriptionLeaf {
    pub qos: QosLevel,
    pub client_id: String,
    pub no_local: bool,
    pub retain_as_published: bool,
}

impl SubscriptionLeaf {
    pub fn new(qos: QosLevel, client_id: String, no_local: bool, retain_as_published: bool) -> (r:
        Self)
        ensures
            r.qos == qos,
            r.client_id == client_id,
            r.no_local == no_local,
            r.retain_as_published == retain_as_published,
    {
        SubscriptionLeaf { qos, client_id, no_local, retain_as_published }
    }
}

/// A regular subscription stored at its filter.
#[derive(Debug)]
pub struct RegSub {
    pub levels: Vec<String>,
    pub leaf: SubscriptionLeaf,
}

/// A shared-subscription group: the share name, the filter, its members, and
/// the round-robin cursor that picks the next recipient.
#[derive(Debug)]
pub struct ShareGroup {
    pub share: String,
    pub levels: Vec<String>,
    pub members: Vec<SubscriptionLeaf>,
    pub rr: usize,
}

/// The store of every subscription: filters with their subscribers, and
/// `$share` groups with theirs.
#[derive(Debug)]
pub struct SubscriptionTree {
    pub regs: Vec<RegSub>,
    pub groups: Vec<ShareGroup>,
}

impl SubscriptionTree {
    /// Whether a client holds a regular subscription on a filter.
    pub open spec fn has_reg(self, f: Seq<Seq<char>>, c: Seq<char>) -> bool {
        exists|i: int|
            0 <= i < self.regs@.len() && view_strings(
                (#[trigger] self.regs@[i]).levels@,
            ) == f && self.regs@[i].leaf.client_id@ == c
    }

    /// Whether a client holds a regular subscription on a filter at a QoS.
    pub open spec fn has_reg_qos(self, f: Seq<Seq<char>>, c: Seq<char>, q: QosLevel) -> bool {
        exists|i: int|
            0 <= i < self.regs@.len() && view_strings(
                (#[trigger] self.regs@[i]).levels@,
            ) == f && self.regs@[i].leaf.client_id@ == c && self.regs@[i].leaf.qos == q
    }

    /// Whether a share group exists for a share name and filter.
    pub open spec fn has_group(self, s: Seq<char>, f: Seq<Seq<char>>) -> bool {
        exists|g: int|
            0 <= g < self.groups@.len() && (#[trigger] self.groups@[g]).share@ == s
                && view_strings(self.groups@[g].levels@) == f
    }

    /// Whether a client is a member of the named share group on a filter.
    pub open spec fn has_member(self, s: Seq<char>, f: Seq<Seq<char>>, c: Seq<char>) -> bool {
        exists|g: int, m: int|
            #![trigger self.groups@[g].members@[m]]
            0 <= g < self.groups@.len() && self.groups@[g].share@ == s && view_strings(
                self.groups@[g].levels@,
            ) == f && 0 <= m < self.groups@[g].members@.len()
                && self.groups@[g].members@[m].client_id@ == c
    }

    /// Whether a client has any subscription, regular or shared, whose filter
    /// matches the topic, granted at the given QoS.
    pub open spec fn has_matching_sub(
        self,
        c: Seq<char>,
        q: QosLevel,
        topic: Seq<Seq<char>>,
    ) -> bool {
        (exists|i: int|
            0 <= i < self.regs@.len() && filter_matches(
                view_strings((#[trigger] self.regs@[i]).levels@),
                topic,
            ) && self.regs@[i].leaf.client_id@ == c && self.regs@[i].leaf.qos == q) || (exists|
            g: int,
            m: int,
        |
            #![trigger self.groups@[g].members@[m]]
            0 <= g < self.groups@.len() && filter_matches(
                view_strings(self.groups@[g].levels@),
                topic,
            ) && 0 <= m < self.groups@[g].members@.len() && self.groups@[g].members@[m].client_id@
                == c && self.groups@[g].members@[m].qos == q)
    }

    /// Whether a client has a regular subscription whose filter matches the
    /// topic.
    pub open spec fn has_matching_reg(self, c: Seq<char>, topic: Seq<Seq<char>>) -> bool {
        exists|i: int|
            0 <= i < self.regs@.len() && filter_matches(
                view_strings((#[trigger] self.regs@[i]).levels@),
                topic,
            ) && self.regs@[i].leaf.client_id@ == c
    }

    /// Well-formedness: one entry per filter and client, one group per share
    /// name and filter, distinct members inside a group, no empty group, and
    /// a cursor inside its group.
    pub open spec fn wf(self) -> bool {
        &&& forall|i: int, j: int|
            0 <= i < j < self.regs@.len() ==> !(view_strings(
                (#[trigger] self.regs@[i]).levels@,
            ) == view_strings((#[trigger] self.regs@[j]).levels@) && self.regs@[i].leaf.client_id@
                == self.regs@[j].leaf.client_id@)
        &&& forall|i: int, j: int|
            0 <= i < j < self.groups@.len() ==> !((#[trigger] self.groups@[i]).share@
                == (#[trigger] self.groups@[j]).share@ && view_strings(self.groups@[i].levels@)
                == view_strings(self.groups@[j].levels@))
        &&& forall|g: int|
            0 <= g < self.groups@.len() ==> (#[trigger] self.groups@[g]).members@.len() >= 1
                && self.groups@[g].rr < self.groups@[g].members@.len()
        &&& forall|g: int, m1: int, m2: int|
            0 <= g < self.groups@.len() && 0 <= m1 < m2 < (
            #[trigger] self.groups@[g]).members@.len() ==> (#[trigger] self.groups@[g].members@[m1]).client_id@
                != (#[trigger] self.groups@[g].members@[m2]).client_id@
    }

    /// An empty subscription store.
    pub fn new() -> (r: Self)
        ensures
            r.regs@.len() == 0,
            r.groups@.len() == 0,
            r.wf(),
    {
        SubscriptionTree { regs: Vec::new(), groups: Vec::new() }
    }
}

/// What a successful insert does to the store: replace the client's prior
/// subscription on the filter, in its share group if any, or add a new one.
pub open spec fn insert_post(
    pre: SubscriptionTree,
    post: SubscriptionTree,
    ft: Seq<Seq<char>>,
    share: Option<Seq<char>>,
    sub: SubscriptionLeaf,
) -> bool {
    match share {
        None => {
            &&& post.groups@ == pre.groups@
            &&& if pre.has_reg(ft, sub.client_id@) {
                exists|i: int|
                    0 <= i < pre.regs@.len() && view_strings(
                        (#[trigger] pre.regs@[i]).levels@,
                    ) == ft && pre.regs@[i].leaf.client_id@ == sub.client_id@ && post.regs@
                        == pre.regs@.update(
                        i,
                        RegSub { levels: pre.regs@[i].levels, leaf: sub },
                    )
            } else {
                &&& post.regs@.len() == pre.regs@.len() + 1
                &&& post.regs@.subrange(0, pre.regs@.len() as int) == pre.regs@
                &&& view_strings(post.regs@.last().levels@) == ft
                &&& post.regs@.last().leaf == sub
            }
        },
        Some(sh) => {
            &&& post.regs@ == pre.regs@
            &&& if pre.has_group(sh, ft) {
                exists|g: int|
                    0 <= g < pre.groups@.len() && (#[trigger] pre.groups@[g]).share@ == sh
                        && view_strings(pre.groups@[g].levels@) == ft && post.groups@.len()
                        == pre.groups@.len() && (forall|h: int|
                        0 <= h < pre.groups@.len() && h != g ==> post.groups@[h]
                            == pre.groups@[h]) && post.groups@[g].share == pre.groups@[g].share
                        && post.groups@[g].levels == pre.groups@[g].levels && post.groups@[g].rr
                        == pre.groups@[g].rr && (if pre.has_member(sh, ft, sub.client_id@) {
                        exists|m: int|
                            0 <= m < pre.groups@[g].members@.len() && (
                            #[trigger] pre.groups@[g].members@[m]).client_id@ == sub.client_id@
                                && post.groups@[g].members@ == pre.groups@[g].members@.update(
                                m,
                                sub,
                            )
                    } else {
                        post.groups@[g].members@ == pre.groups@[g].members@.push(sub)
                    })
            } else {
                &&& post.groups@.len() == pre.groups@.len() + 1
                &&& post.groups@.subrange(0, pre.groups@.len() as int) == pre.groups@
                &&& post.groups@.last().share@ == sh
                &&& view_strings(post.groups@.last().levels@) == ft
                &&& post.groups@.last().members@ =~= seq![sub]
                &&& post.groups@.last().rr == 0
            }
        },
    }
}

/// Whether two strings hold the same characters.
fn str_eq(a: &String, b: &String) -> (r: bool)
    ensures
        r == (a@ == b@),
{
    a.eq(b)
}

/// Whether two level lists hold the same levels.
fn levels_eq(a: &Vec<String>, b: &Vec<String>) -> (r: bool)
    ensures
        r == (view_strings(a@) == view_strings(b@)),
{
    if a.len() != b.len() {
        proof {
            assert(view_strings(a@).len() != view_strings(b@).len());
        }
        return false;
    }
    let mut i: usize = 0;
    while i < a.len()
        invariant
            0 <= i <= a@.len(),
            a@.len() == b@.len(),
            forall|k: int| 0 <= k < i ==> (#[trigger] view_strings(a@)[k]) == view_strings(b@)[k],
        decreases a@.len() - i,
    {
        if !str_eq(&a[i], &b[i]) {
            proof {
                assert(view_strings(a@)[i as int] != view_strings(b@)[i as int]);
            }
            return false;
        }
        proof {
            assert(view_strings(a@)[i as int] == view_strings(b@)[i as int]);
        }
        i = i + 1;
    }
    proof {
        assert(view_strings(a@) =~= view_strings(b@));
    }
    true
}

/// Whether a client already stands in a delivery list.
fn in_result(result: &Vec<(String, QosLevel)>, c: &String) -> (r: bool)
    ensures
        r == exists|k: int| 0 <= k < result@.len() && (#[trigger] result@[k]).0@ == c@,
{
    let mut i: usize = 0;
    while i < result.len()
        invariant
            0 <= i <= result@.len(),
            forall|k: int| 0 <= k < i ==> (#[trigger] result@[k]).0@ != c@,
        decreases result@.len() - i,
    {
        if str_eq(&result[i].0, c) {
            return true;
        }
        i = i + 1;
    }
    false
}

impl SubscriptionTree {
    /// Store a subscription under its filter. A prior subscription by the
    /// same client on the same filter, in the same share group if any, is
    /// replaced: the new QoS supersedes the old. Fails exactly when the
    /// filter is `$share` with nothing after it.
    pub fn insert(&mut self, filter: String, sub: SubscriptionLeaf) -> (r: Result<(), u8>)
        requires
            old(self).wf(),
        ensures
            final(self).wf(),
            r matches Err(e) ==> spec_share_split(filter@) == Err::<
                (Seq<Seq<char>>, Option<Seq<char>>),
                u8,
            >(e) && *final(self) == *old(self),
            r is Ok ==> spec_share_split(filter@) is Ok && ({
                let (ft, share) = spec_share_split(filter@)->Ok_0;
                insert_post(*old(self), *final(self), ft, share, sub)
            }),
    {
        let (levels, share) = match share_split(filter) {
            Ok(x) => x,
            Err(e) => {
                return Err(e);
            },
        };
        match share {
            None => {
                let ghost key_f = view_strings(levels@);
                let ghost key_c = sub.client_id@;
                let mut i: usize = 0;
                while i < self.regs.len()
                    invariant
                        0 <= i <= self.regs@.len(),
                        *self == *old(self),
                        old(self).wf(),
                        spec_share_split(filter@) == Ok::<
                            (Seq<Seq<char>>, Option<Seq<char>>),
                            u8,
                        >((key_f, None)),
                        forall|k: int|
                            0 <= k < i ==> !(view_strings(
                                (#[trigger] self.regs@[k]).levels@,
                            ) == key_f && self.regs@[k].leaf.client_id@ == key_c),
                        key_f == view_strings(levels@),
                        key_c == sub.client_id@,
                    decreases self.regs@.len() - i,
                {
                    if levels_eq(&self.regs[i].levels, &levels) && str_eq(
                        &self.regs[i].leaf.client_id,
                        &sub.client_id,
                    ) {
                        let ghost i0 = i as int;
                        let ghost pre = self.regs@;
                        self.regs[i].leaf = sub;
                        proof {
                            assert(self.regs@ =~= pre.update(
                                i0,
                                RegSub { levels: pre[i0].levels, leaf: sub },
                            ));
                            assert forall|h: int|
                                0 <= h < self.regs@.len() implies (view_strings(
                                (#[trigger] self.regs@[h]).levels@,
                            ) == view_strings(pre[h].levels@)
                                && self.regs@[h].leaf.client_id@
                                == pre[h].leaf.client_id@) by {
                                if h != i0 {
                                    assert(self.regs@[h] == pre[h]);
                                } else {
                                    assert(self.regs@[h].levels == pre[i0].levels);
                                }
                            }
                            assert(self.wf());
                            assert(old(self).has_reg(key_f, key_c));
                        }
                        return Ok(());
                    }
                    i = i + 1;
                }
                proof {
                    assert(!old(self).has_reg(key_f, key_c));
                }
                self.regs.push(RegSub { levels, leaf: sub });
                proof {
                    let pre = old(self).regs@;
                    assert(self.regs@.subrange(0, pre.len() as int) =~= pre);
                    assert forall|a: int, b: int|
                        0 <= a < b < self.regs@.len() implies !(view_strings(
                        (#[trigger] self.regs@[a]).levels@,
                    ) == view_strings((#[trigger] self.regs@[b]).levels@)
                        && self.regs@[a].leaf.client_id@
                        == self.regs@[b].leaf.client_id@) by {
                        if b < pre.len() {
                            assert(self.regs@[a] == pre[a]);
                            assert(self.regs@[b] == pre[b]);
                        } else {
                            assert(self.regs@[a] == pre[a]);
                            assert(self.regs@[b].leaf == sub);
                            assert(view_strings(self.regs@[b].levels@) == key_f);
                        }
                    }
                    assert(self.wf());
                }
                Ok(())
            },
            Some(sh) => {
                let ghost key_s = sh@;
                let ghost key_f = view_strings(levels@);
                let mut g: usize = 0;
                while g < self.groups.len()
                    invariant
                        0 <= g <= self.groups@.len(),
                        *self == *old(self),
                        old(self).wf(),
                        spec_share_split(filter@) == Ok::<
                            (Seq<Seq<char>>, Option<Seq<char>>),
                            u8,
                        >((key_f, Some(key_s))),
                        forall|k: int|
                            0 <= k < g ==> !((#[trigger] self.groups@[k]).share@ == key_s
                                && view_strings(self.groups@[k].levels@) == key_f),
                        key_s == sh@,
                        key_f == view_strings(levels@),
                    decreases self.groups@.len() - g,
                {
                    if str_eq(&self.groups[g].share, &sh) && levels_eq(
                        &self.groups[g].levels,
                        &levels,
                    ) {
                        let mut m: usize = 0;
                        while m < self.groups[g].members.len()
                            invariant
                                0 <= m <= self.groups@[g as int].members@.len(),
                                g < self.groups@.len(),
                                *self == *old(self),
                                old(self).wf(),
                                spec_share_split(filter@) == Ok::<
                                    (Seq<Seq<char>>, Option<Seq<char>>),
                                    u8,
                                >((key_f, Some(key_s))),
                                self.groups@[g as int].share@ == key_s,
                                view_strings(self.groups@[g as int].levels@) == key_f,
                                key_s == sh@,
                                key_f == view_strings(levels@),
                                forall|k: int|
                                    0 <= k < g ==> !((#[trigger] self.groups@[k]).share@ == key_s
                                        && view_strings(self.groups@[k].levels@) == key_f),
                                forall|k: int|
                                    0 <= k < m ==> (
                                    #[trigger] self.groups@[g as int].members@[k]).client_id@
                                        != sub.client_id@,
                            decreases self.groups@[g as int].members@.len() - m,
                        {
                            if str_eq(&self.groups[g].members[m].client_id, &sub.client_id) {
                                let ghost g0 = g as int;
                                let ghost m0 = m as int;
                                let ghost pre = self.groups@;
                                self.groups[g].members[m] = sub;
                                proof {
                                    assert(self.groups@[g0].members@ =~= pre[g0].members@.update(m0, sub));
                                    assert(old(self).has_group(key_s, key_f));
                                    assert(old(self).has_member(key_s, key_f, sub.client_id@));
                                    assert forall|h: int|
                                        0 <= h < self.groups@.len() && h != g0 implies (
                                    #[trigger] self.groups@[h]) == pre[h] by {}
                                    assert forall|k: int, m1: int, m2: int|
                                        0 <= k < self.groups@.len() && 0 <= m1 < m2 < (
                                        #[trigger] self.groups@[k]).members@.len() implies (
                                    #[trigger] self.groups@[k].members@[m1]).client_id@ != (
                                    #[trigger] self.groups@[k].members@[m2]).client_id@ by {
                                        if k == g0 {
                                            assert(pre[g0].members@[m0].client_id@
                                                == sub.client_id@);
                                            if m1 != m0 {
                                                assert(self.groups@[k].members@[m1]
                                                    == pre[g0].members@[m1]);
                                            }
                                            if m2 != m0 {
                                                assert(self.groups@[k].members@[m2]
                                                    == pre[g0].members@[m2]);
                                            }
                                        } else {
                                            assert(self.groups@[k] == pre[k]);
                                        }
                                    }
                                    assert(self.wf());
                                }
                                return Ok(());
                            }
                            m = m + 1;
                        }
                        let ghost g0 = g as int;
                        let ghost pre = self.groups@;
                        proof {
                            assert(old(self).has_group(key_s, key_f));
                            assert(!old(self).has_member(key_s, key_f, sub.client_id@)) by {
                                assert forall|g2: int, m2: int|
                                    #![trigger pre[g2].members@[m2]]
                                    !(0 <= g2 < pre.len() && pre[g2].share@ == key_s
                                        && view_strings(pre[g2].levels@) == key_f && 0 <= m2
                                        < pre[g2].members@.len()
                                        && pre[g2].members@[m2].client_id@
                                        == sub.client_id@) by {
                                    if 0 <= g2 < pre.len() && pre[g2].share@ == key_s
                                        && view_strings(pre[g2].levels@) == key_f {
                                        assert(g2 == g0);
                                    }
                                }
                            }
                        }
                        self.groups[g].members.push(sub);
                        proof {
                            assert(self.groups@[g0].members@ =~= pre[g0].members@.push(
                                sub,
                            ));
                            assert forall|h: int|
                                0 <= h < self.groups@.len() && h != g0 implies (
                            #[trigger] self.groups@[h]) == pre[h] by {}
                            assert forall|k: int, m1: int, m2: int|
                                0 <= k < self.groups@.len() && 0 <= m1 < m2 < (
                                #[trigger] self.groups@[k]).members@.len() implies (
                            #[trigger] self.groups@[k].members@[m1]).client_id@ != (
                            #[trigger] self.groups@[k].members@[m2]).client_id@ by {
                                if k == g0 {
                                    if m2 < pre[g0].members@.len() {
                                        assert(self.groups@[k].members@[m1]
                                            == pre[g0].members@[m1]);
                                        assert(self.groups@[k].members@[m2]
                                            == pre[g0].members@[m2]);
                                    } else {
                                        assert(self.groups@[k].members@[m1]
                                            == pre[g0].members@[m1]);
                                        assert(self.groups@[k].members@[m2] == sub);
                                    }
                                } else {
                                    assert(self.groups@[k] == pre[k]);
                                }
                            }
                            assert(self.wf());
                        }
                        return Ok(());
                    }
                    g = g + 1;
                }
                proof {
                    assert(!old(self).has_group(key_s, key_f));
                }
                let mut members: Vec<SubscriptionLeaf> = Vec::new();
                members.push(sub);
                self.groups.push(ShareGroup { share: sh, levels, members, rr: 0 });
                proof {
                    let pre = old(self).groups@;
                    assert(self.groups@.subrange(0, pre.len() as int) =~= pre);
                    assert(self.groups@.last().members@ =~= seq![sub]);
                    assert forall|a: int, b: int|
                        0 <= a < b < self.groups@.len() implies !((
                    #[trigger] self.groups@[a]).share@ == (
                    #[trigger] self.groups@[b]).share@ && view_strings(
                        self.groups@[a].levels@,
                    ) == view_strings(self.groups@[b].levels@)) by {
                        if b < pre.len() {
                            assert(self.groups@[a] == pre[a]);
                            assert(self.groups@[b] == pre[b]);
                        } else {
                            assert(self.groups@[a] == pre[a]);
                            assert(self.groups@[b].share@ == key_s);
                            assert(view_strings(self.groups@[b].levels@) == key_f);
                        }
                    }
                    assert forall|k: int|
                        0 <= k < self.groups@.len() implies (
                    #[trigger] self.groups@[k]).members@.len() >= 1
                        && self.groups@[k].rr < self.groups@[k].members@.len() by {
                        if k < pre.len() {
                            assert(self.groups@[k] == pre[k]);
                        }
                    }
                    assert forall|k: int, m1: int, m2: int|
                        0 <= k < self.groups@.len() && 0 <= m1 < m2 < (
                        #[trigger] self.groups@[k]).members@.len() implies (
                    #[trigger] self.groups@[k].members@[m1]).client_id@ != (
                    #[trigger] self.groups@[k].members@[m2]).client_id@ by {
                        if k < pre.len() {
                            assert(self.groups@[k] == pre[k]);
                        }
                    }
                    assert(self.wf());
                }
                Ok(())
            },
        }
    }

    /// Remove a client's subscription on a filter, from its share group if
    /// the filter names one; a group left empty disappears. Fails exactly
    /// when the filter is `$share` with nothing after it.
    pub fn delete(&mut self, filter: String, client_id: &String) -> (r: Result<(), u8>)
        requires
            old(self).wf(),
        ensures
            final(self).wf(),
            r matches Err(e) ==> spec_share_split(filter@) == Err::<
                (Seq<Seq<char>>, Option<Seq<char>>),
                u8,
            >(e) && *final(self) == *old(self),
            r is Ok ==> spec_share_split(filter@) is Ok && ({
                let (ft, share) = spec_share_split(filter@)->Ok_0;
                match share {
                    None => {
                        &&& final(self).groups@ == old(self).groups@
                        &&& !final(self).has_reg(ft, client_id@)
                        &&& if old(self).has_reg(ft, client_id@) {
                            exists|i: int|
                                0 <= i < old(self).regs@.len() && view_strings(
                                    (#[trigger] old(self).regs@[i]).levels@,
                                ) == ft && old(self).regs@[i].leaf.client_id@ == client_id@
                                    && final(self).regs@ == old(self).regs@.remove(i)
                        } else {
                            final(self).regs@ == old(self).regs@
                        }
                    },
                    Some(sh) => {
                        &&& final(self).regs@ == old(self).regs@
                        &&& !final(self).has_member(sh, ft, client_id@)
                        &&& forall|s2: Seq<char>, f2: Seq<Seq<char>>, c2: Seq<char>|
                            !(s2 == sh && f2 == ft && c2 == client_id@) && old(self).has_member(
                                s2,
                                f2,
                                c2,
                            ) ==> #[trigger] final(self).has_member(s2, f2, c2)
                        &&& forall|s2: Seq<char>, f2: Seq<Seq<char>>, c2: Seq<char>|
                            #[trigger] final(self).has_member(s2, f2, c2) ==> old(self).has_member(
                                s2,
                                f2,
                                c2,
                            )
                    },
                }
            }),
    {
        let (levels, share) = match share_split(filter) {
            Ok(x) => x,
            Err(e) => {
                return Err(e);
            },
        };
        match share {
            None => {
                let ghost key_f = view_strings(levels@);
                let mut i: usize = 0;
                while i < self.regs.len()
                    invariant
                        0 <= i <= self.regs@.len(),
                        *self == *old(self),
                        old(self).wf(),
                        spec_share_split(filter@) == Ok::<
                            (Seq<Seq<char>>, Option<Seq<char>>),
                            u8,
                        >((key_f, None)),
                        forall|k: int|
                            0 <= k < i ==> !(view_strings(
                                (#[trigger] self.regs@[k]).levels@,
                            ) == key_f && self.regs@[k].leaf.client_id@ == client_id@),
                        key_f == view_strings(levels@),
                    decreases self.regs@.len() - i,
                {
                    if levels_eq(&self.regs[i].levels, &levels) && str_eq(
                        &self.regs[i].leaf.client_id,
                        client_id,
                    ) {
                        let ghost pre = self.regs@;
                        self.regs.remove(i);
                        proof {
                            assert forall|k: int|
                                0 <= k < self.regs@.len() implies !(view_strings(
                                (#[trigger] self.regs@[k]).levels@,
                            ) == key_f && self.regs@[k].leaf.client_id@
                                == client_id@) by {
                                if k < i {
                                    assert(self.regs@[k] == pre[k]);
                                } else {
                                    assert(self.regs@[k] == pre[k + 1]);
                                }
                            }
                        }
                        return Ok(());
                    }
                    i = i + 1;
                }
                Ok(())
            },
            Some(sh) => {
                let ghost key_s = sh@;
                let ghost key_f = view_strings(levels@);
                let mut g: usize = 0;
                while g < self.groups.len()
                    invariant
                        0 <= g <= self.groups@.len(),
                        *self == *old(self),
                        old(self).wf(),
                        spec_share_split(filter@) == Ok::<
                            (Seq<Seq<char>>, Option<Seq<char>>),
                            u8,
                        >((key_f, Some(key_s))),
                        forall|k: int|
                            0 <= k < g ==> !((#[trigger] self.groups@[k]).share@ == key_s
                                && view_strings(self.groups@[k].levels@) == key_f),
                        key_s == sh@,
                        key_f == view_strings(levels@),
                    decreases self.groups@.len() - g,
                {
                    if str_eq(&self.groups[g].share, &sh) && levels_eq(
                        &self.groups[g].levels,
                        &levels,
                    ) {
                        let mut m: usize = 0;
                        let ghost pregroups = self.groups@;
                        while m < self.groups[g].members.len()
                            invariant
                                0 <= m <= self.groups@[g as int].members@.len(),
                                g < self.groups@.len(),
                                *self == *old(self),
                                old(self).wf(),
                                spec_share_split(filter@) == Ok::<
                                    (Seq<Seq<char>>, Option<Seq<char>>),
                                    u8,
                                >((key_f, Some(key_s))),
                                self.groups@ == pregroups,
                                self.groups@[g as int].share@ == key_s,
                                view_strings(self.groups@[g as int].levels@) == key_f,
                                key_s == sh@,
                                key_f == view_strings(levels@),
                                forall|k: int|
                                    0 <= k < g ==> !((#[trigger] self.groups@[k]).share@ == key_s
                                        && view_strings(self.groups@[k].levels@) == key_f),
                                forall|k: int|
                                    0 <= k < m ==> (
                                    #[trigger] self.groups@[g as int].members@[k]).client_id@
                                        != client_id@,
                            decreases self.groups@[g as int].members@.len() - m,
                        {
                            if str_eq(&self.groups[g].members[m].client_id, client_id) {
                                if self.groups[g].members.len() <= 1 {
                                    self.groups.remove(g);
                                    proof {
                                        lemma_no_member_after_group_remove(
                                            *old(self),
                                            *self,
                                            pregroups,
                                            g as int,
                                            key_s,
                                            key_f,
                                            client_id@,
                                        );
                                    }
                                    return Ok(());
                                } else {
                                    let glen = self.groups[g].members.len();
                                    self.groups[g].members.remove(m);
                                    if self.groups[g].rr >= glen - 1 {
                                        self.groups[g].rr = 0;
                                    }
                                    proof {
                                        lemma_no_member_after_member_remove(
                                            *old(self),
                                            *self,
                                            pregroups,
                                            g as int,
                                            m as int,
                                            key_s,
                                            key_f,
                                            client_id@,
                                        );
                                    }
                                    return Ok(());
                                }
                            }
                            m = m + 1;
                        }
                        proof {
                            lemma_no_member_untouched(*self, g as int, key_s, key_f, client_id@);
                        }
                        return Ok(());
                    }
                    g = g + 1;
                }
                proof {
                    lemma_no_member_no_group(*self, key_s, key_f, client_id@);
                }
                Ok(())
            },
        }
    }
}

/// A share name and filter appear in at most one group, so a client missing
/// from that group is missing from every group with that name and filter.
proof fn lemma_no_member_untouched(
    t: SubscriptionTree,
    g: int,
    s: Seq<char>,
    f: Seq<Seq<char>>,
    c: Seq<char>,
)
    requires
        t.wf(),
        0 <= g < t.groups@.len(),
        t.groups@[g].share@ == s,
        view_strings(t.groups@[g].levels@) == f,
        forall|m: int|
            0 <= m < t.groups@[g].members@.len() ==> (#[trigger] t.groups@[g].members@[m]).client_id@
                != c,
    ensures
        !t.has_member(s, f, c),
{
    assert forall|g2: int, m: int|
        #![trigger t.groups@[g2].members@[m]]
        !(0 <= g2 < t.groups@.len() && t.groups@[g2].share@ == s && view_strings(
            t.groups@[g2].levels@,
        ) == f && 0 <= m < t.groups@[g2].members@.len() && t.groups@[g2].members@[m].client_id@
            == c) by {
        if 0 <= g2 < t.groups@.len() && t.groups@[g2].share@ == s && view_strings(
            t.groups@[g2].levels@,
        ) == f {
            assert(g2 == g);
        }
    }
}

/// With no group for the share name and filter, no client is a member.
proof fn lemma_no_member_no_group(t: SubscriptionTree, s: Seq<char>, f: Seq<Seq<char>>, c: Seq<char>)
    requires
        forall|k: int|
            0 <= k < t.groups@.len() ==> !((#[trigger] t.groups@[k]).share@ == s && view_strings(
                t.groups@[k].levels@,
            ) == f),
    ensures
        !t.has_member(s, f, c),
{
}

/// Removing the whole group removes the client's membership.
proof fn lemma_no_member_after_group_remove(
    pre: SubscriptionTree,
    post: SubscriptionTree,
    pregroups: Seq<ShareGroup>,
    g: int,
    s: Seq<char>,
    f: Seq<Seq<char>>,
    c: Seq<char>,
)
    requires
        pre.wf(),
        0 <= g < pregroups.len(),
        pregroups == pre.groups@,
        post.groups@ == pregroups.remove(g),
        post.regs@ == pre.regs@,
        pregroups[g].share@ == s,
        view_strings(pregroups[g].levels@) == f,
        pregroups[g].members@.len() == 1,
        pregroups[g].members@[0].client_id@ == c,
    ensures
        post.wf(),
        !post.has_member(s, f, c),
        forall|s2: Seq<char>, f2: Seq<Seq<char>>, c2: Seq<char>|
            !(s2 == s && f2 == f && c2 == c) && pre.has_member(s2, f2, c2)
                ==> #[trigger] post.has_member(s2, f2, c2),
        forall|s2: Seq<char>, f2: Seq<Seq<char>>, c2: Seq<char>|
            #[trigger] post.has_member(s2, f2, c2) ==> pre.has_member(s2, f2, c2),
{
    assert forall|s2: Seq<char>, f2: Seq<Seq<char>>, c2: Seq<char>|
        !(s2 == s && f2 == f && c2 == c) && pre.has_member(s2, f2, c2) implies #[trigger] post.has_member(
        s2,
        f2,
        c2,
    ) by {
        let (g2, m2): (int, int) = choose|g2: int, m2: int|
            #![trigger pre.groups@[g2].members@[m2]]
            0 <= g2 < pre.groups@.len() && pre.groups@[g2].share@ == s2 && view_strings(
                pre.groups@[g2].levels@,
            ) == f2 && 0 <= m2 < pre.groups@[g2].members@.len()
                && pre.groups@[g2].members@[m2].client_id@ == c2;
        if g2 == g {
            assert(s2 == s && f2 == f);
            assert(m2 == 0);
            assert(false);
        } else {
            let g3 = if g2 < g {
                g2
            } else {
                g2 - 1
            };
            assert(post.groups@[g3] == pregroups[g2]);
            assert(post.groups@[g3].members@[m2].client_id@ == c2);
        }
    }
    assert forall|s2: Seq<char>, f2: Seq<Seq<char>>, c2: Seq<char>| #[trigger]
        post.has_member(s2, f2, c2) implies pre.has_member(s2, f2, c2) by {
        let (g3, m3): (int, int) = choose|g3: int, m3: int|
            #![trigger post.groups@[g3].members@[m3]]
            0 <= g3 < post.groups@.len() && post.groups@[g3].share@ == s2 && view_strings(
                post.groups@[g3].levels@,
            ) == f2 && 0 <= m3 < post.groups@[g3].members@.len()
                && post.groups@[g3].members@[m3].client_id@ == c2;
        let g2 = if g3 < g {
            g3
        } else {
            g3 + 1
        };
        assert(post.groups@[g3] == pregroups[g2]);
        assert(pre.groups@[g2].members@[m3].client_id@ == c2);
    }
    assert forall|k: int|
        0 <= k < post.groups@.len() implies !((#[trigger] post.groups@[k]).share@ == s
        && view_strings(post.groups@[k].levels@) == f) by {
        if k < g {
            assert(post.groups@[k] == pregroups[k]);
        } else {
            assert(post.groups@[k] == pregroups[k + 1]);
        }
    }
    assert forall|i: int, j: int| 0 <= i < j < post.groups@.len() implies !((
    #[trigger] post.groups@[i]).share@ == (#[trigger] post.groups@[j]).share@ && view_strings(
        post.groups@[i].levels@,
    ) == view_strings(post.groups@[j].levels@)) by {
        let i0 = if i < g {
            i
        } else {
            i + 1
        };
        let j0 = if j < g {
            j
        } else {
            j + 1
        };
        assert(post.groups@[i] == pregroups[i0]);
        assert(post.groups@[j] == pregroups[j0]);
    }
    assert forall|k: int|
        0 <= k < post.groups@.len() implies ((#[trigger] post.groups@[k]).members@.len() >= 1
        && post.groups@[k].rr < post.groups@[k].members@.len()) by {
        if k < g {
            assert(post.groups@[k] == pregroups[k]);
        } else {
            assert(post.groups@[k] == pregroups[k + 1]);
        }
    }
    assert forall|k: int, m1: int, m2: int|
        0 <= k < post.groups@.len() && 0 <= m1 < m2 < (
        #[trigger] post.groups@[k]).members@.len() implies (
    #[trigger] post.groups@[k].members@[m1]).client_id@ != (
    #[trigger] post.groups@[k].members@[m2]).client_id@ by {
        if k < g {
            assert(post.groups@[k] == pregroups[k]);
        } else {
            assert(post.groups@[k] == pregroups[k + 1]);
        }
    }
}

/// Removing the client's entry from its group removes its membership and
/// keeps the store well formed.
proof fn lemma_no_member_after_member_remove(
    pre: SubscriptionTree,
    post: SubscriptionTree,
    pregroups: Seq<ShareGroup>,
    g: int,
    m: int,
    s: Seq<char>,
    f: Seq<Seq<char>>,
    c: Seq<char>,
)
    requires
        pre.wf(),
        pregroups == pre.groups@,
        0 <= g < pregroups.len(),
        0 <= m < pregroups[g].members@.len(),
        pregroups[g].members@.len() >= 2,
        post.groups@.len() == pregroups.len(),
        forall|h: int| 0 <= h < pregroups.len() && h != g ==> post.groups@[h] == pregroups[h],
        post.groups@[g].share == pregroups[g].share,
        post.groups@[g].levels == pregroups[g].levels,
        post.groups@[g].members@ == pregroups[g].members@.remove(m),
        post.groups@[g].rr < post.groups@[g].members@.len(),
        post.regs@ == pre.regs@,
        pregroups[g].share@ == s,
        view_strings(pregroups[g].levels@) == f,
        pregroups[g].members@[m].client_id@ == c,
        forall|k: int|
            0 <= k < pregroups.len() ==> !(k != g && (#[trigger] pregroups[k]).share@ == s
                && view_strings(pregroups[k].levels@) == f),
    ensures
        post.wf(),
        !post.has_member(s, f, c),
        forall|s2: Seq<char>, f2: Seq<Seq<char>>, c2: Seq<char>|
            !(s2 == s && f2 == f && c2 == c) && pre.has_member(s2, f2, c2)
                ==> #[trigger] post.has_member(s2, f2, c2),
        forall|s2: Seq<char>, f2: Seq<Seq<char>>, c2: Seq<char>|
            #[trigger] post.has_member(s2, f2, c2) ==> pre.has_member(s2, f2, c2),
{
    assert forall|s2: Seq<char>, f2: Seq<Seq<char>>, c2: Seq<char>|
        !(s2 == s && f2 == f && c2 == c) && pre.has_member(s2, f2, c2) implies #[trigger] post.has_member(
        s2,
        f2,
        c2,
    ) by {
        let (g2, m2): (int, int) = choose|g2: int, m2: int|
            #![trigger pre.groups@[g2].members@[m2]]
            0 <= g2 < pre.groups@.len() && pre.groups@[g2].share@ == s2 && view_strings(
                pre.groups@[g2].levels@,
            ) == f2 && 0 <= m2 < pre.groups@[g2].members@.len()
                && pre.groups@[g2].members@[m2].client_id@ == c2;
        if g2 != g {
            assert(post.groups@[g2] == pregroups[g2]);
            assert(post.groups@[g2].members@[m2].client_id@ == c2);
        } else {
            assert(s2 == s && f2 == f);
            assert(c2 != c);
            assert(m2 != m);
            let m4 = if m2 < m {
                m2
            } else {
                m2 - 1
            };
            assert(post.groups@[g].members@[m4] == pregroups[g].members@[m2]);
            assert(post.groups@[g].share == pregroups[g].share);
            assert(post.groups@[g].levels == pregroups[g].levels);
            assert(post.groups@[g].members@[m4].client_id@ == c2);
        }
    }
    assert forall|s2: Seq<char>, f2: Seq<Seq<char>>, c2: Seq<char>| #[trigger]
        post.has_member(s2, f2, c2) implies pre.has_member(s2, f2, c2) by {
        let (g3, m3): (int, int) = choose|g3: int, m3: int|
            #![trigger post.groups@[g3].members@[m3]]
            0 <= g3 < post.groups@.len() && post.groups@[g3].share@ == s2 && view_strings(
                post.groups@[g3].levels@,
            ) == f2 && 0 <= m3 < post.groups@[g3].members@.len()
                && post.groups@[g3].members@[m3].client_id@ == c2;
        if g3 != g {
            assert(post.groups@[g3] == pregroups[g3]);
            assert(pre.groups@[g3].members@[m3].client_id@ == c2);
        } else {
            let m2 = if m3 < m {
                m3
            } else {
                m3 + 1
            };
            assert(post.groups@[g].members@[m3] == pregroups[g].members@[m2]);
            assert(pre.groups@[g].members@[m2].client_id@ == c2);
            assert(pre.groups@[g].share@ == s2);
            assert(view_strings(pre.groups@[g].levels@) == f2);
        }
    }
    assert forall|k: int|
        0 <= k < post.groups@[g].members@.len() implies (
    #[trigger] post.groups@[g].members@[k]).client_id@ != c by {
        if k < m {
            assert(post.groups@[g].members@[k] == pregroups[g].members@[k]);
        } else {
            assert(post.groups@[g].members@[k] == pregroups[g].members@[k + 1]);
        }
    }
    assert forall|g2: int, m2: int|
        #![trigger post.groups@[g2].members@[m2]]
        !(0 <= g2 < post.groups@.len() && post.groups@[g2].share@ == s && view_strings(
            post.groups@[g2].levels@,
        ) == f && 0 <= m2 < post.groups@[g2].members@.len()
            && post.groups@[g2].members@[m2].client_id@ == c) by {
        if 0 <= g2 < post.groups@.len() && post.groups@[g2].share@ == s && view_strings(
            post.groups@[g2].levels@,
        ) == f {
            if g2 != g {
                assert(post.groups@[g2] == pregroups[g2]);
                assert(!(g2 != g && pregroups[g2].share@ == s && view_strings(
                    pregroups[g2].levels@,
                ) == f));
                assert(false);
            }
        }
    }
    assert forall|h: int|
        0 <= h < post.groups@.len() implies ((#[trigger] post.groups@[h]).share
        == pregroups[h].share && post.groups@[h].levels == pregroups[h].levels
        && post.groups@[h].members@.len() >= 1 && post.groups@[h].rr
        < post.groups@[h].members@.len()) by {
        if h != g {
            assert(post.groups@[h] == pregroups[h]);
        }
    }
    assert forall|k: int, m1: int, m2: int|
        0 <= k < post.groups@.len() && 0 <= m1 < m2 < (
        #[trigger] post.groups@[k]).members@.len() implies (
    #[trigger] post.groups@[k].members@[m1]).client_id@ != (
    #[trigger] post.groups@[k].members@[m2]).client_id@ by {
        if k == g {
            let a = if m1 < m {
                m1
            } else {
                m1 + 1
            };
            let b = if m2 < m {
                m2
            } else {
                m2 + 1
            };
            assert(post.groups@[k].members@[m1] == pregroups[g].members@[a]);
            assert(post.groups@[k].members@[m2] == pregroups[g].members@[b]);
        } else {
            assert(post.groups@[k] == pregroups[k]);
        }
    }
}


/// Whether a client stands in a delivery list.
pub open spec fn in_res(res: Seq<(String, QosLevel)>, c: Seq<char>) -> bool {
    exists|k: int| 0 <= k < res.len() && (#[trigger] res[k]).0@ == c
}

impl SubscriptionTree {
    /// The recipients of a publish to a topic: every regular subscriber whose
    /// filter matches, and one member of every matching share group chosen by
    /// that group's round-robin cursor, each client at most once. The cursor
    /// of every matching group advances by one.
    pub fn get(&mut self, topic: String) -> (r: Result<Vec<(String, QosLevel)>, u8>)
        requires
            old(self).wf(),
        ensures
            final(self).wf(),
            r is Ok,
            final(self).regs@ == old(self).regs@,
            final(self).groups@.len() == old(self).groups@.len(),
            ({
                let res = r->Ok_0;
                let tl = split_levels(topic@);
                &&& forall|a: int, b: int|
                    0 <= a < b < res@.len() ==> (#[trigger] res@[a]).0@ != (#[trigger] res@[b]).0@
                &&& forall|k: int|
                    0 <= k < res@.len() ==> old(self).has_matching_sub(
                        (#[trigger] res@[k]).0@,
                        res@[k].1,
                        tl,
                    )
                &&& forall|c: Seq<char>|
                    old(self).has_matching_reg(c, tl) ==> #[trigger] in_res(res@, c)
                &&& forall|g: int|
                    0 <= g < old(self).groups@.len() ==> {
                        let og = #[trigger] old(self).groups@[g];
                        &&& final(self).groups@[g].share == og.share
                        &&& final(self).groups@[g].levels == og.levels
                        &&& final(self).groups@[g].members == og.members
                        &&& if filter_matches(view_strings(og.levels@), tl) {
                            &&& in_res(res@, og.members@[og.rr as int].client_id@)
                            &&& final(self).groups@[g].rr == ((og.rr + 1) as int) % (
                            og.members@.len() as int)
                        } else {
                            final(self).groups@[g].rr == og.rr
                        }
                    }
            }),
    {
        let ghost tlv = split_levels(topic@);
        let tl = split_topic(topic.as_str());
        let mut result: Vec<(String, QosLevel)> = Vec::new();
        let mut i: usize = 0;
        while i < self.regs.len()
            invariant
                0 <= i <= self.regs@.len(),
                *self == *old(self),
                old(self).wf(),
                tlv == split_levels(topic@),
                view_strings(tl@) == tlv,
                forall|a: int, b: int|
                    0 <= a < b < result@.len() ==> (#[trigger] result@[a]).0@ != (
                    #[trigger] result@[b]).0@,
                forall|k: int|
                    0 <= k < result@.len() ==> old(self).has_matching_sub(
                        (#[trigger] result@[k]).0@,
                        result@[k].1,
                        tlv,
                    ),
                forall|k: int|
                    0 <= k < i && filter_matches(
                        view_strings((#[trigger] self.regs@[k]).levels@),
                        tlv,
                    ) ==> in_res(result@, self.regs@[k].leaf.client_id@),
            decreases self.regs@.len() - i,
        {
            if filter_matches_levels(&self.regs[i].levels, &tl) {
                if !in_result(&result, &self.regs[i].leaf.client_id) {
                    let ghost pre = result@;
                    result.push((self.regs[i].leaf.client_id.clone(), self.regs[i].leaf.qos));
                    proof {
                        assert(result@.last().0@ == self.regs@[i as int].leaf.client_id@);
                        assert(old(self).has_matching_sub(
                            result@.last().0@,
                            result@.last().1,
                            tlv,
                        ));
                        assert forall|k: int|
                            0 <= k < i + 1 && filter_matches(
                                view_strings((#[trigger] self.regs@[k]).levels@),
                                tlv,
                            ) implies in_res(result@, self.regs@[k].leaf.client_id@) by {
                            if k < i {
                                assert(in_res(pre, self.regs@[k].leaf.client_id@));
                                let w = choose|w: int|
                                    0 <= w < pre.len() && (#[trigger] pre[w]).0@
                                        == self.regs@[k].leaf.client_id@;
                                assert(result@[w].0@ == self.regs@[k].leaf.client_id@);
                            } else {
                                assert(result@[result@.len() - 1].0@
                                    == self.regs@[k].leaf.client_id@);
                            }
                        }
                    }
                } else {
                    proof {
                        assert(in_res(result@, self.regs@[i as int].leaf.client_id@));
                    }
                }
            }
            i = i + 1;
        }
        let ghost mid = result@;
        let mut g: usize = 0;
        while g < self.groups.len()
            invariant
                0 <= g <= self.groups@.len(),
                self.regs@ == old(self).regs@,
                self.groups@.len() == old(self).groups@.len(),
                old(self).wf(),
                tlv == split_levels(topic@),
                view_strings(tl@) == tlv,
                forall|h: int|
                    g <= h < self.groups@.len() ==> (#[trigger] self.groups@[h]) == old(
                        self,
                    ).groups@[h],
                forall|h: int|
                    0 <= h < g ==> {
                        let og = #[trigger] old(self).groups@[h];
                        &&& self.groups@[h].share == og.share
                        &&& self.groups@[h].levels == og.levels
                        &&& self.groups@[h].members == og.members
                        &&& if filter_matches(view_strings(og.levels@), tlv) {
                            &&& in_res(result@, og.members@[og.rr as int].client_id@)
                            &&& self.groups@[h].rr == ((og.rr + 1) as int) % (
                            og.members@.len() as int)
                        } else {
                            self.groups@[h].rr == og.rr
                        }
                    },
                forall|a: int, b: int|
                    0 <= a < b < result@.len() ==> (#[trigger] result@[a]).0@ != (
                    #[trigger] result@[b]).0@,
                forall|k: int|
                    0 <= k < result@.len() ==> old(self).has_matching_sub(
                        (#[trigger] result@[k]).0@,
                        result@[k].1,
                        tlv,
                    ),
                forall|c: Seq<char>|
                    old(self).has_matching_reg(c, tlv) ==> #[trigger] in_res(result@, c),
            decreases self.groups@.len() - g,
        {
            let ghost pre = result@;
            if filter_matches_levels(&self.groups[g].levels, &tl) {
                proof {
                    assert(self.groups@[g as int] == old(self).groups@[g as int]);
                }
                let glen = self.groups[g].members.len();
                let pick = self.groups[g].rr;
                let cid = self.groups[g].members[pick].client_id.clone();
                let q = self.groups[g].members[pick].qos;
                if !in_result(&result, &cid) {
                    result.push((cid, q));
                    proof {
                        assert(result@.last().0@ == old(
                            self,
                        ).groups@[g as int].members@[pick as int].client_id@);
                        assert(old(self).has_matching_sub(
                            result@.last().0@,
                            result@.last().1,
                            tlv,
                        ));
                    }
                }
                proof {
                    assert(in_res(
                        result@,
                        old(self).groups@[g as int].members@[pick as int].client_id@,
                    ));
                }
                self.groups[g].rr = (pick + 1) % glen;
            }
            proof {
                assert forall|c: Seq<char>|
                    old(self).has_matching_reg(c, tlv) implies #[trigger] in_res(result@, c) by {
                    assert(in_res(pre, c));
                    let w = choose|w: int| 0 <= w < pre.len() && (#[trigger] pre[w]).0@ == c;
                    assert(result@[w].0@ == c);
                }
                assert forall|h: int|
                    0 <= h < g + 1 implies {
                        let og = #[trigger] old(self).groups@[h];
                        &&& self.groups@[h].share == og.share
                        &&& self.groups@[h].levels == og.levels
                        &&& self.groups@[h].members == og.members
                        &&& if filter_matches(view_strings(og.levels@), tlv) {
                            &&& in_res(result@, og.members@[og.rr as int].client_id@)
                            &&& self.groups@[h].rr == ((og.rr + 1) as int) % (
                            og.members@.len() as int)
                        } else {
                            self.groups@[h].rr == og.rr
                        }
                    } by {
                    let og = old(self).groups@[h];
                    if h < g {
                        if filter_matches(view_strings(og.levels@), tlv) {
                            assert(in_res(pre, og.members@[og.rr as int].client_id@));
                            let w = choose|w: int|
                                0 <= w < pre.len() && (#[trigger] pre[w]).0@
                                    == og.members@[og.rr as int].client_id@;
                            assert(result@[w].0@ == og.members@[og.rr as int].client_id@);
                        }
                    }
                }
            }
            g = g + 1;
        }
        proof {
            assert forall|k: int|
                0 <= k < self.groups@.len() implies ((#[trigger] self.groups@[k]).members@.len()
                >= 1 && self.groups@[k].rr < self.groups@[k].members@.len()) by {
                let og = old(self).groups@[k];
                assert(og.members@.len() >= 1 && og.rr < og.members@.len());
                assert(self.groups@[k].members == og.members);
            }
            assert forall|a: int, b: int|
                0 <= a < b < self.groups@.len() implies !((#[trigger] self.groups@[a]).share@ == (
            #[trigger] self.groups@[b]).share@ && view_strings(self.groups@[a].levels@)
                == view_strings(self.groups@[b].levels@)) by {
                assert(self.groups@[a].share == old(self).groups@[a].share);
                assert(self.groups@[b].share == old(self).groups@[b].share);
                assert(self.groups@[a].levels == old(self).groups@[a].levels);
                assert(self.groups@[b].levels == old(self).groups@[b].levels);
            }
            assert forall|k: int, m1: int, m2: int|
                0 <= k < self.groups@.len() && 0 <= m1 < m2 < (
                #[trigger] self.groups@[k]).members@.len() implies (
            #[trigger] self.groups@[k].members@[m1]).client_id@ != (
            #[trigger] self.groups@[k].members@[m2]).client_id@ by {
                assert(self.groups@[k].members == old(self).groups@[k].members);
            }
            assert(self.wf());
        }
        Ok(result)
    }
}


/// How many of the first `k` round-robin picks land on member `j`, for a
/// group of `g` members whose cursor starts at `r0`: pick `t` chooses member
/// `(r0 + t) % g`, as `get` advances the cursor by one per matching publish.
pub open spec fn rr_hits(r0: int, g: int, k: int, j: int) -> int
    decreases k,
{
    if k <= 0 {
        0
    } else {
        rr_hits(r0, g, k - 1, j) + (if (r0 + (k - 1)) % g == j {
            1int
        } else {
            0int
        })
    }
}

proof fn lemma_rr_hits_nonneg(r0: int, g: int, k: int, j: int)
    ensures
        rr_hits(r0, g, k, j) >= 0,
    decreases k,
{
    if k > 0 {
        lemma_rr_hits_nonneg(r0, g, k - 1, j);
    }
}

/// Picks one whole cycle apart land on the same member.
proof fn lemma_rr_hit_periodic(r0: int, g: int, a: int)
    requires
        g >= 1,
        a >= 0,
    ensures
        (r0 + (a + g)) % g == (r0 + a) % g,
{
    assert((r0 + a + g) % g == (r0 + a) % g) by (nonlinear_arith)
        requires
            g >= 1,
    ;
}

/// The number of hits inside a window of one cycle does not depend on where
/// the window starts.
proof fn lemma_rr_window_shift(r0: int, g: int, j: int, a: int)
    requires
        g >= 1,
        a >= 0,
    ensures
        rr_hits(r0, g, a + g, j) - rr_hits(r0, g, a, j) == rr_hits(r0, g, g, j),
    decreases a,
{
    if a == 0 {
    } else {
        lemma_rr_window_shift(r0, g, j, a - 1);
        lemma_rr_hit_periodic(r0, g, a - 1);
        assert(rr_hits(r0, g, a + g, j) == rr_hits(r0, g, a + g - 1, j) + (if (r0 + (a + g - 1))
            % g == j {
            1int
        } else {
            0int
        }));
        assert(rr_hits(r0, g, a, j) == rr_hits(r0, g, a - 1, j) + (if (r0 + (a - 1)) % g == j {
            1int
        } else {
            0int
        }));
    }
}

/// With no hit between `m` and `k`, the count does not grow.
proof fn lemma_rr_no_hits(r0: int, g: int, j: int, m: int, k: int)
    requires
        m <= k,
        forall|t: int| m <= t < k ==> #[trigger] ((r0 + t) % g) != j,
    ensures
        rr_hits(r0, g, k, j) == rr_hits(r0, g, m, j),
    decreases k - m,
{
    if m < k {
        lemma_rr_no_hits(r0, g, j, m, k - 1);
    }
}

/// One cycle of picks reaches every member exactly once.
proof fn lemma_rr_first_window(r0: int, g: int, j: int)
    requires
        g >= 1,
        0 <= r0 < g,
        0 <= j < g,
    ensures
        rr_hits(r0, g, g, j) == 1,
{
    let t0 = if j >= r0 {
        j - r0
    } else {
        j - r0 + g
    };
    assert(0 <= t0 < g);
    assert((r0 + t0) % g == j) by (nonlinear_arith)
        requires
            g >= 1 && 0 <= j < g && (r0 + t0 == j || r0 + t0 == j + g),
    ;
    assert forall|t: int| 0 <= t < g && t != t0 implies #[trigger] ((r0 + t) % g) != j by {
        assert(0 <= r0 + t < 2 * g);
        assert((r0 + t) % g == (if r0 + t < g {
            r0 + t
        } else {
            r0 + t - g
        })) by (nonlinear_arith)
            requires
                g >= 1 && 0 <= r0 + t < 2 * g,
        ;
    }
    lemma_rr_no_hits(r0, g, j, 0, t0);
    assert(rr_hits(r0, g, t0 + 1, j) == rr_hits(r0, g, t0, j) + 1);
    assert forall|t: int| t0 + 1 <= t < g implies #[trigger] ((r0 + t) % g) != j by {}
    lemma_rr_no_hits(r0, g, j, t0 + 1, g);
}

/// Shared-group fairness: over `k` sequential publishes served by a group of
/// `g` members, every member is picked at least `k / g` times, whatever
/// cursor position the group starts from.
pub proof fn lemma_shared_group_fairness(r0: int, g: int, k: int, j: int)
    requires
        g >= 1,
        0 <= r0 < g,
        0 <= j < g,
        k >= 0,
    ensures
        rr_hits(r0, g, k, j) >= k / g,
    decreases k,
{
    if k < g {
        lemma_rr_hits_nonneg(r0, g, k, j);
        assert(k / g == 0) by (nonlinear_arith)
            requires
                0 <= k < g,
        ;
    } else {
        lemma_shared_group_fairness(r0, g, k - g, j);
        lemma_rr_window_shift(r0, g, j, k - g);
        lemma_rr_first_window(r0, g, j);
        assert((k - g) / g + 1 == k / g) by (nonlinear_arith)
            requires
                g >= 1 && k >= g,
        ;
    }
}


/// Inserting one subscription keeps every other subscription in place, and
/// puts the inserted one in place.
pub proof fn lemma_insert_monotone(
    pre: SubscriptionTree,
    post: SubscriptionTree,
    ft: Seq<Seq<char>>,
    share: Option<Seq<char>>,
    sub: SubscriptionLeaf,
    f2: Seq<Seq<char>>,
    s2: Seq<char>,
    c2: Seq<char>,
)
    requires
        insert_post(pre, post, ft, share, sub),
    ensures
        pre.has_reg(f2, c2) ==> post.has_reg(f2, c2),
        pre.has_member(s2, f2, c2) ==> post.has_member(s2, f2, c2),
        share is None ==> post.has_reg(ft, sub.client_id@),
        share matches Some(sh) ==> post.has_member(sh, ft, sub.client_id@),
{
    match share {
        None => {
            if pre.has_reg(f2, c2) {
                let w = choose|w: int|
                    0 <= w < pre.regs@.len() && view_strings(
                        (#[trigger] pre.regs@[w]).levels@,
                    ) == f2 && pre.regs@[w].leaf.client_id@ == c2;
                if pre.has_reg(ft, sub.client_id@) {
                    let i = choose|i: int|
                        0 <= i < pre.regs@.len() && view_strings(
                            (#[trigger] pre.regs@[i]).levels@,
                        ) == ft && pre.regs@[i].leaf.client_id@ == sub.client_id@ && post.regs@
                            == pre.regs@.update(
                            i,
                            RegSub { levels: pre.regs@[i].levels, leaf: sub },
                        );
                    if w == i {
                        assert(view_strings(post.regs@[i].levels@) == f2);
                        assert(post.regs@[i].leaf.client_id@ == sub.client_id@);
                    } else {
                        assert(post.regs@[w] == pre.regs@[w]);
                    }
                } else {
                    assert(post.regs@[w] == pre.regs@[w]);
                }
            }
            if pre.has_member(s2, f2, c2) {
                let (g, m): (int, int) = choose|g: int, m: int|
                    #![trigger pre.groups@[g].members@[m]]
                    0 <= g < pre.groups@.len() && pre.groups@[g].share@ == s2 && view_strings(
                        pre.groups@[g].levels@,
                    ) == f2 && 0 <= m < pre.groups@[g].members@.len()
                        && pre.groups@[g].members@[m].client_id@ == c2;
                assert(post.groups@[g].members@[m].client_id@ == c2);
            }
            if pre.has_reg(ft, sub.client_id@) {
                let i = choose|i: int|
                    0 <= i < pre.regs@.len() && view_strings(
                        (#[trigger] pre.regs@[i]).levels@,
                    ) == ft && pre.regs@[i].leaf.client_id@ == sub.client_id@ && post.regs@
                        == pre.regs@.update(
                        i,
                        RegSub { levels: pre.regs@[i].levels, leaf: sub },
                    );
                assert(view_strings(post.regs@[i].levels@) == ft);
                assert(post.regs@[i].leaf.client_id@ == sub.client_id@);
            } else {
                assert(view_strings(post.regs@[post.regs@.len() - 1].levels@) == ft);
                assert(post.regs@[post.regs@.len() - 1].leaf.client_id@ == sub.client_id@);
            }
        },
        Some(sh) => {
            if pre.has_reg(f2, c2) {
                let w = choose|w: int|
                    0 <= w < pre.regs@.len() && view_strings(
                        (#[trigger] pre.regs@[w]).levels@,
                    ) == f2 && pre.regs@[w].leaf.client_id@ == c2;
                assert(post.regs@[w] == pre.regs@[w]);
            }
            if pre.has_group(sh, ft) {
                let g = choose|g: int|
                    0 <= g < pre.groups@.len() && (#[trigger] pre.groups@[g]).share@ == sh
                        && view_strings(pre.groups@[g].levels@) == ft && post.groups@.len()
                        == pre.groups@.len() && (forall|h: int|
                        0 <= h < pre.groups@.len() && h != g ==> post.groups@[h]
                            == pre.groups@[h]) && post.groups@[g].share == pre.groups@[g].share
                        && post.groups@[g].levels == pre.groups@[g].levels && post.groups@[g].rr
                        == pre.groups@[g].rr && (if pre.has_member(sh, ft, sub.client_id@) {
                        exists|m: int|
                            0 <= m < pre.groups@[g].members@.len() && (
                            #[trigger] pre.groups@[g].members@[m]).client_id@ == sub.client_id@
                                && post.groups@[g].members@ == pre.groups@[g].members@.update(
                                m,
                                sub,
                            )
                    } else {
                        post.groups@[g].members@ == pre.groups@[g].members@.push(sub)
                    });
                if pre.has_member(sh, ft, sub.client_id@) {
                    let m = choose|m: int|
                        0 <= m < pre.groups@[g].members@.len() && (
                        #[trigger] pre.groups@[g].members@[m]).client_id@ == sub.client_id@
                            && post.groups@[g].members@ == pre.groups@[g].members@.update(m, sub);
                    assert(post.groups@[g].members@[m].client_id@ == sub.client_id@);
                    if pre.has_member(s2, f2, c2) {
                        let (g2, m2): (int, int) = choose|g2: int, m2: int|
                            #![trigger pre.groups@[g2].members@[m2]]
                            0 <= g2 < pre.groups@.len() && pre.groups@[g2].share@ == s2
                                && view_strings(pre.groups@[g2].levels@) == f2 && 0 <= m2
                                < pre.groups@[g2].members@.len()
                                && pre.groups@[g2].members@[m2].client_id@ == c2;
                        if g2 == g {
                            if m2 == m {
                                assert(post.groups@[g].members@[m].client_id@ == c2);
                            } else {
                                assert(post.groups@[g].members@[m2]
                                    == pre.groups@[g].members@[m2]);
                            }
                        } else {
                            assert(post.groups@[g2] == pre.groups@[g2]);
                        }
                    }
                } else {
                    let last = post.groups@[g].members@.len() - 1;
                    assert(post.groups@[g].members@[last] == sub);
                    if pre.has_member(s2, f2, c2) {
                        let (g2, m2): (int, int) = choose|g2: int, m2: int|
                            #![trigger pre.groups@[g2].members@[m2]]
                            0 <= g2 < pre.groups@.len() && pre.groups@[g2].share@ == s2
                                && view_strings(pre.groups@[g2].levels@) == f2 && 0 <= m2
                                < pre.groups@[g2].members@.len()
                                && pre.groups@[g2].members@[m2].client_id@ == c2;
                        if g2 == g {
                            assert(post.groups@[g].members@[m2] == pre.groups@[g].members@[m2]);
                        } else {
                            assert(post.groups@[g2] == pre.groups@[g2]);
                        }
                    }
                }
            } else {
                let last = post.groups@.len() - 1;
                assert(post.groups@[last].members@[0] == sub);
                if pre.has_member(s2, f2, c2) {
                    let (g2, m2): (int, int) = choose|g2: int, m2: int|
                        #![trigger pre.groups@[g2].members@[m2]]
                        0 <= g2 < pre.groups@.len() && pre.groups@[g2].share@ == s2
                            && view_strings(pre.groups@[g2].levels@) == f2 && 0 <= m2
                            < pre.groups@[g2].members@.len()
                            && pre.groups@[g2].members@[m2].client_id@ == c2;
                    assert(post.groups@[g2] == pre.groups@[g2]);
                }
            }
        },
    }
}

impl SubscriptionTree {
    /// Remove every subscription a client holds: its regular entries and its
    /// share-group memberships; a group emptied by this disappears. Every
    /// other client's subscriptions stay.
    pub fn remove_client(&mut self, client_id: &String)
        requires
            old(self).wf(),
        ensures
            final(self).wf(),
            forall|f: Seq<Seq<char>>| !#[trigger] final(self).has_reg(f, client_id@),
            forall|s: Seq<char>, f: Seq<Seq<char>>|
                !#[trigger] final(self).has_member(s, f, client_id@),
            forall|f: Seq<Seq<char>>, c2: Seq<char>|
                c2 != client_id@ && old(self).has_reg(f, c2) ==> #[trigger] final(self).has_reg(
                    f,
                    c2,
                ),
            forall|s: Seq<char>, f: Seq<Seq<char>>, c2: Seq<char>|
                c2 != client_id@ && old(self).has_member(s, f, c2)
                    ==> #[trigger] final(self).has_member(s, f, c2),
    {
        let ghost c = client_id@;
        let mut i: usize = 0;
        while i < self.regs.len()
            invariant
                0 <= i <= self.regs@.len(),
                self.groups@ == old(self).groups@,
                old(self).wf(),
                c == client_id@,
                forall|a: int, b: int|
                    0 <= a < b < self.regs@.len() ==> !(view_strings(
                        (#[trigger] self.regs@[a]).levels@,
                    ) == view_strings((#[trigger] self.regs@[b]).levels@)
                        && self.regs@[a].leaf.client_id@ == self.regs@[b].leaf.client_id@),
                forall|k: int| 0 <= k < i ==> (#[trigger] self.regs@[k]).leaf.client_id@ != c,
                forall|f: Seq<Seq<char>>, c2: Seq<char>|
                    c2 != c && old(self).has_reg(f, c2) ==> #[trigger] self.has_reg(f, c2),
            decreases self.regs@.len() - i,
        {
            if str_eq(&self.regs[i].leaf.client_id, client_id) {
                let ghost pre = self.regs@;
                let ghost preself = *self;
                self.regs.remove(i);
                proof {
                    assert forall|a: int, b: int|
                        0 <= a < b < self.regs@.len() implies !(view_strings(
                        (#[trigger] self.regs@[a]).levels@,
                    ) == view_strings((#[trigger] self.regs@[b]).levels@)
                        && self.regs@[a].leaf.client_id@ == self.regs@[b].leaf.client_id@) by {
                        let a0 = if a < i {
                            a
                        } else {
                            a + 1
                        };
                        let b0 = if b < i {
                            b
                        } else {
                            b + 1
                        };
                        assert(self.regs@[a] == pre[a0]);
                        assert(self.regs@[b] == pre[b0]);
                    }
                    assert forall|k: int|
                        0 <= k < i implies (#[trigger] self.regs@[k]).leaf.client_id@ != c by {
                        assert(self.regs@[k] == pre[k]);
                    }
                    assert forall|f: Seq<Seq<char>>, c2: Seq<char>|
                        c2 != c && old(self).has_reg(f, c2) implies #[trigger] self.has_reg(
                        f,
                        c2,
                    ) by {
                        assert(preself.has_reg(f, c2));
                        let w = choose|w: int|
                            0 <= w < pre.len() && view_strings(
                                (#[trigger] pre[w]).levels@,
                            ) == f && pre[w].leaf.client_id@ == c2;
                        if w < i {
                            assert(self.regs@[w] == pre[w]);
                        } else {
                            assert(self.regs@[w - 1] == pre[w]);
                        }
                    }
                }
            } else {
                i = i + 1;
            }
        }
        let ghost regs_mid = self.regs@;
        proof {
            assert forall|f: Seq<Seq<char>>| !#[trigger] self.has_reg(f, c) by {
                if self.has_reg(f, c) {
                    let w = choose|w: int|
                        0 <= w < self.regs@.len() && view_strings(
                            (#[trigger] self.regs@[w]).levels@,
                        ) == f && self.regs@[w].leaf.client_id@ == c;
                    assert(false);
                }
            }
        }
        let mut g: usize = 0;
        while g < self.groups.len()
            invariant
                0 <= g <= self.groups@.len(),
                self.regs@ == regs_mid,
                old(self).wf(),
                c == client_id@,
                forall|f: Seq<Seq<char>>| !#[trigger] self.has_reg(f, c),
                forall|f: Seq<Seq<char>>, c2: Seq<char>|
                    c2 != c && old(self).has_reg(f, c2) ==> #[trigger] self.has_reg(f, c2),
                forall|a: int, b: int|
                    0 <= a < b < self.regs@.len() ==> !(view_strings(
                        (#[trigger] self.regs@[a]).levels@,
                    ) == view_strings((#[trigger] self.regs@[b]).levels@)
                        && self.regs@[a].leaf.client_id@ == self.regs@[b].leaf.client_id@),
                forall|a: int, b: int|
                    0 <= a < b < self.groups@.len() ==> !((#[trigger] self.groups@[a]).share@ == (
                    #[trigger] self.groups@[b]).share@ && view_strings(self.groups@[a].levels@)
                        == view_strings(self.groups@[b].levels@)),
                forall|k: int|
                    0 <= k < self.groups@.len() ==> (#[trigger] self.groups@[k]).members@.len()
                        >= 1 && self.groups@[k].rr < self.groups@[k].members@.len(),
                forall|k: int, m1: int, m2: int|
                    0 <= k < self.groups@.len() && 0 <= m1 < m2 < (
                    #[trigger] self.groups@[k]).members@.len() ==> (
                    #[trigger] self.groups@[k].members@[m1]).client_id@ != (
                    #[trigger] self.groups@[k].members@[m2]).client_id@,
                forall|k: int, m: int|
                    #![trigger self.groups@[k].members@[m]]
                    0 <= k < g && 0 <= m < self.groups@[k].members@.len()
                        ==> self.groups@[k].members@[m].client_id@ != c,
                forall|s: Seq<char>, f: Seq<Seq<char>>, c2: Seq<char>|
                    c2 != c && old(self).has_member(s, f, c2) ==> #[trigger] self.has_member(
                        s,
                        f,
                        c2,
                    ),
            decreases self.groups@.len() - g,
        {
            let mut m: usize = 0;
            let ghost gsnap = self.groups@;
            while m < self.groups[g].members.len()
                invariant_except_break
                    0 <= m <= self.groups@[g as int].members@.len(),
                    g < self.groups@.len(),
                    self.groups@ == gsnap,
                    c == client_id@,
                    forall|k: int|
                        0 <= k < m ==> (
                        #[trigger] self.groups@[g as int].members@[k]).client_id@ != c,
                ensures
                    0 <= m <= self.groups@[g as int].members@.len(),
                    g < self.groups@.len(),
                    self.groups@ == gsnap,
                    forall|k: int|
                        0 <= k < m ==> (
                        #[trigger] self.groups@[g as int].members@[k]).client_id@ != c,
                    m < self.groups@[g as int].members@.len()
                        ==> self.groups@[g as int].members@[m as int].client_id@ == c,
                decreases self.groups@[g as int].members@.len() - m,
            {
                if str_eq(&self.groups[g].members[m].client_id, client_id) {
                    break ;
                }
                m = m + 1;
            }
            if m >= self.groups[g].members.len() {
                g = g + 1;
            } else {
                let ghost pre = *self;
                let glen = self.groups[g].members.len();
                if glen <= 1 {
                    self.groups.remove(g);
                    proof {
                        assert forall|a: int, b: int|
                            0 <= a < b < self.groups@.len() implies !((
                        #[trigger] self.groups@[a]).share@ == (#[trigger] self.groups@[b]).share@
                            && view_strings(self.groups@[a].levels@) == view_strings(
                            self.groups@[b].levels@,
                        )) by {
                            let a0 = if a < g {
                                a
                            } else {
                                a + 1
                            };
                            let b0 = if b < g {
                                b
                            } else {
                                b + 1
                            };
                            assert(self.groups@[a] == pre.groups@[a0]);
                            assert(self.groups@[b] == pre.groups@[b0]);
                        }
                        assert forall|k: int|
                            0 <= k < self.groups@.len() implies ((
                        #[trigger] self.groups@[k]).members@.len() >= 1 && self.groups@[k].rr
                            < self.groups@[k].members@.len()) by {
                            if k < g {
                                assert(self.groups@[k] == pre.groups@[k]);
                            } else {
                                assert(self.groups@[k] == pre.groups@[k + 1]);
                            }
                        }
                        assert forall|k: int, m1: int, m2: int|
                            0 <= k < self.groups@.len() && 0 <= m1 < m2 < (
                            #[trigger] self.groups@[k]).members@.len() implies (
                        #[trigger] self.groups@[k].members@[m1]).client_id@ != (
                        #[trigger] self.groups@[k].members@[m2]).client_id@ by {
                            if k < g {
                                assert(self.groups@[k] == pre.groups@[k]);
                            } else {
                                assert(self.groups@[k] == pre.groups@[k + 1]);
                            }
                        }
                        assert forall|k: int, m3: int|
                            #![trigger self.groups@[k].members@[m3]]
                            0 <= k < g && 0 <= m3 < self.groups@[k].members@.len()
                                implies self.groups@[k].members@[m3].client_id@ != c by {
                            assert(self.groups@[k] == pre.groups@[k]);
                        }
                        assert forall|s: Seq<char>, f: Seq<Seq<char>>, c2: Seq<char>|
                            c2 != c && old(self).has_member(s, f, c2) implies #[trigger] self.has_member(
                            s,
                            f,
                            c2,
                        ) by {
                            assert(pre.has_member(s, f, c2));
                            let (g2, m2): (int, int) = choose|g2: int, m2: int|
                                #![trigger pre.groups@[g2].members@[m2]]
                                0 <= g2 < pre.groups@.len() && pre.groups@[g2].share@ == s
                                    && view_strings(pre.groups@[g2].levels@) == f && 0 <= m2
                                    < pre.groups@[g2].members@.len()
                                    && pre.groups@[g2].members@[m2].client_id@ == c2;
                            if g2 != g {
                                let g3 = if g2 < g {
                                    g2
                                } else {
                                    g2 - 1
                                };
                                assert(self.groups@[g3] == pre.groups@[g2]);
                                assert(self.groups@[g3].members@[m2].client_id@ == c2);
                            } else {
                                assert(pre.groups@[g as int].members@.len() == 1);
                                assert(pre.groups@[g as int].members@[0].client_id@ == c);
                                assert(false);
                            }
                        }
                        assert forall|f: Seq<Seq<char>>| !#[trigger] self.has_reg(f, c) by {
                            if self.has_reg(f, c) {
                                let w = choose|w: int|
                                    0 <= w < self.regs@.len() && view_strings(
                                        (#[trigger] self.regs@[w]).levels@,
                                    ) == f && self.regs@[w].leaf.client_id@ == c;
                                assert(pre.has_reg(f, c));
                                assert(false);
                            }
                        }
                        assert forall|f: Seq<Seq<char>>, c2: Seq<char>|
                            c2 != c && old(self).has_reg(f, c2) implies #[trigger] self.has_reg(
                            f,
                            c2,
                        ) by {
                            assert(pre.has_reg(f, c2));
                            let w = choose|w: int|
                                0 <= w < pre.regs@.len() && view_strings(
                                    (#[trigger] pre.regs@[w]).levels@,
                                ) == f && pre.regs@[w].leaf.client_id@ == c2;
                            assert(self.regs@[w] == pre.regs@[w]);
                        }
                    }
                } else {
                    self.groups[g].members.remove(m);
                    if self.groups[g].rr >= glen - 1 {
                        self.groups[g].rr = 0;
                    }
                    proof {
                        let m0 = m as int;
                        let g0 = g as int;
                        assert forall|a: int, b: int|
                            0 <= a < b < self.groups@.len() implies !((
                        #[trigger] self.groups@[a]).share@ == (#[trigger] self.groups@[b]).share@
                            && view_strings(self.groups@[a].levels@) == view_strings(
                            self.groups@[b].levels@,
                        )) by {
                            assert(self.groups@[a].share == pre.groups@[a].share);
                            assert(self.groups@[b].share == pre.groups@[b].share);
                            assert(self.groups@[a].levels == pre.groups@[a].levels);
                            assert(self.groups@[b].levels == pre.groups@[b].levels);
                        }
                        assert forall|k: int|
                            0 <= k < self.groups@.len() implies ((
                        #[trigger] self.groups@[k]).members@.len() >= 1 && self.groups@[k].rr
                            < self.groups@[k].members@.len()) by {
                            if k != g0 {
                                assert(self.groups@[k] == pre.groups@[k]);
                            }
                        }
                        assert forall|k: int, m1: int, m2: int|
                            0 <= k < self.groups@.len() && 0 <= m1 < m2 < (
                            #[trigger] self.groups@[k]).members@.len() implies (
                        #[trigger] self.groups@[k].members@[m1]).client_id@ != (
                        #[trigger] self.groups@[k].members@[m2]).client_id@ by {
                            if k == g0 {
                                let a = if m1 < m0 {
                                    m1
                                } else {
                                    m1 + 1
                                };
                                let b = if m2 < m0 {
                                    m2
                                } else {
                                    m2 + 1
                                };
                                assert(self.groups@[k].members@[m1]
                                    == pre.groups@[g0].members@[a]);
                                assert(self.groups@[k].members@[m2]
                                    == pre.groups@[g0].members@[b]);
                            } else {
                                assert(self.groups@[k] == pre.groups@[k]);
                            }
                        }
                        assert forall|k: int, m3: int|
                            #![trigger self.groups@[k].members@[m3]]
                            0 <= k < g0 + 1 && 0 <= m3 < self.groups@[k].members@.len()
                                implies self.groups@[k].members@[m3].client_id@ != c by {
                            if k < g0 {
                                assert(self.groups@[k] == pre.groups@[k]);
                            } else {
                                let a = if m3 < m0 {
                                    m3
                                } else {
                                    m3 + 1
                                };
                                assert(self.groups@[k].members@[m3]
                                    == pre.groups@[g0].members@[a]);
                                assert(pre.groups@[g0].members@[m0].client_id@ == c);
                            }
                        }
                        assert forall|s: Seq<char>, f: Seq<Seq<char>>, c2: Seq<char>|
                            c2 != c && old(self).has_member(s, f, c2) implies #[trigger] self.has_member(
                            s,
                            f,
                            c2,
                        ) by {
                            assert(pre.has_member(s, f, c2));
                            let (g2, m2): (int, int) = choose|g2: int, m2: int|
                                #![trigger pre.groups@[g2].members@[m2]]
                                0 <= g2 < pre.groups@.len() && pre.groups@[g2].share@ == s
                                    && view_strings(pre.groups@[g2].levels@) == f && 0 <= m2
                                    < pre.groups@[g2].members@.len()
                                    && pre.groups@[g2].members@[m2].client_id@ == c2;
                            if g2 != g0 {
                                assert(self.groups@[g2] == pre.groups@[g2]);
                                assert(self.groups@[g2].members@[m2].client_id@ == c2);
                            } else {
                                assert(m2 != m0);
                                let m4 = if m2 < m0 {
                                    m2
                                } else {
                                    m2 - 1
                                };
                                assert(self.groups@[g0].members@[m4]
                                    == pre.groups@[g0].members@[m2]);
                                assert(self.groups@[g0].share == pre.groups@[g0].share);
                                assert(self.groups@[g0].levels == pre.groups@[g0].levels);
                                assert(self.groups@[g0].members@[m4].client_id@ == c2);
                            }
                        }
                        assert forall|f: Seq<Seq<char>>| !#[trigger] self.has_reg(f, c) by {
                            if self.has_reg(f, c) {
                                let w = choose|w: int|
                                    0 <= w < self.regs@.len() && view_strings(
                                        (#[trigger] self.regs@[w]).levels@,
                                    ) == f && self.regs@[w].leaf.client_id@ == c;
                                assert(pre.has_reg(f, c));
                                assert(false);
                            }
                        }
                        assert forall|f: Seq<Seq<char>>, c2: Seq<char>|
                            c2 != c && old(self).has_reg(f, c2) implies #[trigger] self.has_reg(
                            f,
                            c2,
                        ) by {
                            assert(pre.has_reg(f, c2));
                            let w = choose|w: int|
                                0 <= w < pre.regs@.len() && view_strings(
                                    (#[trigger] pre.regs@[w]).levels@,
                                ) == f && pre.regs@[w].leaf.client_id@ == c2;
                            assert(self.regs@[w] == pre.regs@[w]);
                        }
                    }
                    g = g + 1;
                }
            }
        }
        proof {
            assert forall|s: Seq<char>, f: Seq<Seq<char>>|
                !#[trigger] self.has_member(s, f, c) by {
                if self.has_member(s, f, c) {
                    let (g2, m2): (int, int) = choose|g2: int, m2: int|
                        #![trigger self.groups@[g2].members@[m2]]
                        0 <= g2 < self.groups@.len() && self.groups@[g2].share@ == s
                            && view_strings(self.groups@[g2].levels@) == f && 0 <= m2
                            < self.groups@[g2].members@.len()
                            && self.groups@[g2].members@[m2].client_id@ == c;
                    assert(false);
                }
            }
        }
    }
}

} // verus!
