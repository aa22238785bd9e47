use vstd::prelude::*;

use crate::error::MqttError;
use crate::packets::enums::{QosLevel, SubackReturnCode};
use crate::pattern::filter_matches;
use crate::topic_heir::{
    in_res, insert_post, lemma_insert_monotone, SubscriptionLeaf, SubscriptionTree,
};
use crate::utils::{spec_share_split, split_levels, view_strings};

verus! {

/// The broker's in-memory state for one client between CONNECT and
/// disconnect.
#[derive(Debug, Clone, Copy)]
pub struct Session {
    /// Whether the client asked for its state to be discarded.
    pub clean_session: bool,
}

impl Session {
    pub fn new(clean_session: bool) -> (r: Self)
        ensures
            r.clean_session == clean_session,
    {
        Session { clean_session }
    }
}

/// The broker core: the client registry and the subscription store. It is
/// driven by one command loop, so every mutation is serialized.
#[derive(Debug)]
pub struct App {
    pub sessions: Vec<(String, Session)>,
    pub subscriptions: SubscriptionTree,
}

/// Whether a filter begins with `$` without naming the served dollar
/// namespaces: `$SYS/...` may be watched and `$share/...` names a shared
/// subscription; any other `$` filter is refused at subscribe time.
pub open spec fn dollar_blocked(f: Seq<char>) -> bool {
    f.len() > 0 && f[0] == '$' && !(f.len() >= 5 && f.subrange(0, 5) == seq![
        '$',
        'S',
        'Y',
        'S',
        '/',
    ]) && !(f.len() >= 7 && f.subrange(0, 7) == seq!['$', 's', 'h', 'a', 'r', 'e', '/'])
}

/// The SUBACK code a subscribe request earns: failure for a blocked or
/// unusable filter, else success at the requested QoS.
pub open spec fn spec_grant(filter: Seq<char>, qos: QosLevel) -> SubackReturnCode {
    if dollar_blocked(filter) || spec_share_split(filter) is Err {
        SubackReturnCode::Failure
    } else {
        match qos {
            QosLevel::AtMost => SubackReturnCode::SuccessQosZero,
            QosLevel::AtLeast => SubackReturnCode::SuccessQosOne,
            QosLevel::Exactly => SubackReturnCode::SuccessQosTwo,
        }
    }
}

/// The predicate that picks the sessions registered under one identifier.
pub open spec fn key_pred(c: Seq<char>) -> spec_fn((String, Session)) -> bool {
    |p: (String, Session)| p.0@ == c
}

/// What registering a client leaves behind: exactly one session under its
/// identifier, other sessions untouched, and `took_over` exactly when a live
/// session had to make way.
pub open spec fn connect_post(
    pre: App,
    post: App,
    cid: Seq<char>,
    clean_session: bool,
    took_over: bool,
) -> bool {
    &&& took_over == pre.has_session(cid)
    &&& post.has_session(cid)
    &&& post.session_count(cid) == 1
    &&& forall|c2: Seq<char>|
        c2 != cid ==> (#[trigger] post.has_session(c2) <==> pre.has_session(c2))
}

impl App {
    /// Whether a session is registered under a client identifier.
    pub open spec fn has_session(self, c: Seq<char>) -> bool {
        exists|i: int| 0 <= i < self.sessions@.len() && (#[trigger] self.sessions@[i]).0@ == c
    }

    /// How many sessions are registered under a client identifier.
    pub open spec fn session_count(self, c: Seq<char>) -> int {
        self.sessions@.filter(key_pred(c)).len() as int
    }

    /// Well-formedness: at most one session per client identifier, and a
    /// well-formed subscription store.
    pub open spec fn wf(self) -> bool {
        &&& forall|i: int, j: int|
            0 <= i < j < self.sessions@.len() ==> (#[trigger] self.sessions@[i]).0@ != (
            #[trigger] self.sessions@[j]).0@
        &&& self.subscriptions.wf()
    }

    /// An empty broker: no sessions, no subscriptions.
    pub fn new() -> (r: Self)
        ensures
            r.wf(),
            r.sessions@.len() == 0,
            r.subscriptions.regs@.len() == 0,
            r.subscriptions.groups@.len() == 0,
    {
        App { sessions: Vec::new(), subscriptions: SubscriptionTree::new() }
    }

    /// Whether a client currently has a session.
    pub fn has_client(&self, client_id: &String) -> (r: bool)
        ensures
            r == self.has_session(client_id@),
    {
        let mut i: usize = 0;
        while i < self.sessions.len()
            invariant
                0 <= i <= self.sessions@.len(),
                forall|k: int| 0 <= k < i ==> (#[trigger] self.sessions@[k]).0@ != client_id@,
            decreases self.sessions@.len() - i,
        {
            if self.sessions[i].0.eq(client_id) {
                return true;
            }
            i = i + 1;
        }
        false
    }

    /// Register a client. A live session under the same identifier is
    /// replaced, and the caller must tell that session's writer to
    /// disconnect: the result says whether one was there. With clean session
    /// set, every subscription the client held is dropped.
    pub fn connect(&mut self, client_id: String, clean_session: bool) -> (took_over: bool)
        requires
            old(self).wf(),
        ensures
            final(self).wf(),
            connect_post(*old(self), *final(self), client_id@, clean_session, took_over),
            !clean_session ==> final(self).subscriptions == old(self).subscriptions,
            clean_session ==> (forall|f: Seq<Seq<char>>|
                !#[trigger] final(self).subscriptions.has_reg(f, client_id@)) && (forall|
                s: Seq<char>,
                f: Seq<Seq<char>>,
            |
                !#[trigger] final(self).subscriptions.has_member(s, f, client_id@)),
    {
        let ghost c = client_id@;
        let key = client_id.clone();
        let mut i: usize = 0;
        while i < self.sessions.len()
            invariant_except_break
                0 <= i <= self.sessions@.len(),
                *self == *old(self),
                old(self).wf(),
                c == client_id@,
                forall|k: int| 0 <= k < i ==> (#[trigger] self.sessions@[k]).0@ != c,
            ensures
                0 <= i <= self.sessions@.len(),
                *self == *old(self),
                old(self).wf(),
                c == client_id@,
                forall|k: int| 0 <= k < i ==> (#[trigger] self.sessions@[k]).0@ != c,
                i < self.sessions@.len() ==> self.sessions@[i as int].0@ == c,
            decreases self.sessions@.len() - i,
        {
            if self.sessions[i].0.eq(&client_id) {
                break ;
            }
            i = i + 1;
        }
        let took_over = i < self.sessions.len();
        if took_over {
            let ghost pre = self.sessions@;
            self.sessions[i].1 = Session { clean_session };
            proof {
                assert(self.sessions@[i as int].0@ == c);
                assert forall|k: int|
                    0 <= k < self.sessions@.len() implies (#[trigger] self.sessions@[k]).0
                    == pre[k].0 by {
                    if k != i {
                        assert(self.sessions@[k] == pre[k]);
                    }
                }
                lemma_one_key_count(self.sessions@, c, i as int);
            }
        } else {
            let ghost pre = self.sessions@;
            self.sessions.push((client_id, Session { clean_session }));
            proof {
                assert(self.sessions@[self.sessions@.len() - 1].0@ == c);
                assert forall|k: int|
                    0 <= k < self.sessions@.len() - 1 implies (#[trigger] self.sessions@[k]).0
                    == pre[k].0 by {
                    assert(self.sessions@[k] == pre[k]);
                }
                lemma_one_key_count(self.sessions@, c, self.sessions@.len() - 1);
            }
        }
        if clean_session {
            self.subscriptions.remove_client(&key);
        }
        proof {
            let os = old(self).sessions@;
            let ns = self.sessions@;
            if took_over {
                assert(os[i as int].0@ == c);
            } else {
                if old(self).has_session(c) {
                    let w = choose|w: int| 0 <= w < os.len() && (#[trigger] os[w]).0@ == c;
                    assert(false);
                }
            }
            assert(self.has_session(c));
            assert forall|c2: Seq<char>|
                c2 != c implies (#[trigger] self.has_session(c2) <==> old(self).has_session(
                c2,
            )) by {
                if took_over {
                    if self.has_session(c2) {
                        let w = choose|w: int| 0 <= w < ns.len() && (#[trigger] ns[w]).0@ == c2;
                        assert(ns[w].0 == os[w].0);
                        assert(old(self).has_session(c2));
                    }
                    if old(self).has_session(c2) {
                        let w = choose|w: int| 0 <= w < os.len() && (#[trigger] os[w]).0@ == c2;
                        assert(ns[w].0 == os[w].0);
                        assert(self.has_session(c2));
                    }
                } else {
                    if self.has_session(c2) {
                        let w = choose|w: int| 0 <= w < ns.len() && (#[trigger] ns[w]).0@ == c2;
                        if w < os.len() {
                            assert(ns[w] == os[w]);
                            assert(old(self).has_session(c2));
                        } else {
                            assert(ns[w].0@ == c);
                            assert(false);
                        }
                    }
                    if old(self).has_session(c2) {
                        let w = choose|w: int| 0 <= w < os.len() && (#[trigger] os[w]).0@ == c2;
                        assert(ns[w] == os[w]);
                        assert(self.has_session(c2));
                    }
                }
            }
            assert forall|a: int, b: int|
                0 <= a < b < ns.len() implies (#[trigger] ns[a]).0@ != (#[trigger] ns[b]).0@ by {
                if took_over {
                    assert(ns[a].0 == os[a].0);
                    assert(ns[b].0 == os[b].0);
                } else {
                    if b < os.len() {
                        assert(ns[a] == os[a]);
                        assert(ns[b] == os[b]);
                    } else {
                        assert(ns[a] == os[a]);
                        assert(ns[b].0@ == c);
                    }
                }
            }
            assert(self.wf());
        }
        took_over
    }
}

/// A list of sessions whose keys are distinct and which holds the key `c` at
/// index `w` holds it exactly once.
proof fn lemma_one_key_count(s: Seq<(String, Session)>, c: Seq<char>, w: int)
    requires
        0 <= w < s.len(),
        s[w].0@ == c,
        forall|i: int, j: int| 0 <= i < j < s.len() ==> (#[trigger] s[i]).0@ != (#[trigger] s[j]).0@,
    ensures
        s.filter(key_pred(c)).len() == 1,
    decreases s.len(),
{
    reveal(Seq::filter);
    let last = s.last();
    let rest = s.drop_last();
    if w == s.len() - 1 {
        lemma_no_key_filter_empty(rest, c);
    } else {
        lemma_one_key_count(rest, c, w);
        assert(last.0@ != c);
    }
}

/// A list of sessions none of whose keys is `c` filters to nothing.
proof fn lemma_no_key_filter_empty(s: Seq<(String, Session)>, c: Seq<char>)
    requires
        forall|i: int| 0 <= i < s.len() ==> (#[trigger] s[i]).0@ != c,
    ensures
        s.filter(key_pred(c)).len() == 0,
    decreases s.len(),
{
    reveal(Seq::filter);
    if s.len() > 0 {
        let last = s.last();
        assert(last.0@ != c);
        lemma_no_key_filter_empty(s.drop_last(), c);
    }
}

/// Takeover: after two successive registrations of the same client
/// identifier, the registry holds exactly one session for it, and the second
/// registration reported that it displaced a live session, so its writer was
/// told to disconnect.
pub proof fn lemma_takeover(
    s0: App,
    s1: App,
    s2: App,
    cid: Seq<char>,
    clean1: bool,
    clean2: bool,
    t1: bool,
    t2: bool,
)
    requires
        connect_post(s0, s1, cid, clean1, t1),
        connect_post(s1, s2, cid, clean2, t2),
    ensures
        t2 == true,
        s2.session_count(cid) == 1,
{
}


/// Whether a filter begins with `$` outside the `$SYS/` and `$share/`
/// namespaces.
fn is_dollar_blocked(f: &String) -> (r: bool)
    ensures
        r == dollar_blocked(f@),
{
    let st = f.as_str();
    let n = st.unicode_len();
    if n == 0 || st.get_char(0) != '$' {
        return false;
    }
    if n >= 5 && st.get_char(1) == 'S' && st.get_char(2) == 'Y' && st.get_char(3) == 'S'
        && st.get_char(4) == '/' {
        proof {
            assert(f@.subrange(0, 5) =~= seq!['$', 'S', 'Y', 'S', '/']);
        }
        return false;
    }
    if n >= 7 && st.get_char(1) == 's' && st.get_char(2) == 'h' && st.get_char(3) == 'a'
        && st.get_char(4) == 'r' && st.get_char(5) == 'e' && st.get_char(6) == '/' {
        proof {
            assert(f@.subrange(0, 7) =~= seq!['$', 's', 'h', 'a', 'r', 'e', '/']);
        }
        return false;
    }
    proof {
        if f@.len() >= 5 {
            let pre5 = f@.subrange(0, 5);
            assert(pre5[0] == f@[0] && pre5[1] == f@[1] && pre5[2] == f@[2] && pre5[3] == f@[3]
                && pre5[4] == f@[4]);
            assert(pre5 != seq!['$', 'S', 'Y', 'S', '/']);
        }
        if f@.len() >= 7 {
            let pre7 = f@.subrange(0, 7);
            assert(pre7[0] == f@[0] && pre7[1] == f@[1] && pre7[2] == f@[2] && pre7[3] == f@[3]
                && pre7[4] == f@[4] && pre7[5] == f@[5] && pre7[6] == f@[6]);
            assert(pre7 != seq!['$', 's', 'h', 'a', 'r', 'e', '/']);
        }
    }
    true
}

impl App {
    /// Grant or refuse each requested subscription for a client: a filter
    /// that begins with `$` outside `$SYS/`, or that cannot be tokenised, is
    /// refused; any other is stored at the requested QoS, superseding the
    /// client's prior subscription on that filter. Fails exactly when the
    /// client has no session.
    pub fn subscribe(&mut self, cid: &String, topics: Vec<(String, QosLevel)>) -> (r: Result<
        Vec<SubackReturnCode>,
        MqttError,
    >)
        requires
            old(self).wf(),
        ensures
            final(self).wf(),
            final(self).sessions@ == old(self).sessions@,
            r matches Err(e) ==> e == MqttError::Unknown && !old(self).has_session(cid@) && *final(self) == *old(self),
            r matches Ok(codes) ==> old(self).has_session(cid@) && codes@.len() == topics@.len()
                && (forall|k: int|
                0 <= k < topics@.len() ==> codes@[k] == spec_grant(
                    (#[trigger] topics@[k]).0@,
                    topics@[k].1,
                )) && (forall|k: int|
                0 <= k < topics@.len() && spec_grant((#[trigger] topics@[k]).0@, topics@[k].1)
                    != SubackReturnCode::Failure ==> ({
                    let (ft, share) = spec_share_split(topics@[k].0@)->Ok_0;
                    match share {
                        None => final(self).subscriptions.has_reg(ft, cid@),
                        Some(sh) => final(self).subscriptions.has_member(sh, ft, cid@),
                    }
                })),
    {
        if !self.has_client(cid) {
            return Err(MqttError::Unknown);
        }
        let ghost c = cid@;
        let ghost tv = topics@;
        let mut codes: Vec<SubackReturnCode> = Vec::new();
        let mut i: usize = 0;
        while i < topics.len()
            invariant
                0 <= i <= tv.len(),
                tv == topics@,
                c == cid@,
                old(self).wf(),
                self.wf(),
                self.sessions@ == old(self).sessions@,
                codes@.len() == i,
                forall|k: int|
                    0 <= k < i ==> codes@[k] == spec_grant((#[trigger] tv[k]).0@, tv[k].1),
                forall|k: int|
                    0 <= k < i && spec_grant((#[trigger] tv[k]).0@, tv[k].1)
                        != SubackReturnCode::Failure ==> ({
                        let (ft, share) = spec_share_split(tv[k].0@)->Ok_0;
                        match share {
                            None => self.subscriptions.has_reg(ft, c),
                            Some(sh) => self.subscriptions.has_member(sh, ft, c),
                        }
                    }),
            decreases tv.len() - i,
        {
            let filter = topics[i].0.clone();
            let qos = topics[i].1;
            if is_dollar_blocked(&filter) {
                codes.push(SubackReturnCode::Failure);
            } else {
                let leaf = SubscriptionLeaf::new(qos, cid.clone(), false, false);
                let ghost pre_subs = self.subscriptions;
                match self.subscriptions.insert(filter, leaf) {
                    Ok(_) => {
                        codes.push(SubackReturnCode::for_qos(qos));
                        proof {
                            let (ft, share) = spec_share_split(tv[i as int].0@)->Ok_0;
                            lemma_insert_monotone(
                                pre_subs,
                                self.subscriptions,
                                ft,
                                share,
                                leaf,
                                ft,
                                Seq::<char>::empty(),
                                c,
                            );
                            assert forall|k: int|
                                0 <= k < i + 1 && spec_grant((#[trigger] tv[k]).0@, tv[k].1)
                                    != SubackReturnCode::Failure implies ({
                                let (ftk, sharek) = spec_share_split(tv[k].0@)->Ok_0;
                                match sharek {
                                    None => self.subscriptions.has_reg(ftk, c),
                                    Some(shk) => self.subscriptions.has_member(shk, ftk, c),
                                }
                            }) by {
                                let (ftk, sharek) = spec_share_split(tv[k].0@)->Ok_0;
                                if k < i {
                                    match sharek {
                                        None => {
                                            assert(pre_subs.has_reg(ftk, c));
                                            lemma_insert_monotone(
                                                pre_subs,
                                                self.subscriptions,
                                                ft,
                                                share,
                                                leaf,
                                                ftk,
                                                Seq::<char>::empty(),
                                                c,
                                            );
                                        },
                                        Some(shk) => {
                                            assert(pre_subs.has_member(shk, ftk, c));
                                            lemma_insert_monotone(
                                                pre_subs,
                                                self.subscriptions,
                                                ft,
                                                share,
                                                leaf,
                                                ftk,
                                                shk,
                                                c,
                                            );
                                        },
                                    }
                                } else {
                                    match share {
                                        None => {
                                            assert(self.subscriptions.has_reg(ft, c));
                                        },
                                        Some(sh) => {
                                            lemma_insert_monotone(
                                                pre_subs,
                                                self.subscriptions,
                                                ft,
                                                share,
                                                leaf,
                                                ft,
                                                sh,
                                                c,
                                            );
                                        },
                                    }
                                }
                            }
                        }
                    },
                    Err(_) => {
                        codes.push(SubackReturnCode::Failure);
                    },
                }
            }
            i = i + 1;
        }
        Ok(codes)
    }

    /// Drop a client's regular subscriptions on the given filters; a filter
    /// naming a share group leaves that group membership. Fails exactly when
    /// the client has no session.
    pub fn unsubscribe(&mut self, cid: &String, topics: Vec<String>) -> (r: Result<
        (),
        MqttError,
    >)
        requires
            old(self).wf(),
        ensures
            final(self).wf(),
            final(self).sessions@ == old(self).sessions@,
            r matches Err(e) ==> e == MqttError::Unknown && !old(self).has_session(cid@) && *final(self) == *old(self),
            r is Ok ==> old(self).has_session(cid@) && (forall|k: int|
                0 <= k < topics@.len() ==> ((spec_share_split((#[trigger] topics@[k])@) is Ok
                    && spec_share_split(topics@[k]@)->Ok_0.1 is None) ==> !final(self).subscriptions.has_reg(
                    spec_share_split(topics@[k]@)->Ok_0.0,
                    cid@,
                ))) && (forall|k: int|
                0 <= k < topics@.len() ==> ((spec_share_split((#[trigger] topics@[k])@) is Ok
                    && spec_share_split(topics@[k]@)->Ok_0.1 is Some) ==> !final(self).subscriptions.has_member(
                    spec_share_split(topics@[k]@)->Ok_0.1->0,
                    spec_share_split(topics@[k]@)->Ok_0.0,
                    cid@,
                ))),
    {
        if !self.has_client(cid) {
            return Err(MqttError::Unknown);
        }
        let ghost c = cid@;
        let ghost tv = topics@;
        let mut i: usize = 0;
        while i < topics.len()
            invariant
                0 <= i <= tv.len(),
                tv == topics@,
                c == cid@,
                old(self).wf(),
                self.wf(),
                self.sessions@ == old(self).sessions@,
                forall|k: int|
                    0 <= k < i ==> ((spec_share_split((#[trigger] tv[k])@) is Ok && spec_share_split(
                        tv[k]@,
                    )->Ok_0.1 is None) ==> !self.subscriptions.has_reg(
                        spec_share_split(tv[k]@)->Ok_0.0,
                        c,
                    )),
                forall|k: int|
                    0 <= k < i ==> ((spec_share_split((#[trigger] tv[k])@) is Ok && spec_share_split(
                        tv[k]@,
                    )->Ok_0.1 is Some) ==> !self.subscriptions.has_member(
                        spec_share_split(tv[k]@)->Ok_0.1->0,
                        spec_share_split(tv[k]@)->Ok_0.0,
                        c,
                    )),
            decreases tv.len() - i,
        {
            let filter = topics[i].clone();
            let ghost pre_subs = self.subscriptions;
            let _ = self.subscriptions.delete(filter, cid);
            proof {
                assert forall|k: int|
                    0 <= k < i + 1 && (spec_share_split((#[trigger] tv[k])@) is Ok && spec_share_split(
                        tv[k]@,
                    )->Ok_0.1 is None) implies !self.subscriptions.has_reg(
                    spec_share_split(tv[k]@)->Ok_0.0,
                    c,
                ) by {
                    let ft = spec_share_split(tv[k]@)->Ok_0.0;
                    if k < i {
                        assert(!pre_subs.has_reg(ft, c));
                        if self.subscriptions.has_reg(ft, c) {
                            let w = choose|w: int|
                                0 <= w < self.subscriptions.regs@.len() && view_strings(
                                    (#[trigger] self.subscriptions.regs@[w]).levels@,
                                ) == ft && self.subscriptions.regs@[w].leaf.client_id@ == c;
                            if self.subscriptions.regs@ == pre_subs.regs@ {
                                assert(pre_subs.has_reg(ft, c));
                            } else {
                                let j = choose|j: int|
                                    0 <= j < pre_subs.regs@.len() && view_strings(
                                        (#[trigger] pre_subs.regs@[j]).levels@,
                                    ) == spec_share_split(tv[i as int]@)->Ok_0.0
                                        && pre_subs.regs@[j].leaf.client_id@ == c
                                        && self.subscriptions.regs@ == pre_subs.regs@.remove(j);
                                let w0 = if w < j {
                                    w
                                } else {
                                    w + 1
                                };
                                assert(self.subscriptions.regs@[w] == pre_subs.regs@[w0]);
                                assert(pre_subs.has_reg(ft, c));
                            }
                            assert(false);
                        }
                    }
                }
                assert forall|k: int|
                    0 <= k < i + 1 && (spec_share_split((#[trigger] tv[k])@) is Ok
                        && spec_share_split(tv[k]@)->Ok_0.1 is Some) implies !self.subscriptions.has_member(
                    spec_share_split(tv[k]@)->Ok_0.1->0,
                    spec_share_split(tv[k]@)->Ok_0.0,
                    c,
                ) by {
                    let shk = spec_share_split(tv[k]@)->Ok_0.1->0;
                    let ftk = spec_share_split(tv[k]@)->Ok_0.0;
                    if k < i {
                        assert(!pre_subs.has_member(shk, ftk, c));
                        if self.subscriptions.has_member(shk, ftk, c) {
                            if spec_share_split(tv[i as int]@) is Ok && spec_share_split(
                                tv[i as int]@,
                            )->Ok_0.1 is Some {
                                assert(pre_subs.has_member(shk, ftk, c));
                            } else {
                                assert(self.subscriptions.groups@ == pre_subs.groups@);
                                let (g2, m2): (int, int) = choose|g2: int, m2: int|
                                    #![trigger self.subscriptions.groups@[g2].members@[m2]]
                                    0 <= g2 < self.subscriptions.groups@.len()
                                        && self.subscriptions.groups@[g2].share@ == shk
                                        && view_strings(self.subscriptions.groups@[g2].levels@)
                                        == ftk && 0 <= m2
                                        < self.subscriptions.groups@[g2].members@.len()
                                        && self.subscriptions.groups@[g2].members@[m2].client_id@
                                        == c;
                                assert(pre_subs.groups@[g2].members@[m2].client_id@ == c);
                                assert(pre_subs.has_member(shk, ftk, c));
                            }
                            assert(false);
                        }
                    }
                }
            }
            i = i + 1;
        }
        Ok(())
    }

    /// Remove a client's session and every subscription it holds; its
    /// outbound channel is then closed by the caller, which ends the writer.
    pub fn disconnect(&mut self, cid: String)
        requires
            old(self).wf(),
        ensures
            final(self).wf(),
            !final(self).has_session(cid@),
            forall|c2: Seq<char>|
                c2 != cid@ ==> (#[trigger] final(self).has_session(c2) <==> old(self).has_session(
                    c2,
                )),
            forall|f: Seq<Seq<char>>| !#[trigger] final(self).subscriptions.has_reg(f, cid@),
            forall|s: Seq<char>, f: Seq<Seq<char>>|
                !#[trigger] final(self).subscriptions.has_member(s, f, cid@),
            forall|f: Seq<Seq<char>>, c2: Seq<char>|
                c2 != cid@ && old(self).subscriptions.has_reg(f, c2) ==> #[trigger] final(self).subscriptions.has_reg(f, c2),
            forall|s: Seq<char>, f: Seq<Seq<char>>, c2: Seq<char>|
                c2 != cid@ && old(self).subscriptions.has_member(s, f, c2)
                    ==> #[trigger] final(self).subscriptions.has_member(s, f, c2),
    {
        let ghost c = cid@;
        let mut i: usize = 0;
        while i < self.sessions.len()
            invariant_except_break
                0 <= i <= self.sessions@.len(),
                *self == *old(self),
                old(self).wf(),
                c == cid@,
                forall|k: int| 0 <= k < i ==> (#[trigger] self.sessions@[k]).0@ != c,
            ensures
                0 <= i <= self.sessions@.len(),
                *self == *old(self),
                old(self).wf(),
                c == cid@,
                forall|k: int| 0 <= k < i ==> (#[trigger] self.sessions@[k]).0@ != c,
                i < self.sessions@.len() ==> self.sessions@[i as int].0@ == c,
            decreases self.sessions@.len() - i,
        {
            if self.sessions[i].0.eq(&cid) {
                break ;
            }
            i = i + 1;
        }
        if i < self.sessions.len() {
            let ghost pre = self.sessions@;
            self.sessions.remove(i);
            proof {
                assert forall|k: int|
                    0 <= k < self.sessions@.len() implies (#[trigger] self.sessions@[k]).0@
                    != c by {
                    if k < i {
                        assert(self.sessions@[k] == pre[k]);
                    } else {
                        assert(self.sessions@[k] == pre[k + 1]);
                    }
                }
                assert forall|a: int, b: int|
                    0 <= a < b < self.sessions@.len() implies (#[trigger] self.sessions@[a]).0@
                    != (#[trigger] self.sessions@[b]).0@ by {
                    let a0 = if a < i {
                        a
                    } else {
                        a + 1
                    };
                    let b0 = if b < i {
                        b
                    } else {
                        b + 1
                    };
                    assert(self.sessions@[a] == pre[a0]);
                    assert(self.sessions@[b] == pre[b0]);
                }
                assert forall|c2: Seq<char>|
                    c2 != c implies (#[trigger] self.has_session(c2) <==> old(self).has_session(
                    c2,
                )) by {
                    if self.has_session(c2) {
                        let w = choose|w: int|
                            0 <= w < self.sessions@.len() && (#[trigger] self.sessions@[w]).0@
                                == c2;
                        let w0 = if w < i {
                            w
                        } else {
                            w + 1
                        };
                        assert(pre[w0].0@ == c2);
                        assert(old(self).has_session(c2));
                    }
                    if old(self).has_session(c2) {
                        let w = choose|w: int|
                            0 <= w < pre.len() && (#[trigger] pre[w]).0@ == c2;
                        if w < i {
                            assert(self.sessions@[w] == pre[w]);
                        } else {
                            assert(self.sessions@[w - 1] == pre[w]);
                        }
                        assert(self.has_session(c2));
                    }
                }
            }
        } else {
            proof {
                assert forall|k: int|
                    0 <= k < self.sessions@.len() implies (#[trigger] self.sessions@[k]).0@
                    != c by {}
            }
        }
        let ghost mid_sessions = self.sessions@;
        self.subscriptions.remove_client(&cid);
        proof {
            assert(self.sessions@ == mid_sessions);
            assert forall|c2: Seq<char>|
                c2 != c implies (#[trigger] self.has_session(c2) <==> old(self).has_session(
                c2,
            )) by {
                if self.has_session(c2) {
                    let w = choose|w: int|
                        0 <= w < self.sessions@.len() && (#[trigger] self.sessions@[w]).0@ == c2;
                    if i < old(self).sessions@.len() {
                        let w0 = if w < i {
                            w
                        } else {
                            w + 1
                        };
                        assert(old(self).sessions@[w0].0@ == c2);
                    } else {
                        assert(old(self).sessions@[w].0@ == c2);
                    }
                    assert(old(self).has_session(c2));
                }
                if old(self).has_session(c2) {
                    let w = choose|w: int|
                        0 <= w < old(self).sessions@.len() && (#[trigger] old(
                            self,
                        ).sessions@[w]).0@ == c2;
                    if i < old(self).sessions@.len() {
                        if w < i {
                            assert(self.sessions@[w].0@ == c2);
                        } else {
                            assert(self.sessions@[w - 1].0@ == c2);
                        }
                    } else {
                        assert(self.sessions@[w].0@ == c2);
                    }
                    assert(self.has_session(c2));
                }
            }
            if self.has_session(c) {
                let w = choose|w: int|
                    0 <= w < self.sessions@.len() && (#[trigger] self.sessions@[w]).0@ == c;
                assert(false);
            }
        }
    }

    /// The recipients of a publish: every client with a matching
    /// subscription, each at most once, delivered at the smaller of its
    /// granted QoS and the published QoS; each matching share group
    /// contributes the member under its round-robin cursor and advances it.
    pub fn publish(&mut self, topic: String, qos: QosLevel) -> (r: Vec<(String, QosLevel)>)
        requires
            old(self).wf(),
        ensures
            final(self).wf(),
            final(self).sessions@ == old(self).sessions@,
            final(self).subscriptions.regs@ == old(self).subscriptions.regs@,
            ({
                let tl = split_levels(topic@);
                &&& forall|a: int, b: int|
                    0 <= a < b < r@.len() ==> (#[trigger] r@[a]).0@ != (#[trigger] r@[b]).0@
                &&& forall|k: int|
                    0 <= k < r@.len() ==> exists|q0: QosLevel|
                        old(self).subscriptions.has_matching_sub((#[trigger] r@[k]).0@, q0, tl)
                            && r@[k].1 == q0.spec_min(qos)
                &&& forall|c: Seq<char>|
                    old(self).subscriptions.has_matching_reg(c, tl) ==> #[trigger] in_res(r@, c)
                &&& forall|g: int|
                    0 <= g < old(self).subscriptions.groups@.len() ==> {
                        let og = #[trigger] old(self).subscriptions.groups@[g];
                        &&& final(self).subscriptions.groups@[g].share == og.share
                        &&& final(self).subscriptions.groups@[g].levels == og.levels
                        &&& final(self).subscriptions.groups@[g].members == og.members
                        &&& if filter_matches(view_strings(og.levels@), tl) {
                            &&& in_res(r@, og.members@[og.rr as int].client_id@)
                            &&& final(self).subscriptions.groups@[g].rr == ((og.rr + 1) as int) % (
                            og.members@.len() as int)
                        } else {
                            final(self).subscriptions.groups@[g].rr == og.rr
                        }
                    }
            }),
    {
        let ghost tl = split_levels(topic@);
        let recips = match self.subscriptions.get(topic) {
            Ok(v) => v,
            Err(_) => Vec::new(),
        };
        let ghost rv = recips@;
        let mut out: Vec<(String, QosLevel)> = Vec::new();
        let mut i: usize = 0;
        while i < recips.len()
            invariant
                0 <= i <= rv.len(),
                rv == recips@,
                out@.len() == i,
                forall|k: int|
                    0 <= k < i ==> (#[trigger] out@[k]).0 == rv[k].0 && out@[k].1
                        == rv[k].1.spec_min(qos),
            decreases rv.len() - i,
        {
            let cid = recips[i].0.clone();
            let q = recips[i].1.min_with(qos);
            out.push((cid, q));
            i = i + 1;
        }
        proof {
            assert forall|c: Seq<char>| #[trigger]
                in_res(rv, c) implies in_res(out@, c) by {
                let w = choose|w: int| 0 <= w < rv.len() && (#[trigger] rv[w]).0@ == c;
                assert(out@[w].0@ == c);
            }
            assert forall|c: Seq<char>|
                old(self).subscriptions.has_matching_reg(c, tl) implies #[trigger] in_res(
                out@,
                c,
            ) by {
                assert(in_res(rv, c));
            }
            assert forall|k: int|
                0 <= k < out@.len() implies exists|q0: QosLevel|
                old(self).subscriptions.has_matching_sub((#[trigger] out@[k]).0@, q0, tl)
                    && out@[k].1 == q0.spec_min(qos) by {
                assert(old(self).subscriptions.has_matching_sub(rv[k].0@, rv[k].1, tl));
                assert(out@[k].0@ == rv[k].0@ && out@[k].1 == rv[k].1.spec_min(qos));
                assert(old(self).subscriptions.has_matching_sub(out@[k].0@, rv[k].1, tl));
            }
            assert forall|g: int|
                0 <= g < old(self).subscriptions.groups@.len() implies {
                    let og = #[trigger] old(self).subscriptions.groups@[g];
                    filter_matches(view_strings(og.levels@), tl) ==> in_res(
                        out@,
                        og.members@[og.rr as int].client_id@,
                    )
                } by {
                let og = old(self).subscriptions.groups@[g];
                if filter_matches(view_strings(og.levels@), tl) {
                    assert(in_res(rv, og.members@[og.rr as int].client_id@));
                }
            }
        }
        out
    }
}

} // verus!
