use vstd::prelude::*;

use crate::dns::DNS;
use crate::session::{
    connect_post, session_wf, write_post, Endpoint, Outgoing, Probe, ProxyError, Session, State,
};

verus! {

/// Whether identity `id` names one of the session's sockets; 0 names none.
pub open spec fn holds_id(s: Session, id: usize) -> bool {
    id != 0 && (s.down_sock_id == id || s.up_sock_id == id)
}

/// No identity names sockets of both sessions.
pub open spec fn ids_apart(a: Session, b: Session) -> bool {
    &&& a.down_sock_id != b.down_sock_id
    &&& a.down_sock_id != b.up_sock_id
    &&& a.up_sock_id != 0 ==> a.up_sock_id != b.down_sock_id && a.up_sock_id != b.up_sock_id
}

/// Every session has a client identity, distinct from its target identity,
/// and no identity belongs to two sessions.
pub open spec fn registry_wf(ss: Seq<Session>) -> bool {
    &&& forall|i: int|
        0 <= i < ss.len() ==> {
            &&& (#[trigger] ss[i]).down_sock_id != 0
            &&& ss[i].down_sock_id != ss[i].up_sock_id
            &&& session_wf(ss[i])
        }
    &&& forall|i: int, j: int|
        0 <= i < ss.len() && 0 <= j < ss.len() && i != j ==> ids_apart(#[trigger] ss[i], #[trigger] ss[j])
}

/// Whether some session is reachable by `id`.
pub open spec fn reachable(ss: Seq<Session>, id: usize) -> bool {
    exists|i: int| 0 <= i < ss.len() && holds_id(ss[i], id)
}

/// The session that `id` reaches, by its place in the registry.
pub open spec fn owner(ss: Seq<Session>, id: usize) -> Option<int> {
    if reachable(ss, id) {
        Some(choose|i: int| 0 <= i < ss.len() && holds_id(ss[i], id))
    } else {
        None
    }
}

/// The identities by which the registry reaches sessions.
pub open spec fn identity_count(ss: Seq<Session>) -> nat
    decreases ss.len(),
{
    if ss.len() == 0 {
        0
    } else {
        identity_count(ss.drop_last()) + if ss.last().up_sock_id != 0 {
            2nat
        } else {
            1nat
        }
    }
}

/// An identity reaches at most one session.
pub proof fn lemma_owner(ss: Seq<Session>, id: usize, i: int)
    requires
        registry_wf(ss),
        0 <= i < ss.len(),
        holds_id(ss[i], id),
    ensures
        owner(ss, id) == Some(i),
{
    let k = choose|k: int| 0 <= k < ss.len() && holds_id(ss[k], id);
    if k != i {
        assert(ids_apart(ss[i], ss[k]));
    }
}

/// A relaying session is reached by its client identity and by its target
/// identity, both leading to the same session; removing it leaves neither.
pub proof fn lemma_registry_duality(ss: Seq<Session>, i: int)
    requires
        registry_wf(ss),
        0 <= i < ss.len(),
        ss[i].state == State::Piping,
    ensures
        owner(ss, ss[i].down_sock_id) == Some(i),
        owner(ss, ss[i].up_sock_id) == Some(i),
        !reachable(ss.remove(i), ss[i].down_sock_id),
        !reachable(ss.remove(i), ss[i].up_sock_id),
{
    lemma_owner(ss, ss[i].down_sock_id, i);
    lemma_owner(ss, ss[i].up_sock_id, i);
    lemma_remove_unreaches(ss, i);
}

/// Removing a session removes both of its identities and keeps the rest apart.
pub proof fn lemma_remove_unreaches(ss: Seq<Session>, i: int)
    requires
        registry_wf(ss),
        0 <= i < ss.len(),
    ensures
        registry_wf(ss.remove(i)),
        !reachable(ss.remove(i), ss[i].down_sock_id),
        ss[i].up_sock_id != 0 ==> !reachable(ss.remove(i), ss[i].up_sock_id),
{
    let rs = ss.remove(i);
    assert forall|a: int| 0 <= a < rs.len() implies rs[a] == ss[if a < i { a } else { a + 1 }] by {}
    assert forall|a: int| 0 <= a < rs.len() implies !holds_id(rs[a], ss[i].down_sock_id) by {
        let a2 = if a < i { a } else { a + 1 };
        assert(ids_apart(ss[i], ss[a2]));
        assert(ids_apart(ss[a2], ss[i]));
    }
    if ss[i].up_sock_id != 0 {
        assert forall|a: int| 0 <= a < rs.len() implies !holds_id(rs[a], ss[i].up_sock_id) by {
            let a2 = if a < i { a } else { a + 1 };
            assert(ids_apart(ss[i], ss[a2]));
            assert(ids_apart(ss[a2], ss[i]));
        }
    }
    assert forall|a: int, b: int|
        0 <= a < rs.len() && 0 <= b < rs.len() && a != b implies ids_apart(#[trigger] rs[a], #[trigger] rs[b]) by {
        let a2 = if a < i { a } else { a + 1 };
        let b2 = if b < i { b } else { b + 1 };
        assert(ids_apart(ss[a2], ss[b2]));
    }
    assert forall|a: int| 0 <= a < rs.len() implies {
        &&& (#[trigger] rs[a]).down_sock_id != 0
        &&& rs[a].down_sock_id != rs[a].up_sock_id
        &&& session_wf(rs[a])
    } by {
        let a2 = if a < i { a } else { a + 1 };
        assert(rs[a] == ss[a2]);
    }
}

/// The live sessions, each reachable by its client identity and, once it has
/// one, by its target identity.
pub struct SessionRegistry {
    sessions: Vec<Session>,
}

impl View for SessionRegistry {
    type V = Seq<Session>;

    closed spec fn view(&self) -> Seq<Session> {
        self.sessions@
    }
}

impl SessionRegistry {
    pub fn new() -> (r: SessionRegistry)
        ensures
            r@.len() == 0,
            registry_wf(r@),
    {
        SessionRegistry { sessions: Vec::new() }
    }

    /// The number of identities that reach a session.
    pub fn len(&self) -> (r: usize)
        requires
            registry_wf(self@),
            identity_count(self@) <= usize::MAX,
        ensures
            r == identity_count(self@),
    {
        let mut n: usize = 0;
        let mut i: usize = 0;
        while i < self.sessions.len()
            invariant
                i <= self@.len(),
                n == identity_count(self@.subrange(0, i as int)),
                identity_count(self@) <= usize::MAX,
                self@ == self.sessions@,
            decreases self@.len() - i,
        {
            proof {
                assert(self@.subrange(0, i + 1).drop_last() =~= self@.subrange(0, i as int));
                lemma_count_prefix(self@, i as int + 1);
            }
            if self.sessions[i].up_sock_id != 0 {
                n = n + 2;
            } else {
                n = n + 1;
            }
            i = i + 1;
        }
        assert(self@.subrange(0, i as int) =~= self@);
        n
    }

    /// Finds the session that `id` reaches.
    fn position(&self, id: usize) -> (r: Option<usize>)
        requires
            registry_wf(self@),
        ensures
            r matches Some(i) ==> i < self@.len() && holds_id(self@[i as int], id) && owner(self@, id)
                == Some(i as int),
            r is None ==> !reachable(self@, id) && owner(self@, id) is None,
    {
        if id == 0 {
            return None;
        }
        let mut i: usize = 0;
        while i < self.sessions.len()
            invariant
                i <= self@.len(),
                id != 0,
                registry_wf(self@),
                self@ == self.sessions@,
                forall|j: int| 0 <= j < i ==> !holds_id(self@[j], id),
            decreases self@.len() - i,
        {
            let s = &self.sessions[i];
            if s.down_sock_id == id || s.up_sock_id == id {
                proof {
                    lemma_owner(self@, id, i as int);
                }
                return Some(i);
            }
            i = i + 1;
        }
        None
    }

    /// The session that `id` reaches, if any.
    pub fn get(&self, id: usize) -> (r: Option<&Session>)
        requires
            registry_wf(self@),
        ensures
            r matches Some(s) ==> ((owner(self@, id) matches Some(i) && self@[i] == *s)),
            r is None ==> !reachable(self@, id),
    {
        match self.position(id) {
            Some(i) => Some(&self.sessions[i]),
            None => None,
        }
    }

    /// Adds a session for a newly accepted client identity, unless that
    /// identity is 0 or already reaches a session.
    pub fn accept(&mut self, down_sock_id: usize) -> (r: bool)
        requires
            registry_wf(old(self)@),
        ensures
            registry_wf(final(self)@),
            r == (down_sock_id != 0 && !reachable(old(self)@, down_sock_id)),
            !r ==> (final(self)@ == old(self)@),
            r ==> (final(self)@.len() == old(self)@.len() + 1 && final(self)@.drop_last() == old(self)@),
            r ==> (final(self)@.last().down_sock_id == down_sock_id && final(self)@.last().up_sock_id == 0
                && final(self)@.last().state == State::Head && final(self)@.last().connect_header_buf@.len() == 0),
    {
        if down_sock_id == 0 {
            return false;
        }
        if self.position(down_sock_id).is_some() {
            return false;
        }
        let ghost pre = self@;
        self.sessions.push(Session::new(down_sock_id));
        proof {
            let ss = self@;
            assert(ss.drop_last() =~= pre);
            assert forall|i: int| 0 <= i < pre.len() implies ss[i] == pre[i] by {
                assert(ss.drop_last()[i] == ss[i]);
            }
            assert forall|i: int, j: int|
                0 <= i < ss.len() && 0 <= j < ss.len() && i != j implies ids_apart(#[trigger] ss[i], #[trigger] ss[j]) by {
                if i == pre.len() {
                    assert(!holds_id(ss[j], down_sock_id));
                } else if j == pre.len() {
                    assert(!holds_id(ss[i], down_sock_id));
                }
            }
        }
        true
    }

    /// Adds bytes read from the client of the session that `id` reaches.
    pub fn append_head_bytes(&mut self, id: usize, bytes: &[u8]) -> (r: bool)
        requires
            registry_wf(old(self)@),
        ensures
            registry_wf(final(self)@),
            r == reachable(old(self)@, id),
            !r ==> (final(self)@ == old(self)@),
            r ==> (owner(old(self)@, id) matches Some(i) && final(self)@.len() == old(self)@.len() && {
                &&& forall|j: int| 0 <= j < old(self)@.len() && j != i ==> final(self)@[j] == old(self)@[j]
                &&& final(self)@[i].connect_header_buf@ == old(self)@[i].connect_header_buf@ + bytes@
                &&& final(self)@[i].down_sock_id == old(self)@[i].down_sock_id
                &&& final(self)@[i].up_sock_id == old(self)@[i].up_sock_id
                &&& final(self)@[i].state == old(self)@[i].state
            }),
    {
        match self.position(id) {
            None => false,
            Some(i) => {
                let ghost pre = self@;
                let mut s = self.sessions.remove(i);
                s.append_head_bytes(bytes);
                self.sessions.insert(i, s);
                proof {
                    assert(self@ =~= pre.update(i as int, s));
                    lemma_update_wf(pre, i as int, s);
                }
                true
            },
        }
    }

    /// Reads the request head of the session that `id` reaches and resolves
    /// its target, as `Session::connect` does; `None` when `id` reaches none.
    pub fn connect(&mut self, id: usize, dns: &mut DNS) -> (r: Option<Result<Endpoint, ProxyError>>)
        requires
            registry_wf(old(self)@),
            old(dns).wf(),
        ensures
            registry_wf(final(self)@),
            final(dns).wf(),
            r is None <==> !reachable(old(self)@, id),
            r is None ==> final(self)@ == old(self)@ && *final(dns) == *old(dns),
            r matches Some(res) ==> (owner(old(self)@, id) matches Some(i) && final(self)@.len() == old(self)@.len()
                && (forall|j: int| 0 <= j < old(self)@.len() && j != i ==> final(self)@[j] == old(self)@[j])
                && connect_post(old(self)@[i], final(self)@[i], old(dns)@, final(dns)@, res)),
    {
        match self.position(id) {
            None => None,
            Some(i) => {
                let ghost pre = self@;
                let mut s = self.sessions.remove(i);
                let res = s.connect(dns);
                self.sessions.insert(i, s);
                proof {
                    assert(self@ =~= pre.update(i as int, s));
                    lemma_update_wf(pre, i as int, s);
                }
                Some(res)
            },
        }
    }

    /// Records the target identity of the session whose client identity is
    /// `down_sock_id`; refused unless that session has no target yet and
    /// `up_sock_id` is new and not 0.
    pub fn attach_upstream(&mut self, down_sock_id: usize, up_sock_id: usize) -> (r: bool)
        requires
            registry_wf(old(self)@),
        ensures
            registry_wf(final(self)@),
            r == (up_sock_id != 0 && !reachable(old(self)@, up_sock_id) && (owner(old(self)@, down_sock_id) matches Some(i)
                && old(self)@[i].down_sock_id == down_sock_id && old(self)@[i].up_sock_id == 0)),
            !r ==> (final(self)@ == old(self)@),
            r ==> (owner(old(self)@, down_sock_id) matches Some(i) && final(self)@.len() == old(self)@.len() && {
                &&& forall|j: int| 0 <= j < old(self)@.len() && j != i ==> final(self)@[j] == old(self)@[j]
                &&& final(self)@[i].up_sock_id == up_sock_id
                &&& final(self)@[i].down_sock_id == down_sock_id
                &&& final(self)@[i].state == old(self)@[i].state
                &&& final(self)@[i].connect_header_buf == old(self)@[i].connect_header_buf
                &&& final(self)@[i].host == old(self)@[i].host
                &&& final(self)@[i].is_https == old(self)@[i].is_https
            }),
    {
        if up_sock_id == 0 {
            return false;
        }
        if self.position(up_sock_id).is_some() {
            return false;
        }
        match self.position(down_sock_id) {
            None => false,
            Some(i) => {
                if self.sessions[i].down_sock_id != down_sock_id || self.sessions[i].up_sock_id != 0 {
                    return false;
                }
                let ghost pre = self@;
                let mut s = self.sessions.remove(i);
                s.attach_upstream(up_sock_id);
                self.sessions.insert(i, s);
                proof {
                    let ss = pre.update(i as int, s);
                    assert(self@ =~= ss);
                    assert forall|a: int, b: int|
                        0 <= a < ss.len() && 0 <= b < ss.len() && a != b implies ids_apart(#[trigger] ss[a], #[trigger] ss[b]) by {
                        assert(ids_apart(pre[a], pre[b]));
                        if a == i {
                            assert(!holds_id(pre[b], up_sock_id));
                        }
                        if b == i {
                            assert(!holds_id(pre[a], up_sock_id));
                        }
                    }
                    assert forall|a: int| 0 <= a < ss.len() implies {
                        &&& (#[trigger] ss[a]).down_sock_id != 0
                        &&& ss[a].down_sock_id != ss[a].up_sock_id
                        &&& session_wf(ss[a])
                    } by {
                        if a == i {
                            assert(!holds_id(pre[a], up_sock_id));
                        }
                    }
                }
                true
            },
        }
    }

    /// Handles a writable event on `id`, as `Session::handle_write` does;
    /// `None` when `id` reaches no session.
    pub fn handle_write(&mut self, id: usize, probe: Probe) -> (r: Option<Result<Outgoing, ProxyError>>)
        requires
            registry_wf(old(self)@),
        ensures
            registry_wf(final(self)@),
            r is None <==> !reachable(old(self)@, id),
            r is None ==> final(self)@ == old(self)@,
            r matches Some(res) ==> (owner(old(self)@, id) matches Some(i) && final(self)@.len() == old(self)@.len()
                && (forall|j: int| 0 <= j < old(self)@.len() && j != i ==> final(self)@[j] == old(self)@[j])
                && write_post(old(self)@[i], final(self)@[i], id, probe, res)),
    {
        match self.position(id) {
            None => None,
            Some(i) => {
                let ghost pre = self@;
                let mut s = self.sessions.remove(i);
                let res = s.handle_write(id, probe);
                self.sessions.insert(i, s);
                proof {
                    assert(self@ =~= pre.update(i as int, s));
                    lemma_update_wf(pre, i as int, s);
                }
                Some(res)
            },
        }
    }

    /// Removes the session that `id` reaches, with both of its identities,
    /// and hands it back so that both sockets can be closed. An identity that
    /// reaches nothing leaves the registry as it was.
    pub fn remove(&mut self, id: usize) -> (r: Option<Session>)
        requires
            registry_wf(old(self)@),
        ensures
            registry_wf(final(self)@),
            r is None <==> !reachable(old(self)@, id),
            r is None ==> final(self)@ == old(self)@,
            r matches Some(s) ==> ((owner(old(self)@, id) matches Some(i) && old(self)@[i] == s
                && final(self)@ == old(self)@.remove(i) && !reachable(final(self)@, s.down_sock_id)
                && !reachable(final(self)@, s.up_sock_id))),
    {
        match self.position(id) {
            None => None,
            Some(i) => {
                let ghost pre = self@;
                let s = self.sessions.remove(i);
                proof {
                    lemma_remove_unreaches(pre, i as int);
                }
                Some(s)
            },
        }
    }
}

/// Changing a session but not its identities keeps the registry well formed.
proof fn lemma_update_wf(ss: Seq<Session>, i: int, s: Session)
    requires
        registry_wf(ss),
        0 <= i < ss.len(),
        s.down_sock_id == ss[i].down_sock_id,
        s.up_sock_id == ss[i].up_sock_id,
        session_wf(s),
    ensures
        registry_wf(ss.update(i, s)),
{
    let us = ss.update(i, s);
    assert forall|a: int, b: int|
        0 <= a < us.len() && 0 <= b < us.len() && a != b implies ids_apart(#[trigger] us[a], #[trigger] us[b]) by {
        assert(ids_apart(ss[a], ss[b]));
    }
    assert forall|a: int| 0 <= a < us.len() implies {
        &&& (#[trigger] us[a]).down_sock_id != 0
        &&& us[a].down_sock_id != us[a].up_sock_id
        &&& session_wf(us[a])
    } by {
        assert(ss[a].down_sock_id != 0);
    }
}

proof fn lemma_count_prefix(ss: Seq<Session>, k: int)
    requires
        0 <= k <= ss.len(),
    ensures
        identity_count(ss.subrange(0, k)) <= identity_count(ss),
    decreases ss.len(),
{
    if k < ss.len() {
        assert(ss.drop_last().subrange(0, k) =~= ss.subrange(0, k));
        lemma_count_prefix(ss.drop_last(), k);
    } else {
        assert(ss.subrange(0, k) =~= ss);
    }
}

} // verus!
