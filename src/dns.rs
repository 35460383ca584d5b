use vstd::prelude::*;

use crate::header::{copy_range, same_bytes};

verus! {

/// Relies on dns_lookup::lookup_host for the addresses of a host, each in its
/// textual form; a failed lookup gives none. What it returns depends on the
/// network, so nothing is promised of it.
#[verifier::external_body]
fn lookup_host(host: &[u8]) -> (r: Vec<String>) {
    match dns_lookup::lookup_host(&String::from_utf8_lossy(host)) {
        Ok(ips) => ips.map(|ip| ip.to_string()).collect(),
        Err(_) => Vec::new(),
    }
}

/// The first address of a lookup, if any.
pub open spec fn first_address(ips: Seq<String>) -> Option<String> {
    if ips.len() == 0 {
        None
    } else {
        Some(ips[0])
    }
}

/// The cache after a lookup of `host` gave `ips`: an empty answer is never kept.
pub open spec fn cache_after(
    m: Map<Seq<u8>, Seq<String>>,
    host: Seq<u8>,
    ips: Seq<String>,
) -> Map<Seq<u8>, Seq<String>> {
    if ips.len() == 0 {
        m.remove(host)
    } else {
        m.insert(host, ips)
    }
}

/// What a query of `host` does: a cached host answers from the cache, which
/// stays as it was; any other is looked up, and the cache then holds what the
/// lookup gave, or lacks the host when it gave nothing.
pub open spec fn query_post(
    pre: Map<Seq<u8>, Seq<String>>,
    post: Map<Seq<u8>, Seq<String>>,
    host: Seq<u8>,
    r: Option<String>,
) -> bool {
    &&& pre.contains_key(host) ==> post == pre && r == first_address(pre[host])
    &&& !pre.contains_key(host) ==> exists|ips: Seq<String>|
        post == cache_after(pre, host, ips) && r == first_address(ips)
}

/// A query whose lookup gave no address leaves no entry for the host, so the
/// next query of that host looks it up again and succeeds exactly when that
/// lookup gives an address, which it then returns.
pub proof fn lemma_negative_not_cached(
    pre: Map<Seq<u8>, Seq<String>>,
    mid: Map<Seq<u8>, Seq<String>>,
    post: Map<Seq<u8>, Seq<String>>,
    host: Seq<u8>,
    first: Option<String>,
    second: Option<String>,
)
    requires
        forall|k: Seq<u8>| pre.contains_key(k) ==> pre[k].len() > 0,
        query_post(pre, mid, host, first),
        first is None,
        query_post(mid, post, host, second),
    ensures
        !mid.contains_key(host),
        exists|ips: Seq<String>|
            post == cache_after(mid, host, ips) && (second is Some <==> ips.len() > 0) && (ips.len() > 0
                ==> second == Some(ips[0]) && post.contains_key(host) && post[host] == ips),
{
    if pre.contains_key(host) {
        assert(pre[host].len() > 0);
    } else {
        let ips = choose|ips: Seq<String>| mid == cache_after(pre, host, ips) && first == first_address(ips);
        assert(ips.len() == 0);
    }
    let ips2 = choose|ips: Seq<String>| post == cache_after(mid, host, ips) && second == first_address(ips);
    assert(post == cache_after(mid, host, ips2));
}

/// A cache of host lookups, from host name to its addresses.
pub struct DNS {
    entries: Vec<(Vec<u8>, Vec<String>)>,
}

impl View for DNS {
    type V = Map<Seq<u8>, Seq<String>>;

    closed spec fn view(&self) -> Map<Seq<u8>, Seq<String>> {
        Map::new(
            |k: Seq<u8>| exists|i: int| 0 <= i < self.entries@.len() && self.entries@[i].0@ == k,
            |k: Seq<u8>|
                self.entries@[choose|i: int|
                    0 <= i < self.entries@.len() && self.entries@[i].0@ == k].1@,
        )
    }
}

impl DNS {
    /// Each host once, and never with an empty list of addresses.
    pub closed spec fn wf(&self) -> bool {
        &&& forall|i: int, j: int|
            0 <= i < j < self.entries@.len() ==> self.entries@[i].0@ != self.entries@[j].0@
        &&& forall|i: int| 0 <= i < self.entries@.len() ==> self.entries@[i].1@.len() > 0
    }

    proof fn lemma_entry(&self, i: int)
        requires
            self.wf(),
            0 <= i < self.entries@.len(),
        ensures
            self@.contains_key(self.entries@[i].0@),
            self@[self.entries@[i].0@] == self.entries@[i].1@,
    {
        let k = self.entries@[i].0@;
        assert(self@.contains_key(k));
        let j = choose|j: int| 0 <= j < self.entries@.len() && self.entries@[j].0@ == k;
        if j < i {
            assert(self.entries@[j].0@ != self.entries@[i].0@);
        } else if j > i {
            assert(self.entries@[i].0@ != self.entries@[j].0@);
        }
    }

    /// No entry is empty.
    pub proof fn lemma_no_empty_entry(&self, host: Seq<u8>)
        requires
            self.wf(),
            self@.contains_key(host),
        ensures
            self@[host].len() > 0,
    {
        let i = choose|i: int| 0 <= i < self.entries@.len() && self.entries@[i].0@ == host;
        self.lemma_entry(i);
    }

    pub fn new() -> (r: DNS)
        ensures
            r.wf(),
            r@ == Map::<Seq<u8>, Seq<String>>::empty(),
    {
        let r = DNS { entries: Vec::new() };
        assert(r@ =~= Map::<Seq<u8>, Seq<String>>::empty());
        r
    }

    fn find(&self, host: &[u8]) -> (r: Option<usize>)
        ensures
            r matches Some(i) ==> i < self.entries@.len() && self.entries@[i as int].0@ == host@,
            r is None ==> forall|i: int|
                0 <= i < self.entries@.len() ==> self.entries@[i].0@ != host@,
    {
        let mut i: usize = 0;
        while i < self.entries.len()
            invariant
                i <= self.entries@.len(),
                forall|j: int| 0 <= j < i ==> self.entries@[j].0@ != host@,
            decreases self.entries@.len() - i,
        {
            if same_bytes(self.entries[i].0.as_slice(), host) {
                return Some(i);
            }
            i = i + 1;
        }
        None
    }

    /// The first cached address of `host`, without a lookup.
    pub fn cached(&self, host: &[u8]) -> (r: Option<String>)
        requires
            self.wf(),
        ensures
            r == (if self@.contains_key(host@) {
                first_address(self@[host@])
            } else {
                None
            }),
    {
        match self.find(host) {
            Some(i) => {
                proof {
                    self.lemma_entry(i as int);
                }
                Some(self.entries[i].1[0].clone())
            },
            None => {
                assert(!self@.contains_key(host@));
                None
            },
        }
    }

    /// Records what a lookup of `host` gave and returns its first address;
    /// an empty answer removes `host` from the cache.
    pub fn store(&mut self, host: &[u8], ips: Vec<String>) -> (r: Option<String>)
        requires
            old(self).wf(),
        ensures
            final(self).wf(),
            final(self)@ == cache_after(old(self)@, host@, ips@),
            r == first_address(ips@),
    {
        let ghost pre = *self;
        let r = if ips.len() == 0 {
            None
        } else {
            Some(ips[0].clone())
        };
        match self.find(host) {
            Some(i) => {
                if ips.len() == 0 {
                    self.entries.remove(i);
                    proof {
                        self.lemma_remove(&pre, i as int);
                    }
                } else {
                    let key = copy_range(host, 0, host.len());
                    assert(key@ =~= host@);
                    self.entries.set(i, (key, ips));
                    proof {
                        self.lemma_set(&pre, i as int);
                    }
                }
            },
            None => {
                if ips.len() != 0 {
                    let key = copy_range(host, 0, host.len());
                    assert(key@ =~= host@);
                    self.entries.push((key, ips));
                    proof {
                        assert(self.entries@.drop_last() =~= pre.entries@);
                        self.lemma_push(&pre);
                    }
                } else {
                    assert(self@ =~= pre@.remove(host@));
                }
            },
        }
        r
    }

    proof fn lemma_remove(&self, pre: &DNS, i: int)
        requires
            pre.wf(),
            0 <= i < pre.entries@.len(),
            self.entries@ == pre.entries@.remove(i),
        ensures
            self.wf(),
            self@ == pre@.remove(pre.entries@[i].0@),
    {
        let h = pre.entries@[i].0@;
        let m = pre@.remove(h);
        assert forall|a: int, b: int| 0 <= a < b < self.entries@.len() implies
            self.entries@[a].0@ != self.entries@[b].0@ by {
            let a2 = if a < i { a } else { a + 1 };
            let b2 = if b < i { b } else { b + 1 };
            assert(self.entries@[a] == pre.entries@[a2]);
            assert(self.entries@[b] == pre.entries@[b2]);
        }
        assert forall|a: int| 0 <= a < self.entries@.len() implies
            self.entries@[a].1@.len() > 0 by {
            let a2 = if a < i { a } else { a + 1 };
            assert(self.entries@[a] == pre.entries@[a2]);
        }
        assert forall|k: Seq<u8>| self@.contains_key(k) == m.contains_key(k) by {
            if self@.contains_key(k) {
                let a = choose|a: int| 0 <= a < self.entries@.len() && self.entries@[a].0@ == k;
                let a2 = if a < i { a } else { a + 1 };
                assert(self.entries@[a] == pre.entries@[a2]);
                pre.lemma_entry(a2);
            }
            if m.contains_key(k) {
                let a = choose|a: int| 0 <= a < pre.entries@.len() && pre.entries@[a].0@ == k;
                assert(a != i);
                let a1 = if a < i { a } else { a - 1 };
                assert(self.entries@[a1] == pre.entries@[a]);
            }
        }
        assert forall|k: Seq<u8>| self@.contains_key(k) implies self@[k] == m[k] by {
            let a = choose|a: int| 0 <= a < self.entries@.len() && self.entries@[a].0@ == k;
            let a2 = if a < i { a } else { a + 1 };
            assert(self.entries@[a] == pre.entries@[a2]);
            self.lemma_entry(a);
            pre.lemma_entry(a2);
        }
        assert(self@ =~= m);
    }

    proof fn lemma_set(&self, pre: &DNS, i: int)
        requires
            pre.wf(),
            0 <= i < pre.entries@.len(),
            self.entries@ == pre.entries@.update(i, self.entries@[i]),
            self.entries@[i].0@ == pre.entries@[i].0@,
            self.entries@[i].1@.len() > 0,
        ensures
            self.wf(),
            self@ == pre@.insert(self.entries@[i].0@, self.entries@[i].1@),
    {
        let m = pre@.insert(self.entries@[i].0@, self.entries@[i].1@);
        assert forall|k: Seq<u8>| self@.contains_key(k) == m.contains_key(k) by {
            if self@.contains_key(k) {
                let a = choose|a: int| 0 <= a < self.entries@.len() && self.entries@[a].0@ == k;
                if a != i {
                    pre.lemma_entry(a);
                }
            }
            if m.contains_key(k) && k != self.entries@[i].0@ {
                let a = choose|a: int| 0 <= a < pre.entries@.len() && pre.entries@[a].0@ == k;
                assert(self.entries@[a] == pre.entries@[a]);
            }
            if k == self.entries@[i].0@ {
                assert(self.entries@[i].0@ == k);
            }
        }
        assert forall|k: Seq<u8>| self@.contains_key(k) implies self@[k] == m[k] by {
            let a = choose|a: int| 0 <= a < self.entries@.len() && self.entries@[a].0@ == k;
            self.lemma_entry(a);
            if a != i {
                pre.lemma_entry(a);
            }
        }
        assert(self@ =~= m);
    }

    proof fn lemma_push(&self, pre: &DNS)
        requires
            pre.wf(),
            self.entries@.len() == pre.entries@.len() + 1,
            self.entries@.drop_last() == pre.entries@,
            forall|i: int| 0 <= i < pre.entries@.len() ==> pre.entries@[i].0@ != self.entries@.last().0@,
            self.entries@.last().1@.len() > 0,
        ensures
            self.wf(),
            self@ == pre@.insert(self.entries@.last().0@, self.entries@.last().1@),
    {
        let n = pre.entries@.len() as int;
        let m = pre@.insert(self.entries@[n].0@, self.entries@[n].1@);
        assert forall|a: int| 0 <= a < n implies self.entries@[a] == pre.entries@[a] by {
            assert(self.entries@.drop_last()[a] == self.entries@[a]);
        }
        assert forall|k: Seq<u8>| self@.contains_key(k) == m.contains_key(k) by {
            if self@.contains_key(k) {
                let a = choose|a: int| 0 <= a < self.entries@.len() && self.entries@[a].0@ == k;
                if a != n {
                    pre.lemma_entry(a);
                }
            }
            if m.contains_key(k) && k != self.entries@[n].0@ {
                let a = choose|a: int| 0 <= a < pre.entries@.len() && pre.entries@[a].0@ == k;
                assert(self.entries@[a] == pre.entries@[a]);
            }
            if k == self.entries@[n].0@ {
                assert(self.entries@[n].0@ == k);
            }
        }
        assert forall|k: Seq<u8>| self@.contains_key(k) implies self@[k] == m[k] by {
            let a = choose|a: int| 0 <= a < self.entries@.len() && self.entries@[a].0@ == k;
            self.lemma_entry(a);
            if a != n {
                pre.lemma_entry(a);
            }
        }
        assert(self@ =~= m);
    }

    /// The first address of `host`: from the cache when it is there, else
    /// from a lookup, whose answer is then cached unless it is empty.
    pub fn query(&mut self, host: &[u8]) -> (r: Option<String>)
        requires
            old(self).wf(),
        ensures
            final(self).wf(),
            query_post(old(self)@, final(self)@, host@, r),
    {
        match self.cached(host) {
            Some(a) => Some(a),
            None => {
                proof {
                    if self@.contains_key(host@) {
                        self.lemma_no_empty_entry(host@);
                    }
                }
                let ghost pre = self@;
                let ips = lookup_host(host);
                let ghost seen = ips@;
                let r = self.store(host, ips);
                assert(self@ == cache_after(pre, host@, seen) && r == first_address(seen));
                r
            },
        }
    }
}

} // verus!
