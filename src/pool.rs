//! The backend pool: an ordered, deduplicated sequence of endpoints whose
//! front is the next one to be selected.
use vstd::prelude::*;

use crate::queue::{queue_add, queue_items, queue_new, queue_remove, queue_size};

verus! {

/// The sequence after one round-robin step: the front moves to the back.
pub open spec fn rotate(s: Seq<Seq<char>>) -> Seq<Seq<char>> {
    if s.len() == 0 {
        s
    } else {
        s.drop_first().push(s[0])
    }
}

/// The text of each string, in order.
pub open spec fn views(v: Seq<String>) -> Seq<Seq<char>> {
    v.map_values(|x: String| x@)
}

/// The pool after registering `e`: unchanged if `e` is already there,
/// else `e` is appended.
pub open spec fn registered(s: Seq<Seq<char>>, e: Seq<char>) -> Seq<Seq<char>> {
    if s.contains(e) {
        s
    } else {
        s.push(e)
    }
}

/// Registration never creates a duplicate, and registering the same endpoint
/// a second time changes nothing: the second call finds it already present.
pub proof fn lemma_register_twice(s: Seq<Seq<char>>, e: Seq<char>)
    requires
        s.no_duplicates(),
    ensures
        registered(s, e).no_duplicates(),
        registered(s, e).contains(e),
        registered(registered(s, e), e) == registered(s, e),
        registered(s, e).len() == if s.contains(e) {
            s.len()
        } else {
            s.len() + 1
        },
{
    if !s.contains(e) {
        let t = s.push(e);
        assert(t[s.len() as int] == e);
        assert forall|a: int, b: int| 0 <= a < b < t.len() implies t[a] != t[b] by {
            if b == s.len() {
                assert(s.contains(s[a]));
            }
        }
    }
}

/// `s` without any copy of `e`.
pub open spec fn without(s: Seq<Seq<char>>, e: Seq<char>) -> Seq<Seq<char>> {
    s.filter(|x: Seq<char>| x != e)
}

proof fn lemma_without_push(s: Seq<Seq<char>>, a: Seq<char>, e: Seq<char>)
    ensures
        without(s.push(a), e) == if a == e {
            without(s, e)
        } else {
            without(s, e).push(a)
        },
{
    reveal(Seq::filter);
    assert(s.push(a).drop_last() =~= s);
}

proof fn lemma_without_absent(s: Seq<Seq<char>>, e: Seq<char>)
    requires
        !s.contains(e),
    ensures
        without(s, e) == s,
    decreases s.len(),
{
    if s.len() > 0 {
        let t = s.drop_last();
        assert(t.push(s.last()) =~= s);
        assert(!t.contains(e)) by {
            if t.contains(e) {
                let m = choose|m: int| 0 <= m < t.len() && t[m] == e;
                assert(s[m] == e);
            }
        }
        lemma_without_absent(t, e);
        lemma_without_push(t, s.last(), e);
    } else {
        reveal(Seq::filter);
        assert(without(s, e) =~= s);
    }
}

proof fn lemma_rotate_wf(s: Seq<Seq<char>>)
    ensures
        s.no_duplicates() ==> rotate(s).no_duplicates(),
{
    if s.len() > 0 && s.no_duplicates() {
        let t = rotate(s);
        assert forall|a: int, b: int| 0 <= a < b < t.len() implies t[a] != t[b] by {
            if b == s.len() - 1 {
                assert(t[a] == s[a + 1] && t[b] == s[0]);
            } else {
                assert(t[a] == s[a + 1] && t[b] == s[b + 1]);
            }
        }
    }
}

/// Why a pool operation did nothing.
#[derive(Clone, Copy, Debug, PartialEq, Eq, Structural)]
pub enum PoolError {
    /// The pool has no endpoint to select.
    Empty,
    /// The endpoint is already registered.
    DuplicateEndpoint,
}

/// Endpoints in round-robin order; the front is the next to be selected.
pub struct BackendPool {
    endpoints: queues::Queue<String>,
}

impl View for BackendPool {
    type V = Seq<Seq<char>>;

    closed spec fn view(&self) -> Seq<Seq<char>> {
        queue_items(self.endpoints)
    }
}

impl BackendPool {
    /// No endpoint is registered twice.
    pub open spec fn wf(&self) -> bool {
        self@.no_duplicates()
    }

    /// An empty pool.
    pub fn new() -> (r: BackendPool)
        ensures
            r@ == Seq::<Seq<char>>::empty(),
            r.wf(),
    {
        BackendPool { endpoints: queue_new() }
    }

    /// The number of registered endpoints.
    pub fn size(&self) -> (r: usize)
        ensures
            r == self@.len(),
    {
        queue_size(&self.endpoints)
    }

    /// Takes the endpoint at the front and moves it to the back.
    pub fn select_next(&mut self) -> (r: Result<String, PoolError>)
        ensures
            old(self)@.len() == 0 ==> r == Err::<String, PoolError>(PoolError::Empty),
            old(self)@.len() > 0 ==> r is Ok && r->Ok_0@ == old(self)@[0],
            final(self)@ == rotate(old(self)@),
            old(self).wf() ==> final(self).wf(),
    {
        proof {
            lemma_rotate_wf(self@);
        }
        match queue_remove(&mut self.endpoints) {
            None => Err(PoolError::Empty),
            Some(e) => {
                let out = e.clone();
                queue_add(&mut self.endpoints, e);
                Ok(out)
            },
        }
    }

    /// Every registered endpoint, front first; the pool is left as it was.
    pub fn snapshot(&mut self) -> (r: Vec<String>)
        ensures
            final(self)@ == old(self)@,
            views(r@) == old(self)@,
    {
        let (members, _) = self.scan(&String::new());
        members
    }

    /// Whether `endpoint` is registered; the pool is left as it was.
    pub fn contains(&mut self, endpoint: &String) -> (r: bool)
        ensures
            final(self)@ == old(self)@,
            r == old(self)@.contains(endpoint@),
    {
        let (_, found) = self.scan(endpoint);
        found
    }

    /// Walks the pool once, front to back, and leaves it as it was: returns
    /// its endpoints in order and whether `endpoint` is among them.
    fn scan(&mut self, endpoint: &String) -> (r: (Vec<String>, bool))
        ensures
            final(self)@ == old(self)@,
            views(r.0@) == old(self)@,
            r.1 == old(self)@.contains(endpoint@),
    {
        let n = queue_size(&self.endpoints);
        let ghost s = self@;
        let mut members: Vec<String> = Vec::new();
        let mut found = false;
        let mut i: usize = 0;
        while i < n
            invariant
                n == s.len(),
                i <= n,
                self@ == s.subrange(i as int, n as int) + s.subrange(0, i as int),
                views(members@) == s.subrange(0, i as int),
                found == s.subrange(0, i as int).contains(endpoint@),
            decreases n - i,
        {
            let ghost before = self@;
            let e = match queue_remove(&mut self.endpoints) {
                Some(e) => e,
                None => {
                    assert(before.len() > 0);
                    return (members, found);
                },
            };
            proof {
                assert(before[0] == s[i as int]);
            }
            if e == *endpoint {
                found = true;
            }
            members.push(e.clone());
            queue_add(&mut self.endpoints, e);
            proof {
                let p = s.subrange(0, i as int + 1);
                assert(p == s.subrange(0, i as int).push(s[i as int]));
                assert(self@ =~= s.subrange(i + 1, n as int) + p);
                assert(views(members@) =~= p);
                if found {
                    if s.subrange(0, i as int).contains(endpoint@) {
                        let k = choose|k: int| 0 <= k < i && s.subrange(0, i as int)[k] == endpoint@;
                        assert(p[k] == endpoint@);
                    } else {
                        assert(p[i as int] == endpoint@);
                    }
                } else {
                    assert forall|k: int| 0 <= k < p.len() implies p[k] != endpoint@ by {
                        if k < i {
                            assert(s.subrange(0, i as int)[k] == p[k]);
                        }
                    }
                }
            }
            i = i + 1;
        }
        proof {
            assert(self@ =~= s);
            assert(s.subrange(0, n as int) =~= s);
        }
        (members, found)
    }

    /// Moves `endpoint` to the back, behind every other endpoint, if it is
    /// registered; returns whether it was.
    pub fn requeue(&mut self, endpoint: &String) -> (r: bool)
        requires
            old(self).wf(),
        ensures
            final(self).wf(),
            r == old(self)@.contains(endpoint@),
            r ==> final(self)@ == without(old(self)@, endpoint@).push(endpoint@),
            !r ==> final(self)@ == old(self)@,
    {
        let n = queue_size(&self.endpoints);
        let ghost s = self@;
        let ghost e = endpoint@;
        let mut found = false;
        let mut i: usize = 0;
        proof {
            reveal(Seq::filter);
            assert(without(s.subrange(0, 0), e) =~= Seq::<Seq<char>>::empty());
        }
        while i < n
            invariant
                n == s.len(),
                i <= n,
                s.no_duplicates(),
                e == endpoint@,
                self@ == s.subrange(i as int, n as int) + without(s.subrange(0, i as int), e),
                found == s.subrange(0, i as int).contains(e),
                without(s.subrange(0, i as int), e).no_duplicates(),
                forall|x: Seq<char>|
                    #[trigger] without(s.subrange(0, i as int), e).contains(x) ==> x != e
                        && s.subrange(0, i as int).contains(x),
            decreases n - i,
        {
            let ghost before = self@;
            let ghost kept = without(s.subrange(0, i as int), e);
            let x = match queue_remove(&mut self.endpoints) {
                Some(x) => x,
                None => {
                    assert(before.len() > 0);
                    return found;
                },
            };
            let ghost p = s.subrange(0, i as int + 1);
            proof {
                assert(before[0] == s[i as int]);
                assert(p =~= s.subrange(0, i as int).push(s[i as int]));
                lemma_without_push(s.subrange(0, i as int), s[i as int], e);
            }
            if x == *endpoint {
                found = true;
                proof {
                    assert(self@ =~= s.subrange(i + 1, n as int) + without(p, e));
                    assert(p[i as int] == e);
                    assert forall|y: Seq<char>| #[trigger] without(p, e).contains(y) implies y
                        != e && p.contains(y) by {
                        let k = choose|k: int| 0 <= k < kept.len() && kept[k] == y;
                        assert(kept.contains(y));
                        let m = choose|m: int| 0 <= m < i && s.subrange(0, i as int)[m] == y;
                        assert(p[m] == y);
                    }
                }
            } else {
                queue_add(&mut self.endpoints, x);
                proof {
                    let w = without(p, e);
                    assert(w == kept.push(s[i as int]));
                    assert(self@ =~= s.subrange(i + 1, n as int) + w);
                    assert(!kept.contains(s[i as int])) by {
                        if kept.contains(s[i as int]) {
                            let m = choose|m: int|
                                0 <= m < i && s.subrange(0, i as int)[m] == s[i as int];
                            assert(s[m] == s[i as int]);
                        }
                    }
                    assert forall|a: int, b: int| 0 <= a < b < w.len() implies w[a] != w[b] by {
                        if b == kept.len() {
                            assert(kept.contains(kept[a]));
                        } else {
                            assert(w[a] == kept[a] && w[b] == kept[b]);
                        }
                    }
                    assert forall|y: Seq<char>| #[trigger] w.contains(y) implies y != e
                        && p.contains(y) by {
                        let k = choose|k: int| 0 <= k < w.len() && w[k] == y;
                        if k == kept.len() {
                            assert(p[i as int] == y);
                        } else {
                            assert(kept.contains(y));
                            let m = choose|m: int| 0 <= m < i && s.subrange(0, i as int)[m] == y;
                            assert(p[m] == y);
                        }
                    }
                    if found {
                        let m = choose|m: int| 0 <= m < i && s.subrange(0, i as int)[m] == e;
                        assert(p[m] == e);
                    } else {
                        assert forall|m: int| 0 <= m < p.len() implies p[m] != e by {
                            if m < i {
                                assert(s.subrange(0, i as int)[m] == p[m]);
                            }
                        }
                    }
                }
            }
            i = i + 1;
        }
        proof {
            assert(s.subrange(0, n as int) =~= s);
            assert(s.subrange(n as int, n as int) + without(s, e) =~= without(s, e));
        }
        if found {
            queue_add(&mut self.endpoints, endpoint.clone());
            proof {
                let w = without(s, e);
                let t = w.push(e);
                assert(self@ =~= t);
                assert forall|a: int, b: int| 0 <= a < b < t.len() implies t[a] != t[b] by {
                    if b == w.len() {
                        assert(w.contains(w[a]));
                    } else {
                        assert(t[a] == w[a] && t[b] == w[b]);
                    }
                }
            }
        } else {
            proof {
                lemma_without_absent(s, e);
            }
        }
        found
    }

    /// Appends `endpoint` unless it is already registered; on success returns
    /// every registered endpoint, front first.
    pub fn register(&mut self, endpoint: String) -> (r: Result<Vec<String>, PoolError>)
        requires
            old(self).wf(),
        ensures
            final(self).wf(),
            final(self)@ == registered(old(self)@, endpoint@),
            old(self)@.contains(endpoint@) ==> r == Err::<Vec<String>, PoolError>(
                PoolError::DuplicateEndpoint,
            ) && final(self)@ == old(self)@,
            !old(self)@.contains(endpoint@) ==> r is Ok && final(self)@ == old(self)@.push(
                endpoint@,
            ) && views(r->Ok_0@) == final(self)@,
    {
        let (mut members, found) = self.scan(&endpoint);
        if found {
            return Err(PoolError::DuplicateEndpoint);
        }
        let ghost s = self@;
        members.push(endpoint.clone());
        queue_add(&mut self.endpoints, endpoint);
        proof {
            assert(views(members@) =~= self@);
            lemma_register_twice(s, endpoint@);
        }
        Ok(members)
    }
}

} // verus!
