//! Request registry and byte cache: which memory ranges are currently
//! wanted, which writes await the next flush, and the most recently
//! fetched bytes for each address.
//!
//! One update cycle drains the pending writes in submission order, then
//! reads every registered (address, length) pair; the application performs
//! each action over the protocol client and stores read results back.
use vstd::prelude::*;

verus! {

/// First value bound to a key in an association list.
pub open spec fn alist_get<V>(s: Seq<(u32, V)>, k: u32) -> Option<V>
    decreases s.len(),
{
    if s.len() == 0 {
        None
    } else if s[0].0 == k {
        Some(s[0].1)
    } else {
        alist_get(s.drop_first(), k)
    }
}

/// No key occurs twice.
pub open spec fn distinct_keys<V>(s: Seq<(u32, V)>) -> bool {
    forall|i: int, j: int|
        0 <= i < j < s.len() ==> (#[trigger] s[i]).0 != (#[trigger] s[j]).0
}

/// Keys strictly increase, as an ordered map iterates them.
pub open spec fn sorted_keys<V>(s: Seq<(u32, V)>) -> bool {
    forall|i: int, j: int|
        0 <= i < j < s.len() ==> (#[trigger] s[i]).0 < (#[trigger] s[j]).0
}

/// A lookup that skips entries with other keys is unchanged.
proof fn lemma_alist_get_skip<V>(s: Seq<(u32, V)>, k: u32, i: int)
    requires
        0 <= i <= s.len(),
        forall|j: int| 0 <= j < i ==> (#[trigger] s[j]).0 != k,
    ensures
        alist_get(s, k) == alist_get(s.skip(i), k),
    decreases i,
{
    if i > 0 {
        assert(s[0].0 != k);
        lemma_alist_get_skip(s.drop_first(), k, i - 1);
        assert(s.drop_first().skip(i - 1) =~= s.skip(i));
    } else {
        assert(s.skip(0) =~= s);
    }
}

/// Replacing the entry that holds a key rebinds that key and nothing else.
proof fn lemma_alist_get_update<V>(s: Seq<(u32, V)>, i: int, k: u32, v: V)
    requires
        0 <= i < s.len(),
        s[i].0 == k,
        distinct_keys(s),
    ensures
        alist_get(s.update(i, (k, v)), k) == Some(v),
        forall|k2: u32| k2 != k ==> alist_get(s.update(i, (k, v)), k2) == alist_get(s, k2),
    decreases i,
{
    let t = s.update(i, (k, v));
    if i == 0 {
        assert(t[0] == (k, v));
        assert(t.drop_first() =~= s.drop_first());
        assert forall|k2: u32| k2 != k implies alist_get(t, k2) == alist_get(s, k2) by {
            assert(alist_get(t, k2) == alist_get(t.drop_first(), k2));
            assert(alist_get(s, k2) == alist_get(s.drop_first(), k2));
        }
    } else {
        assert(t[0] == s[0]);
        assert(s[0].0 != k);
        lemma_alist_get_update(s.drop_first(), i - 1, k, v);
        assert(t.drop_first() =~= s.drop_first().update(i - 1, (k, v)));
        assert(alist_get(t, k) == alist_get(t.drop_first(), k));
        assert forall|k2: u32| k2 != k implies alist_get(t, k2) == alist_get(s, k2) by {
            if s[0].0 == k2 {
                assert(alist_get(t, k2) == Some(t[0].1));
                assert(alist_get(s, k2) == Some(s[0].1));
            } else {
                assert(alist_get(t, k2) == alist_get(t.drop_first(), k2));
                assert(alist_get(s, k2) == alist_get(s.drop_first(), k2));
            }
        }
    }
}

/// Inserting an absent key binds that key and nothing else.
proof fn lemma_alist_get_insert<V>(s: Seq<(u32, V)>, i: int, k: u32, v: V)
    requires
        0 <= i <= s.len(),
        forall|j: int| 0 <= j < s.len() ==> (#[trigger] s[j]).0 != k,
    ensures
        alist_get(s.insert(i, (k, v)), k) == Some(v),
        forall|k2: u32| k2 != k ==> alist_get(s.insert(i, (k, v)), k2) == alist_get(s, k2),
    decreases i,
{
    let t = s.insert(i, (k, v));
    if i == 0 {
        assert(t[0] == (k, v));
        assert(t.drop_first() =~= s);
        assert forall|k2: u32| k2 != k implies alist_get(t, k2) == alist_get(s, k2) by {
            assert(alist_get(t, k2) == alist_get(t.drop_first(), k2));
        }
    } else {
        assert(t[0] == s[0]);
        assert(s[0].0 != k);
        lemma_alist_get_insert(s.drop_first(), i - 1, k, v);
        assert(t.drop_first() =~= s.drop_first().insert(i - 1, (k, v)));
        assert(alist_get(t, k) == alist_get(t.drop_first(), k));
        assert forall|k2: u32| k2 != k implies alist_get(t, k2) == alist_get(s, k2) by {
            if s[0].0 == k2 {
                assert(alist_get(t, k2) == Some(t[0].1));
                assert(alist_get(s, k2) == Some(s[0].1));
            } else {
                assert(alist_get(t, k2) == alist_get(t.drop_first(), k2));
                assert(alist_get(s, k2) == alist_get(s.drop_first(), k2));
            }
        }
    }
}

/// The registry and cache shared between the scheduler and the consumer.
pub struct State {
    data_objects: Vec<(u32, Vec<u8>)>,
    requests: Vec<(u32, u32)>,
    writes: Vec<(u32, Vec<u8>)>,
}

impl Default for State {
    /// An empty registry with an empty cache.
    fn default() -> (s: Self)
        ensures
            s.wf(),
            forall|a: u32| s.cached(a) is None,
            forall|a: u32| s.requested(a) is None,
            s.writes_spec() == Seq::<(u32, Seq<u8>)>::empty(),
    {
        State::new()
    }
}

impl State {
    /// The cache entries, as (address, bytes) pairs.
    pub closed spec fn cache_spec(&self) -> Seq<(u32, Seq<u8>)> {
        self.data_objects@.map_values(|p: (u32, Vec<u8>)| (p.0, p.1@))
    }

    /// The registered read requests in address order.
    pub closed spec fn requests_spec(&self) -> Seq<(u32, u32)> {
        self.requests@
    }

    /// The pending writes in submission order.
    pub closed spec fn writes_spec(&self) -> Seq<(u32, Seq<u8>)> {
        self.writes@.map_values(|p: (u32, Vec<u8>)| (p.0, p.1@))
    }

    /// The bytes cached for an address, if a read ever completed for it.
    pub open spec fn cached(&self, address: u32) -> Option<Seq<u8>> {
        alist_get(self.cache_spec(), address)
    }

    /// The length registered for an address, if any.
    pub open spec fn requested(&self, address: u32) -> Option<u32> {
        alist_get(self.requests_spec(), address)
    }

    /// Requests are kept in strictly increasing address order and the
    /// cache binds each address at most once.
    pub open spec fn wf(&self) -> bool {
        &&& sorted_keys(self.requests_spec())
        &&& distinct_keys(self.cache_spec())
    }

    /// An empty registry: nothing requested, nothing pending, and — the
    /// cache-miss rule — no data available for any address.
    pub fn new() -> (s: Self)
        ensures
            s.wf(),
            s.requests_spec() == Seq::<(u32, u32)>::empty(),
            s.writes_spec() == Seq::<(u32, Seq<u8>)>::empty(),
            forall|a: u32| s.cached(a) is None,
            forall|a: u32| s.requested(a) is None,
    {
        let s = State { data_objects: Vec::new(), requests: Vec::new(), writes: Vec::new() };
        proof {
            assert(s.cache_spec() =~= Seq::<(u32, Seq<u8>)>::empty());
            assert(s.writes_spec() =~= Seq::<(u32, Seq<u8>)>::empty());
        }
        s
    }

    /// Registers — or re-registers, last write wins — the desired read
    /// length for an address.
    pub fn request(&mut self, address: u32, length: usize)
        requires
            old(self).wf(),
            length <= u32::MAX,
        ensures
            final(self).wf(),
            final(self).requested(address) == Some(length as u32),
            forall|a: u32| a != address ==> final(self).requested(a) == old(self).requested(a),
            final(self).cache_spec() == old(self).cache_spec(),
            final(self).writes_spec() == old(self).writes_spec(),
    {
        let len32 = length as u32;
        let n = self.requests.len();
        let mut i: usize = 0;
        while i < n && self.requests[i].0 < address
            invariant
                i <= n,
                n == self.requests@.len(),
                forall|j: int| 0 <= j < i ==> (#[trigger] self.requests@[j]).0 < address,
                self == old(self),
            decreases n - i,
        {
            i = i + 1;
        }
        if i < n && self.requests[i].0 == address {
            let ghost pre = self.requests@;
            self.requests.remove(i);
            self.requests.insert(i, (address, len32));
            proof {
                assert(self.requests@ =~= pre.update(i as int, (address, len32)));
                lemma_alist_get_update(pre, i as int, address, len32);
                assert(sorted_keys(self.requests@));
            }
        } else {
            let ghost pre = self.requests@;
            self.requests.insert(i, (address, len32));
            proof {
                assert forall|j: int| 0 <= j < pre.len() implies (#[trigger] pre[j]).0
                    != address by {
                    if j >= i {
                        assert(pre[i as int].0 < pre[j].0 || j == i);
                    }
                }
                lemma_alist_get_insert(pre, i as int, address, len32);
                let t = self.requests@;
                assert forall|x: int, y: int| 0 <= x < y < t.len() implies (#[trigger] t[x]).0
                    < (#[trigger] t[y]).0 by {
                    if x < i && y == i {
                    } else if x == i && y > i {
                        assert(t[y] == pre[y - 1]);
                        assert(pre[y - 1].0 > address || pre[i as int].0 <= pre[y - 1].0);
                    } else if x < i && y > i {
                        assert(t[x] == pre[x] && t[y] == pre[y - 1]);
                    } else if x > i && y > i {
                        assert(t[x] == pre[x - 1] && t[y] == pre[y - 1]);
                    }
                }
            }
        }
    }

    /// Appends a write to the pending list; writes accumulate until the
    /// next flush.
    pub fn request_write(&mut self, address: u32, data: Vec<u8>)
        requires
            old(self).wf(),
        ensures
            final(self).wf(),
            final(self).writes_spec() == old(self).writes_spec() + seq![(address, data@)],
            final(self).cache_spec() == old(self).cache_spec(),
            final(self).requests_spec() == old(self).requests_spec(),
    {
        let ghost d = data@;
        self.writes.push((address, data));
        proof {
            assert(self.writes_spec() =~= old(self).writes_spec() + seq![(address, d)]);
        }
    }

    /// The cached bytes for an address, or nothing if no read for it ever
    /// completed: a miss means "not yet available", never zero-filled
    /// data.
    pub fn get_data(&self, address: u32) -> (r: Option<&Vec<u8>>)
        ensures
            match r {
                Some(v) => self.cached(address) == Some(v@),
                None => self.cached(address) is None,
            },
    {
        let n = self.data_objects.len();
        let mut i: usize = 0;
        while i < n
            invariant
                i <= n,
                n == self.data_objects@.len(),
                forall|j: int|
                    0 <= j < i ==> (#[trigger] self.data_objects@[j]).0 != address,
            decreases n - i,
        {
            if self.data_objects[i].0 == address {
                proof {
                    assert forall|j: int| 0 <= j < i implies (#[trigger] self.cache_spec()[j]).0
                        != address by {
                        assert(self.cache_spec()[j] == (
                            self.data_objects@[j].0,
                            self.data_objects@[j].1@,
                        ));
                    }
                    lemma_alist_get_skip(self.cache_spec(), address, i as int);
                    assert(self.cache_spec().skip(i as int)[0] == self.cache_spec()[i as int]);
                    assert(alist_get(self.cache_spec().skip(i as int), address) == Some(
                        self.data_objects@[i as int].1@,
                    ));
                }
                return Some(&self.data_objects[i].1);
            }
            i = i + 1;
        }
        proof {
            assert forall|j: int| 0 <= j < n implies (#[trigger] self.cache_spec()[j]).0
                != address by {
                assert(self.cache_spec()[j] == (
                    self.data_objects@[j].0,
                    self.data_objects@[j].1@,
                ));
            }
            lemma_alist_get_skip(self.cache_spec(), address, n as int);
            assert(self.cache_spec().skip(n as int) =~= Seq::<(u32, Seq<u8>)>::empty());
        }
        None
    }

    /// Stores the bytes a completed read fetched for an address,
    /// overwriting that address's slot.
    pub fn store_data(&mut self, address: u32, data: Vec<u8>)
        requires
            old(self).wf(),
        ensures
            final(self).wf(),
            final(self).cached(address) == Some(data@),
            forall|a: u32| a != address ==> final(self).cached(a) == old(self).cached(a),
            final(self).requests_spec() == old(self).requests_spec(),
            final(self).writes_spec() == old(self).writes_spec(),
    {
        let ghost d = data@;
        let n = self.data_objects.len();
        let mut i: usize = 0;
        while i < n && self.data_objects[i].0 != address
            invariant
                i <= n,
                n == self.data_objects@.len(),
                forall|j: int|
                    0 <= j < i ==> (#[trigger] self.data_objects@[j]).0 != address,
                self == old(self),
            decreases n - i,
        {
            i = i + 1;
        }
        if i < n {
            let ghost pre = self.cache_spec();
            self.data_objects.remove(i);
            self.data_objects.insert(i, (address, data));
            proof {
                let dobj = self.data_objects@;
                let oldd = old(self).data_objects@;
                assert(dobj =~= oldd.update(i as int, dobj[i as int]));
                assert(dobj[i as int].0 == address && dobj[i as int].1@ == d);
                assert forall|j: int| 0 <= j < pre.len() implies #[trigger] self.cache_spec()[
                    j
                ] == pre.update(i as int, (address, d))[j] by {
                    assert(self.cache_spec()[j] == (dobj[j].0, dobj[j].1@));
                    assert(pre[j] == (oldd[j].0, oldd[j].1@));
                }
                assert(self.cache_spec() =~= pre.update(i as int, (address, d)));
                assert(pre[i as int].0 == address);
                lemma_alist_get_update(pre, i as int, address, d);
                assert(distinct_keys(self.cache_spec()));
                assert(self.writes_spec() =~= old(self).writes_spec());
            }
            return;
        }
        let ghost pre2 = self.cache_spec();
        self.data_objects.push((address, data));
        proof {
            assert(self.cache_spec() =~= pre2.insert(pre2.len() as int, (address, d)));
            assert forall|j: int| 0 <= j < pre2.len() implies (#[trigger] pre2[j]).0 != address by {
                assert(pre2[j] == (self.data_objects@[j].0, self.data_objects@[j].1@));
                assert(old(self).data_objects@[j].0 != address);
            }
            lemma_alist_get_insert(pre2, pre2.len() as int, address, d);
            let t = self.cache_spec();
            assert forall|x: int, y: int| 0 <= x < y < t.len() implies (#[trigger] t[x]).0 != (
            #[trigger] t[y]).0 by {
                if y < pre2.len() {
                } else {
                    assert(t[y].0 == address);
                    assert(t[x] == pre2[x]);
                }
            }
            assert(self.writes_spec() =~= old(self).writes_spec());
        }
    }
}

/// One action of an update cycle.
pub enum UpdateAction {
    /// Flush these bytes to this address.
    Write(u32, Vec<u8>),
    /// Fetch this many bytes from this address.
    Read(u32, u32),
}

/// The actions of one update cycle, handed out one at a time: every
/// pending write in submission order, then every registered read in
/// address order.
pub struct UpdatePlan {
    writes: Vec<(u32, Vec<u8>)>,
    reads: Vec<(u32, u32)>,
    ridx: usize,
}

impl UpdatePlan {
    /// The writes not yet handed out, in submission order.
    pub closed spec fn writes_left(&self) -> Seq<(u32, Seq<u8>)> {
        self.writes@.map_values(|p: (u32, Vec<u8>)| (p.0, p.1@))
    }

    /// The reads not yet handed out, in address order.
    pub closed spec fn reads_left(&self) -> Seq<(u32, u32)> {
        self.reads@.skip(self.ridx as int)
    }

    /// The position marker stays within the read list.
    pub closed spec fn wf(&self) -> bool {
        self.ridx <= self.reads@.len()
    }

    /// Every action of the cycle still to be handed out, in order.
    pub closed spec fn actions_left(&self) -> Seq<UpdateAction> {
        self.writes@.map_values(|p: (u32, Vec<u8>)| UpdateAction::Write(p.0, p.1))
            + self.reads@.skip(self.ridx as int).map_values(
            |p: (u32, u32)| UpdateAction::Read(p.0, p.1),
        )
    }

    /// Hands out the next action: the oldest pending write while any
    /// remains, else the next registered read, else nothing.
    pub fn next_action(&mut self) -> (r: Option<UpdateAction>)
        requires
            old(self).wf(),
        ensures
            final(self).wf(),
            match r {
                None => {
                    &&& old(self).writes_left().len() == 0
                    &&& old(self).reads_left().len() == 0
                    &&& final(self).writes_left() == old(self).writes_left()
                    &&& final(self).reads_left() == old(self).reads_left()
                },
                Some(a) => match a {
                    UpdateAction::Write(addr, data) => {
                        &&& old(self).writes_left().len() > 0
                        &&& (addr, data@) == old(self).writes_left()[0]
                        &&& final(self).writes_left() == old(self).writes_left().drop_first()
                        &&& final(self).reads_left() == old(self).reads_left()
                    },
                    UpdateAction::Read(addr, len) => {
                        &&& old(self).writes_left().len() == 0
                        &&& old(self).reads_left().len() > 0
                        &&& (addr, len) == old(self).reads_left()[0]
                        &&& final(self).reads_left() == old(self).reads_left().drop_first()
                        &&& final(self).writes_left() == old(self).writes_left()
                    },
                },
            },
    {
        if self.writes.len() > 0 {
            let pair = self.writes.remove(0);
            proof {
                assert(self.writes@ =~= old(self).writes@.drop_first());
                assert(self.writes_left() =~= old(self).writes_left().drop_first());
                assert(old(self).writes_left()[0] == (
                    old(self).writes@[0].0,
                    old(self).writes@[0].1@,
                ));
            }
            return Some(UpdateAction::Write(pair.0, pair.1));
        }
        if self.ridx < self.reads.len() {
            let pair = self.reads[self.ridx];
            self.ridx = self.ridx + 1;
            proof {
                assert(old(self).writes_left() =~= Seq::<(u32, Seq<u8>)>::empty());
                assert(self.reads_left() =~= old(self).reads_left().drop_first());
                assert(old(self).reads_left()[0] == old(self).reads@[old(self).ridx as int]);
            }
            return Some(UpdateAction::Read(pair.0, pair.1));
        }
        proof {
            assert(old(self).writes_left() =~= Seq::<(u32, Seq<u8>)>::empty());
            assert(old(self).reads_left() =~= Seq::<(u32, u32)>::empty());
        }
        None
    }
}

/// Write-before-read ordering, over the whole cycle: in the sequence of
/// actions one update hands out, the writes stand first and the reads
/// after them — never a write after a read — so a read of an address
/// written in the same cycle observes the just-written value rather
/// than a stale one.
pub proof fn lemma_cycle_actions_ordered(plan: UpdatePlan)
    ensures
        plan.actions_left().len() == plan.writes_left().len() + plan.reads_left().len(),
        forall|i: int|
            0 <= i < plan.actions_left().len() ==> ((#[trigger] plan.actions_left()[i]) is Write
                <==> i < plan.writes_left().len()),
        forall|i: int, j: int|
            0 <= i < j < plan.actions_left().len() && plan.actions_left()[j] is Write
                ==> plan.actions_left()[i] is Write,
{
    let acts = plan.actions_left();
    let w = plan.writes_left().len() as int;
    assert(plan.writes_left().len() == plan.writes@.len());
    assert forall|i: int| 0 <= i < acts.len() implies ((#[trigger] acts[i]) is Write <==> i
        < w) by {
        if i < w {
            assert(acts[i] == UpdateAction::Write(plan.writes@[i].0, plan.writes@[i].1));
        } else {
            let rs = plan.reads@.skip(plan.ridx as int);
            assert(acts[i] == UpdateAction::Read(rs[i - w].0, rs[i - w].1));
        }
    }
}

/// Write-before-read ordering at each step: a read is handed out only
/// once no write is left, and handing out a write leaves every read
/// still to come.
pub proof fn lemma_writes_before_reads(
    plan: UpdatePlan,
    post: UpdatePlan,
    r: Option<UpdateAction>,
)
    requires
        match r {
            Some(a) => match a {
                UpdateAction::Write(addr, data) => plan.writes_left().len() > 0 && (
                addr,
                data@,
                ) == plan.writes_left()[0] && post.writes_left()
                    == plan.writes_left().drop_first() && post.reads_left()
                    == plan.reads_left(),
                UpdateAction::Read(addr, len) => plan.writes_left().len() == 0
                    && plan.reads_left().len() > 0 && (addr, len) == plan.reads_left()[0]
                    && post.reads_left() == plan.reads_left().drop_first()
                    && post.writes_left() == plan.writes_left(),
            },
            None => true,
        },
    ensures
        r matches Some(a) ==> (a is Read ==> plan.writes_left().len() == 0),
        r matches Some(a) ==> (a is Write ==> post.reads_left() == plan.reads_left()),
{
}

impl State {
    /// Opens one update cycle: drains the pending writes, in submission
    /// order, into a plan that also lists every registered read; the
    /// registry's requests and cache are untouched.
    pub fn begin_update(&mut self) -> (plan: UpdatePlan)
        requires
            old(self).wf(),
        ensures
            final(self).wf(),
            plan.wf(),
            plan.writes_left() == old(self).writes_spec(),
            plan.reads_left() == old(self).requests_spec(),
            final(self).writes_spec() == Seq::<(u32, Seq<u8>)>::empty(),
            final(self).requests_spec() == old(self).requests_spec(),
            final(self).cache_spec() == old(self).cache_spec(),
    {
        let mut writes: Vec<(u32, Vec<u8>)> = Vec::new();
        core::mem::swap(&mut writes, &mut self.writes);
        let n = self.requests.len();
        let mut reads: Vec<(u32, u32)> = Vec::new();
        let mut i: usize = 0;
        while i < n
            invariant
                i <= n,
                n == self.requests@.len(),
                reads@ == self.requests@.subrange(0, i as int),
            decreases n - i,
        {
            let pair = self.requests[i];
            reads.push(pair);
            proof {
                assert(self.requests@.subrange(0, i as int).push(self.requests@[i as int])
                    =~= self.requests@.subrange(0, i + 1));
            }
            i = i + 1;
        }
        proof {
            assert(self.requests@.subrange(0, n as int) =~= self.requests@);
            assert(self.writes_spec() =~= Seq::<(u32, Seq<u8>)>::empty());
        }
        let plan = UpdatePlan { writes, reads, ridx: 0 };
        proof {
            assert(plan.reads_left() =~= plan.reads@);
        }
        plan
    }
}

} // verus!
