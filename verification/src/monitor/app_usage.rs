//! Per-application accounting: byte counters of TCP connections are sampled
//! periodically, the growth of each connection is credited to its process, and
//! the credited bytes are handed out, with process names, when the loop saves.
use vstd::prelude::*;

verus! {

/// TCP state of an established connection.
pub const ESTABLISHED: u32 = 5;

/// A TCP connection: its owning process and its endpoints.
#[derive(Clone, Copy, Debug, PartialEq, Eq, Structural)]
#[allow(inconsistent_fields)]
pub enum ConnKey {
    V4 { pid: u32, la: u32, lp: u32, ra: u32, rp: u32 },
    V6 { pid: u32, la: u128, lp: u32, ra: u128, rp: u32 },
}

pub open spec fn conn_pid(k: ConnKey) -> u32 {
    match k {
        ConnKey::V4 { pid, .. } => pid,
        ConnKey::V6 { pid, .. } => pid,
    }
}

/// The owning process of a connection.
pub fn key_pid(k: &ConnKey) -> (r: u32)
    ensures
        r == conn_pid(*k),
{
    match k {
        ConnKey::V4 { pid, .. } => *pid,
        ConnKey::V6 { pid, .. } => *pid,
    }
}

/// A row of a TCP table is sampled when the connection is established and
/// owned by a process.
pub fn is_tracked_row(state: u32, pid: u32) -> (r: bool)
    ensures
        r == (state == ESTABLISHED && pid != 0),
{
    state == ESTABLISHED && pid != 0
}

/// One sampled connection: key, owning process, bytes received, bytes sent.
pub type ConnSample = (ConnKey, u32, u64, u64);

/// Traffic credited to one application since the last save.
pub struct AppUsageSample {
    pub app_name: String,
    pub upload_bytes: u64,
    pub download_bytes: u64,
}

pub open spec fn samples_keys_unique(s: Seq<ConnSample>) -> bool {
    forall|i: int, j: int| 0 <= i < j < s.len() ==> #[trigger] s[i].0 != #[trigger] s[j].0
}

pub open spec fn prev_keys_unique(s: Seq<(ConnKey, u64, u64)>) -> bool {
    forall|i: int, j: int| 0 <= i < j < s.len() ==> #[trigger] s[i].0 != #[trigger] s[j].0
}

pub open spec fn conn_keys_unique(s: Seq<ConnKey>) -> bool {
    forall|i: int, j: int| 0 <= i < j < s.len() ==> #[trigger] s[i] != #[trigger] s[j]
}

pub open spec fn pending_pids_unique(s: Seq<(u32, u64, u64)>) -> bool {
    forall|i: int, j: int| 0 <= i < j < s.len() ==> #[trigger] s[i].0 != #[trigger] s[j].0
}

pub open spec fn names_pids_unique(s: Seq<(u32, String)>) -> bool {
    forall|i: int, j: int| 0 <= i < j < s.len() ==> #[trigger] s[i].0 != #[trigger] s[j].0
}

/// Each credited entry's two counters add up within a `u64`.
pub open spec fn pending_sums_fit(s: Seq<(u32, u64, u64)>) -> bool {
    forall|i: int| 0 <= i < s.len() ==> #[trigger] s[i].1 + s[i].2 <= u64::MAX
}

/// The counters recorded for a connection at the previous sample.
pub open spec fn prev_of(prev: Seq<(ConnKey, u64, u64)>, k: ConnKey) -> Option<(u64, u64)> {
    if exists|i: int| 0 <= i < prev.len() && prev[i].0 == k {
        let i = choose|i: int| 0 <= i < prev.len() && prev[i].0 == k;
        Some((prev[i].1, prev[i].2))
    } else {
        None
    }
}

pub open spec fn sat_sub(a: u64, b: u64) -> u64 {
    if a >= b {
        (a - b) as u64
    } else {
        0
    }
}

/// Growth of a connection's counters (received, sent) since the previous
/// sample; nothing for a connection not seen then.
pub open spec fn growth(prev: Seq<(ConnKey, u64, u64)>, e: ConnSample) -> (u64, u64) {
    match prev_of(prev, e.0) {
        Some((pi, po)) => (sat_sub(e.2, pi), sat_sub(e.3, po)),
        None => (0, 0),
    }
}

/// Where a process's credited entry stands.
pub open spec fn pending_index(p: Seq<(u32, u64, u64)>, pid: u32) -> Option<int> {
    if exists|i: int| 0 <= i < p.len() && p[i].0 == pid {
        Some(choose|i: int| 0 <= i < p.len() && p[i].0 == pid)
    } else {
        None
    }
}

/// Crediting `(din, dout)` to `pid` keeps every sum within a `u64`.
pub open spec fn credit_fits(p: Seq<(u32, u64, u64)>, pid: u32, din: u64, dout: u64) -> bool {
    &&& din + dout <= u64::MAX
    &&& match pending_index(p, pid) {
        Some(i) => p[i].1 + din + p[i].2 + dout <= u64::MAX,
        None => true,
    }
}

/// Credits `(din, dout)` to `pid` when it is not nothing.
pub open spec fn credit(p: Seq<(u32, u64, u64)>, pid: u32, din: u64, dout: u64) -> Seq<
    (u32, u64, u64),
> {
    if din + dout == 0 {
        p
    } else {
        match pending_index(p, pid) {
            Some(i) => p.update(i, (pid, (p[i].1 + din) as u64, (p[i].2 + dout) as u64)),
            None => p.push((pid, din, dout)),
        }
    }
}

/// The credited entries after crediting the growth of every sampled connection.
pub open spec fn captured(
    p: Seq<(u32, u64, u64)>,
    prev: Seq<(ConnKey, u64, u64)>,
    cur: Seq<ConnSample>,
) -> Seq<(u32, u64, u64)>
    decreases cur.len(),
{
    if cur.len() == 0 {
        p
    } else {
        let q = captured(p, prev, cur.drop_last());
        let e = cur.last();
        let g = growth(prev, e);
        credit(q, e.1, g.0, g.1)
    }
}

/// Every credit of a capture keeps the sums within a `u64`.
pub open spec fn capture_fits(
    p: Seq<(u32, u64, u64)>,
    prev: Seq<(ConnKey, u64, u64)>,
    cur: Seq<ConnSample>,
) -> bool
    decreases cur.len(),
{
    if cur.len() == 0 {
        true
    } else {
        let e = cur.last();
        let g = growth(prev, e);
        capture_fits(p, prev, cur.drop_last()) && credit_fits(
            captured(p, prev, cur.drop_last()),
            e.1,
            g.0,
            g.1,
        )
    }
}

/// The counters kept from a sample for the next one.
pub open spec fn counters_of(cur: Seq<ConnSample>) -> Seq<(ConnKey, u64, u64)> {
    cur.map_values(|e: ConnSample| (e.0, e.2, e.3))
}

/// Samples connection counters and credits each process with the growth of its
/// connections since the previous sample.
pub struct AppUsageTracker {
    prev: Vec<(ConnKey, u64, u64)>,
    all_conns: Vec<ConnKey>,
    pending: Vec<(u32, u64, u64)>,
    names: Vec<(u32, String)>,
}

impl AppUsageTracker {
    #[verifier::type_invariant]
    spec fn inv(self) -> bool {
        &&& prev_keys_unique(self.prev@)
        &&& conn_keys_unique(self.all_conns@)
        &&& pending_pids_unique(self.pending@)
        &&& pending_sums_fit(self.pending@)
        &&& names_pids_unique(self.names@)
    }

    /// Connection counters of the previous sample.
    pub closed spec fn prev_view(self) -> Seq<(ConnKey, u64, u64)> {
        self.prev@
    }

    /// Every established connection of the last sample, whether or not its
    /// counters could be read.
    pub closed spec fn conns_view(self) -> Seq<ConnKey> {
        self.all_conns@
    }

    /// Bytes credited per process since the last save: (pid, received, sent).
    pub closed spec fn pending_view(self) -> Seq<(u32, u64, u64)> {
        self.pending@
    }

    /// Process names learnt so far.
    pub closed spec fn names_view(self) -> Seq<(u32, String)> {
        self.names@
    }

    /// Nothing sampled, credited or named yet.
    pub fn new() -> (t: Self)
        ensures
            t.prev_view().len() == 0,
            t.conns_view().len() == 0,
            t.pending_view().len() == 0,
            t.names_view().len() == 0,
    {
        AppUsageTracker { prev: Vec::new(), all_conns: Vec::new(), pending: Vec::new(), names: Vec::new() }
    }
}


proof fn lemma_capture_fits_prefix(
    p: Seq<(u32, u64, u64)>,
    prev: Seq<(ConnKey, u64, u64)>,
    cur: Seq<ConnSample>,
    k: int,
)
    requires
        0 <= k <= cur.len(),
        capture_fits(p, prev, cur),
    ensures
        capture_fits(p, prev, cur.take(k)),
    decreases cur.len() - k,
{
    if k < cur.len() {
        assert(cur.drop_last() =~= cur.take(cur.len() - 1));
        lemma_capture_fits_prefix(p, prev, cur.drop_last(), k);
        assert(cur.drop_last().take(k) =~= cur.take(k));
    } else {
        assert(cur.take(k) =~= cur);
    }
}

proof fn lemma_capture_step(
    p: Seq<(u32, u64, u64)>,
    prev: Seq<(ConnKey, u64, u64)>,
    cur: Seq<ConnSample>,
    i: int,
)
    requires
        0 <= i < cur.len(),
    ensures
        captured(p, prev, cur.take(i + 1)) == credit(
            captured(p, prev, cur.take(i)),
            cur[i].1,
            growth(prev, cur[i]).0,
            growth(prev, cur[i]).1,
        ),
        capture_fits(p, prev, cur.take(i + 1)) == (capture_fits(p, prev, cur.take(i)) && credit_fits(
            captured(p, prev, cur.take(i)),
            cur[i].1,
            growth(prev, cur[i]).0,
            growth(prev, cur[i]).1,
        )),
{
    assert(cur.take(i + 1).drop_last() =~= cur.take(i));
    assert(cur.take(i + 1).last() == cur[i]);
}

fn find_prev(prev: &Vec<(ConnKey, u64, u64)>, k: &ConnKey) -> (r: Option<(u64, u64)>)
    requires
        prev_keys_unique(prev@),
    ensures
        r == prev_of(prev@, *k),
{
    let mut i: usize = 0;
    while i < prev.len()
        invariant
            i <= prev@.len(),
            prev_keys_unique(prev@),
            forall|j: int| 0 <= j < i ==> #[trigger] prev@[j].0 != *k,
        decreases prev@.len() - i,
    {
        if prev[i].0 == *k {
            proof {
                assert(prev@[i as int].0 == *k);
                let c = choose|j: int| 0 <= j < prev@.len() && prev@[j].0 == *k;
                if c != i as int {
                    if c < i {
                        assert(prev@[c].0 != prev@[i as int].0);
                    } else {
                        assert(prev@[i as int].0 != prev@[c].0);
                    }
                }
            }
            return Some((prev[i].1, prev[i].2));
        }
        i = i + 1;
    }
    None
}

fn find_pending(p: &Vec<(u32, u64, u64)>, pid: u32) -> (r: Option<usize>)
    requires
        pending_pids_unique(p@),
    ensures
        match r {
            Some(i) => pending_index(p@, pid) == Some(i as int) && i < p@.len(),
            None => pending_index(p@, pid) is None,
        },
{
    let mut i: usize = 0;
    while i < p.len()
        invariant
            i <= p@.len(),
            pending_pids_unique(p@),
            forall|j: int| 0 <= j < i ==> #[trigger] p@[j].0 != pid,
        decreases p@.len() - i,
    {
        if p[i].0 == pid {
            proof {
                let c = choose|j: int| 0 <= j < p@.len() && p@[j].0 == pid;
                if c != i as int {
                    if c < i {
                        assert(p@[c].0 != p@[i as int].0);
                    } else {
                        assert(p@[i as int].0 != p@[c].0);
                    }
                }
            }
            return Some(i);
        }
        i = i + 1;
    }
    None
}

fn copy_pending(v: &Vec<(u32, u64, u64)>) -> (r: Vec<(u32, u64, u64)>)
    ensures
        r@ == v@,
{
    let mut r: Vec<(u32, u64, u64)> = Vec::new();
    let mut i: usize = 0;
    while i < v.len()
        invariant
            i <= v@.len(),
            r@ == v@.take(i as int),
        decreases v@.len() - i,
    {
        r.push(v[i]);
        i = i + 1;
        assert(r@ =~= v@.take(i as int));
    }
    assert(v@.take(v@.len() as int) =~= v@);
    r
}

proof fn lemma_credit_keeps_inv(p: Seq<(u32, u64, u64)>, pid: u32, din: u64, dout: u64)
    requires
        pending_pids_unique(p),
        pending_sums_fit(p),
        credit_fits(p, pid, din, dout),
    ensures
        pending_pids_unique(credit(p, pid, din, dout)),
        pending_sums_fit(credit(p, pid, din, dout)),
{
    let q = credit(p, pid, din, dout);
    if din + dout != 0 {
        match pending_index(p, pid) {
            Some(i) => {
                assert forall|a: int, b: int| 0 <= a < b < q.len() implies #[trigger] q[a].0
                    != #[trigger] q[b].0 by {
                    assert(p[a].0 != p[b].0);
                }
                assert forall|a: int| 0 <= a < q.len() implies #[trigger] q[a].1 + q[a].2
                    <= u64::MAX by {
                    if a != i {
                        assert(q[a] == p[a]);
                    }
                }
            },
            None => {
                assert forall|a: int, b: int| 0 <= a < b < q.len() implies #[trigger] q[a].0
                    != #[trigger] q[b].0 by {
                    if b < p.len() {
                        assert(p[a].0 != p[b].0);
                    } else {
                        assert(!(p[a].0 == pid));
                    }
                }
                assert forall|a: int| 0 <= a < q.len() implies #[trigger] q[a].1 + q[a].2
                    <= u64::MAX by {
                    if a < p.len() {
                        assert(q[a] == p[a]);
                    }
                }
            },
        }
    }
}

/// The credited entries after crediting the growth of every sampled connection
/// since `prev` to `start`; `None` when a credited process's received and
/// sent bytes would no longer add up within a `u64`.
fn credit_all(start: Vec<(u32, u64, u64)>, prev: &Vec<(ConnKey, u64, u64)>, cur: &Vec<ConnSample>) -> (r:
    Option<Vec<(u32, u64, u64)>>)
    requires
        prev_keys_unique(prev@),
        pending_pids_unique(start@),
        pending_sums_fit(start@),
    ensures
        r is Some <==> capture_fits(start@, prev@, cur@),
        r matches Some(v) ==> v@ == captured(start@, prev@, cur@) && pending_pids_unique(v@)
            && pending_sums_fit(v@),
{
    let ghost p0 = start@;
    let ghost prev0 = prev@;
    let mut newp = start;
    let mut i: usize = 0;
    while i < cur.len()
        invariant
            i <= cur@.len(),
            prev0 == prev@,
            p0 == start@,
            prev_keys_unique(prev0),
            newp@ == captured(p0, prev0, cur@.take(i as int)),
            capture_fits(p0, prev0, cur@.take(i as int)),
            pending_pids_unique(newp@),
            pending_sums_fit(newp@),
        decreases cur@.len() - i,
    {
        proof {
            lemma_capture_step(p0, prev0, cur@, i as int);
        }
        let e = cur[i];
        let (din, dout): (u64, u64) = match find_prev(prev, &e.0) {
            Some((pi, po)) => (
                if e.2 >= pi {
                    e.2 - pi
                } else {
                    0
                },
                if e.3 >= po {
                    e.3 - po
                } else {
                    0
                },
            ),
            None => (0, 0),
        };
        assert((din, dout) == growth(prev0, cur@[i as int]));
        if din > u64::MAX - dout {
            proof {
                if capture_fits(p0, prev0, cur@) {
                    lemma_capture_fits_prefix(p0, prev0, cur@, i as int + 1);
                }
            }
            return None;
        }
        if din + dout > 0 {
            match find_pending(&newp, e.1) {
                Some(j) => {
                    let (q, a, b) = newp[j];
                    if (a as u128) + (din as u128) + (b as u128) + (dout as u128) > u64::MAX as u128 {
                        proof {
                            if capture_fits(p0, prev0, cur@) {
                                lemma_capture_fits_prefix(p0, prev0, cur@, i as int + 1);
                            }
                        }
                        return None;
                    }
                    proof {
                        lemma_credit_keeps_inv(newp@, e.1, din, dout);
                    }
                    newp.set(j, (e.1, a + din, b + dout));
                },
                None => {
                    proof {
                        lemma_credit_keeps_inv(newp@, e.1, din, dout);
                    }
                    newp.push((e.1, din, dout));
                },
            }
        }
        i = i + 1;
    }
    assert(cur@.take(cur@.len() as int) =~= cur@);
    Some(newp)
}

impl AppUsageTracker {
    /// Credits each process with the growth of its connections' counters since
    /// the previous sample (a connection not seen before, or whose counters did
    /// not grow, credits nothing), then keeps `cur` as the previous sample and
    /// `established` (every established connection, counters read or not) as
    /// the current connections. Refused, with nothing changed, when a credited
    /// process's received and sent bytes would no longer add up within a `u64`.
    pub fn capture(&mut self, cur: &Vec<ConnSample>, established: Vec<ConnKey>) -> (applied: bool)
        requires
            samples_keys_unique(cur@),
            conn_keys_unique(established@),
        ensures
            applied == capture_fits(old(self).pending_view(), old(self).prev_view(), cur@),
            applied ==> final(self).pending_view() == captured(
                old(self).pending_view(),
                old(self).prev_view(),
                cur@,
            ) && final(self).prev_view() == counters_of(cur@) && final(self).conns_view()
                == established@,
            !applied ==> final(self).pending_view() == old(self).pending_view()
                && final(self).prev_view() == old(self).prev_view() && final(self).conns_view()
                == old(self).conns_view(),
            final(self).names_view() == old(self).names_view(),
    {
        proof {
            use_type_invariant(&*self);
        }
        let newp = match credit_all(copy_pending(&self.pending), &self.prev, cur) {
            Some(v) => v,
            None => return false,
        };
        let mut next: Vec<(ConnKey, u64, u64)> = Vec::new();
        let mut k: usize = 0;
        while k < cur.len()
            invariant
                k <= cur@.len(),
                next@ == counters_of(cur@.take(k as int)),
            decreases cur@.len() - k,
        {
            next.push((cur[k].0, cur[k].2, cur[k].3));
            k = k + 1;
            assert(next@ =~= counters_of(cur@.take(k as int)));
        }
        proof {
            assert(counters_of(cur@.take(cur@.len() as int)) == counters_of(cur@));
            assert forall|a: int, b: int| 0 <= a < b < next@.len() implies #[trigger] next@[a].0
                != #[trigger] next@[b].0 by {
                assert(cur@[a].0 != cur@[b].0);
            }
        }
        self.pending = newp;
        self.prev = next;
        self.all_conns = established;
        true
    }
}


/// Process names as (pid, name text).
pub open spec fn name_entries(v: Seq<(u32, String)>) -> Seq<(u32, Seq<char>)> {
    v.map_values(|e: (u32, String)| (e.0, e.1@))
}

/// Where a process's name stands.
pub open spec fn name_index(n: Seq<(u32, Seq<char>)>, pid: u32) -> Option<int> {
    if exists|i: int| 0 <= i < n.len() && n[i].0 == pid {
        Some(choose|i: int| 0 <= i < n.len() && n[i].0 == pid)
    } else {
        None
    }
}

/// The names after learning `name` for `pid` (a known pid is renamed).
pub open spec fn learn_name(n: Seq<(u32, Seq<char>)>, pid: u32, name: Seq<char>) -> Seq<
    (u32, Seq<char>),
> {
    match name_index(n, pid) {
        Some(i) => n.update(i, (pid, name)),
        None => n.push((pid, name)),
    }
}

/// The names after learning every entry of `live`, in order.
pub open spec fn learnt(n: Seq<(u32, Seq<char>)>, live: Seq<(u32, Seq<char>)>) -> Seq<
    (u32, Seq<char>),
>
    decreases live.len(),
{
    if live.len() == 0 {
        n
    } else {
        let m = learnt(n, live.drop_last());
        learn_name(m, live.last().0, live.last().1)
    }
}

/// A process's name, `Unknown` when none was learnt.
pub open spec fn name_of(n: Seq<(u32, Seq<char>)>, pid: u32) -> Seq<char> {
    match name_index(n, pid) {
        Some(i) => n[i].1,
        None => "Unknown"@,
    }
}

/// No two entries name the same process.
pub open spec fn entries_pids_unique(n: Seq<(u32, Seq<char>)>) -> bool {
    forall|i: int, j: int| 0 <= i < j < n.len() ==> #[trigger] n[i].0 != #[trigger] n[j].0
}

/// Entry `j` of `live` is the last one given for its process.
pub open spec fn last_for_pid(live: Seq<(u32, Seq<char>)>, j: int) -> bool {
    &&& 0 <= j < live.len()
    &&& forall|k: int| j < k < live.len() ==> #[trigger] live[k].0 != live[j].0
}

/// Some entry of `live` is for process `pid`.
pub open spec fn pid_given(live: Seq<(u32, Seq<char>)>, pid: u32) -> bool {
    exists|k: int| 0 <= k < live.len() && #[trigger] live[k].0 == pid
}

proof fn lemma_name_of_at(m: Seq<(u32, Seq<char>)>, i: int)
    requires
        entries_pids_unique(m),
        0 <= i < m.len(),
    ensures
        name_of(m, m[i].0) == m[i].1,
{
    let pid = m[i].0;
    assert(m[i].0 == pid);
    assert(exists|c: int| 0 <= c < m.len() && m[c].0 == pid);
    let c = choose|c: int| 0 <= c < m.len() && m[c].0 == m[i].0;
    if c < i {
        assert(m[c].0 != m[i].0);
    } else if c > i {
        assert(m[i].0 != m[c].0);
    }
}

proof fn lemma_name_of_same(m: Seq<(u32, Seq<char>)>, m2: Seq<(u32, Seq<char>)>, q: u32)
    requires
        entries_pids_unique(m),
        entries_pids_unique(m2),
        m.len() <= m2.len(),
        forall|k: int| 0 <= k < m.len() && #[trigger] m[k].0 == q ==> m2[k] == m[k],
        forall|k: int| m.len() <= k < m2.len() ==> #[trigger] m2[k].0 != q,
        forall|k: int| 0 <= k < m.len() && #[trigger] m[k].0 != q ==> m2[k].0 != q,
    ensures
        name_of(m2, q) == name_of(m, q),
{
    if exists|c: int| 0 <= c < m.len() && m[c].0 == q {
        let c = choose|c: int| 0 <= c < m.len() && m[c].0 == q;
        lemma_name_of_at(m, c);
        lemma_name_of_at(m2, c);
    } else {
        assert forall|k: int| 0 <= k < m2.len() implies m2[k].0 != q by {
            if k < m.len() {
                assert(m[k].0 != q);
            }
        }
    }
}

proof fn lemma_learn_name(m: Seq<(u32, Seq<char>)>, pid: u32, name: Seq<char>)
    requires
        entries_pids_unique(m),
    ensures
        entries_pids_unique(learn_name(m, pid, name)),
        name_of(learn_name(m, pid, name), pid) == name,
        forall|q: u32| q != pid ==> name_of(learn_name(m, pid, name), q) == name_of(m, q),
{
    let m2 = learn_name(m, pid, name);
    match name_index(m, pid) {
        Some(i) => {
            assert(m2.len() == m.len());
            assert forall|a: int, b: int| 0 <= a < b < m2.len() implies #[trigger] m2[a].0 != #[trigger] m2[b].0 by {
                assert(m2[a].0 == m[a].0 && m2[b].0 == m[b].0);
            }
            lemma_name_of_at(m2, i);
            assert forall|q: u32| q != pid implies name_of(m2, q) == name_of(m, q) by {
                lemma_name_of_same(m, m2, q);
            }
        },
        None => {
            assert forall|a: int, b: int| 0 <= a < b < m2.len() implies #[trigger] m2[a].0 != #[trigger] m2[b].0 by {
                if b < m.len() {
                    assert(m2[a].0 == m[a].0 && m2[b].0 == m[b].0);
                } else {
                    assert(m2[a].0 == m[a].0);
                    assert(!(m[a].0 == pid));
                }
            }
            lemma_name_of_at(m2, m.len() as int);
            assert forall|q: u32| q != pid implies name_of(m2, q) == name_of(m, q) by {
                lemma_name_of_same(m, m2, q);
            }
        },
    }
}

/// Law: after the names of the running processes are learnt, each process
/// given in `live` is named by the last name given for it there (a reused pid
/// takes the new process's name), and every other process keeps its name.
pub proof fn law_learnt_names_are_latest(n: Seq<(u32, Seq<char>)>, live: Seq<(u32, Seq<char>)>)
    requires
        entries_pids_unique(n),
    ensures
        entries_pids_unique(learnt(n, live)),
        forall|j: int| #[trigger] last_for_pid(live, j) ==> name_of(learnt(n, live), live[j].0) == live[j].1,
        forall|pid: u32| !#[trigger] pid_given(live, pid) ==> name_of(learnt(n, live), pid) == name_of(n, pid),
    decreases live.len(),
{
    if live.len() > 0 {
        let rest = live.drop_last();
        let m = learnt(n, rest);
        law_learnt_names_are_latest(n, rest);
        let pid = live.last().0;
        let name = live.last().1;
        lemma_learn_name(m, pid, name);
        assert forall|j: int| #[trigger] last_for_pid(live, j) implies name_of(learnt(n, live), live[j].0)
            == live[j].1 by {
            if j < live.len() - 1 {
                assert(live[live.len() - 1].0 != live[j].0);
                assert(rest[j] == live[j]);
                assert forall|k: int| j < k < rest.len() implies #[trigger] rest[k].0 != rest[j].0 by {
                    assert(rest[k] == live[k]);
                }
                assert(last_for_pid(rest, j));
            }
        }
        assert forall|q: u32| !#[trigger] pid_given(live, q) implies name_of(learnt(n, live), q) == name_of(n, q) by {
            assert(live[live.len() - 1].0 != q);
            if pid_given(rest, q) {
                let k = choose|k: int| 0 <= k < rest.len() && #[trigger] rest[k].0 == q;
                assert(live[k] == rest[k]);
            }
        }
    }
}

/// The samples handed out for the credited entries: one per entry of a real
/// process (pid not zero) with some traffic, as (name, upload, download).
pub open spec fn sample_list(p: Seq<(u32, u64, u64)>, n: Seq<(u32, Seq<char>)>) -> Seq<
    (Seq<char>, u64, u64),
>
    decreases p.len(),
{
    if p.len() == 0 {
        Seq::empty()
    } else {
        let rest = sample_list(p.drop_last(), n);
        let e = p.last();
        if e.0 != 0 && e.1 + e.2 > 0 {
            rest.push((name_of(n, e.0), e.2, e.1))
        } else {
            rest
        }
    }
}

pub open spec fn sample_view(s: AppUsageSample) -> (Seq<char>, u64, u64) {
    (s.app_name@, s.upload_bytes, s.download_bytes)
}

fn find_name(names: &Vec<(u32, String)>, pid: u32) -> (r: Option<usize>)
    requires
        names_pids_unique(names@),
    ensures
        match r {
            Some(i) => name_index(name_entries(names@), pid) == Some(i as int) && i < names@.len(),
            None => name_index(name_entries(names@), pid) is None,
        },
{
    let ghost n = name_entries(names@);
    let mut i: usize = 0;
    while i < names.len()
        invariant
            i <= names@.len(),
            n == name_entries(names@),
            names_pids_unique(names@),
            forall|j: int| 0 <= j < i ==> #[trigger] names@[j].0 != pid,
        decreases names@.len() - i,
    {
        if names[i].0 == pid {
            proof {
                assert(n[i as int].0 == pid);
                let c = choose|j: int| 0 <= j < n.len() && n[j].0 == pid;
                if c != i as int {
                    assert(names@[c].0 == pid);
                    if c < i {
                        assert(names@[c].0 != names@[i as int].0);
                    } else {
                        assert(names@[i as int].0 != names@[c].0);
                    }
                }
            }
            return Some(i);
        }
        i = i + 1;
    }
    proof {
        if exists|j: int| 0 <= j < n.len() && n[j].0 == pid {
            let c = choose|j: int| 0 <= j < n.len() && n[j].0 == pid;
            assert(names@[c].0 == pid);
        }
    }
    None
}

proof fn lemma_learnt_step(n: Seq<(u32, Seq<char>)>, live: Seq<(u32, Seq<char>)>, i: int)
    requires
        0 <= i < live.len(),
    ensures
        learnt(n, live.take(i + 1)) == learn_name(learnt(n, live.take(i)), live[i].0, live[i].1),
{
    assert(live.take(i + 1).drop_last() =~= live.take(i));
    assert(live.take(i + 1).last() == live[i]);
}

proof fn lemma_sample_step(p: Seq<(u32, u64, u64)>, n: Seq<(u32, Seq<char>)>, i: int)
    requires
        0 <= i < p.len(),
    ensures
        sample_list(p.take(i + 1), n) == if p[i].0 != 0 && p[i].1 + p[i].2 > 0 {
            sample_list(p.take(i), n).push((name_of(n, p[i].0), p[i].2, p[i].1))
        } else {
            sample_list(p.take(i), n)
        },
{
    assert(p.take(i + 1).drop_last() =~= p.take(i));
    assert(p.take(i + 1).last() == p[i]);
}

impl AppUsageTracker {
    /// The growth of each process's connections since the previous sample,
    /// as (pid, received, sent) per process in order of first appearance,
    /// without crediting it; `None` when a process's received and sent growth
    /// do not add up within a `u64`.
    pub fn live_growth(&self, cur: &Vec<ConnSample>) -> (r: Option<Vec<(u32, u64, u64)>>)
        ensures
            r is Some <==> capture_fits(Seq::empty(), self.prev_view(), cur@),
            r matches Some(v) ==> v@ == captured(Seq::empty(), self.prev_view(), cur@),
    {
        proof {
            use_type_invariant(self);
        }
        credit_all(Vec::new(), &self.prev, cur)
    }
}

impl AppUsageTracker {
    /// Hands out the credited bytes and forgets them. When anything was
    /// credited, the names of the running processes (`live`) are learnt first,
    /// and each credited process with traffic becomes one sample, named by what
    /// was learnt (`Unknown` otherwise).
    pub fn flush(&mut self, live: &Vec<(u32, String)>) -> (r: Vec<AppUsageSample>)
        ensures
            final(self).pending_view().len() == 0,
            final(self).prev_view() == old(self).prev_view(),
            final(self).conns_view() == old(self).conns_view(),
            old(self).pending_view().len() == 0 ==> r@.len() == 0 && final(self).names_view()
                == old(self).names_view(),
            old(self).pending_view().len() > 0 ==> {
                &&& name_entries(final(self).names_view()) == learnt(
                    name_entries(old(self).names_view()),
                    name_entries(live@),
                )
                &&& r@.map_values(|s: AppUsageSample| sample_view(s)) == sample_list(
                    old(self).pending_view(),
                    name_entries(final(self).names_view()),
                )
                &&& forall|j: int|
                    #[trigger] last_for_pid(name_entries(live@), j) ==> name_of(
                        name_entries(final(self).names_view()),
                        live@[j].0,
                    ) == live@[j].1@
                &&& forall|pid: u32|
                    !#[trigger] pid_given(name_entries(live@), pid) ==> name_of(
                        name_entries(final(self).names_view()),
                        pid,
                    ) == name_of(name_entries(old(self).names_view()), pid)
            },
    {
        proof {
            use_type_invariant(&*self);
        }
        let mut pending: Vec<(u32, u64, u64)> = Vec::new();
        std::mem::swap(&mut pending, &mut self.pending);
        if pending.len() == 0 {
            return Vec::new();
        }
        let mut names: Vec<(u32, String)> = Vec::new();
        std::mem::swap(&mut names, &mut self.names);
        let ghost n0 = name_entries(names@);
        let ghost lv = name_entries(live@);
        proof {
            assert forall|a: int, b: int| 0 <= a < b < n0.len() implies #[trigger] n0[a].0 != #[trigger] n0[b].0 by {
                assert(n0[a].0 == names@[a].0 && n0[b].0 == names@[b].0);
            }
            law_learnt_names_are_latest(n0, lv);
        }
        let mut i: usize = 0;
        while i < live.len()
            invariant
                i <= live@.len(),
                lv == name_entries(live@),
                names_pids_unique(names@),
                name_entries(names@) == learnt(n0, lv.take(i as int)),
            decreases live@.len() - i,
        {
            proof {
                lemma_learnt_step(n0, lv, i as int);
                assert(lv[i as int] == (live@[i as int].0, live@[i as int].1@));
            }
            let pid = live[i].0;
            let name = live[i].1.clone();
            let ghost before = name_entries(names@);
            match find_name(&names, pid) {
                Some(j) => {
                    names.set(j, (pid, name));
                    proof {
                        assert(name_entries(names@) =~= before.update(j as int, (pid, live@[i as int].1@)));
                        assert forall|a: int, b: int| 0 <= a < b < names@.len() implies #[trigger] names@[a].0
                            != #[trigger] names@[b].0 by {
                            assert(before[a].0 == names@[a].0 || a == j);
                            if a != j && b != j {
                                assert(before[a].0 == names@[a].0 && before[b].0 == names@[b].0);
                            }
                        }
                    }
                },
                None => {
                    names.push((pid, name));
                    proof {
                        assert(name_entries(names@) =~= before.push((pid, live@[i as int].1@)));
                        assert forall|a: int, b: int| 0 <= a < b < names@.len() implies #[trigger] names@[a].0
                            != #[trigger] names@[b].0 by {
                            if b < before.len() {
                                assert(before[a].0 == names@[a].0 && before[b].0 == names@[b].0);
                            } else {
                                assert(before[a].0 == names@[a].0);
                                assert(!(before[a].0 == pid));
                            }
                        }
                    }
                },
            }
            i = i + 1;
        }
        proof {
            assert(lv.take(live@.len() as int) =~= lv);
        }
        let ghost nf = name_entries(names@);
        let ghost p = pending@;
        let mut out: Vec<AppUsageSample> = Vec::new();
        let mut k: usize = 0;
        while k < pending.len()
            invariant
                k <= pending@.len(),
                p == pending@,
                pending_sums_fit(p),
                nf == name_entries(names@),
                names_pids_unique(names@),
                out@.map_values(|s: AppUsageSample| sample_view(s)) == sample_list(p.take(k as int), nf),
            decreases pending@.len() - k,
        {
            proof {
                lemma_sample_step(p, nf, k as int);
            }
            let (pid, in_bytes, out_bytes) = pending[k];
            assert(p[k as int].1 + p[k as int].2 <= u64::MAX);
            if pid != 0 && in_bytes + out_bytes > 0 {
                let app_name = match find_name(&names, pid) {
                    Some(j) => names[j].1.clone(),
                    None => String::from_str("Unknown"),
                };
                let ghost before = out@;
                out.push(AppUsageSample { app_name, download_bytes: in_bytes, upload_bytes: out_bytes });
                proof {
                    assert(out@.map_values(|s: AppUsageSample| sample_view(s)) =~= before.map_values(
                        |s: AppUsageSample| sample_view(s),
                    ).push((name_of(nf, pid), out_bytes, in_bytes)));
                }
            }
            k = k + 1;
        }
        proof {
            assert(p.take(p.len() as int) =~= p);
        }
        self.names = names;
        out
    }
}


/// Where a process's count stands.
pub open spec fn count_index(c: Seq<(u32, nat)>, pid: u32) -> Option<int> {
    if exists|i: int| 0 <= i < c.len() && c[i].0 == pid {
        Some(choose|i: int| 0 <= i < c.len() && c[i].0 == pid)
    } else {
        None
    }
}

/// Connections per process (pid not zero), processes in order of their first
/// connection.
pub open spec fn pid_counts(conns: Seq<ConnKey>) -> Seq<(u32, nat)>
    decreases conns.len(),
{
    if conns.len() == 0 {
        Seq::empty()
    } else {
        let c = pid_counts(conns.drop_last());
        let pid = conn_pid(conns.last());
        if pid == 0 {
            c
        } else {
            match count_index(c, pid) {
                Some(i) => c.update(i, (pid, c[i].1 + 1)),
                None => c.push((pid, 1nat)),
            }
        }
    }
}

pub open spec fn counts_view(v: Seq<(u32, usize)>) -> Seq<(u32, nat)> {
    v.map_values(|e: (u32, usize)| (e.0, e.1 as nat))
}

proof fn lemma_counts_step(conns: Seq<ConnKey>, i: int)
    requires
        0 <= i < conns.len(),
    ensures
        pid_counts(conns.take(i + 1)) == ({
            let c = pid_counts(conns.take(i));
            let pid = conn_pid(conns[i]);
            if pid == 0 {
                c
            } else {
                match count_index(c, pid) {
                    Some(j) => c.update(j, (pid, c[j].1 + 1)),
                    None => c.push((pid, 1nat)),
                }
            }
        }),
{
    assert(conns.take(i + 1).drop_last() =~= conns.take(i));
    assert(conns.take(i + 1).last() == conns[i]);
}

impl AppUsageTracker {
    /// The number of established connections of each process (pid not zero).
    pub fn active_pid_counts(&self) -> (r: Vec<(u32, usize)>)
        ensures
            counts_view(r@) == pid_counts(self.conns_view()),
    {
        let ghost conns = self.all_conns@;
        let mut out: Vec<(u32, usize)> = Vec::new();
        let mut i: usize = 0;
        while i < self.all_conns.len()
            invariant
                i <= conns.len(),
                conns == self.all_conns@,
                counts_view(out@) == pid_counts(conns.take(i as int)),
                forall|a: int, b: int| 0 <= a < b < out@.len() ==> #[trigger] out@[a].0 != #[trigger] out@[b].0,
                forall|a: int| 0 <= a < out@.len() ==> #[trigger] out@[a].1 <= i,
            decreases conns.len() - i,
        {
            proof {
                lemma_counts_step(conns, i as int);
            }
            let pid = key_pid(&self.all_conns[i]);
            if pid != 0 {
                let ghost c = counts_view(out@);
                let mut j: usize = 0;
                while j < out.len() && out[j].0 != pid
                    invariant
                        j <= out@.len(),
                        forall|a: int| 0 <= a < j ==> #[trigger] out@[a].0 != pid,
                    decreases out@.len() - j,
                {
                    j = j + 1;
                }
                if j < out.len() {
                    proof {
                        assert(c[j as int].0 == pid);
                        let w = choose|a: int| 0 <= a < c.len() && c[a].0 == pid;
                        if w != j as int {
                            assert(out@[w].0 == pid);
                            if w < j {
                                assert(out@[w].0 != out@[j as int].0);
                            } else {
                                assert(out@[j as int].0 != out@[w].0);
                            }
                        }
                    }
                    let n = out[j].1;
                    out.set(j, (pid, n + 1));
                    proof {
                        assert(counts_view(out@) =~= c.update(j as int, (pid, c[j as int].1 + 1)));
                    }
                } else {
                    proof {
                        if exists|a: int| 0 <= a < c.len() && c[a].0 == pid {
                            let w = choose|a: int| 0 <= a < c.len() && c[a].0 == pid;
                            assert(out@[w].0 == pid);
                        }
                    }
                    out.push((pid, 1));
                    proof {
                        assert(counts_view(out@) =~= c.push((pid, 1nat)));
                    }
                }
            }
            i = i + 1;
        }
        proof {
            assert(conns.take(conns.len() as int) =~= conns);
        }
        out
    }
}

impl AppUsageTracker {
    /// The number of established connections of the last sample.
    pub fn connection_count(&self) -> (n: usize)
        ensures
            n == self.conns_view().len(),
    {
        self.all_conns.len()
    }
}

/// Adds a sampled connection to a sample, replacing an earlier entry of the
/// same connection.
pub fn insert_sample(v: &mut Vec<ConnSample>, e: ConnSample)
    requires
        samples_keys_unique(old(v)@),
    ensures
        samples_keys_unique(final(v)@),
        (exists|i: int| 0 <= i < old(v)@.len() && old(v)@[i].0 == e.0) ==> exists|i: int|
            0 <= i < old(v)@.len() && old(v)@[i].0 == e.0 && final(v)@ == old(v)@.update(i, e),
        !(exists|i: int| 0 <= i < old(v)@.len() && old(v)@[i].0 == e.0) ==> final(v)@ == old(v)@.push(e),
{
    let mut i: usize = 0;
    while i < v.len()
        invariant
            i <= v@.len(),
            v@ == old(v)@,
            samples_keys_unique(old(v)@),
            forall|a: int| 0 <= a < i ==> #[trigger] v@[a].0 != e.0,
        decreases v@.len() - i,
    {
        if v[i].0 == e.0 {
            let ghost before = v@;
            v.set(i, e);
            proof {
                assert forall|a: int, b: int| 0 <= a < b < v@.len() implies #[trigger] v@[a].0 != #[trigger] v@[b].0 by {
                    assert(before[a].0 != before[b].0);
                }
            }
            return;
        }
        i = i + 1;
    }
    let ghost before = v@;
    v.push(e);
    proof {
        assert forall|a: int, b: int| 0 <= a < b < v@.len() implies #[trigger] v@[a].0 != #[trigger] v@[b].0 by {
            if b < before.len() {
                assert(before[a].0 != before[b].0);
            } else {
                assert(before[a].0 != e.0);
            }
        }
    }
}


/// Bytes credited to `pid` (received, sent).
pub open spec fn credited(p: Seq<(u32, u64, u64)>, pid: u32) -> (nat, nat) {
    match pending_index(p, pid) {
        Some(i) => (p[i].1 as nat, p[i].2 as nat),
        None => (0, 0),
    }
}

/// Growth (received, sent) of the sampled connections of `pid`.
pub open spec fn growth_total(prev: Seq<(ConnKey, u64, u64)>, cur: Seq<ConnSample>, pid: u32) -> (
    nat,
    nat,
)
    decreases cur.len(),
{
    if cur.len() == 0 {
        (0, 0)
    } else {
        let t = growth_total(prev, cur.drop_last(), pid);
        let e = cur.last();
        if e.1 == pid {
            let g = growth(prev, e);
            (t.0 + g.0 as nat, t.1 + g.1 as nat)
        } else {
            t
        }
    }
}

proof fn lemma_captured_inv(p: Seq<(u32, u64, u64)>, prev: Seq<(ConnKey, u64, u64)>, cur: Seq<ConnSample>)
    requires
        pending_pids_unique(p),
        pending_sums_fit(p),
        capture_fits(p, prev, cur),
    ensures
        pending_pids_unique(captured(p, prev, cur)),
        pending_sums_fit(captured(p, prev, cur)),
    decreases cur.len(),
{
    if cur.len() > 0 {
        lemma_captured_inv(p, prev, cur.drop_last());
        let g = growth(prev, cur.last());
        lemma_credit_keeps_inv(captured(p, prev, cur.drop_last()), cur.last().1, g.0, g.1);
    }
}

proof fn lemma_pending_index_unique(p: Seq<(u32, u64, u64)>, pid: u32, i: int)
    requires
        pending_pids_unique(p),
        0 <= i < p.len(),
        p[i].0 == pid,
    ensures
        pending_index(p, pid) == Some(i),
{
    let c = choose|j: int| 0 <= j < p.len() && p[j].0 == pid;
    if c != i {
        if c < i {
            assert(p[c].0 != p[i].0);
        } else {
            assert(p[i].0 != p[c].0);
        }
    }
}

proof fn lemma_credit_credited(p: Seq<(u32, u64, u64)>, q: u32, din: u64, dout: u64, pid: u32)
    requires
        pending_pids_unique(p),
        pending_sums_fit(p),
        credit_fits(p, q, din, dout),
    ensures
        credited(credit(p, q, din, dout), pid) == if q == pid {
            (credited(p, pid).0 + din as nat, credited(p, pid).1 + dout as nat)
        } else {
            credited(p, pid)
        },
{
    let n = credit(p, q, din, dout);
    lemma_credit_keeps_inv(p, q, din, dout);
    if din + dout == 0 {
        assert(din == 0 && dout == 0);
    } else {
        match pending_index(p, q) {
            Some(i) => {
                if q == pid {
                    lemma_pending_index_unique(n, pid, i);
                } else {
                    match pending_index(p, pid) {
                        Some(k) => {
                            assert(n[k] == p[k]);
                            lemma_pending_index_unique(n, pid, k);
                        },
                        None => {
                            if exists|j: int| 0 <= j < n.len() && n[j].0 == pid {
                                let j = choose|j: int| 0 <= j < n.len() && n[j].0 == pid;
                                assert(p[j].0 == pid);
                            }
                        },
                    }
                }
            },
            None => {
                let last = p.len() as int;
                if q == pid {
                    lemma_pending_index_unique(n, pid, last);
                } else {
                    match pending_index(p, pid) {
                        Some(k) => {
                            assert(n[k] == p[k]);
                            lemma_pending_index_unique(n, pid, k);
                        },
                        None => {
                            if exists|j: int| 0 <= j < n.len() && n[j].0 == pid {
                                let j = choose|j: int| 0 <= j < n.len() && n[j].0 == pid;
                                assert(j < last);
                                assert(p[j].0 == pid);
                            }
                        },
                    }
                }
            },
        }
    }
}

/// Law: a capture credits each process exactly the growth of its sampled
/// connections' counters since the previous sample.
pub proof fn law_capture_credits_growth(
    p: Seq<(u32, u64, u64)>,
    prev: Seq<(ConnKey, u64, u64)>,
    cur: Seq<ConnSample>,
    pid: u32,
)
    requires
        pending_pids_unique(p),
        pending_sums_fit(p),
        capture_fits(p, prev, cur),
    ensures
        credited(captured(p, prev, cur), pid) == (
            credited(p, pid).0 + growth_total(prev, cur, pid).0,
            credited(p, pid).1 + growth_total(prev, cur, pid).1,
        ),
    decreases cur.len(),
{
    if cur.len() > 0 {
        law_capture_credits_growth(p, prev, cur.drop_last(), pid);
        lemma_captured_inv(p, prev, cur.drop_last());
        let e = cur.last();
        let g = growth(prev, e);
        lemma_credit_credited(captured(p, prev, cur.drop_last()), e.1, g.0, g.1, pid);
    }
}

/// Law: sampling counters that have not moved since the previous sample
/// credits nothing.
pub proof fn law_unchanged_counters_credit_nothing(p: Seq<(u32, u64, u64)>, cur: Seq<ConnSample>)
    requires
        pending_pids_unique(p),
        pending_sums_fit(p),
        samples_keys_unique(cur),
    ensures
        capture_fits(p, counters_of(cur), cur),
        captured(p, counters_of(cur), cur) == p,
{
    let prev = counters_of(cur);
    assert forall|k: int| 0 <= k < cur.len() implies #[trigger] growth(prev, cur[k]) == (0u64, 0u64) by {
        assert(prev[k].0 == cur[k].0);
        let c = choose|j: int| 0 <= j < prev.len() && prev[j].0 == cur[k].0;
        if c != k {
            assert(prev[c].0 == cur[c].0);
            if c < k {
                assert(cur[c].0 != cur[k].0);
            } else {
                assert(cur[k].0 != cur[c].0);
            }
        }
    }
    lemma_no_growth_prefix(p, prev, cur, cur.len() as int);
    assert(cur.take(cur.len() as int) =~= cur);
}

proof fn lemma_no_growth_prefix(
    p: Seq<(u32, u64, u64)>,
    prev: Seq<(ConnKey, u64, u64)>,
    cur: Seq<ConnSample>,
    k: int,
)
    requires
        0 <= k <= cur.len(),
        pending_sums_fit(p),
        forall|j: int| 0 <= j < cur.len() ==> #[trigger] growth(prev, cur[j]) == (0u64, 0u64),
    ensures
        capture_fits(p, prev, cur.take(k)),
        captured(p, prev, cur.take(k)) == p,
    decreases k,
{
    if k > 0 {
        lemma_no_growth_prefix(p, prev, cur, k - 1);
        lemma_capture_step(p, prev, cur, k - 1);
        assert(growth(prev, cur[k - 1]) == (0u64, 0u64));
    }
}

} // verus!
