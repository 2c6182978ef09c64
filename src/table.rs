use vstd::prelude::*;
use vstd::laws_eq::obeys_concrete_eq;
use vstd::std_specs::cmp::PartialEqSpec;
use crate::protocol::Message;

verus! {

/// A 128-bit correlation identifier tying a request to its response.
#[derive(PartialEq, Eq, Structural, Clone, Copy, Debug, Hash)]
pub struct RequestId(pub u128);

/// Relies on uuid::Uuid::new_v4 and Uuid::as_u128: a random version-4 UUID as an integer.
/// Its version nibble is 4 and its variant bits are 0b10; nothing else is known of it.
#[verifier::external_body]
fn random_id() -> (r: RequestId)
    ensures
        (r.0 >> 76u128) & 0xfu128 == 4,
        (r.0 >> 62u128) & 0x3u128 == 2,
{
    RequestId(uuid::Uuid::new_v4().as_u128())
}

/// The mathematical contents of a channel's request table.
pub struct NetworkView<T, U> {
    /// Pending requests, in the order they were submitted.
    pub requests: Seq<(RequestId, T)>,
    /// Resolved responses, in the order they were resolved.
    pub responses: Seq<(RequestId, U)>,
}

/// Whether `id` names a pending request.
pub open spec fn is_pending<T, U>(v: NetworkView<T, U>, id: RequestId) -> bool {
    exists|i: int| 0 <= i < v.requests.len() && v.requests[i].0 == id
}

/// Whether `id` names a resolved response.
pub open spec fn is_resolved<T, U>(v: NetworkView<T, U>, id: RequestId) -> bool {
    exists|i: int| 0 <= i < v.responses.len() && v.responses[i].0 == id
}

/// Whether `id` is taken in the table, as a pending request or as a response.
pub open spec fn in_use<T, U>(v: NetworkView<T, U>, id: RequestId) -> bool {
    is_pending(v, id) || is_resolved(v, id)
}

/// Every identifier occurs at most once in the whole table.
pub open spec fn ids_unique<T, U>(v: NetworkView<T, U>) -> bool {
    &&& forall|i: int, j: int|
        0 <= i < j < v.requests.len() ==> v.requests[i].0 != v.requests[j].0
    &&& forall|i: int, j: int|
        0 <= i < j < v.responses.len() ==> v.responses[i].0 != v.responses[j].0
    &&& forall|i: int, j: int|
        0 <= i < v.requests.len() && 0 <= j < v.responses.len() ==> v.requests[i].0
            != v.responses[j].0
}

/// `i` is the first pending request equal to `request`.
pub open spec fn first_equal<T: PartialEq, U>(v: NetworkView<T, U>, request: T, i: int) -> bool {
    &&& 0 <= i < v.requests.len()
    &&& v.requests[i].1.eq_spec(&request)
    &&& forall|j: int| 0 <= j < i ==> !v.requests[j].1.eq_spec(&request)
}

/// The effect of submitting `request`, from table `old` to table `new`, answered with `id`:
/// an equal pending request gives back its own identifier and leaves the table alone;
/// otherwise `id` is an identifier not yet in use and the request is appended under it.
pub open spec fn send_post<T: PartialEq, U>(
    old: NetworkView<T, U>,
    request: T,
    id: RequestId,
    new: NetworkView<T, U>,
) -> bool {
    if exists|i: int| 0 <= i < old.requests.len() && old.requests[i].1.eq_spec(&request) {
        exists|i: int| first_equal(old, request, i) && id == old.requests[i].0 && new == old
    } else {
        &&& !in_use(old, id)
        &&& new.requests == old.requests.push((id, request))
        &&& new.responses == old.responses
    }
}

/// The effect of resolving `id` with `response`, from table `old` to table `new`, answered
/// with `accepted`: a pending identifier is retired from the requests and its response
/// recorded; any other identifier is refused and the table is left unchanged.
pub open spec fn resolve_post<T, U>(
    old: NetworkView<T, U>,
    id: RequestId,
    response: U,
    accepted: bool,
    new: NetworkView<T, U>,
) -> bool {
    &&& accepted == is_pending(old, id)
    &&& accepted ==> exists|i: int|
        0 <= i < old.requests.len() && old.requests[i].0 == id && new.requests
            == old.requests.remove(i)
    &&& accepted ==> new.responses == old.responses.push((id, response))
    &&& !accepted ==> new == old
}

/// The response resolved under `id`, if there is one.
pub open spec fn response_of<T, U>(v: NetworkView<T, U>, id: RequestId) -> Option<U> {
    if is_resolved(v, id) {
        Some(v.responses[choose|i: int| 0 <= i < v.responses.len() && v.responses[i].0 == id].1)
    } else {
        None
    }
}

/// The request table of one channel: pending requests and resolved responses, keyed by
/// correlation identifier.
pub struct Network<T, U> {
    requests: Vec<(RequestId, T)>,
    responses: Vec<(RequestId, U)>,
}

impl<T, U> View for Network<T, U> {
    type V = NetworkView<T, U>;

    closed spec fn view(&self) -> NetworkView<T, U> {
        NetworkView { requests: self.requests@, responses: self.responses@ }
    }
}

impl<T: Message, U: Message> Network<T, U> {
    /// Well-formed: no identifier occurs twice in the table.
    pub open spec fn wf(&self) -> bool {
        ids_unique(self@)
    }

    /// An empty table.
    pub fn new() -> (r: Self)
        ensures
            r.wf(),
            r@.requests.len() == 0,
            r@.responses.len() == 0,
    {
        Network { requests: Vec::new(), responses: Vec::new() }
    }

    /// Whether `id` is taken, as a pending request or as a response.
    fn contains_id(&self, id: RequestId) -> (r: bool)
        ensures
            r == in_use(self@, id),
    {
        let mut i: usize = 0;
        while i < self.requests.len()
            invariant
                i <= self.requests@.len(),
                forall|j: int| 0 <= j < i ==> self.requests@[j].0 != id,
            decreases self.requests@.len() - i,
        {
            if self.requests[i].0 == id {
                assert(self@.requests[i as int].0 == id);
                return true;
            }
            i = i + 1;
        }
        let mut k: usize = 0;
        while k < self.responses.len()
            invariant
                k <= self.responses@.len(),
                forall|j: int| 0 <= j < self.requests@.len() ==> self.requests@[j].0 != id,
                forall|j: int| 0 <= j < k ==> self.responses@[j].0 != id,
            decreases self.responses@.len() - k,
        {
            if self.responses[k].0 == id {
                assert(self@.responses[k as int].0 == id);
                return true;
            }
            k = k + 1;
        }
        false
    }

    /// The identifiers in use, pending ones first.
    spec fn used_ids(&self) -> Seq<RequestId> {
        self.requests@.map_values(|p: (RequestId, T)| p.0) + self.responses@.map_values(
            |p: (RequestId, U)| p.0,
        )
    }

    /// An identifier not in use: `start` itself when it is free, else the first free one of
    /// the identifiers that follow it (or, near the top of the range, that end it).
    fn free_id(&self, start: RequestId) -> (r: RequestId)
        ensures
            !in_use(self@, r),
            !in_use(self@, start) ==> r == start,
    {
        if !self.contains_id(start) {
            return start;
        }
        let pending = self.requests.len();
        let resolved = self.responses.len();
        assert(pending as int + resolved as int <= 2 * (u64::MAX as int));
        let n: u128 = pending as u128 + resolved as u128;
        let base: u128 = if start.0 <= u128::MAX - n {
            start.0
        } else {
            u128::MAX - n
        };
        let mut k: u128 = 0;
        while k <= n
            invariant
                base + n <= u128::MAX,
                n < u128::MAX,
                k <= n + 1,
                in_use(self@, start),
                n == self.requests@.len() + self.responses@.len(),
                forall|j: int| 0 <= j < k ==> #[trigger] in_use(self@, RequestId((base + j) as u128)),
            decreases n + 1 - k,
        {
            let c = RequestId(base + k);
            if !self.contains_id(c) {
                return c;
            }
            k = k + 1;
        }
        proof {
            self.lemma_probe_finds_free(base as int, n as int);
            let j = choose|j: int| 0 <= j <= n && !#[trigger] in_use(self@, RequestId((base + j) as u128));
            assert(in_use(self@, RequestId((base + j) as u128)));
        }
        start
    }

    /// Of `n + 1` consecutive identifiers some one is free when only `n` are in use.
    proof fn lemma_probe_finds_free(&self, base: int, n: int)
        requires
            0 <= base,
            0 <= n,
            base + n <= u128::MAX,
            n == self.requests@.len() + self.responses@.len(),
        ensures
            exists|j: int| 0 <= j <= n && !#[trigger] in_use(self@, RequestId((base + j) as u128)),
    {
        if forall|j: int| 0 <= j <= n ==> #[trigger] in_use(self@, RequestId((base + j) as u128)) {
            self.lemma_probes_in_use_bounded(base, n);
        }
    }

    /// When `n + 1` consecutive identifiers are all in use, at least `n + 1` are.
    proof fn lemma_probes_in_use_bounded(&self, base: int, n: int)
        requires
            0 <= base,
            0 <= n,
            base + n <= u128::MAX,
            forall|j: int| 0 <= j <= n ==> #[trigger] in_use(self@, RequestId((base + j) as u128)),
        ensures
            n + 1 <= self.requests@.len() + self.responses@.len(),
    {
        let probes = Seq::new((n + 1) as nat, |j: int| RequestId((base + j) as u128));
        let used = self.used_ids();
        assert forall|a: int, b: int|
            0 <= a < probes.len() && 0 <= b < probes.len() && a != b implies probes[a]
            != probes[b] by {
            assert(probes[a].0 as int == base + a);
            assert(probes[b].0 as int == base + b);
        }
        assert(probes.no_duplicates());
        assert forall|x: RequestId| probes.to_set().contains(x) implies used.to_set().contains(
            x,
        ) by {
            let j = choose|j: int| 0 <= j < probes.len() && probes[j] == x;
            assert(in_use(self@, RequestId((base + j) as u128)));
            assert(probes[j] == RequestId((base + j) as u128));
            if is_pending(self@, x) {
                let i = choose|i: int| 0 <= i < self.requests@.len() && self.requests@[i].0 == x;
                assert(used[i] == x);
            } else {
                let i = choose|i: int|
                    0 <= i < self.responses@.len() && self.responses@[i].0 == x;
                assert(used[self.requests@.len() + i] == x);
            }
        }
        probes.unique_seq_to_set();
        used.lemma_cardinality_of_set();
        vstd::set_lib::lemma_len_subset(probes.to_set(), used.to_set());
        assert(used.len() == self.requests@.len() + self.responses@.len());
    }

    /// Submits a request. An equal request already pending gives back its identifier and
    /// leaves the table alone; otherwise the request is stored under a fresh random
    /// identifier, which is returned.
    pub fn send(&mut self, request: T) -> (r: RequestId)
        requires
            old(self).wf(),
            T::obeys_eq_spec(),
        ensures
            final(self).wf(),
            send_post(old(self)@, request, r, final(self)@),
    {
        let candidate = random_id();
        self.send_with(request, candidate)
    }

    /// Submits a request, using `candidate` as its identifier when the request is new and
    /// `candidate` is free. When `candidate` is taken, a free identifier found by probing
    /// upward from it is used instead.
    pub fn send_with(&mut self, request: T, candidate: RequestId) -> (r: RequestId)
        requires
            old(self).wf(),
            T::obeys_eq_spec(),
        ensures
            final(self).wf(),
            send_post(old(self)@, request, r, final(self)@),
            !is_pending(old(self)@, r) && !in_use(old(self)@, candidate) ==> r == candidate,
    {
        let mut i: usize = 0;
        while i < self.requests.len()
            invariant
                self@ == old(self)@,
                self.wf(),
                i <= self.requests@.len(),
                T::obeys_eq_spec(),
                forall|j: int| 0 <= j < i ==> !self.requests@[j].1.eq_spec(&request),
            decreases self.requests@.len() - i,
        {
            if self.requests[i].1 == request {
                let id = self.requests[i].0;
                assert(first_equal(self@, request, i as int));
                return id;
            }
            i = i + 1;
        }
        let id = self.free_id(candidate);
        self.requests.push((id, request));
        proof {
            assert(self@.requests =~= old(self)@.requests.push((id, request)));
            assert forall|k: int| 0 <= k < old(self)@.requests.len() implies old(
                self,
            )@.requests[k].0 != id by {
                assert(!is_pending(old(self)@, id));
            }
            assert forall|k: int| 0 <= k < old(self)@.responses.len() implies old(
                self,
            )@.responses[k].0 != id by {
                assert(!is_resolved(old(self)@, id));
            }
            let o = old(self)@;
            assert(self@.responses == o.responses);
            assert forall|a: int, b: int|
                0 <= a < b < self@.requests.len() implies self@.requests[a].0
                != self@.requests[b].0 by {
                if b < o.requests.len() {
                    assert(o.requests[a].0 != o.requests[b].0);
                }
            }
            assert forall|a: int, b: int|
                0 <= a < self@.requests.len() && 0 <= b < self@.responses.len()
                implies self@.requests[a].0 != self@.responses[b].0 by {
                assert(self@.responses[b] == o.responses[b]);
                if a < o.requests.len() {
                    assert(o.requests[a].0 != o.responses[b].0);
                } else {
                    assert(!is_resolved(o, id));
                    assert(o.responses[b].0 != id);
                }
            }
        }
        id
    }

    /// The response resolved under `id`, if any. An identifier still pending and one never
    /// seen both give `None`.
    pub fn read(&self, id: RequestId) -> (r: Option<&U>)
        requires
            self.wf(),
        ensures
            match r {
                Some(u) => response_of(self@, id) == Some(*u),
                None => response_of(self@, id) is None,
            },
    {
        let mut k: usize = 0;
        while k < self.responses.len()
            invariant
                self.wf(),
                k <= self.responses@.len(),
                forall|j: int| 0 <= j < k ==> self.responses@[j].0 != id,
            decreases self.responses@.len() - k,
        {
            if self.responses[k].0 == id {
                assert(self@.responses[k as int].0 == id);
                let ghost c = choose|i: int|
                    0 <= i < self@.responses.len() && self@.responses[i].0 == id;
                assert(c == k as int) by {
                    if c < k as int {
                        assert(self@.responses[c].0 != self@.responses[k as int].0);
                    } else if c > k as int {
                        assert(self@.responses[k as int].0 != self@.responses[c].0);
                    }
                }
                return Some(&self.responses[k].1);
            }
            k = k + 1;
        }
        None
    }

    /// The pending request stored under `id`, if any.
    pub fn pending_request(&self, id: RequestId) -> (r: Option<&T>)
        ensures
            match r {
                Some(t) => exists|i: int|
                    0 <= i < self@.requests.len() && self@.requests[i] == (id, *t),
                None => !is_pending(self@, id),
            },
    {
        let mut i: usize = 0;
        while i < self.requests.len()
            invariant
                i <= self.requests@.len(),
                forall|j: int| 0 <= j < i ==> self.requests@[j].0 != id,
            decreases self.requests@.len() - i,
        {
            if self.requests[i].0 == id {
                assert(self@.requests[i as int] == (id, self.requests@[i as int].1));
                return Some(&self.requests[i].1);
            }
            i = i + 1;
        }
        None
    }

    /// The number of pending requests.
    pub fn pending_count(&self) -> (r: usize)
        ensures
            r == self@.requests.len(),
    {
        self.requests.len()
    }

    /// The identifier of the pending request at position `i`, in submission order.
    pub fn pending_id(&self, i: usize) -> (r: RequestId)
        requires
            i < self@.requests.len(),
        ensures
            r == self@.requests[i as int].0,
    {
        self.requests[i].0
    }

    /// Records `response` for the pending request `id` and retires the request. An
    /// identifier that is not pending (never sent, or already resolved) is refused and the
    /// table is left unchanged.
    pub fn resolve(&mut self, id: RequestId, response: U) -> (r: bool)
        requires
            old(self).wf(),
        ensures
            final(self).wf(),
            resolve_post(old(self)@, id, response, r, final(self)@),
    {
        let mut i: usize = 0;
        while i < self.requests.len()
            invariant
                self@ == old(self)@,
                old(self).wf(),
                i <= self.requests@.len(),
                forall|j: int| 0 <= j < i ==> self.requests@[j].0 != id,
            decreases self.requests@.len() - i,
        {
            if self.requests[i].0 == id {
                let _retired = self.requests.remove(i);
                self.responses.push((id, response));
                proof {
                    let o = old(self)@;
                    assert(self@.requests =~= o.requests.remove(i as int));
                    assert(self@.responses =~= o.responses.push((id, response)));
                    assert forall|a: int, b: int|
                        0 <= a < b < self@.requests.len() implies self@.requests[a].0
                        != self@.requests[b].0 by {
                        let a0 = if a < i { a } else { a + 1 };
                        let b0 = if b < i { b } else { b + 1 };
                        assert(o.requests[a0].0 != o.requests[b0].0);
                    }
                    assert forall|a: int, b: int|
                        0 <= a < self@.requests.len() && 0 <= b < self@.responses.len()
                        implies self@.requests[a].0 != self@.responses[b].0 by {
                        let a0 = if a < i { a } else { a + 1 };
                        if b < o.responses.len() {
                            assert(o.requests[a0].0 != o.responses[b].0);
                        } else {
                            assert(o.requests[a0].0 != o.requests[i as int].0);
                        }
                    }
                    assert forall|a: int, b: int|
                        0 <= a < b < self@.responses.len() implies self@.responses[a].0
                        != self@.responses[b].0 by {
                        if b == o.responses.len() {
                            assert(o.requests[i as int].0 != o.responses[a].0);
                        }
                    }
                }
                return true;
            }
            i = i + 1;
        }
        false
    }
}

/// Submitting two equal requests one after the other yields the same identifier, and the
/// number of pending requests grows by at most one.
pub proof fn lemma_send_twice<T: PartialEq, U>(
    s0: NetworkView<T, U>,
    r1: T,
    id1: RequestId,
    s1: NetworkView<T, U>,
    r2: T,
    id2: RequestId,
    s2: NetworkView<T, U>,
)
    requires
        obeys_concrete_eq::<T>(),
        r1 == r2,
        send_post(s0, r1, id1, s1),
        send_post(s1, r2, id2, s2),
    ensures
        id1 == id2,
        s2.requests.len() <= s0.requests.len() + 1,
{
    reveal(obeys_concrete_eq);
    if exists|i: int| 0 <= i < s0.requests.len() && s0.requests[i].1.eq_spec(&r1) {
        let i = choose|i: int| first_equal(s0, r1, i) && id1 == s0.requests[i].0 && s1 == s0;
        assert(s1.requests[i].1.eq_spec(&r2));
        let k = choose|k: int| first_equal(s1, r2, k) && id2 == s1.requests[k].0 && s2 == s1;
        assert(k == i);
    } else {
        let last = s0.requests.len() as int;
        assert(s1.requests[last] == (id1, r1));
        assert(s1.requests[last].1.eq_spec(&r2));
        let k = choose|k: int| first_equal(s1, r2, k) && id2 == s1.requests[k].0 && s2 == s1;
        if k < last {
            assert(s0.requests[k].1.eq_spec(&r1));
        }
        assert(k == last);
    }
}

/// Resolving an identifier a second time is refused: once its response is recorded the
/// identifier is no longer pending, so a second response never overwrites the first and
/// the table stays as the first resolution left it.
pub proof fn lemma_resolve_twice_refused<T, U>(
    s0: NetworkView<T, U>,
    id: RequestId,
    u1: U,
    a1: bool,
    s1: NetworkView<T, U>,
    u2: U,
    a2: bool,
    s2: NetworkView<T, U>,
)
    requires
        ids_unique(s1),
        resolve_post(s0, id, u1, a1, s1),
        a1,
        resolve_post(s1, id, u2, a2, s2),
    ensures
        !a2,
        s2 == s1,
{
    let b = s0.responses.len() as int;
    assert(s1.responses[b].0 == id);
    assert forall|a: int| 0 <= a < s1.requests.len() implies s1.requests[a].0 != id by {
        assert(s1.requests[a].0 != s1.responses[b].0);
    }
}

} // verus!
