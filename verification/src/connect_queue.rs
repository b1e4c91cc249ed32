//! Logins one after another: opening a folder, "Connect all", and
//! automatic reconnects (many sessions drop together after sleep) all go
//! through this queue, so a jump host doesn't get dozens of logins at once
//! (sshd's `MaxStartups`). A connection starts when its shim is there,
//! at most [`MAX_CONNECTING`] are logging in at a time, and starts are
//! spaced by [`SPACING`].

use vstd::prelude::*;

use crate::session::{Session, State};
use crate::sessions;
use crate::sessions::Core;
use crate::text;

verus! {

/// Between two starts (milliseconds).
pub const SPACING: u64 = 200;

/// Logins at a time.
pub const MAX_CONNECTING: usize = 4;

/// A shim that isn't there by then (milliseconds) won't be connected by
/// the queue.
pub const SHIM_WAIT: u64 = 30_000;

/// A login that takes longer (milliseconds) doesn't hold the others back.
pub const SLOT_WAIT: u64 = 20_000;

/// Between two looks (milliseconds).
pub const POLL: u64 = 100;

/// Whether a session in the queue can be connected.
#[derive(Clone, Copy, Debug, PartialEq, Eq, Structural)]
pub enum Ready {
    Yes,
    NotYet,
    /// Closed, gone, or already connecting: nothing to do.
    Never,
}

/// Whether the session with this id can be connected.
pub open spec fn readiness(all: Seq<Session>, id: Seq<char>) -> Ready {
    match sessions::with_id(all, id) {
        Some(i) => {
            let s = all[i];
            if !s.state.open() {
                Ready::Never
            } else if s.link is Some && s.state.connectable() {
                Ready::Yes
            } else if s.state is Connecting || s.state is Connected {
                Ready::Never
            } else {
                Ready::NotYet
            }
        },
        None => Ready::Never,
    }
}

/// How many sessions are logging in.
pub open spec fn connecting_count(all: Seq<Session>) -> int
    decreases all.len(),
{
    if all.len() == 0 {
        0
    } else {
        connecting_count(all.drop_last()) + if all.last().state is Connecting {
            1int
        } else {
            0int
        }
    }
}

/// A session waiting for its turn, and since when (milliseconds).
pub struct Pending {
    pub id: String,
    pub since: u64,
}

/// What is waiting, as sequences.
pub open spec fn waiting(v: Seq<Pending>) -> Seq<(Seq<char>, u64)> {
    v.map_values(|p: Pending| (p.id@, p.since))
}

/// The session is in the queue.
pub open spec fn is_queued(queue: Seq<(Seq<char>, u64)>, id: Seq<char>) -> bool {
    exists|i: int| 0 <= i < queue.len() && (#[trigger] queue[i]).0 == id
}

/// Time that passed since then.
pub open spec fn elapsed(since: u64, now: u64) -> int {
    if now >= since {
        now - since
    } else {
        0
    }
}

/// The first session that can be connected, with the queue without it and
/// without the hopeless ones before it.
pub open spec fn pick(queue: Seq<(Seq<char>, u64)>, all: Seq<Session>, now: u64) -> (
    Option<(Seq<char>, u64)>,
    Seq<(Seq<char>, u64)>,
)
    decreases queue.len(),
{
    if queue.len() == 0 {
        (None, queue)
    } else {
        let first = queue.first();
        match readiness(all, first.0) {
            Ready::Yes => (Some(first), queue.skip(1)),
            Ready::NotYet => {
                let rest = pick(queue.skip(1), all, now);
                if elapsed(first.1, now) < SHIM_WAIT {
                    (rest.0, seq![first] + rest.1)
                } else {
                    rest
                }
            },
            Ready::Never => pick(queue.skip(1), all, now),
        }
    }
}

/// What the queue does next.
#[derive(Debug, PartialEq, Eq)]
pub enum Turn {
    /// Nothing is ready: look again after [`POLL`].
    Wait,
    /// Connect this session, queued since then.
    Connect(String, u64),
}

/// The queue.
pub struct Queue {
    pub pending: Vec<Pending>,
}

impl Queue {
    /// An empty queue.
    pub fn new() -> (r: Queue)
        ensures
            waiting(r.pending@) == Seq::<(Seq<char>, u64)>::empty(),
    {
        let r = Queue { pending: Vec::new() };
        proof {
            assert(waiting(r.pending@) =~= Seq::empty());
        }
        r
    }

    /// A session to connect, at the end of the queue; one that is in it
    /// already keeps its place.
    pub fn add(&mut self, id: String, now: u64)
        ensures
            waiting(final(self).pending@) == if is_queued(waiting(old(self).pending@), id@) {
                waiting(old(self).pending@)
            } else {
                waiting(old(self).pending@).push((id@, now))
            },
    {
        let ghost all = waiting(self.pending@);
        let mut i: usize = 0;
        while i < self.pending.len()
            invariant
                i <= self.pending@.len(),
                all == waiting(self.pending@),
                all == waiting(old(self).pending@),
                forall|j: int| 0 <= j < i ==> (#[trigger] all[j]).0 != id@,
            decreases self.pending@.len() - i,
        {
            if text::same(&self.pending[i].id, &id) {
                proof {
                    assert(all[i as int].0 == id@);
                }
                return;
            }
            i += 1;
        }
        let ghost named = id@;
        self.pending.push(Pending { id, since: now });
        proof {
            assert(waiting(self.pending@) =~= all.push((named, now)));
        }
    }

    /// The next session to connect: the first that is ready, in order; the
    /// hopeless ones before it are dropped.
    pub fn next(&mut self, core: &Core, now: u64) -> (r: Turn)
        ensures
            ({
                let (chosen, rest) = pick(waiting(old(self).pending@), core.sessions@, now);
                &&& waiting(final(self).pending@) == rest
                &&& match chosen {
                    Some(c) => r matches Turn::Connect(id, since) && id@ == c.0 && since == c.1,
                    None => r is Wait,
                }
            }),
    {
        let ghost start = waiting(self.pending@);
        let mut i: usize = 0;
        proof {
            assert(start.skip(0) =~= start);
            assert(start.take(0) + pick(start, core.sessions@, now).1 =~= pick(start, core.sessions@, now).1);
        }
        while i < self.pending.len()
            invariant
                i <= self.pending@.len(),
                start == waiting(old(self).pending@),
                ({
                    let rest = pick(waiting(self.pending@).skip(i as int), core.sessions@, now);
                    let whole = pick(start, core.sessions@, now);
                    &&& whole.0 == rest.0
                    &&& whole.1 == waiting(self.pending@).take(i as int) + rest.1
                }),
            decreases self.pending@.len() - i,
        {
            let ghost all = waiting(self.pending@);
            let ghost rest = all.skip(i as int);
            proof {
                assert(rest.first() == all[i as int]);
                assert(rest.skip(1) =~= all.skip(i + 1));
            }
            match core.ready(&self.pending[i].id) {
                Ready::Yes => {
                    let p = self.pending.remove(i);
                    proof {
                        assert(waiting(self.pending@) =~= all.remove(i as int));
                        assert(waiting(self.pending@) =~= all.take(i as int) + all.skip(i + 1));
                    }
                    return Turn::Connect(p.id, p.since);
                },
                Ready::NotYet => {
                    let since = self.pending[i].since;
                    let old_enough: u64 = if now >= since {
                        now - since
                    } else {
                        0
                    };
                    if old_enough < SHIM_WAIT {
                        proof {
                            let tail = pick(all.skip(i + 1), core.sessions@, now);
                            assert(all.take(i + 1) + tail.1 =~= all.take(i as int) + (seq![all[i as int]] + tail.1));
                        }
                        i += 1;
                    } else {
                        let _ = self.pending.remove(i);
                        proof {
                            assert(waiting(self.pending@) =~= all.remove(i as int));
                            assert(waiting(self.pending@).skip(i as int) =~= all.skip(i + 1));
                            assert(waiting(self.pending@).take(i as int) =~= all.take(i as int));
                        }
                    }
                },
                Ready::Never => {
                    let _ = self.pending.remove(i);
                    proof {
                        assert(waiting(self.pending@) =~= all.remove(i as int));
                        assert(waiting(self.pending@).skip(i as int) =~= all.skip(i + 1));
                        assert(waiting(self.pending@).take(i as int) =~= all.take(i as int));
                    }
                },
            }
        }
        proof {
            let all = waiting(self.pending@);
            assert(all.skip(i as int) =~= Seq::empty());
            assert(all.take(i as int) + Seq::<(Seq<char>, u64)>::empty() =~= all);
        }
        Turn::Wait
    }

    /// The link went away between looking and telling (a shim whose
    /// connection broke comes back): the session keeps its place in the
    /// queue instead of waiting for a word that will never come, unless it
    /// has waited long enough.
    pub fn put_back(&mut self, id: String, since: u64, now: u64)
        ensures
            waiting(final(self).pending@) == if elapsed(since, now) < SHIM_WAIT {
                seq![(id@, since)] + waiting(old(self).pending@)
            } else {
                waiting(old(self).pending@)
            },
    {
        let ghost all = waiting(self.pending@);
        let ghost named = id@;
        let waited: u64 = if now >= since {
            now - since
        } else {
            0
        };
        if waited < SHIM_WAIT {
            self.pending.insert(0, Pending { id, since });
            proof {
                assert(waiting(self.pending@) =~= seq![(named, since)] + all);
            }
        }
    }
}

impl Core {
    /// Whether the session with this id can be connected now.
    pub fn ready(&self, id: &str) -> (r: Ready)
        ensures
            r == readiness(self.sessions@, id@),
    {
        match sessions::find_id(&self.sessions, id) {
            Some(i) => {
                let s = &self.sessions[i];
                let busy = matches!(s.state, State::Connecting | State::Connected);
                if !s.state.is_open() {
                    Ready::Never
                } else if s.link.is_some() && s.state.can_connect() {
                    Ready::Yes
                } else if busy {
                    Ready::Never
                } else {
                    Ready::NotYet
                }
            },
            None => Ready::Never,
        }
    }

    /// Whether a login may start: few enough are running, or this one has
    /// waited long enough for its turn.
    pub fn slot_free(&self, waited: u64) -> (r: bool)
        ensures
            r == (connecting_count(self.sessions@) < MAX_CONNECTING || waited >= SLOT_WAIT),
    {
        let mut n: usize = 0;
        let mut i: usize = 0;
        proof {
            assert(self.sessions@.take(0) =~= Seq::empty());
        }
        while i < self.sessions.len()
            invariant
                i <= self.sessions@.len(),
                n <= i,
                n == connecting_count(self.sessions@.take(i as int)),
            decreases self.sessions@.len() - i,
        {
            proof {
                assert(self.sessions@.take(i + 1).drop_last() =~= self.sessions@.take(i as int));
                assert(self.sessions@.take(i + 1).last() == self.sessions@[i as int]);
            }
            if matches!(self.sessions[i].state, State::Connecting) {
                n += 1;
            }
            i += 1;
        }
        proof {
            assert(self.sessions@.take(i as int) =~= self.sessions@);
        }
        n < MAX_CONNECTING || waited >= SLOT_WAIT
    }

    /// The shim was told to connect: counted as connecting right away, not
    /// only when the shim says so.
    pub fn told_to_connect(&mut self, id: &str)
        ensures
            final(self).sessions@ == match sessions::with_id(old(self).sessions@, id@) {
                Some(i) => {
                    let s = old(self).sessions@[i];
                    old(self).sessions@.update(
                        i,
                        Session {
                            told_to_connect: true,
                            state: if s.state.connectable() {
                                State::Connecting
                            } else {
                                s.state
                            },
                            ..s
                        },
                    )
                },
                None => old(self).sessions@,
            },
            *final(self) == (Core { sessions: final(self).sessions, ..*old(self) }),
    {
        if let Some(i) = sessions::find_id(&self.sessions, id) {
            let ghost was = self.sessions@;
            self.sessions[i].told_to_connect = true;
            if self.sessions[i].state.can_connect() {
                self.sessions[i].state = State::Connecting;
            }
            proof {
                assert(self.sessions@ =~= was.update(i as int, self.sessions@[i as int]));
            }
        }
    }
}

/// Whatever the queue picks is ready, was in the queue, and is in it no
/// longer when it was in it once; nothing that wasn't in the queue gets in.
pub proof fn law_queue_picks_what_is_ready(queue: Seq<(Seq<char>, u64)>, all: Seq<Session>, now: u64)
    ensures
        pick(queue, all, now).0 matches Some(c) ==> readiness(all, c.0) is Yes && queue.contains(c),
        forall|i: int| 0 <= i < pick(queue, all, now).1.len() ==> queue.contains(#[trigger] pick(queue, all, now).1[i]),
        pick(queue, all, now).1.len() + (if pick(queue, all, now).0 is Some {
            1int
        } else {
            0int
        }) <= queue.len(),
    decreases queue.len(),
{
    if queue.len() > 0 {
        let rest = queue.skip(1);
        law_queue_picks_what_is_ready(rest, all, now);
        assert(queue[0] == queue.first());
        assert forall|x: (Seq<char>, u64)| rest.contains(x) implies queue.contains(x) by {
            let k = choose|k: int| 0 <= k < rest.len() && rest[k] == x;
            assert(queue[k + 1] == x);
        }
        assert forall|i: int| 0 <= i < pick(queue, all, now).1.len() implies queue.contains(
            #[trigger] pick(queue, all, now).1[i],
        ) by {
            let tail = pick(rest, all, now).1;
            match readiness(all, queue.first().0) {
                Ready::Yes => {
                    assert(queue[i + 1] == pick(queue, all, now).1[i]);
                },
                Ready::NotYet => {
                    if elapsed(queue.first().1, now) < SHIM_WAIT {
                        if i > 0 {
                            assert(pick(queue, all, now).1[i] == tail[i - 1]);
                            assert(rest.contains(tail[i - 1]));
                        }
                    } else {
                        assert(rest.contains(tail[i]));
                    }
                },
                Ready::Never => {
                    assert(rest.contains(tail[i]));
                },
            }
        }
    }
}

/// The queue after sessions were added one after the other.
pub open spec fn all_added(queue: Seq<(Seq<char>, u64)>, ids: Seq<Seq<char>>, now: u64) -> Seq<(Seq<char>, u64)>
    decreases ids.len(),
{
    if ids.len() == 0 {
        queue
    } else {
        let q = all_added(queue, ids.drop_last(), now);
        if is_queued(q, ids.last()) {
            q
        } else {
            q.push((ids.last(), now))
        }
    }
}

impl Queue {
    /// Several sessions to connect, in this order.
    pub fn connect_all(&mut self, ids: Vec<String>, now: u64)
        ensures
            waiting(final(self).pending@) == all_added(waiting(old(self).pending@), text::texts(ids@), now),
    {
        let ghost all = text::texts(ids@);
        let ghost start = waiting(self.pending@);
        let mut i: usize = 0;
        proof {
            assert(all.take(0) =~= Seq::empty());
        }
        while i < ids.len()
            invariant
                i <= ids@.len(),
                all == text::texts(ids@),
                waiting(self.pending@) == all_added(start, all.take(i as int), now),
            decreases ids@.len() - i,
        {
            proof {
                assert(all.take(i + 1).drop_last() =~= all.take(i as int));
                assert(all.take(i + 1).last() == ids@[i as int]@);
            }
            self.add(text::owned(&ids[i]), now);
            i += 1;
        }
        proof {
            assert(all.take(i as int) =~= all);
        }
    }
}

/// The places of the sessions that are logging in.
pub open spec fn logging_in(all: Seq<Session>) -> Set<int> {
    Set::new(|i: int| 0 <= i < all.len() && all[i].state == State::Connecting)
}

proof fn lemma_logging_in(all: Seq<Session>)
    ensures
        logging_in(all).finite(),
        logging_in(all).len() == connecting_count(all),
    decreases all.len(),
{
    if all.len() == 0 {
        assert(logging_in(all) =~= Set::empty());
    } else {
        let front = all.drop_last();
        let end = all.len() - 1;
        lemma_logging_in(front);
        if all.last().state is Connecting {
            assert(logging_in(all) =~= logging_in(front).insert(end));
        } else {
            assert(logging_in(all) =~= logging_in(front));
        }
    }
}

/// What is counted is how many sessions are logging in, whatever the
/// others do: with four or more, another one waits; with fewer, it starts.
pub proof fn law_four_log_in_at_a_time(all: Seq<Session>)
    ensures
        logging_in(all).finite(),
        connecting_count(all) == logging_in(all).len(),
        connecting_count(all) < MAX_CONNECTING <==> logging_in(all).len() <= 3,
{
    lemma_logging_in(all);
}

/// The count goes up by one with a session that logs in, and by nothing
/// with any other; the order of the sessions doesn't matter to it.
pub proof fn law_only_logins_hold_a_slot(all: Seq<Session>, s: Session)
    ensures
        connecting_count(Seq::<Session>::empty()) == 0,
        s.state == State::Connecting ==> connecting_count(all.push(s)) == connecting_count(all) + 1,
        s.state != State::Connecting ==> connecting_count(all.push(s)) == connecting_count(all),
{
    assert(all.push(s).drop_last() =~= all);
}

/// Whether a session can be connected: never once its tab is gone or it is
/// (being) connected, at once where its shim is there and it is not, and
/// later while its shim is missing.
pub proof fn law_what_is_ready(all: Seq<Session>, id: Seq<char>)
    ensures
        (forall|i: int| 0 <= i < all.len() ==> (#[trigger] all[i]).id@ != id) ==> readiness(all, id) is Never,
        forall|i: int|
            0 <= i < all.len() && (#[trigger] all[i]).id@ == id && (forall|j: int| 0 <= j < i ==> (#[trigger] all[j]).id@ != id)
                ==> readiness(all, id) == (match all[i].state {
                State::Failed(_) | State::Gone | State::Closed | State::Connecting | State::Connected => Ready::Never,
                State::Waiting | State::LoginFailed(_) | State::Unreachable(_) | State::Disconnected(_) | State::Ended(_) => {
                    if all[i].link is Some {
                        Ready::Yes
                    } else {
                        Ready::NotYet
                    }
                },
                State::Opening | State::Detached => Ready::NotYet,
            }),
{
    sessions::law_first_with_id(all, id);
}

/// A wait is counted from its start, and is nothing where the clock went
/// back.
pub proof fn law_elapsed(since: u64, now: u64)
    ensures
        elapsed(since, now) >= 0,
        now <= since ==> elapsed(since, now) == 0,
        now >= since ==> since + elapsed(since, now) == now,
{
}

/// A session that stays in the queue: not ready yet, and not given up.
pub open spec fn stays(e: (Seq<char>, u64), all: Seq<Session>, now: u64) -> bool {
    readiness(all, e.0) is NotYet && now - e.1 < 30_000
}

/// The queue connects the first that is ready; of those before it only what
/// may still become ready stays (half a minute at most), those behind it
/// are not touched. With none ready, the same goes for the whole queue.
pub proof fn law_the_first_ready_goes(queue: Seq<(Seq<char>, u64)>, all: Seq<Session>, now: u64)
    ensures
        match pick(queue, all, now).0 {
            Some(c) => exists|k: int|
                #![trigger queue[k]]
                {
                    &&& 0 <= k < queue.len() && queue[k] == c && readiness(all, c.0) is Yes
                    &&& forall|j: int| 0 <= j < k ==> readiness(all, (#[trigger] queue[j]).0) !is Yes
                    &&& pick(queue, all, now).1 == queue.take(k).filter(
                        |e: (Seq<char>, u64)| stays(e, all, now),
                    ) + queue.skip(k + 1)
                },
            None => {
                &&& forall|j: int| 0 <= j < queue.len() ==> readiness(all, (#[trigger] queue[j]).0) !is Yes
                &&& pick(queue, all, now).1 == queue.filter(|e: (Seq<char>, u64)| stays(e, all, now))
            },
        },
    decreases queue.len(),
{
    let keep = |e: (Seq<char>, u64)| stays(e, all, now);
    if queue.len() == 0 {
        reveal(Seq::filter);
        assert(queue.filter(keep) =~= queue);
    } else {
        let first = queue.first();
        let rest = queue.skip(1);
        assert(queue =~= seq![first] + rest);
        assert(queue[0] == first);
        if readiness(all, first.0) is Yes {
            reveal(Seq::filter);
            assert(queue.take(0).filter(keep) =~= Seq::empty());
            assert(queue.take(0).filter(keep) + queue.skip(1) =~= queue.skip(1));
            assert(queue[0] == first);
        } else {
            law_the_first_ready_goes(rest, all, now);
            match pick(rest, all, now).0 {
                Some(c) => {
                    let k = choose|k: int|
                        #![trigger rest[k]]
                        {
                            &&& 0 <= k < rest.len() && rest[k] == c && readiness(all, c.0) is Yes
                            &&& forall|j: int| 0 <= j < k ==> readiness(all, (#[trigger] rest[j]).0) !is Yes
                            &&& pick(rest, all, now).1 == rest.take(k).filter(keep) + rest.skip(k + 1)
                        };
                    assert(queue[k + 1] == c);
                    assert forall|j: int| 0 <= j < k + 1 implies readiness(all, (#[trigger] queue[j]).0) !is Yes by {
                        if j > 0 {
                            assert(queue[j] == rest[j - 1]);
                        }
                    }
                    assert(queue.take(k + 1) =~= seq![first] + rest.take(k));
                    lemma_filter_first(first, rest.take(k), keep);
                    assert(queue.skip(k + 2) =~= rest.skip(k + 1));
                    assert(pick(queue, all, now).1 =~= queue.take(k + 1).filter(keep) + queue.skip(k + 2));
                },
                None => {
                    assert forall|j: int| 0 <= j < queue.len() implies readiness(all, (#[trigger] queue[j]).0) !is Yes by {
                        if j > 0 {
                            assert(queue[j] == rest[j - 1]);
                        }
                    }
                    lemma_filter_first(first, rest, keep);
                    assert(pick(queue, all, now).1 =~= queue.filter(keep));
                },
            }
        }
    }
}

proof fn lemma_filter_first(first: (Seq<char>, u64), rest: Seq<(Seq<char>, u64)>, keep: spec_fn((Seq<char>, u64)) -> bool)
    ensures
        (seq![first] + rest).filter(keep) == (if keep(first) {
            seq![first]
        } else {
            Seq::empty()
        }) + rest.filter(keep),
    decreases rest.len(),
{
    reveal(Seq::filter);
    let all = seq![first] + rest;
    if rest.len() == 0 {
        assert(all.drop_last() =~= Seq::empty());
        assert(all.drop_last().filter(keep) =~= Seq::empty());
        assert(all.last() == first);
        assert(rest.filter(keep) =~= Seq::empty());
        assert(all.filter(keep) =~= (if keep(first) {
            seq![first]
        } else {
            Seq::empty()
        }) + rest.filter(keep));
    } else {
        lemma_filter_first(first, rest.drop_last(), keep);
        assert(all.drop_last() =~= seq![first] + rest.drop_last());
        assert(all.last() == rest.last());
        assert(all.filter(keep) =~= (if keep(first) {
            seq![first]
        } else {
            Seq::empty()
        }) + rest.filter(keep));
    }
}

/// "Connect all": every session asked for is in the queue afterwards, what
/// was in it before keeps its place, what is new comes behind, in the order
/// asked for and since now, and nothing else gets in.
pub proof fn law_connect_all_queues_all(queue: Seq<(Seq<char>, u64)>, ids: Seq<Seq<char>>, now: u64)
    ensures
        queue.is_prefix_of(all_added(queue, ids, now)),
        forall|i: int| 0 <= i < ids.len() ==> is_queued(all_added(queue, ids, now), #[trigger] ids[i]),
        forall|i: int|
            queue.len() <= i < all_added(queue, ids, now).len() ==> ids.contains((#[trigger] all_added(queue, ids, now)[i]).0)
                && all_added(queue, ids, now)[i].1 == now && !is_queued(queue, all_added(queue, ids, now)[i].0),
        forall|i: int, j: int|
            queue.len() <= i < j < all_added(queue, ids, now).len() ==> (#[trigger] all_added(queue, ids, now)[i]).0 != (
            #[trigger] all_added(queue, ids, now)[j]).0,
    decreases ids.len(),
{
    if ids.len() > 0 {
        let front = ids.drop_last();
        let id = ids.last();
        law_connect_all_queues_all(queue, front, now);
        let q = all_added(queue, front, now);
        let r = all_added(queue, ids, now);
        assert forall|i: int| 0 <= i < q.len() implies #[trigger] r[i] == q[i] by {}
        assert forall|x: Seq<char>| is_queued(q, x) implies is_queued(r, x) by {
            let i = choose|i: int| 0 <= i < q.len() && (#[trigger] q[i]).0 == x;
            assert(r[i].0 == x);
        }
        assert forall|x: Seq<char>| is_queued(queue, x) implies is_queued(q, x) by {
            let i = choose|i: int| 0 <= i < queue.len() && (#[trigger] queue[i]).0 == x;
            assert(q.take(queue.len() as int)[i] == queue[i]);
            assert(q[i].0 == x);
        }
        assert forall|i: int| 0 <= i < ids.len() implies is_queued(r, #[trigger] ids[i]) by {
            if i < front.len() {
                assert(front[i] == ids[i]);
            } else if !is_queued(q, id) {
                assert(r[q.len() as int].0 == id);
            }
        }
        assert forall|x: Seq<char>| front.contains(x) implies ids.contains(x) by {
            let i = choose|i: int| 0 <= i < front.len() && front[i] == x;
            assert(ids[i] == x);
        }
        assert(ids.contains(id)) by {
            assert(ids[ids.len() - 1] == id);
        }
        assert forall|i: int| queue.len() <= i < r.len() implies ids.contains((#[trigger] r[i]).0) && r[i].1 == now && !is_queued(
            queue,
            r[i].0,
        ) by {
            if i < q.len() {
                assert(r[i] == q[i]);
            }
        }
        assert forall|i: int, j: int| queue.len() <= i < j < r.len() implies (#[trigger] r[i]).0 != (#[trigger] r[j]).0 by {
            assert(r[i] == q[i]);
            if j < q.len() {
                assert(r[j] == q[j]);
            }
        }
    }
}

/// A login waits for a slot for 20 seconds and for its tab for 30, two are
/// 200 milliseconds apart, and what is not ready is looked at every 100.
pub proof fn law_how_long_logins_wait()
    ensures
        SLOT_WAIT == 20_000,
        SHIM_WAIT == 30_000,
        SPACING == 200,
        POLL == 100,
{
}

} // verus!
