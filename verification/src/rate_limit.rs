//! A sliding-window limit on requests, per user and per chat.
//!
//! Times are nanoseconds on a clock that the caller keeps.

use std::collections::{HashMap, VecDeque};
use vstd::prelude::*;

verus! {

broadcast use vstd::std_specs::hash::group_hash_axioms;

/// How long a request counts.
pub const WINDOW: u64 = 10_000_000_000;

/// How many requests of one user count at most.
pub const USER_LIMIT: usize = 6;

/// How many requests in one chat count at most.
pub const CHAT_LIMIT: usize = 24;

/// How long a warning lasts.
pub const WARNING_COOLDOWN: u64 = 30_000_000_000;

/// A sliding-window limiter shared across private and group handlers.
#[derive(Debug)]
pub struct RateLimiter {
    users: HashMap<i64, VecDeque<u64>>,
    chats: HashMap<i64, VecDeque<u64>>,
    last_warning: HashMap<i64, u64>,
}

/// What a limiter remembers: the times of the requests that count, by user and by chat, and the
/// time of each user's last warning.
#[verifier::ext_equal]
pub struct LimiterView {
    pub users: Map<i64, Seq<u64>>,
    pub chats: Map<i64, Seq<u64>>,
    pub last_warning: Map<i64, u64>,
}

/// The contents of a map of queues.
pub open spec fn queues_view(queues: Map<i64, VecDeque<u64>>) -> Map<i64, Seq<u64>> {
    queues.map_values(|queue: VecDeque<u64>| queue@)
}

impl View for RateLimiter {
    type V = LimiterView;

    closed spec fn view(&self) -> LimiterView {
        LimiterView {
            users: queues_view(self.users@),
            chats: queues_view(self.chats@),
            last_warning: self.last_warning@,
        }
    }
}

/// How much time has passed at `now` since `then`; none where `then` lies ahead.
pub open spec fn since(then: u64, now: u64) -> int {
    if then <= now {
        now - then
    } else {
        0
    }
}

/// The queue of request times without those at its front that no longer count.
pub open spec fn recent(times: Seq<u64>, now: u64) -> Seq<u64>
    decreases times.len(),
{
    if times.len() > 0 && since(times[0], now) >= WINDOW {
        recent(times.skip(1), now)
    } else {
        times
    }
}

/// The queues at `now`: without what no longer counts, and without those left empty.
pub open spec fn recent_queues(queues: Map<i64, Seq<u64>>, now: u64) -> Map<i64, Seq<u64>> {
    Map::new(
        |key: i64| queues.contains_key(key) && recent(queues[key], now).len() > 0,
        |key: i64| recent(queues[key], now),
    )
}

/// The queue under `key`; empty where there is none.
pub open spec fn queue_of(queues: Map<i64, Seq<u64>>, key: i64) -> Seq<u64> {
    if queues.contains_key(key) {
        queues[key]
    } else {
        seq![]
    }
}

/// What a limiter still remembers at `now`.
pub open spec fn pruned(state: LimiterView, now: u64) -> LimiterView {
    LimiterView {
        users: recent_queues(state.users, now),
        chats: recent_queues(state.chats, now),
        last_warning: Map::new(
            |user: i64|
                state.last_warning.contains_key(user) && since(state.last_warning[user], now)
                    < WARNING_COOLDOWN,
            |user: i64| state.last_warning[user],
        ),
    }
}

/// Whether a request is let through: both the user and the chat are below their limits.
pub open spec fn is_allowed(state: LimiterView, user_id: i64, chat_id: i64, now: u64) -> bool {
    let state = pruned(state, now);
    queue_of(state.users, user_id).len() < USER_LIMIT && queue_of(state.chats, chat_id).len()
        < CHAT_LIMIT
}

/// What a limiter remembers after a request: one that was let through counts from now on.
pub open spec fn after_request(
    state: LimiterView,
    user_id: i64,
    chat_id: i64,
    now: u64,
) -> LimiterView {
    let kept = pruned(state, now);
    if is_allowed(state, user_id, chat_id, now) {
        LimiterView {
            users: kept.users.insert(user_id, queue_of(kept.users, user_id).push(now)),
            chats: kept.chats.insert(chat_id, queue_of(kept.chats, chat_id).push(now)),
            last_warning: kept.last_warning,
        }
    } else {
        kept
    }
}

/// Whether a user may be warned: not within the cooldown of the last warning.
pub open spec fn may_warn(state: LimiterView, user_id: i64, now: u64) -> bool {
    !(state.last_warning.contains_key(user_id) && since(state.last_warning[user_id], now)
        < WARNING_COOLDOWN)
}

/// What a limiter remembers after it was asked for a warning: one that was granted counts from now
/// on.
pub open spec fn after_warning(state: LimiterView, user_id: i64, now: u64) -> LimiterView {
    if may_warn(state, user_id, now) {
        LimiterView { last_warning: state.last_warning.insert(user_id, now), ..state }
    } else {
        state
    }
}

fn elapsed(then: u64, now: u64) -> (r: u64)
    ensures
        r == since(then, now),
{
    if then <= now {
        now - then
    } else {
        0
    }
}

fn drop_old(queue: &mut VecDeque<u64>, now: u64)
    ensures
        final(queue)@ == recent(old(queue)@, now),
{
    while queue.len() > 0 && elapsed(queue[0], now) >= WINDOW
        invariant
            recent(queue@, now) == recent(old(queue)@, now),
        decreases queue@.len(),
    {
        assert(queue@.subrange(1, queue@.len() as int) =~= queue@.skip(1));
        queue.pop_front();
    }
}

fn keys_of<V>(map: &HashMap<i64, V>) -> (r: Vec<i64>)
    ensures
        r@.no_duplicates(),
        forall|key: i64| #[trigger] r@.contains(key) <==> map@.contains_key(key),
{
    let mut r: Vec<i64> = Vec::new();
    let ghost keys = vstd::std_specs::iter::IteratorSpec::remaining(
        &vstd::std_specs::hash::spec_keys_iter(map),
    );
    for key in it: map.keys()
        invariant
            it.seq() == keys,
            r@ == keys.unref().take(it.index()),
    {
        r.push(*key);
        assert(r@ =~= keys.unref().take(it.index() + 1));
    }
    proof {
        assert(r@ =~= keys.unref());
        assert forall|i: int, j: int| 0 <= i < r@.len() && 0 <= j < r@.len() && i != j implies r@[i]
            != r@[j] by {
            assert(keys[i] != keys[j]);
        }
        assert forall|key: i64| #[trigger] r@.contains(key) <==> map@.contains_key(key) by {
            assert(keys.unref().to_set().contains(key) <==> map@.dom().contains(key));
        }
    }
    r
}

fn prune_queues(queues: &mut HashMap<i64, VecDeque<u64>>, now: u64)
    ensures
        queues_view(final(queues)@) == recent_queues(queues_view(old(queues)@), now),
{
    let ghost before = queues_view(queues@);
    let keys = keys_of(queues);
    let mut i: usize = 0;
    while i < keys.len()
        invariant
            i <= keys@.len(),
            keys@.no_duplicates(),
            forall|key: i64| #[trigger] keys@.contains(key) <==> before.contains_key(key),
            forall|key: i64| #[trigger]
                queues@.contains_key(key) <==> if keys@.take(i as int).contains(key) {
                    recent(before[key], now).len() > 0
                } else {
                    before.contains_key(key)
                },
            forall|key: i64| #[trigger]
                queues@.contains_key(key) ==> queues@[key]@ == if keys@.take(i as int).contains(
                    key,
                ) {
                    recent(before[key], now)
                } else {
                    before[key]
                },
        decreases keys@.len() - i,
    {
        let key = keys[i];
        let ghost done = keys@.take(i as int);
        let ghost kept = queues@;
        proof {
            assert(keys@.contains(key));
            assert(!done.contains(key));
            assert(keys@.take(i + 1) =~= done.push(key));
            assert forall|k: i64| #[trigger] keys@.take(i + 1).contains(k) <==> (done.contains(k)
                || k == key) by {
                if done.contains(k) {
                    let j = choose|j: int| 0 <= j < done.len() && done[j] == k;
                    assert(keys@.take(i + 1)[j] == k);
                }
                assert(keys@.take(i + 1)[i as int] == key);
            }
        }
        let removed = queues.remove(&key);
        match removed {
            Some(queue) => {
                let mut queue = queue;
                drop_old(&mut queue, now);
                if queue.len() > 0 {
                    queues.insert(key, queue);
                }
            },
            None => {},
        }
        i += 1;
    }
    proof {
        assert(keys@.take(i as int) =~= keys@);
        assert(queues_view(queues@) =~= recent_queues(before, now));
    }
}

fn prune_warnings(warnings: &mut HashMap<i64, u64>, now: u64)
    ensures
        forall|user: i64| #[trigger]
            final(warnings)@.contains_key(user) <==> (old(warnings)@.contains_key(user) && since(
                old(warnings)@[user],
                now,
            ) < WARNING_COOLDOWN),
        forall|user: i64| #[trigger]
            final(warnings)@.contains_key(user) ==> final(warnings)@[user] == old(warnings)@[user],
{
    let ghost before = warnings@;
    let keys = keys_of(warnings);
    let mut i: usize = 0;
    while i < keys.len()
        invariant
            i <= keys@.len(),
            keys@.no_duplicates(),
            before == old(warnings)@,
            forall|user: i64| #[trigger] keys@.contains(user) <==> before.contains_key(user),
            forall|user: i64| #[trigger]
                warnings@.contains_key(user) <==> (before.contains_key(user) && (
                !keys@.take(i as int).contains(user) || since(before[user], now)
                    < WARNING_COOLDOWN)),
            forall|user: i64| #[trigger]
                warnings@.contains_key(user) ==> warnings@[user] == before[user],
        decreases keys@.len() - i,
    {
        let user = keys[i];
        let ghost done = keys@.take(i as int);
        proof {
            assert(keys@.contains(user));
            assert(!done.contains(user));
            assert(keys@.take(i + 1) =~= done.push(user));
            assert forall|k: i64| #[trigger] keys@.take(i + 1).contains(k) <==> (done.contains(k)
                || k == user) by {
                if done.contains(k) {
                    let j = choose|j: int| 0 <= j < done.len() && done[j] == k;
                    assert(keys@.take(i + 1)[j] == k);
                }
                assert(keys@.take(i + 1)[i as int] == user);
            }
        }
        let old_enough = match warnings.get(&user) {
            Some(last) => elapsed(*last, now) >= WARNING_COOLDOWN,
            None => false,
        };
        if old_enough {
            warnings.remove(&user);
        }
        i += 1;
    }
    assert(keys@.take(i as int) =~= keys@);
}

fn queue_len(queues: &HashMap<i64, VecDeque<u64>>, key: i64) -> (r: usize)
    ensures
        r == queue_of(queues_view(queues@), key).len(),
{
    match queues.get(&key) {
        Some(queue) => queue.len(),
        None => 0,
    }
}

fn push_time(queues: &mut HashMap<i64, VecDeque<u64>>, key: i64, now: u64)
    ensures
        queues_view(final(queues)@) == queues_view(old(queues)@).insert(
            key,
            queue_of(queues_view(old(queues)@), key).push(now),
        ),
{
    let ghost before = queues_view(queues@);
    let found = queues.remove(&key);
    let mut queue = match found {
        Some(queue) => queue,
        None => VecDeque::new(),
    };
    assert(queue@ =~= queue_of(before, key));
    queue.push_back(now);
    queues.insert(key, queue);
    assert(queues_view(queues@) =~= before.insert(key, queue_of(before, key).push(now)));
}

impl Default for RateLimiter {
    /// A limiter that remembers nothing.
    fn default() -> (r: RateLimiter)
        ensures
            r@ == empty_limiter(),
    {
        let r = RateLimiter {
            users: HashMap::new(),
            chats: HashMap::new(),
            last_warning: HashMap::new(),
        };
        assert(r@ =~= empty_limiter());
        r
    }
}

/// A limiter that remembers nothing.
pub open spec fn empty_limiter() -> LimiterView {
    LimiterView { users: Map::empty(), chats: Map::empty(), last_warning: Map::empty() }
}

impl RateLimiter {
    fn prune(&mut self, now: u64)
        ensures
            final(self)@ == pruned(old(self)@, now),
    {
        prune_queues(&mut self.users, now);
        prune_queues(&mut self.chats, now);
        prune_warnings(&mut self.last_warning, now);
        assert(self@.last_warning =~= pruned(old(self)@, now).last_warning);
    }

    /// Whether a request of `user_id` in `chat_id` at `now` is let through.
    pub fn allow(&mut self, user_id: i64, chat_id: i64, now: u64) -> (r: bool)
        ensures
            r == is_allowed(old(self)@, user_id, chat_id, now),
            final(self)@ == after_request(old(self)@, user_id, chat_id, now),
    {
        self.prune(now);
        if queue_len(&self.users, user_id) >= USER_LIMIT || queue_len(&self.chats, chat_id)
            >= CHAT_LIMIT {
            return false;
        }
        push_time(&mut self.users, user_id, now);
        push_time(&mut self.chats, chat_id, now);
        true
    }

    /// Return true at most once per user during the warning cooldown.
    pub fn should_warn(&mut self, user_id: i64, now: u64) -> (r: bool)
        ensures
            r == may_warn(old(self)@, user_id, now),
            final(self)@ == after_warning(old(self)@, user_id, now),
    {
        let warned = match self.last_warning.get(&user_id) {
            Some(last) => elapsed(*last, now) < WARNING_COOLDOWN,
            None => false,
        };
        if warned {
            return false;
        }
        self.last_warning.insert(user_id, now);
        true
    }
}

/// What is asked of a limiter at some time: to let a request through, or to grant a warning.
pub enum Call {
    Request { user_id: i64, chat_id: i64, now: u64 },
    Warning { user_id: i64, now: u64 },
}

/// When a call is made.
pub open spec fn time_of(call: Call) -> u64 {
    match call {
        Call::Request { user_id, chat_id, now } => now,
        Call::Warning { user_id, now } => now,
    }
}

/// What a limiter remembers after a call.
pub open spec fn after_call(state: LimiterView, call: Call) -> LimiterView {
    match call {
        Call::Request { user_id, chat_id, now } => after_request(state, user_id, chat_id, now),
        Call::Warning { user_id, now } => after_warning(state, user_id, now),
    }
}

/// What a limiter remembers after more calls.
pub open spec fn after_more_calls(state: LimiterView, calls: Seq<Call>) -> LimiterView
    decreases calls.len(),
{
    if calls.len() == 0 {
        state
    } else {
        after_call(after_more_calls(state, calls.drop_last()), calls.last())
    }
}

/// What a limiter that starts empty remembers after a series of calls.
pub open spec fn after_calls(calls: Seq<Call>) -> LimiterView {
    after_more_calls(empty_limiter(), calls)
}

/// Whether call `i` of a series is granted.
pub open spec fn was_granted(calls: Seq<Call>, i: int) -> bool {
    let state = after_calls(calls.take(i));
    match calls[i] {
        Call::Request { user_id, chat_id, now } => is_allowed(state, user_id, chat_id, now),
        Call::Warning { user_id, now } => may_warn(state, user_id, now),
    }
}

/// Whether the clock never runs backwards during a series of calls.
pub open spec fn clock_runs_on(calls: Seq<Call>) -> bool {
    forall|i: int, j: int|
        0 <= i <= j < calls.len() ==> time_of(#[trigger] calls[i]) <= time_of(#[trigger] calls[j])
}

/// What a limit looks at: the user of a request, or its chat.
#[derive(Clone, Copy, PartialEq, Eq, Structural)]
pub enum Subject {
    User(i64),
    Chat(i64),
}

/// Whether a call is a request of the subject's.
pub open spec fn concerns(subject: Subject, call: Call) -> bool {
    match call {
        Call::Request { user_id, chat_id, now } => match subject {
            Subject::User(id) => user_id == id,
            Subject::Chat(id) => chat_id == id,
        },
        Call::Warning { user_id, now } => false,
    }
}

/// Whether a call asks for a warning of the user.
pub open spec fn warns(user_id: i64, call: Call) -> bool {
    match call {
        Call::Request { user_id: user, chat_id, now } => false,
        Call::Warning { user_id: user, now } => user == user_id,
    }
}

/// The limit of a subject.
pub open spec fn limit_of(subject: Subject) -> int {
    match subject {
        Subject::User(_) => USER_LIMIT as int,
        Subject::Chat(_) => CHAT_LIMIT as int,
    }
}

/// The times that a limiter remembers of a subject.
pub open spec fn times_of(state: LimiterView, subject: Subject) -> Seq<u64> {
    match subject {
        Subject::User(id) => queue_of(state.users, id),
        Subject::Chat(id) => queue_of(state.chats, id),
    }
}

/// The times of the subject's requests, among the first `n` calls, that were let through.
pub open spec fn allowed_times(calls: Seq<Call>, subject: Subject, n: int) -> Seq<u64>
    decreases n,
{
    if n <= 0 {
        seq![]
    } else {
        let before = allowed_times(calls, subject, n - 1);
        if concerns(subject, calls[n - 1]) && was_granted(calls, n - 1) {
            before.push(time_of(calls[n - 1]))
        } else {
            before
        }
    }
}

/// How many of the subject's requests, among the first `n` calls, were let through less than a
/// window before `now`.
pub open spec fn allowed_lately(calls: Seq<Call>, subject: Subject, n: int, now: u64) -> int
    decreases n,
{
    if n <= 0 {
        0
    } else {
        allowed_lately(calls, subject, n - 1, now) + if concerns(subject, calls[n - 1])
            && was_granted(calls, n - 1) && now - time_of(calls[n - 1]) < WINDOW {
            1int
        } else {
            0
        }
    }
}

/// Whether the user was granted a warning, among the first `n` calls, less than a cooldown before
/// `now`.
pub open spec fn warned_lately(calls: Seq<Call>, user_id: i64, n: int, now: u64) -> bool {
    exists|k: int|
        0 <= k < n && warns(user_id, #[trigger] calls[k]) && was_granted(calls, k) && now - time_of(
            calls[k],
        ) < WARNING_COOLDOWN
}

proof fn lemma_recent_later(times: Seq<u64>, then: u64, now: u64)
    requires
        then <= now,
    ensures
        recent(recent(times, then), now) == recent(times, now),
    decreases times.len(),
{
    if times.len() > 0 && since(times[0], then) >= WINDOW {
        lemma_recent_later(times.skip(1), then, now);
    }
}

proof fn lemma_recent_pushed(times: Seq<u64>, time: u64, now: u64)
    requires
        since(time, now) < WINDOW,
    ensures
        recent(times.push(time), now) == recent(times, now).push(time),
        recent(times, now).len() <= times.len(),
    decreases times.len(),
{
    if times.len() > 0 {
        assert(times.push(time)[0] == times[0]);
        if since(times[0], now) >= WINDOW {
            assert(times.push(time).skip(1) =~= times.skip(1).push(time));
            lemma_recent_pushed(times.skip(1), time, now);
        }
    } else {
        assert(times.push(time)[0] == time);
    }
}

proof fn lemma_recent_shrinks(times: Seq<u64>, now: u64)
    ensures
        recent(times, now).len() <= times.len(),
    decreases times.len(),
{
    if times.len() > 0 && since(times[0], now) >= WINDOW {
        lemma_recent_shrinks(times.skip(1), now);
    }
}

proof fn lemma_none_recent(times: Seq<u64>, now: u64)
    requires
        forall|i: int| 0 <= i < times.len() ==> since(#[trigger] times[i], now) >= WINDOW,
    ensures
        recent(times, now).len() == 0,
    decreases times.len(),
{
    if times.len() > 0 {
        let rest = times.skip(1);
        assert(since(times[0], now) >= WINDOW);
        assert forall|i: int| 0 <= i < rest.len() implies since(#[trigger] rest[i], now)
            >= WINDOW by {
            assert(rest[i] == times[i + 1]);
        }
        lemma_none_recent(rest, now);
    }
}

proof fn lemma_recent_keeps_tail(times: Seq<u64>, from: int, now: u64)
    requires
        0 <= from <= times.len(),
        forall|i: int| from <= i < times.len() ==> since(#[trigger] times[i], now) < WINDOW,
    ensures
        recent(times, now).len() >= times.len() - from,
    decreases times.len(),
{
    if times.len() > 0 && since(times[0], now) >= WINDOW {
        let rest = times.skip(1);
        assert(from > 0);
        assert forall|i: int| from - 1 <= i < rest.len() implies since(#[trigger] rest[i], now)
            < WINDOW by {
            assert(rest[i] == times[i + 1]);
        }
        lemma_recent_keeps_tail(rest, from - 1, now);
    }
}

/// A limiter counts what was let through, whenever it is asked next.
proof fn lemma_remembered(calls: Seq<Call>, subject: Subject, n: int, now: u64)
    requires
        clock_runs_on(calls),
        0 <= n <= calls.len(),
        n > 0 ==> time_of(calls[n - 1]) <= now,
    ensures
        recent(times_of(after_calls(calls.take(n)), subject), now) == recent(
            allowed_times(calls, subject, n),
            now,
        ),
        times_of(after_calls(calls.take(n)), subject).len() <= limit_of(subject),
    decreases n,
{
    if n == 0 {
        assert(calls.take(0) =~= Seq::empty());
    } else {
        let call = calls[n - 1];
        let time = time_of(call);
        let earlier = after_calls(calls.take(n - 1));
        let held = times_of(earlier, subject);
        let times = allowed_times(calls, subject, n - 1);
        assert(calls.take(n).drop_last() =~= calls.take(n - 1));
        assert(calls.take(n).last() == call);
        if n > 1 {
            assert(time_of(calls[n - 2]) <= time_of(calls[n - 1]));
        }
        lemma_remembered(calls, subject, n - 1, now);
        lemma_remembered(calls, subject, n - 1, time);
        if let Call::Request { user_id, chat_id, now: at } = call {
            assert(times_of(pruned(earlier, time), subject) =~= recent(held, time));
            lemma_recent_shrinks(held, time);
            lemma_recent_later(held, time, now);
            lemma_recent_later(times.push(time), time, now);
            lemma_recent_pushed(times, time, time);
        }
    }
}

/// What was let through was let through by the time of the last call.
proof fn lemma_times_past(calls: Seq<Call>, subject: Subject, n: int)
    requires
        clock_runs_on(calls),
        0 < n <= calls.len(),
    ensures
        forall|k: int|
            0 <= k < allowed_times(calls, subject, n).len() ==> #[trigger] allowed_times(
                calls,
                subject,
                n,
            )[k] <= time_of(calls[n - 1]),
    decreases n,
{
    if n > 1 {
        lemma_times_past(calls, subject, n - 1);
        assert(time_of(calls[n - 2]) <= time_of(calls[n - 1]));
    }
    let before = allowed_times(calls, subject, n - 1);
    let times = allowed_times(calls, subject, n);
    assert forall|k: int| 0 <= k < times.len() implies #[trigger] times[k] <= time_of(
        calls[n - 1],
    ) by {
        if k < before.len() {
            assert(times[k] == before[k]);
        }
    }
}

proof fn lemma_recent_counts(calls: Seq<Call>, subject: Subject, n: int, now: u64)
    requires
        clock_runs_on(calls),
        0 <= n <= calls.len(),
        n > 0 ==> time_of(calls[n - 1]) <= now,
    ensures
        recent(allowed_times(calls, subject, n), now).len() == allowed_lately(
            calls,
            subject,
            n,
            now,
        ),
    decreases n,
{
    if n > 0 {
        let time = time_of(calls[n - 1]);
        let times = allowed_times(calls, subject, n - 1);
        if n > 1 {
            assert(time_of(calls[n - 2]) <= time_of(calls[n - 1]));
        }
        lemma_recent_counts(calls, subject, n - 1, now);
        if now - time < WINDOW {
            lemma_recent_pushed(times, time, now);
        } else {
            if n > 1 {
                lemma_times_past(calls, subject, n - 1);
            }
            assert forall|k: int| 0 <= k < times.len() implies since(#[trigger] times[k], now)
                >= WINDOW by {
                assert(times[k] <= time_of(calls[n - 2]));
            }
            lemma_none_recent(times, now);
            lemma_none_recent(times.push(time), now);
        }
    }
}

/// The sliding window: a request is let through if and only if fewer requests than the limit were
/// let through less than a window before it, both of its user and in its chat.
pub proof fn allowed_if_and_only_if_below_the_limits(calls: Seq<Call>, i: int)
    requires
        clock_runs_on(calls),
        0 <= i < calls.len(),
    ensures
        calls[i] matches Call::Request { user_id, chat_id, now } ==> (was_granted(calls, i) <==> (
        allowed_lately(calls, Subject::User(user_id), i, now) < USER_LIMIT && allowed_lately(
            calls,
            Subject::Chat(chat_id),
            i,
            now,
        ) < CHAT_LIMIT)),
{
    if let Call::Request { user_id, chat_id, now } = calls[i] {
        if i > 0 {
            assert(time_of(calls[i - 1]) <= time_of(calls[i]));
        }
        let state = after_calls(calls.take(i));
        let user = Subject::User(user_id);
        let chat = Subject::Chat(chat_id);
        lemma_remembered(calls, user, i, now);
        lemma_remembered(calls, chat, i, now);
        lemma_recent_counts(calls, user, i, now);
        lemma_recent_counts(calls, chat, i, now);
        assert(times_of(pruned(state, now), user) =~= recent(times_of(state, user), now));
        assert(times_of(pruned(state, now), chat) =~= recent(times_of(state, chat), now));
    }
}

/// How many of the subject's requests from call `i` up to, but not with, call `j` were let through.
pub open spec fn allowed_between(calls: Seq<Call>, subject: Subject, i: int, j: int) -> int {
    allowed_times(calls, subject, j).len() - allowed_times(calls, subject, i).len()
}

proof fn lemma_times_between(calls: Seq<Call>, subject: Subject, i: int, j: int)
    requires
        clock_runs_on(calls),
        0 <= i < calls.len(),
        i <= j <= calls.len(),
    ensures
        allowed_times(calls, subject, i).len() <= allowed_times(calls, subject, j).len(),
        forall|k: int|
            allowed_times(calls, subject, i).len() <= k < allowed_times(calls, subject, j).len()
                ==> time_of(calls[i]) <= #[trigger] allowed_times(calls, subject, j)[k]
                && allowed_times(calls, subject, j)[k] <= time_of(calls[j - 1]),
    decreases j,
{
    if i < j {
        lemma_times_between(calls, subject, i, j - 1);
        assert(time_of(calls[i]) <= time_of(calls[j - 1]));
        if j - 1 > i {
            assert(time_of(calls[j - 2]) <= time_of(calls[j - 1]));
        }
    }
}

/// Of a subject's requests that lie less than a window apart, no more than its limit are let
/// through.
pub proof fn no_window_exceeds_the_limit(calls: Seq<Call>, subject: Subject, i: int, j: int)
    requires
        clock_runs_on(calls),
        0 <= i <= j < calls.len(),
        time_of(calls[j]) - time_of(calls[i]) < WINDOW,
    ensures
        allowed_between(calls, subject, i, j + 1) <= limit_of(subject),
{
    let now = time_of(calls[j]);
    let times = allowed_times(calls, subject, j + 1);
    let from = allowed_times(calls, subject, i).len() as int;
    lemma_remembered(calls, subject, j + 1, now);
    lemma_recent_shrinks(times_of(after_calls(calls.take(j + 1)), subject), now);
    lemma_times_between(calls, subject, i, j + 1);
    assert forall|k: int| from <= k < times.len() implies since(#[trigger] times[k], now)
        < WINDOW by {
        assert(time_of(calls[i]) <= times[k]);
    }
    lemma_recent_keeps_tail(times, from, now);
}

/// A limiter knows of the warnings that still last, whenever it is asked next.
proof fn lemma_warned(calls: Seq<Call>, user_id: i64, n: int, now: u64)
    requires
        clock_runs_on(calls),
        0 <= n <= calls.len(),
        n > 0 ==> time_of(calls[n - 1]) <= now,
    ensures
        may_warn(after_calls(calls.take(n)), user_id, now) <==> !warned_lately(
            calls,
            user_id,
            n,
            now,
        ),
    decreases n,
{
    if n == 0 {
        assert(calls.take(0) =~= Seq::empty());
    } else {
        let call = calls[n - 1];
        let earlier = after_calls(calls.take(n - 1));
        assert(calls.take(n).drop_last() =~= calls.take(n - 1));
        assert(calls.take(n).last() == call);
        if n > 1 {
            assert(time_of(calls[n - 2]) <= time_of(calls[n - 1]));
        }
        lemma_warned(calls, user_id, n - 1, now);
        let granted = warns(user_id, call) && was_granted(calls, n - 1);
        if warned_lately(calls, user_id, n - 1, now) {
            let k = choose|k: int|
                0 <= k < n - 1 && warns(user_id, #[trigger] calls[k]) && was_granted(calls, k)
                    && now - time_of(calls[k]) < WARNING_COOLDOWN;
            assert(time_of(calls[k]) <= time_of(calls[n - 1]));
            assert(warned_lately(calls, user_id, n, now));
        }
        if granted && now - time_of(call) < WARNING_COOLDOWN {
            assert(warned_lately(calls, user_id, n, now));
        }
        if warned_lately(calls, user_id, n, now) && !warned_lately(calls, user_id, n - 1, now) {
            assert(granted && now - time_of(call) < WARNING_COOLDOWN);
        }
    }
}

/// A warning is granted if and only if the user was granted none less than a cooldown before.
pub proof fn warned_if_and_only_if_not_warned_lately(calls: Seq<Call>, i: int)
    requires
        clock_runs_on(calls),
        0 <= i < calls.len(),
    ensures
        calls[i] matches Call::Warning { user_id, now } ==> (was_granted(calls, i)
            <==> !warned_lately(calls, user_id, i, now)),
{
    if let Call::Warning { user_id, now } = calls[i] {
        if i > 0 {
            assert(time_of(calls[i - 1]) <= time_of(calls[i]));
        }
        lemma_warned(calls, user_id, i, now);
    }
}

/// A user who has just been warned is not warned again during the cooldown, whatever calls come
/// between.
pub proof fn warning_is_given_once_per_cooldown(
    state: LimiterView,
    user_id: i64,
    then: u64,
    calls: Seq<Call>,
    now: u64,
)
    requires
        may_warn(state, user_id, then),
        then <= now < then + WARNING_COOLDOWN,
        forall|i: int| 0 <= i < calls.len() ==> time_of(#[trigger] calls[i]) <= now,
    ensures
        !may_warn(
            after_more_calls(after_warning(state, user_id, then), calls),
            user_id,
            now,
        ),
{
    lemma_warning_stays(after_warning(state, user_id, then), user_id, then, calls, now);
}

proof fn lemma_warning_stays(
    state: LimiterView,
    user_id: i64,
    then: u64,
    calls: Seq<Call>,
    now: u64,
)
    requires
        state.last_warning.contains_key(user_id),
        state.last_warning[user_id] == then,
        then <= now < then + WARNING_COOLDOWN,
        forall|i: int| 0 <= i < calls.len() ==> time_of(#[trigger] calls[i]) <= now,
    ensures
        after_more_calls(state, calls).last_warning.contains_key(user_id),
        after_more_calls(state, calls).last_warning[user_id] == then,
    decreases calls.len(),
{
    if calls.len() > 0 {
        let rest = calls.drop_last();
        assert forall|i: int| 0 <= i < rest.len() implies time_of(#[trigger] rest[i]) <= now by {
            assert(rest[i] == calls[i]);
        }
        lemma_warning_stays(state, user_id, then, rest, now);
        assert(time_of(calls.last()) <= now);
    }
}

} // verus!
