//! How the logs of a room come together in the cache. Of every message id the first
//! message that comes in counts, so that it does not matter how often a log is read;
//! what was not known before is handed out oldest first.

use crate::message::{Message, MessageView};
use crate::sql::{self, IndexRow, MessageRow, Statement};
use crate::store::{self, Store, StoreError};
use crate::text;
use vstd::multiset::Multiset;
use vstd::prelude::*;

verus! {

/// What was found at the place of a log.
pub enum ChatLog {
    /// A log that could not be read.
    Unreadable(String),
    /// The records of a log: the message of each, or nothing where a record is none.
    Lines(Vec<Option<Message>>),
}

/// The messages among the records of a log.
pub open spec fn parsed(lines: Seq<Option<Message>>) -> Seq<MessageView>
    decreases lines.len(),
{
    if lines.len() == 0 {
        Seq::empty()
    } else {
        match lines.last() {
            Some(m) => parsed(lines.drop_last()).push(m@),
            None => parsed(lines.drop_last()),
        }
    }
}

/// The messages of the logs up to the first one that could not be read.
pub open spec fn readable(logs: Seq<ChatLog>) -> Seq<MessageView>
    decreases logs.len(),
{
    if logs.len() == 0 {
        Seq::empty()
    } else {
        match logs[0] {
            ChatLog::Unreadable(_) => Seq::empty(),
            ChatLog::Lines(lines) => parsed(lines@) + readable(logs.skip(1)),
        }
    }
}

/// Why the first log that could not be read could not, if there is one.
pub open spec fn first_unreadable(logs: Seq<ChatLog>) -> Option<Seq<char>>
    decreases logs.len(),
{
    if logs.len() == 0 {
        None
    } else {
        match logs[0] {
            ChatLog::Unreadable(e) => Some(e@),
            ChatLog::Lines(_) => first_unreadable(logs.skip(1)),
        }
    }
}

/// The stored messages after `ms` came in: of each id the first that came counts.
pub open spec fn merged(
    rows: Map<Seq<char>, MessageRow>,
    ms: Seq<MessageView>,
) -> Map<Seq<char>, MessageRow>
    decreases ms.len(),
{
    if ms.len() == 0 {
        rows
    } else {
        let before = merged(rows, ms.drop_last());
        let m = ms.last();
        if before.contains_key(m.id) {
            before
        } else {
            before.insert(m.id, store::row_of(m))
        }
    }
}

/// Those of `ms` that are new, in the order in which they came.
pub open spec fn fresh_of(
    rows: Map<Seq<char>, MessageRow>,
    ms: Seq<MessageView>,
) -> Seq<MessageView>
    decreases ms.len(),
{
    if ms.len() == 0 {
        Seq::empty()
    } else {
        let before = fresh_of(rows, ms.drop_last());
        if merged(rows, ms.drop_last()).contains_key(ms.last().id) {
            before
        } else {
            before.push(ms.last())
        }
    }
}

/// The index after the messages of `fresh` were indexed.
pub open spec fn indexed(
    index: Multiset<IndexRow>,
    fresh: Seq<MessageView>,
) -> Multiset<IndexRow>
    decreases fresh.len(),
{
    if fresh.len() == 0 {
        index
    } else {
        indexed(index, fresh.drop_last()).insert(store::index_row_of(fresh.last()))
    }
}

/// Whether `after` is `before` with all of `ms` stored and indexed.
pub open spec fn absorbs(before: Store, after: Store, ms: Seq<MessageView>) -> bool {
    &&& after.messages() == merged(before.messages(), ms)
    &&& after.index() == indexed(before.index(), fresh_of(before.messages(), ms))
}

/// What the database is handed for `ms`, where `new` is what it answered for each.
pub open spec fn history(ms: Seq<MessageView>, new: Seq<bool>) -> Seq<Statement>
    decreases ms.len(),
{
    if ms.len() == 0 {
        Seq::empty()
    } else {
        history(ms.drop_last(), new.drop_last()) + store::statements_for(
            ms.last(),
            new.last(),
        )
    }
}

/// Those of `ms` for which the database answered that they were new.
pub open spec fn picked(ms: Seq<MessageView>, new: Seq<bool>) -> Seq<MessageView>
    decreases ms.len(),
{
    if ms.len() == 0 {
        Seq::empty()
    } else if new.last() {
        picked(ms.drop_last(), new.drop_last()).push(ms.last())
    } else {
        picked(ms.drop_last(), new.drop_last())
    }
}

/// Whether `t` is what a database answers for messages of which `new` are new: each of
/// these is stored and indexed, the others change nothing.
pub open spec fn fits(new: Seq<bool>, t: Seq<Option<usize>>) -> bool
    decreases new.len(),
{
    if new.len() == 0 {
        t.len() == 0
    } else if new.last() {
        &&& t.len() >= 2
        &&& t[t.len() - 2] is Some && t[t.len() - 2]->0 > 0
        &&& t.last() is Some
        &&& fits(new.drop_last(), t.take(t.len() - 2))
    } else {
        &&& t.len() >= 1
        &&& t.last() == Some(0usize)
        &&& fits(new.drop_last(), t.drop_last())
    }
}

/// Whether all of `ms` was handed to the database, which took it and answered that `new`
/// was new. Where nothing else uses the database, that is what was unknown, and all of it
/// is stored and indexed.
pub open spec fn hands_over(
    before: Store,
    after: Store,
    ms: Seq<MessageView>,
    new: Seq<bool>,
) -> bool {
    &&& new.len() == ms.len()
    &&& store::follows(before, after)
    &&& store::took_all(before, after)
    &&& fits(new, store::answers(before, after))
    &&& after.handed() == before.handed() + history(ms, new)
    &&& before.owned() ==> absorbs(before, after, ms)
    &&& before.owned() ==> picked(ms, new) == fresh_of(before.messages(), ms)
}

/// Whether all of `ms` was handed to the database, which took it, and `news` is what it
/// answered to be new, oldest first.
pub open spec fn hands_out(
    before: Store,
    after: Store,
    ms: Seq<MessageView>,
    news: Seq<MessageView>,
) -> bool {
    exists|new: Seq<bool>| #[trigger]
        hands_over(before, after, ms, new) && news == oldest_first(picked(ms, new))
}

/// Whether the database took the first of `ms`, answering `new`, which left the cache as
/// `here`, and then failed at the next one.
pub open spec fn stops_at(
    before: Store,
    here: Store,
    after: Store,
    ms: Seq<MessageView>,
    new: Seq<bool>,
) -> bool {
    let k = new.len() as int;
    &&& k < ms.len()
    &&& hands_over(before, here, ms.take(k), new)
    &&& store::upserts(here, after, ms[k])
    &&& store::failed_last(here, after)
}

/// Whether the database took the first of `ms`, answering `new`, and then failed at the
/// next one: at storing it or, where it was new, at indexing it.
pub open spec fn fails_at(
    before: Store,
    after: Store,
    ms: Seq<MessageView>,
    new: Seq<bool>,
) -> bool {
    &&& store::follows(before, after)
    &&& store::failed_last(before, after)
    &&& exists|here: Store| stops_at(before, here, after, ms, new)
}

proof fn lemma_answers_chain(before: Store, here: Store, after: Store)
    requires
        store::follows(before, here),
        store::follows(here, after),
    ensures
        store::follows(before, after),
        store::answers(before, after) == store::answers(before, here) + store::answers(
            here,
            after,
        ),
{
    assert(before.told() == here.told().take(before.told().len() as int));
    assert(here.told() == after.told().take(here.told().len() as int));
    assert(before.told() == after.told().take(before.told().len() as int));
    assert(store::answers(before, after) == store::answers(before, here) + store::answers(
        here,
        after,
    ));
}

proof fn lemma_fits_concat(
    a: Seq<bool>,
    ta: Seq<Option<usize>>,
    b: Seq<bool>,
    tb: Seq<Option<usize>>,
)
    requires
        fits(a, ta),
        fits(b, tb),
    ensures
        fits(a + b, ta + tb),
    decreases b.len(),
{
    let t = ta + tb;
    if b.len() == 0 {
        assert(a + b == a);
        assert(t == ta);
    } else {
        assert((a + b).drop_last() == a + b.drop_last());
        assert((a + b).last() == b.last());
        if b.last() {
            assert(t.take(t.len() - 2) == ta + tb.take(tb.len() - 2));
            assert(t[t.len() - 2] == tb[tb.len() - 2]);
            lemma_fits_concat(a, ta, b.drop_last(), tb.take(tb.len() - 2));
        } else {
            assert(t.drop_last() == ta + tb.drop_last());
            lemma_fits_concat(a, ta, b.drop_last(), tb.drop_last());
        }
    }
}

/// What the database was handed for one message that it took.
proof fn lemma_hands_over_one(before: Store, after: Store, m: MessageView, new: bool)
    requires
        store::upserts(before, after, m),
        store::took_all(before, after),
        store::upserted(store::answers(before, after)) == Some(new),
    ensures
        hands_over(before, after, seq![m], seq![new]),
        picked(seq![m], seq![new]) == if new {
            seq![m]
        } else {
            Seq::<MessageView>::empty()
        },
{
    let t = store::answers(before, after);
    let none = Seq::<bool>::empty();
    let no_one = Seq::<MessageView>::empty();
    assert(seq![new].drop_last() == none);
    assert(seq![m].drop_last() == no_one);
    assert(fits(none, Seq::<Option<usize>>::empty()));
    if new {
        assert(t.take(t.len() - 2) == Seq::<Option<usize>>::empty());
    } else {
        assert(t[0] == Some(0usize));
        assert(t.drop_last() == Seq::<Option<usize>>::empty());
    }
    assert(fits(seq![new], t));
    assert(picked(no_one, none) == no_one);
    assert(no_one.push(m) == seq![m]);
    assert(history(no_one, none) == Seq::<Statement>::empty());
    assert(history(seq![m], seq![new]) == store::statements_for(m, new));
    if before.owned() {
        let rows = before.messages();
        assert(fresh_of(rows, no_one) == no_one);
        assert(merged(rows, no_one) == rows);
        assert(indexed(before.index(), no_one) == before.index());
        assert(no_one.push(m).drop_last() == no_one);
        if new {
            assert(fresh_of(rows, seq![m]) == no_one.push(m));
        } else {
            assert(fresh_of(rows, seq![m]) == no_one);
        }
        assert(picked(seq![m], seq![new]) == fresh_of(rows, seq![m]));
    }
}

proof fn lemma_history_concat(
    a: Seq<MessageView>,
    na: Seq<bool>,
    b: Seq<MessageView>,
    nb: Seq<bool>,
)
    requires
        na.len() == a.len(),
        nb.len() == b.len(),
    ensures
        history(a + b, na + nb) == history(a, na) + history(b, nb),
        picked(a + b, na + nb) == picked(a, na) + picked(b, nb),
    decreases b.len(),
{
    if b.len() == 0 {
        assert(a + b == a);
        assert(na + nb == na);
        assert(history(a, na) + history(b, nb) == history(a, na));
        assert(picked(a, na) + picked(b, nb) == picked(a, na));
    } else {
        assert((a + b).drop_last() == a + b.drop_last());
        assert((na + nb).drop_last() == na + nb.drop_last());
        assert((a + b).last() == b.last());
        assert((na + nb).last() == nb.last());
        lemma_history_concat(a, na, b.drop_last(), nb.drop_last());
        assert(history(a + b, na + nb) == history(a, na) + history(b, nb));
        assert(picked(a + b, na + nb) == picked(a, na) + picked(b, nb));
    }
}

/// What is handed over one after the other is handed over together.
pub proof fn lemma_hands_over_chain(
    before: Store,
    here: Store,
    after: Store,
    a: Seq<MessageView>,
    na: Seq<bool>,
    b: Seq<MessageView>,
    nb: Seq<bool>,
)
    requires
        hands_over(before, here, a, na),
        hands_over(here, after, b, nb),
    ensures
        hands_over(before, after, a + b, na + nb),
        picked(a + b, na + nb) == picked(a, na) + picked(b, nb),
{
    lemma_history_concat(a, na, b, nb);
    lemma_answers_chain(before, here, after);
    lemma_fits_concat(na, store::answers(before, here), nb, store::answers(here, after));
    assert(before.handed() + (history(a, na) + history(b, nb)) == (before.handed() + history(
        a,
        na,
    )) + history(b, nb));
    let t = store::answers(before, after);
    let first = store::answers(before, here);
    assert forall|i: int| 0 <= i < t.len() implies #[trigger] t[i] is Some by {
        if i < first.len() {
            assert(t[i] == first[i]);
        } else {
            assert(t[i] == store::answers(here, after)[i - first.len()]);
        }
    }
    if before.owned() {
        lemma_absorbs_chain(before, here, after, a, b);
    }
}

/// A failure behind what was handed over is a failure of it all, whatever else was to
/// come.
pub proof fn lemma_fails_at_chain(
    before: Store,
    here: Store,
    after: Store,
    a: Seq<MessageView>,
    na: Seq<bool>,
    b: Seq<MessageView>,
    nb: Seq<bool>,
    c: Seq<MessageView>,
)
    requires
        hands_over(before, here, a, na),
        fails_at(here, after, b, nb),
    ensures
        fails_at(before, after, a + (b + c), na + nb),
{
    let there = choose|there: Store| stops_at(here, there, after, b, nb);
    let k = nb.len() as int;
    let all = a + (b + c);
    let new = na + nb;
    lemma_hands_over_chain(before, here, there, a, na, b.take(k), nb);
    assert(all.take(new.len() as int) == a + b.take(k));
    assert(all[new.len() as int] == b[k]);
    lemma_answers_chain(before, there, after);
    assert(stops_at(before, there, after, all, new));
}

/// What is absorbed one after the other is absorbed together.
pub proof fn lemma_absorbs_chain(
    before: Store,
    here: Store,
    after: Store,
    a: Seq<MessageView>,
    b: Seq<MessageView>,
)
    requires
        absorbs(before, here, a),
        absorbs(here, after, b),
    ensures
        absorbs(before, after, a + b),
        fresh_of(before.messages(), a + b) == fresh_of(before.messages(), a) + fresh_of(
            here.messages(),
            b,
        ),
{
    lemma_merged_concat(before.messages(), a, b);
    lemma_fresh_concat(before.messages(), a, b);
    lemma_indexed_concat(
        before.index(),
        fresh_of(before.messages(), a),
        fresh_of(merged(before.messages(), a), b),
    );
}

/// What was answered to be new is among what was handed over.
pub proof fn lemma_picked_came_in(ms: Seq<MessageView>, new: Seq<bool>)
    ensures
        forall|m: MessageView| #[trigger] picked(ms, new).contains(m) ==> ms.contains(m),
    decreases ms.len(),
{
    if ms.len() > 0 {
        let less = ms.drop_last();
        lemma_picked_came_in(less, new.drop_last());
        assert(ms == less.push(ms.last()));
        assert forall|m: MessageView| #[trigger] picked(ms, new).contains(m) implies ms.contains(
            m,
        ) by {
            lemma_push_contains(less, ms.last(), m);
            lemma_push_contains(picked(less, new.drop_last()), ms.last(), m);
        }
    }
}

/// Whether the message `a` is older than the message `b`.
pub open spec fn older(a: MessageView, b: MessageView) -> bool {
    sql::older(a.ts, a.id, b.ts, b.id)
}

/// Whether no message of `s` is older than one before it.
pub open spec fn by_age(s: Seq<MessageView>) -> bool {
    forall|i: int, j: int| 0 <= i < j < s.len() ==> !older(#[trigger] s[j], #[trigger] s[i])
}

/// `s` with `m` put behind the last message that is not newer.
pub open spec fn put_by_age(s: Seq<MessageView>, m: MessageView) -> Seq<MessageView>
    decreases s.len(),
{
    if s.len() == 0 || !older(m, s.last()) {
        s.push(m)
    } else {
        put_by_age(s.drop_last(), m).push(s.last())
    }
}

/// The messages of `s`, oldest first; those of the same time and id in the order in
/// which they came.
pub open spec fn oldest_first(s: Seq<MessageView>) -> Seq<MessageView>
    decreases s.len(),
{
    if s.len() == 0 {
        Seq::empty()
    } else {
        put_by_age(oldest_first(s.drop_last()), s.last())
    }
}

/// Whether the message `a` is older than the message `b`.
fn is_older(a: &Message, b: &Message) -> (r: bool)
    ensures
        r == older(a@, b@),
{
    a.ts < b.ts || (a.ts == b.ts && text::is_before(a.id.as_str(), b.id.as_str()))
}

proof fn lemma_put_by_age(s: Seq<MessageView>, m: MessageView, p: int)
    requires
        0 <= p <= s.len(),
        p > 0 ==> !older(m, s[p - 1]),
        forall|j: int| p <= j < s.len() ==> older(m, #[trigger] s[j]),
    ensures
        put_by_age(s, m) == s.take(p).push(m) + s.skip(p),
    decreases s.len(),
{
    if p == s.len() {
        assert(s.take(p) == s);
        assert(s.take(p).push(m) + s.skip(p) == s.push(m));
    } else {
        assert(older(m, s.last()));
        let t = s.drop_last();
        lemma_put_by_age(t, m, p);
        assert(t.take(p) == s.take(p));
        assert((t.take(p).push(m) + t.skip(p)).push(s.last()) == s.take(p).push(m) + s.skip(p));
    }
}

/// The messages, oldest first.
pub fn sort_oldest_first(ms: &Vec<Message>) -> (r: Vec<Message>)
    ensures
        store::message_views(r@) == oldest_first(store::message_views(ms@)),
{
    let mut r: Vec<Message> = Vec::new();
    let mut i: usize = 0;
    let ghost all = store::message_views(ms@);
    assert(store::message_views(r@) == oldest_first(all.take(0)));
    while i < ms.len()
        invariant
            i <= ms.len(),
            r.len() == i,
            all == store::message_views(ms@),
            store::message_views(r@) == oldest_first(all.take(i as int)),
        decreases ms.len() - i,
    {
        let ghost before = store::message_views(r@);
        let mut p: usize = r.len();
        while p > 0 && is_older(&ms[i], &r[p - 1])
            invariant
                p <= r.len(),
                i < ms.len(),
                before == store::message_views(r@),
                forall|j: int| p <= j < r.len() ==> older(ms@[i as int]@, #[trigger] before[j]),
            decreases p,
        {
            assert(before[p - 1] == r@[p - 1]@);
            p -= 1;
        }
        proof {
            if p > 0 {
                assert(before[p - 1] == r@[p - 1]@);
            }
            lemma_put_by_age(before, ms@[i as int]@, p as int);
            assert(all.take(i + 1).drop_last() == all.take(i as int));
            assert(all.take(i + 1).last() == ms@[i as int]@);
        }
        r.insert(p, ms[i].clone());
        assert(store::message_views(r@) == before.take(p as int).push(ms@[i as int]@) + before.skip(
            p as int,
        ));
        i += 1;
    }
    assert(all.take(ms.len() as int) == all);
    r
}

/// What follows from what came of storing a message: one that was new joins `fresh`, and
/// a failure ends the matter.
pub fn collect(
    fresh: &mut Vec<Message>,
    m: &Message,
    outcome: Result<bool, StoreError>,
) -> (r: Result<(), StoreError>)
    ensures
        match outcome {
            Ok(new) => r is Ok && store::message_views(final(fresh)@) == if new {
                store::message_views(old(fresh)@).push(m@)
            } else {
                store::message_views(old(fresh)@)
            },
            Err(e) => r == Err::<(), StoreError>(e) && final(fresh)@ == old(fresh)@,
        },
{
    match outcome {
        Ok(new) => {
            if new {
                fresh.push(m.clone());
                assert(store::message_views(fresh@) == store::message_views(old(fresh)@).push(m@));
            }
            Ok(())
        },
        Err(e) => Err(e),
    }
}

/// Stores and indexes the messages among `lines`, and appends those that are new to
/// `fresh`, till the database fails.
pub(crate) fn absorb(
    store: &mut Store,
    lines: &Vec<Option<Message>>,
    fresh: &mut Vec<Message>,
) -> (r: Result<(), StoreError>)
    ensures
        match r {
            Ok(()) => exists|new: Seq<bool>| #[trigger]
                hands_over(*old(store), *final(store), parsed(lines@), new)
                    && store::message_views(final(fresh)@) == store::message_views(old(fresh)@)
                    + picked(parsed(lines@), new),
            Err(_) => exists|new: Seq<bool>| #[trigger]
                fails_at(*old(store), *final(store), parsed(lines@), new)
                    && store::message_views(final(fresh)@) == store::message_views(old(fresh)@)
                    + picked(parsed(lines@).take(new.len() as int), new),
        },
{
    let ghost before = *store;
    let ghost seen = store::message_views(fresh@);
    let ghost mut done: Seq<MessageView> = Seq::empty();
    let ghost mut flags: Seq<bool> = Seq::empty();
    let mut i: usize = 0;
    proof {
        lemma_hands_over_nothing(before);
        assert(seen + picked(done, flags) == seen);
        assert(parsed(lines@.take(0)) == done);
    }
    while i < lines.len()
        invariant
            i <= lines.len(),
            before == *old(store),
            seen == store::message_views(old(fresh)@),
            done == parsed(lines@.take(i as int)),
            hands_over(before, *store, done, flags),
            store::message_views(fresh@) == seen + picked(done, flags),
        decreases lines.len() - i,
    {
        proof {
            assert(lines@.take(i + 1).drop_last() == lines@.take(i as int));
            assert(lines@.take(i + 1).last() == lines@[i as int]);
        }
        match &lines[i] {
            None => {},
            Some(m) => {
                let ghost here = *store;
                let outcome = store.upsert_message(m);
                let ghost told = store::upserted(store::answers(here, *store));
                proof {
                    assert(done.push(m@) == done + seq![m@]);
                    if outcome is Ok {
                        let new = outcome->Ok_0;
                        lemma_hands_over_one(here, *store, m@, new);
                        lemma_hands_over_chain(
                            before,
                            here,
                            *store,
                            done,
                            flags,
                            seq![m@],
                            seq![new],
                        );
                        assert(seen + (picked(done, flags) + picked(seq![m@], seq![new])) == (seen
                            + picked(done, flags)) + picked(seq![m@], seq![new]));
                    } else {
                        lemma_parsed_prefix(lines@, i + 1);
                        let all = parsed(lines@);
                        let k = done.len() as int;
                        assert(done.push(m@) == all.take(k + 1));
                        assert(all.take(k) == done);
                        assert(all[k] == all.take(k + 1)[k]);
                        lemma_answers_chain(before, here, *store);
                        assert(stops_at(before, here, *store, all, flags));
                        assert(fails_at(before, *store, all, flags));
                    }
                }
                match collect(fresh, m, outcome) {
                    Ok(()) => {},
                    Err(e) => return Err(e),
                }
                proof {
                    let new = told->0;
                    assert((seen + picked(done, flags)).push(m@) == (seen + picked(done, flags))
                        + seq![m@]);
                    assert((seen + picked(done, flags)) + Seq::<MessageView>::empty() == seen
                        + picked(done, flags));
                    done = done + seq![m@];
                    flags = flags + seq![new];
                }
            },
        }
        i += 1;
    }
    assert(lines@.take(lines.len() as int) == lines@);
    Ok(())
}

/// Where nothing was to be handed over, nothing was.
pub proof fn lemma_hands_over_nothing(s: Store)
    ensures
        hands_over(s, s, Seq::empty(), Seq::empty()),
{
    let no_one = Seq::<MessageView>::empty();
    assert(store::answers(s, s) == Seq::<Option<usize>>::empty());
    assert(s.told() == s.told().take(s.told().len() as int));
    assert(s.handed() + history(no_one, Seq::empty()) == s.handed());
    assert(picked(no_one, Seq::empty()) == fresh_of(s.messages(), no_one));
}

proof fn lemma_push_contains(s: Seq<MessageView>, m: MessageView, x: MessageView)
    ensures
        s.push(m).contains(x) <==> s.contains(x) || x == m,
{
    let t = s.push(m);
    if s.contains(x) {
        let i = choose|i: int| 0 <= i < s.len() && s[i] == x;
        assert(t[i] == x);
    }
    if x == m {
        assert(t[s.len() as int] == x);
    }
    if t.contains(x) {
        let i = choose|i: int| 0 <= i < t.len() && t[i] == x;
        if i < s.len() {
            assert(s[i] == x);
        }
    }
}

proof fn lemma_parsed_prefix(lines: Seq<Option<Message>>, n: int)
    requires
        0 <= n <= lines.len(),
    ensures
        parsed(lines.take(n)).len() <= parsed(lines).len(),
        parsed(lines.take(n)) == parsed(lines).take(parsed(lines.take(n)).len() as int),
    decreases lines.len(),
{
    if n == lines.len() {
        assert(lines.take(n) == lines);
        assert(parsed(lines).take(parsed(lines).len() as int) == parsed(lines));
    } else {
        lemma_parsed_prefix(lines.drop_last(), n);
        assert(lines.drop_last().take(n) == lines.take(n));
        let k = parsed(lines.take(n)).len() as int;
        assert(parsed(lines).take(k) == parsed(lines.drop_last()).take(k));
    }
}

proof fn lemma_merged_concat(
    rows: Map<Seq<char>, MessageRow>,
    a: Seq<MessageView>,
    b: Seq<MessageView>,
)
    ensures
        merged(rows, a + b) == merged(merged(rows, a), b),
    decreases b.len(),
{
    if b.len() == 0 {
        assert(a + b == a);
    } else {
        assert((a + b).drop_last() == a + b.drop_last());
        assert((a + b).last() == b.last());
        lemma_merged_concat(rows, a, b.drop_last());
    }
}

proof fn lemma_fresh_concat(
    rows: Map<Seq<char>, MessageRow>,
    a: Seq<MessageView>,
    b: Seq<MessageView>,
)
    ensures
        fresh_of(rows, a + b) == fresh_of(rows, a) + fresh_of(merged(rows, a), b),
    decreases b.len(),
{
    if b.len() == 0 {
        assert(a + b == a);
        assert(fresh_of(rows, a) + fresh_of(merged(rows, a), b) == fresh_of(rows, a));
    } else {
        assert((a + b).drop_last() == a + b.drop_last());
        assert((a + b).last() == b.last());
        lemma_fresh_concat(rows, a, b.drop_last());
        lemma_merged_concat(rows, a, b.drop_last());
        assert(fresh_of(rows, a + b) == fresh_of(rows, a) + fresh_of(merged(rows, a), b));
    }
}

proof fn lemma_indexed_concat(
    index: Multiset<IndexRow>,
    a: Seq<MessageView>,
    b: Seq<MessageView>,
)
    ensures
        indexed(index, a + b) == indexed(indexed(index, a), b),
    decreases b.len(),
{
    if b.len() == 0 {
        assert(a + b == a);
    } else {
        assert((a + b).drop_last() == a + b.drop_last());
        assert((a + b).last() == b.last());
        lemma_indexed_concat(index, a, b.drop_last());
    }
}

/// `older` is a strict order whose ties are messages of the same time and id: of
/// three messages, if neither `a` is newer than `b` nor `b` newer than `c`, then `a`
/// is not newer than `c`.
proof fn lemma_not_newer_chain(a: MessageView, b: MessageView, c: MessageView)
    requires
        !older(b, a),
        !older(c, b),
    ensures
        !older(c, a),
{
    text::lemma_precedes(a.id, b.id);
    text::lemma_precedes(b.id, c.id);
    text::lemma_precedes(a.id, c.id);
    if older(c, a) {
        if a.ts == b.ts && b.ts == c.ts && a.id != b.id && b.id != c.id {
            text::lemma_precedes_chain(a.id, b.id, c.id);
        }
    }
}

proof fn lemma_put_keeps_order(s: Seq<MessageView>, m: MessageView)
    requires
        by_age(s),
    ensures
        by_age(put_by_age(s, m)),
        put_by_age(s, m).len() == s.len() + 1,
        forall|x: MessageView| #[trigger]
            put_by_age(s, m).contains(x) <==> s.contains(x) || x == m,
        put_by_age(s, m).to_multiset() == s.to_multiset().insert(m),
    decreases s.len(),
{
    broadcast use vstd::seq_lib::group_to_multiset_ensures;

    let r = put_by_age(s, m);
    text::lemma_precedes(m.id, m.id);
    if s.len() == 0 || !older(m, s.last()) {
        assert forall|i: int, j: int| 0 <= i < j < r.len() implies !older(
            #[trigger] r[j],
            #[trigger] r[i],
        ) by {
            if j == s.len() && i < s.len() - 1 {
                assert(!older(s.last(), s[i]));
                lemma_not_newer_chain(s[i], s.last(), m);
            }
        }
        assert forall|x: MessageView| #[trigger] r.contains(x) <==> s.contains(x) || x == m by {
            lemma_push_contains(s, m, x);
        }
    } else {
        let t = s.drop_last();
        lemma_put_keeps_order(t, m);
        let u = put_by_age(t, m);
        assert(r == u.push(s.last()));
        assert(s == t.push(s.last()));
        assert forall|x: MessageView| #[trigger] r.contains(x) <==> s.contains(x) || x == m by {
            lemma_push_contains(u, s.last(), x);
            lemma_push_contains(t, s.last(), x);
        }
        assert forall|i: int, j: int| 0 <= i < j < r.len() implies !older(
            #[trigger] r[j],
            #[trigger] r[i],
        ) by {
            if j == u.len() {
                assert(r[i] == u[i]);
                assert(u.contains(u[i]));
                if u[i] == m {
                    text::lemma_precedes(m.id, s.last().id);
                } else {
                    assert(t.contains(u[i]));
                    let k = choose|k: int| 0 <= k < t.len() && t[k] == u[i];
                    assert(s[k] == u[i]);
                    assert(!older(s[s.len() - 1], s[k]));
                }
            } else {
                assert(r[i] == u[i] && r[j] == u[j]);
            }
        }
        assert(r.to_multiset() == s.to_multiset().insert(m)) by {
            assert(r.to_multiset() == u.to_multiset().insert(s.last()));
            assert(s.to_multiset() == t.to_multiset().insert(s.last()));
            assert(t.to_multiset().insert(m).insert(s.last()) =~= t.to_multiset().insert(
                s.last(),
            ).insert(m));
        }
    }
}

/// What is handed out oldest first is in order, and is just what there was: nothing
/// is lost and nothing is doubled.
pub proof fn oldest_first_loses_nothing(s: Seq<MessageView>)
    ensures
        by_age(oldest_first(s)),
        oldest_first(s).to_multiset() == s.to_multiset(),
        forall|x: MessageView| #[trigger] oldest_first(s).contains(x) <==> s.contains(x),
    decreases s.len(),
{
    broadcast use vstd::seq_lib::group_to_multiset_ensures;

    if s.len() > 0 {
        let t = s.drop_last();
        oldest_first_loses_nothing(t);
        lemma_put_keeps_order(oldest_first(t), s.last());
        assert(s == t.push(s.last()));
        assert forall|x: MessageView| #[trigger] oldest_first(s).contains(x) <==> s.contains(x) by {
            lemma_push_contains(t, s.last(), x);
        }
    }
}

/// Messages with ids of their own keep them when they are put in order.
pub proof fn lemma_distinct_ids_stay(s: Seq<MessageView>)
    requires
        forall|i: int, j: int|
            0 <= i < j < s.len() ==> (#[trigger] s[i]).id != (#[trigger] s[j]).id,
    ensures
        forall|i: int, j: int|
            0 <= i < j < oldest_first(s).len() ==> (#[trigger] oldest_first(s)[i]).id != (
            #[trigger] oldest_first(s)[j]).id,
{
    broadcast use vstd::seq_lib::group_to_multiset_ensures;
    broadcast use vstd::multiset::group_multiset_axioms;

    let r = oldest_first(s);
    oldest_first_loses_nothing(s);
    assert(s.no_duplicates());
    s.lemma_multiset_has_no_duplicates();
    assert forall|i: int, j: int| 0 <= i < j < r.len() implies (#[trigger] r[i]).id != (
    #[trigger] r[j]).id by {
        assert(r.contains(r[i]) && r.contains(r[j]));
        let a = choose|a: int| 0 <= a < s.len() && s[a] == r[i];
        let b = choose|b: int| 0 <= b < s.len() && s[b] == r[j];
        if r[i].id == r[j].id {
            assert(a == b);
            let rest = r.remove(j);
            assert(rest.to_multiset() == r.to_multiset().remove(r[j]));
            assert(s.to_multiset().contains(r[j]));
            assert(r.to_multiset().count(r[j]) == 1);
            assert(rest.to_multiset().count(r[j]) == 0);
            assert(rest[i] == r[j]);
            assert(rest.contains(r[j]));
        }
    }
}

/// What is known stays as it is; every message that comes in is known afterwards; and
/// nothing is known that was not there and did not come in.
pub proof fn merging_keeps_what_is_known(
    rows: Map<Seq<char>, MessageRow>,
    ms: Seq<MessageView>,
)
    ensures
        forall|id: Seq<char>| #[trigger]
            rows.contains_key(id) ==> merged(rows, ms).contains_key(id) && merged(rows, ms)[id]
                == rows[id],
        forall|i: int|
            0 <= i < ms.len() ==> merged(rows, ms).contains_key((#[trigger] ms[i]).id),
        forall|id: Seq<char>| #[trigger]
            merged(rows, ms).contains_key(id) && !rows.contains_key(id) ==> exists|i: int|
                0 <= i < ms.len() && (#[trigger] ms[i]).id == id && merged(rows, ms)[id]
                    == store::row_of(ms[i]),
    decreases ms.len(),
{
    if ms.len() > 0 {
        let less = ms.drop_last();
        merging_keeps_what_is_known(rows, less);
        assert forall|i: int| 0 <= i < ms.len() implies merged(rows, ms).contains_key(
            (#[trigger] ms[i]).id,
        ) by {
            if i < less.len() {
                assert(less[i] == ms[i]);
            }
        }
        assert forall|id: Seq<char>| #[trigger]
            merged(rows, ms).contains_key(id) && !rows.contains_key(id) implies exists|i: int|
            0 <= i < ms.len() && (#[trigger] ms[i]).id == id && merged(rows, ms)[id]
                == store::row_of(ms[i]) by {
            if merged(rows, less).contains_key(id) {
                let i = choose|i: int|
                    0 <= i < less.len() && (#[trigger] less[i]).id == id && merged(rows, less)[id]
                        == store::row_of(less[i]);
                assert(ms[i] == less[i]);
            } else {
                assert(ms[ms.len() - 1].id == id);
            }
        }
    }
}

/// News comes once: what is handed out as new was not known, is new only once, and
/// came in; and whatever came in and was not known is handed out.
pub proof fn news_comes_once(rows: Map<Seq<char>, MessageRow>, ms: Seq<MessageView>)
    ensures
        forall|i: int|
            0 <= i < fresh_of(rows, ms).len() ==> !rows.contains_key(
                (#[trigger] fresh_of(rows, ms)[i]).id,
            ) && ms.contains(fresh_of(rows, ms)[i]),
        forall|i: int, j: int|
            0 <= i < j < fresh_of(rows, ms).len() ==> (#[trigger] fresh_of(rows, ms)[i]).id != (
            #[trigger] fresh_of(rows, ms)[j]).id,
        forall|k: int|
            0 <= k < ms.len() && !rows.contains_key((#[trigger] ms[k]).id) ==> exists|i: int|
                0 <= i < fresh_of(rows, ms).len() && (#[trigger] fresh_of(rows, ms)[i]).id
                    == ms[k].id,
    decreases ms.len(),
{
    if ms.len() > 0 {
        let less = ms.drop_last();
        let m = ms.last();
        let before = fresh_of(rows, less);
        let after = fresh_of(rows, ms);
        news_comes_once(rows, less);
        merging_keeps_what_is_known(rows, less);
        assert forall|i: int| 0 <= i < after.len() implies !rows.contains_key(
            (#[trigger] after[i]).id,
        ) && ms.contains(after[i]) by {
            if i < before.len() {
                assert(after[i] == before[i]);
                let k = choose|k: int| 0 <= k < less.len() && less[k] == before[i];
                assert(ms[k] == after[i]);
            } else {
                assert(ms[ms.len() - 1] == m);
            }
        }
        assert forall|i: int, j: int| 0 <= i < j < after.len() implies (#[trigger] after[i]).id
            != (#[trigger] after[j]).id by {
            assert(after[i] == before[i]);
            if j < before.len() {
                assert(after[j] == before[j]);
            } else {
                let k = choose|k: int| 0 <= k < less.len() && less[k] == before[i];
                assert(merged(rows, less).contains_key(less[k].id));
            }
        }
        assert forall|k: int|
            0 <= k < ms.len() && !rows.contains_key((#[trigger] ms[k]).id) implies exists|i: int|
            0 <= i < after.len() && (#[trigger] after[i]).id == ms[k].id by {
            let id = ms[k].id;
            if k < less.len() {
                assert(less[k] == ms[k]);
                let i = choose|i: int| 0 <= i < before.len() && (#[trigger] before[i]).id == id;
                assert(after[i] == before[i]);
            } else if merged(rows, less).contains_key(id) {
                let n = choose|n: int| 0 <= n < less.len() && (#[trigger] less[n]).id == id;
                let i = choose|i: int|
                    0 <= i < before.len() && (#[trigger] before[i]).id == less[n].id;
                assert(after[i] == before[i]);
            } else {
                assert(after[before.len() as int] == m);
            }
        }
    }
}

/// Reading what is known already brings no news and changes nothing.
pub proof fn known_messages_are_no_news(
    rows: Map<Seq<char>, MessageRow>,
    again: Seq<MessageView>,
)
    requires
        forall|i: int| 0 <= i < again.len() ==> rows.contains_key((#[trigger] again[i]).id),
    ensures
        fresh_of(rows, again) == Seq::<MessageView>::empty(),
        merged(rows, again) == rows,
    decreases again.len(),
{
    if again.len() > 0 {
        let less = again.drop_last();
        assert forall|i: int| 0 <= i < less.len() implies rows.contains_key(
            (#[trigger] less[i]).id,
        ) by {
            assert(less[i] == again[i]);
        }
        known_messages_are_no_news(rows, less);
        assert(again[again.len() - 1] == again.last());
    }
}

/// Reading the same logs a second time brings no news and changes nothing.
pub proof fn second_reading_brings_nothing(
    rows: Map<Seq<char>, MessageRow>,
    ms: Seq<MessageView>,
)
    ensures
        fresh_of(merged(rows, ms), ms) == Seq::<MessageView>::empty(),
        merged(merged(rows, ms), ms) == merged(rows, ms),
{
    merging_keeps_what_is_known(rows, ms);
    known_messages_are_no_news(merged(rows, ms), ms);
}

/// A peer catches up with the room, in whatever order the logs are read and however
/// much of it was known before: where no two messages of the room share an id, and
/// every message of the room is known or comes in, the peer's cache holds just the
/// room. So two peers that have read all logs hold the same.
pub proof fn peer_catches_up(
    room: Map<Seq<char>, MessageRow>,
    rows: Map<Seq<char>, MessageRow>,
    ms: Seq<MessageView>,
)
    requires
        forall|id: Seq<char>| #[trigger]
            rows.contains_key(id) ==> room.contains_key(id) && room[id] == rows[id],
        forall|i: int|
            0 <= i < ms.len() ==> room.contains_key((#[trigger] ms[i]).id) && room[ms[i].id]
                == store::row_of(ms[i]),
        forall|id: Seq<char>| #[trigger]
            room.contains_key(id) ==> rows.contains_key(id) || exists|i: int|
                0 <= i < ms.len() && (#[trigger] ms[i]).id == id,
    ensures
        merged(rows, ms) == room,
{
    merging_keeps_what_is_known(rows, ms);
    let all = merged(rows, ms);
    assert forall|id: Seq<char>| all.contains_key(id) <==> room.contains_key(id) by {
        if room.contains_key(id) && !rows.contains_key(id) {
            let i = choose|i: int| 0 <= i < ms.len() && (#[trigger] ms[i]).id == id;
            assert(all.contains_key(ms[i].id));
        }
    }
    assert forall|id: Seq<char>| #[trigger] all.contains_key(id) implies all[id] == room[id] by {
        if !rows.contains_key(id) {
            let i = choose|i: int|
                0 <= i < ms.len() && (#[trigger] ms[i]).id == id && all[id] == store::row_of(
                    ms[i],
                );
            assert(room[ms[i].id] == store::row_of(ms[i]));
        }
    }
    assert(all =~= room);
}

/// However many messages come in, the index keeps just one row for each stored message.
pub proof fn merging_keeps_step(
    rows: Map<Seq<char>, MessageRow>,
    index: Multiset<IndexRow>,
    ms: Seq<MessageView>,
)
    requires
        store::in_step(rows, index),
    ensures
        store::in_step(merged(rows, ms), indexed(index, fresh_of(rows, ms))),
    decreases ms.len(),
{
    if ms.len() > 0 {
        let less = ms.drop_last();
        let m = ms.last();
        merging_keeps_step(rows, index, less);
        if !merged(rows, less).contains_key(m.id) {
            let before = fresh_of(rows, less);
            assert(before.push(m).drop_last() == before);
            store::new_message_keeps_step(merged(rows, less), indexed(index, before), m);
        }
    }
}

/// What one peer sends the other gets to see just once: where it was not known and no
/// other message has its id, it is among the news once, and not again when the logs are
/// read again.
pub proof fn sent_message_is_received_once(
    rows: Map<Seq<char>, MessageRow>,
    ms: Seq<MessageView>,
    m: MessageView,
)
    requires
        ms.contains(m),
        !rows.contains_key(m.id),
        forall|i: int| 0 <= i < ms.len() && (#[trigger] ms[i]).id == m.id ==> ms[i] == m,
    ensures
        oldest_first(fresh_of(rows, ms)).contains(m),
        fresh_of(rows, ms).to_multiset().count(m) == 1,
        oldest_first(fresh_of(rows, ms)).to_multiset().count(m) == 1,
        oldest_first(fresh_of(merged(rows, ms), ms)).len() == 0,
{
    broadcast use vstd::seq_lib::group_to_multiset_ensures;

    news_comes_once(rows, ms);
    second_reading_brings_nothing(rows, ms);
    let fresh = fresh_of(rows, ms);
    oldest_first_loses_nothing(fresh);
    let k = choose|k: int| 0 <= k < ms.len() && ms[k] == m;
    let i = choose|i: int| 0 <= i < fresh.len() && (#[trigger] fresh[i]).id == ms[k].id;
    assert(ms.contains(fresh[i]));
    assert(fresh[i] == m);
    assert(fresh.no_duplicates()) by {
        assert forall|a: int, b: int| 0 <= a < b < fresh.len() implies fresh[a] != fresh[b] by {
            assert(fresh[a].id != fresh[b].id);
        }
    }
    fresh.lemma_multiset_has_no_duplicates();
    assert(fresh.to_multiset().contains(m));
}

/// Whether the database answered each of `ms` by whether its id was unknown till then,
/// where `rows` was known before.
pub open spec fn answers_truly(
    rows: Map<Seq<char>, MessageRow>,
    ms: Seq<MessageView>,
    new: Seq<bool>,
) -> bool {
    &&& new.len() == ms.len()
    &&& forall|i: int|
        0 <= i < ms.len() ==> #[trigger] new[i] == !merged(rows, ms.take(i)).contains_key(ms[i].id)
}

/// Whichever database the cache is in, and whoever else uses it: where it answers each
/// message by whether its id was unknown, what is handed out is just the news.
pub proof fn true_answers_give_the_news(
    rows: Map<Seq<char>, MessageRow>,
    ms: Seq<MessageView>,
    new: Seq<bool>,
)
    requires
        answers_truly(rows, ms, new),
    ensures
        picked(ms, new) == fresh_of(rows, ms),
    decreases ms.len(),
{
    if ms.len() > 0 {
        let less = ms.drop_last();
        let told = new.drop_last();
        assert forall|i: int| 0 <= i < less.len() implies #[trigger] told[i] == !merged(
            rows,
            less.take(i),
        ).contains_key(less[i].id) by {
            assert(new[i] == told[i]);
            assert(less.take(i) == ms.take(i));
        }
        true_answers_give_the_news(rows, less, told);
        let k = ms.len() - 1;
        assert(new[k] == new.last());
        assert(ms.take(k) == less);
    }
}

proof fn lemma_parsed(lines: Seq<Option<Message>>, x: MessageView)
    ensures
        parsed(lines).contains(x) <==> exists|j: int|
            0 <= j < lines.len() && (#[trigger] lines[j]) is Some && lines[j]->0@ == x,
    decreases lines.len(),
{
    if lines.len() > 0 {
        let less = lines.drop_last();
        lemma_parsed(less, x);
        if lines.last() is Some {
            lemma_push_contains(parsed(less), lines.last()->0@, x);
        }
        if exists|j: int| 0 <= j < lines.len() && (#[trigger] lines[j]) is Some && lines[j]->0@ == x {
            let j = choose|j: int|
                0 <= j < lines.len() && (#[trigger] lines[j]) is Some && lines[j]->0@ == x;
            if j < less.len() {
                assert(less[j] is Some && less[j]->0@ == x);
            }
        }
        if parsed(lines).contains(x) {
            if parsed(less).contains(x) {
                let j = choose|j: int|
                    0 <= j < less.len() && (#[trigger] less[j]) is Some && less[j]->0@ == x;
                assert(lines[j] is Some && lines[j]->0@ == x);
            } else {
                assert(lines[lines.len() - 1] is Some);
            }
        }
    }
}

proof fn lemma_readable(logs: Seq<ChatLog>, x: MessageView)
    requires
        forall|i: int| 0 <= i < logs.len() ==> (#[trigger] logs[i]) is Lines,
    ensures
        readable(logs).contains(x) <==> exists|i: int|
            0 <= i < logs.len() && parsed((#[trigger] logs[i])->Lines_0@).contains(x),
    decreases logs.len(),
{
    if logs.len() > 0 {
        let rest = logs.skip(1);
        assert forall|i: int| 0 <= i < rest.len() implies (#[trigger] rest[i]) is Lines by {
            assert(rest[i] == logs[i + 1]);
        }
        lemma_readable(rest, x);
        let first = parsed(logs[0]->Lines_0@);
        let all = readable(logs);
        assert(logs[0] is Lines);
        assert(all == first + readable(rest));
        if all.contains(x) {
            let k = choose|k: int| 0 <= k < all.len() && all[k] == x;
            if k < first.len() {
                assert(first[k] == x);
                assert(parsed(logs[0]->Lines_0@).contains(x));
            } else {
                assert(readable(rest)[k - first.len()] == x);
                let i = choose|i: int|
                    0 <= i < rest.len() && parsed((#[trigger] rest[i])->Lines_0@).contains(x);
                assert(parsed(logs[i + 1]->Lines_0@).contains(x));
            }
        }
        if exists|i: int| 0 <= i < logs.len() && parsed((#[trigger] logs[i])->Lines_0@).contains(x) {
            let i = choose|i: int|
                0 <= i < logs.len() && parsed((#[trigger] logs[i])->Lines_0@).contains(x);
            if i == 0 {
                let k = choose|k: int| 0 <= k < first.len() && first[k] == x;
                assert(all[k] == x);
            } else {
                assert(parsed(rest[i - 1]->Lines_0@).contains(x));
                let k = choose|k: int| 0 <= k < readable(rest).len() && readable(rest)[k] == x;
                assert(all[first.len() + k] == x);
            }
        }
    }
}

/// Where no log is reported, every log was read.
pub proof fn lemma_all_read(logs: Seq<ChatLog>)
    requires
        first_unreadable(logs) is None,
    ensures
        forall|i: int| 0 <= i < logs.len() ==> (#[trigger] logs[i]) is Lines,
{
    lemma_first_unreadable(logs);
    assert forall|i: int| 0 <= i < logs.len() implies (#[trigger] logs[i]) is Lines by {
        if logs[i] is Unreadable {
            assert(first_unreadable(logs) is Some);
        }
    }
}

/// Where every log can be read, every message in every log comes in, and nothing else
/// does.
pub proof fn every_record_comes_in(logs: Seq<ChatLog>, x: MessageView)
    requires
        forall|i: int| 0 <= i < logs.len() ==> (#[trigger] logs[i]) is Lines,
    ensures
        first_unreadable(logs) is None,
        readable(logs).contains(x) <==> exists|i: int, j: int|
            0 <= i < logs.len() && 0 <= j < logs[i]->Lines_0@.len() && (
            #[trigger] logs[i]->Lines_0@[j]) is Some && logs[i]->Lines_0@[j]->0@ == x,
{
    lemma_readable(logs, x);
    lemma_first_unreadable(logs);
    if readable(logs).contains(x) {
        let i = choose|i: int|
            0 <= i < logs.len() && parsed((#[trigger] logs[i])->Lines_0@).contains(x);
        let lines = logs[i]->Lines_0@;
        lemma_parsed(lines, x);
        let j = choose|j: int|
            0 <= j < lines.len() && (#[trigger] lines[j]) is Some && lines[j]->0@ == x;
        assert(logs[i]->Lines_0@[j] is Some);
    }
    if exists|i: int, j: int|
        0 <= i < logs.len() && 0 <= j < logs[i]->Lines_0@.len() && (
        #[trigger] logs[i]->Lines_0@[j]) is Some && logs[i]->Lines_0@[j]->0@ == x {
        let (i, j) = choose|i: int, j: int|
            0 <= i < logs.len() && 0 <= j < logs[i]->Lines_0@.len() && (
            #[trigger] logs[i]->Lines_0@[j]) is Some && logs[i]->Lines_0@[j]->0@ == x;
        let lines = logs[i]->Lines_0@;
        assert(lines[j] is Some && lines[j]->0@ == x);
        lemma_parsed(lines, x);
        assert(parsed(logs[i]->Lines_0@).contains(x));
    }
}

proof fn lemma_first_unreadable(logs: Seq<ChatLog>)
    ensures
        first_unreadable(logs) is Some <==> exists|i: int|
            0 <= i < logs.len() && (#[trigger] logs[i]) is Unreadable,
    decreases logs.len(),
{
    if logs.len() > 0 {
        let rest = logs.skip(1);
        lemma_first_unreadable(rest);
        if logs[0] is Lines {
            if first_unreadable(rest) is Some {
                let i = choose|i: int| 0 <= i < rest.len() && (#[trigger] rest[i]) is Unreadable;
                assert(logs[i + 1] is Unreadable);
            }
            if exists|i: int| 0 <= i < logs.len() && (#[trigger] logs[i]) is Unreadable {
                let i = choose|i: int| 0 <= i < logs.len() && (#[trigger] logs[i]) is Unreadable;
                assert(rest[i - 1] is Unreadable);
            }
        }
    }
}

/// A log that cannot be read is reported just where there is one, and the first of them
/// is; what comes in is then what stands in the logs before it.
pub proof fn first_failure_to_read_is_reported(
    before: Seq<ChatLog>,
    after: Seq<ChatLog>,
    why: String,
)
    requires
        forall|i: int| 0 <= i < before.len() ==> (#[trigger] before[i]) is Lines,
    ensures
        first_unreadable(before + seq![ChatLog::Unreadable(why)] + after) == Some(why@),
        readable(before + seq![ChatLog::Unreadable(why)] + after) == readable(before),
    decreases before.len(),
{
    let all = before + seq![ChatLog::Unreadable(why)] + after;
    if before.len() == 0 {
        assert(all[0] == ChatLog::Unreadable(why));
    } else {
        let rest = before.skip(1);
        assert forall|i: int| 0 <= i < rest.len() implies (#[trigger] rest[i]) is Lines by {
            assert(rest[i] == before[i + 1]);
        }
        first_failure_to_read_is_reported(rest, after, why);
        assert(all.skip(1) =~= rest + seq![ChatLog::Unreadable(why)] + after);
        assert(all[0] == before[0]);
        assert(before[0] is Lines);
    }
}

/// What is put in order is just what there was, oldest first, and of the same second by
/// id: nothing is lost, nothing is doubled, and no message comes before an older one.
pub proof fn sorting_keeps_every_message(ms: &Vec<Message>, r: Vec<Message>)
    requires
        call_ensures(sort_oldest_first, (ms,), r),
    ensures
        store::message_views(r@).to_multiset() == store::message_views(ms@).to_multiset(),
        r@.len() == ms@.len(),
        forall|i: int, j: int|
            0 <= i < j < r@.len() ==> (#[trigger] r@[i]).ts <= (#[trigger] r@[j]).ts,
        forall|i: int, j: int|
            0 <= i < j < r@.len() && (#[trigger] r@[i]).ts == (#[trigger] r@[j]).ts
                ==> !text::precedes(r@[j].id@, r@[i].id@),
{
    broadcast use vstd::seq_lib::group_to_multiset_ensures;

    let views = store::message_views(ms@);
    let sorted = store::message_views(r@);
    oldest_first_loses_nothing(views);
    assert(sorted.to_multiset().len() == sorted.len());
    assert(views.to_multiset().len() == views.len());
    assert forall|i: int, j: int| 0 <= i < j < r@.len() implies !older(
        (#[trigger] r@[j])@,
        (#[trigger] r@[i])@,
    ) by {
        assert(sorted[i] == r@[i]@ && sorted[j] == r@[j]@);
    }
}

} // verus!
