//! The subagents of a thread: all loaded threads whose chain of parents leads to it.

use vstd::prelude::*;

use crate::order;
use crate::text;
use crate::thread_id;
use crate::thread_id::ThreadId;

verus! {

/// What the server says of a loaded thread.
#[derive(Debug)]
pub struct ThreadLoadedSummary {
    pub id: String,
    pub parent_thread_id: Option<String>,
    pub agent_nickname: Option<String>,
    pub agent_role: Option<String>,
}

/// A subagent of a thread.
#[derive(Debug)]
pub struct LoadedSubagentThread {
    pub thread_id: ThreadId,
    pub agent_nickname: Option<String>,
    pub agent_role: Option<String>,
}

/// The identifiers of threads, where they are valid.
pub open spec fn ids(summaries: Seq<ThreadLoadedSummary>) -> Seq<Option<u128>> {
    Seq::new(summaries.len(), |i: int| thread_id::uuid_value(summaries[i].id@))
}

/// The identifiers of threads' parents, where they have one and it is valid.
pub open spec fn parents(summaries: Seq<ThreadLoadedSummary>) -> Seq<Option<u128>> {
    Seq::new(
        summaries.len(),
        |i: int|
            match summaries[i].parent_thread_id {
                Some(p) => thread_id::uuid_value(p@),
                None => None,
            },
    )
}

/// Whether a summary counts: its thread has a valid identifier, and no later summary is of
/// the same thread.
pub open spec fn is_current(ids: Seq<Option<u128>>, i: int) -> bool {
    &&& 0 <= i < ids.len()
    &&& ids[i] is Some
    &&& forall|j: int| i < j < ids.len() ==> #[trigger] ids[j] != ids[i]
}

/// Whether `k + 1` steps from a thread to its parent lead to a thread.
pub open spec fn climbs_to(
    ids: Seq<Option<u128>>,
    parents: Seq<Option<u128>>,
    i: int,
    top: u128,
    k: nat,
) -> bool
    decreases k,
{
    is_current(ids, i) && if k == 0 {
        parents[i] == Some(top)
    } else {
        exists|j: int|
            #![trigger ids[j]]
            is_current(ids, j) && ids[j] == parents[i] && climbs_to(
                ids,
                parents,
                j,
                top,
                (k - 1) as nat,
            )
    }
}

/// Whether a thread is a subagent of another, directly or not, and not that thread itself.
pub open spec fn is_subagent(
    ids: Seq<Option<u128>>,
    parents: Seq<Option<u128>>,
    i: int,
    top: u128,
) -> bool {
    ids[i] != Some(top) && exists|k: nat| climbs_to(ids, parents, i, top, k)
}

/// How many of the flags are not set.
pub open spec fn unset(flags: Seq<bool>) -> nat
    decreases flags.len(),
{
    if flags.len() == 0 {
        0
    } else {
        unset(flags.drop_last()) + (if flags.last() {
            0nat
        } else {
            1nat
        })
    }
}

proof fn lemma_setting_a_flag(flags: Seq<bool>, i: int)
    requires
        0 <= i < flags.len(),
        !flags[i],
    ensures
        unset(flags.update(i, true)) + 1 == unset(flags),
    decreases flags.len(),
{
    let set = flags.update(i, true);
    if i == flags.len() - 1 {
        assert(set.drop_last() =~= flags.drop_last());
    } else {
        lemma_setting_a_flag(flags.drop_last(), i);
        assert(set.drop_last() =~= flags.drop_last().update(i, true));
    }
}

/// Whether a thread is the top or among those that were found.
pub open spec fn is_found(ids: Seq<Option<u128>>, found: Seq<bool>, top: u128, x: u128) -> bool {
    x == top || exists|j: int|
        #![trigger ids[j]]
        is_current(ids, j) && found[j] && ids[j] == Some(x)
}

/// Whether the children of every thread that was found and does not wait were found.
pub open spec fn is_closed(
    ids: Seq<Option<u128>>,
    parents: Seq<Option<u128>>,
    found: Seq<bool>,
    waiting: Seq<u128>,
    top: u128,
) -> bool {
    forall|i: int|
        #![trigger parents[i]]
        is_current(ids, i) && parents[i] is Some && is_found(ids, found, top, parents[i]->0)
            && !waiting.contains(parents[i]->0) ==> found[i] || ids[i] == Some(top)
}

proof fn lemma_all_found(
    ids: Seq<Option<u128>>,
    parents: Seq<Option<u128>>,
    found: Seq<bool>,
    top: u128,
    i: int,
    k: nat,
)
    requires
        ids.len() == parents.len() == found.len(),
        is_closed(ids, parents, found, Seq::empty(), top),
        climbs_to(ids, parents, i, top, k),
    ensures
        found[i] || ids[i] == Some(top),
    decreases k,
{
    assert(!Seq::<u128>::empty().contains(parents[i]->0));
    if k > 0 {
        let j = choose|j: int|
            #![trigger ids[j]]
            is_current(ids, j) && ids[j] == parents[i] && climbs_to(
                ids,
                parents,
                j,
                top,
                (k - 1) as nat,
            );
        lemma_all_found(ids, parents, found, top, j, (k - 1) as nat);
        assert(is_found(ids, found, top, parents[i]->0));
    }
}

fn read_ids(summaries: &[ThreadLoadedSummary]) -> (r: (Vec<Option<u128>>, Vec<Option<u128>>))
    ensures
        r.0@ == ids(summaries@),
        r.1@ == parents(summaries@),
{
    let mut own: Vec<Option<u128>> = Vec::new();
    let mut above: Vec<Option<u128>> = Vec::new();
    let mut i: usize = 0;
    while i < summaries.len()
        invariant
            i <= summaries.len(),
            own@ == ids(summaries@).take(i as int),
            above@ == parents(summaries@).take(i as int),
        decreases summaries.len() - i,
    {
        let id = match ThreadId::from_string(summaries[i].id.as_str()) {
            Some(id) => Some(id.value),
            None => None,
        };
        let parent = match &summaries[i].parent_thread_id {
            Some(p) => match ThreadId::from_string(p.as_str()) {
                Some(id) => Some(id.value),
                None => None,
            },
            None => None,
        };
        own.push(id);
        above.push(parent);
        assert(own@ =~= ids(summaries@).take(i + 1));
        assert(above@ =~= parents(summaries@).take(i + 1));
        i = i + 1;
    }
    assert(own@ =~= ids(summaries@));
    assert(above@ =~= parents(summaries@));
    (own, above)
}

fn counts(own: &Vec<Option<u128>>, i: usize) -> (r: bool)
    requires
        i < own.len(),
    ensures
        r == is_current(own@, i as int),
{
    if own[i].is_none() {
        return false;
    }
    let mut j: usize = i + 1;
    while j < own.len()
        invariant
            i < j <= own.len(),
            forall|k: int| i < k < j ==> #[trigger] own@[k] != own@[i as int],
        decreases own.len() - j,
    {
        if own[j] == own[i] {
            return false;
        }
        j = j + 1;
    }
    true
}

fn find_subagents(own: &Vec<Option<u128>>, above: &Vec<Option<u128>>, top: u128) -> (r: Vec<bool>)
    requires
        own@.len() == above@.len(),
    ensures
        r@.len() == own@.len(),
        forall|i: int|
            0 <= i < own@.len() ==> #[trigger] r@[i] == is_subagent(own@, above@, i, top),
{
    let n = own.len();
    let mut found: Vec<bool> = Vec::new();
    let mut i: usize = 0;
    while i < n
        invariant
            i <= n,
            found@.len() == i,
            forall|j: int| 0 <= j < i ==> !#[trigger] found@[j],
        decreases n - i,
    {
        found.push(false);
        i = i + 1;
    }
    let mut waiting: Vec<u128> = vec![top];
    assert(waiting@[0] == top);
    assert(is_closed(own@, above@, found@, waiting@, top)) by {
        assert forall|i: int|
            #![trigger above@[i]]
            is_current(own@, i) && above@[i] is Some && is_found(own@, found@, top, above@[i]->0)
                && !waiting@.contains(above@[i]->0) implies found@[i] || own@[i] == Some(top) by {
            assert(waiting@.contains(top));
        }
    }
    while waiting.len() > 0
        invariant
            n == own@.len() == above@.len() == found@.len(),
            forall|j: int|
                0 <= j < n && #[trigger] found@[j] ==> is_current(own@, j) && is_subagent(
                    own@,
                    above@,
                    j,
                    top,
                ),
            forall|w: int|
                0 <= w < waiting@.len() ==> is_found(own@, found@, top, #[trigger] waiting@[w]),
            is_closed(own@, above@, found@, waiting@, top),
        decreases unset(found@), waiting@.len(),
    {
        let ghost waiting0 = waiting@;
        let ghost found0 = found@;
        let ghost last = waiting@.len() - 1;
        assert(is_found(own@, found@, top, waiting@[last]));
        let parent = match waiting.pop() {
            Some(p) => p,
            None => {
                return found;
            },
        };
        assert(waiting0 =~= waiting@.push(parent));
        let mut i: usize = 0;
        while i < n
            invariant
                i <= n,
                n == own@.len() == above@.len() == found@.len(),
                is_found(own@, found@, top, parent),
                forall|j: int|
                    0 <= j < n && #[trigger] found@[j] ==> is_current(own@, j) && is_subagent(
                        own@,
                        above@,
                        j,
                        top,
                    ),
                forall|w: int|
                    0 <= w < waiting@.len() ==> is_found(own@, found@, top, #[trigger] waiting@[w]),
                is_closed(own@, above@, found@, waiting@.push(parent), top),
                forall|j: int|
                    0 <= j < i && is_current(own@, j) && #[trigger] above@[j] == Some(parent)
                        ==> found@[j] || own@[j] == Some(top),
                unset(found@) <= unset(found0),
                unset(found@) == unset(found0) ==> waiting@.len() == waiting0.len() - 1,
            decreases n - i,
        {
            if !found[i] && above[i] == Some(parent) && own[i] != Some(top) && counts(own, i) {
                if let Some(id) = own[i] {
                    let ghost found1 = found@;
                    let ghost waiting1 = waiting@;
                    proof {
                        lemma_setting_a_flag(found@, i as int);
                        lemma_child_is_subagent(own@, above@, found@, i as int, top, parent);
                    }
                    found.set(i, true);
                    waiting.push(id);
                    proof {
                        assert(found@ == found1.update(i as int, true));
                        assert(is_found(own@, found@, top, parent)) by {
                            lemma_still_found(own@, found1, found@, top, parent);
                        }
                        assert forall|w: int| 0 <= w < waiting@.len() implies is_found(
                            own@,
                            found@,
                            top,
                            #[trigger] waiting@[w],
                        ) by {
                            if w < waiting1.len() {
                                assert(waiting@[w] == waiting1[w]);
                                lemma_still_found(own@, found1, found@, top, waiting1[w]);
                            } else {
                                assert(own@[i as int] == Some(id));
                            }
                        }
                        assert(is_closed(own@, above@, found@, waiting@.push(parent), top)) by {
                            let wider = waiting@.push(parent);
                            assert(wider[waiting1.len() as int] == id);
                            assert forall|x: u128|
                                waiting1.push(parent).contains(
                                    x,
                                ) implies #[trigger] wider.contains(x) by {
                                let w = choose|w: int|
                                    0 <= w < waiting1.push(parent).len() && waiting1.push(
                                        parent,
                                    )[w] == x;
                                if w < waiting1.len() {
                                    assert(wider[w] == x);
                                } else {
                                    assert(wider[wider.len() - 1] == x);
                                }
                            }
                            lemma_stays_closed(
                                own@,
                                above@,
                                found1,
                                waiting1.push(parent),
                                waiting@.push(parent),
                                top,
                                i as int,
                            );
                        }
                    }
                }
            }
            i = i + 1;
        }
        assert(is_closed(own@, above@, found@, waiting@, top)) by {
            assert forall|i: int|
                #![trigger above@[i]]
                is_current(own@, i) && above@[i] is Some && is_found(
                    own@,
                    found@,
                    top,
                    above@[i]->0,
                ) && !waiting@.contains(above@[i]->0) implies found@[i] || own@[i] == Some(top) by {
                if above@[i]->0 != parent {
                    let wider = waiting@.push(parent);
                    if wider.contains(above@[i]->0) {
                        let w = choose|w: int| 0 <= w < wider.len() && wider[w] == above@[i]->0;
                        assert(waiting@[w] == above@[i]->0);
                    }
                }
            }
        }
    }
    proof {
        assert(waiting@ =~= Seq::<u128>::empty());
        assert forall|i: int| 0 <= i < n implies #[trigger] found@[i] == is_subagent(
            own@,
            above@,
            i,
            top,
        ) by {
            if is_subagent(own@, above@, i, top) {
                let k = choose|k: nat| climbs_to(own@, above@, i, top, k);
                lemma_all_found(own@, above@, found@, top, i, k);
            }
        }
    }
    found
}

proof fn lemma_child_is_subagent(
    ids: Seq<Option<u128>>,
    parents: Seq<Option<u128>>,
    found: Seq<bool>,
    i: int,
    top: u128,
    parent: u128,
)
    requires
        ids.len() == parents.len() == found.len(),
        is_current(ids, i),
        parents[i] == Some(parent),
        ids[i] != Some(top),
        is_found(ids, found, top, parent),
        forall|j: int|
            0 <= j < ids.len() && #[trigger] found[j] ==> is_current(ids, j) && is_subagent(
                ids,
                parents,
                j,
                top,
            ),
    ensures
        is_subagent(ids, parents, i, top),
{
    if parent == top {
        assert(climbs_to(ids, parents, i, top, 0));
    } else {
        let j = choose|j: int|
            #![trigger ids[j]]
            is_current(ids, j) && found[j] && ids[j] == Some(parent);
        let k = choose|k: nat| climbs_to(ids, parents, j, top, k);
        assert(ids[j] == parents[i]);
        assert(climbs_to(ids, parents, i, top, k + 1));
    }
}

proof fn lemma_still_found(
    ids: Seq<Option<u128>>,
    before: Seq<bool>,
    after: Seq<bool>,
    top: u128,
    x: u128,
)
    requires
        ids.len() == before.len() == after.len(),
        forall|j: int| 0 <= j < before.len() && #[trigger] before[j] ==> after[j],
        is_found(ids, before, top, x),
    ensures
        is_found(ids, after, top, x),
{
    if x != top {
        let j = choose|j: int|
            #![trigger ids[j]]
            is_current(ids, j) && before[j] && ids[j] == Some(x);
        assert(after[j]);
    }
}

proof fn lemma_stays_closed(
    ids: Seq<Option<u128>>,
    parents: Seq<Option<u128>>,
    found: Seq<bool>,
    waiting: Seq<u128>,
    more_waiting: Seq<u128>,
    top: u128,
    i: int,
)
    requires
        ids.len() == parents.len() == found.len(),
        is_current(ids, i),
        is_closed(ids, parents, found, waiting, top),
        more_waiting.contains(ids[i]->0),
        forall|x: u128| waiting.contains(x) ==> #[trigger] more_waiting.contains(x),
    ensures
        is_closed(ids, parents, found.update(i, true), more_waiting, top),
{
    let after = found.update(i, true);
    assert forall|c: int|
        #![trigger parents[c]]
        is_current(ids, c) && parents[c] is Some && is_found(ids, after, top, parents[c]->0)
            && !more_waiting.contains(parents[c]->0) implies after[c] || ids[c] == Some(top) by {
        let x = parents[c]->0;
        if x != top {
            let j = choose|j: int|
                #![trigger ids[j]]
                is_current(ids, j) && after[j] && ids[j] == Some(x);
            assert(j != i);
            assert(found[j]);
        }
        assert(is_found(ids, found, top, x));
        assert(found[c] || ids[c] == Some(top));
    }
}

/// Whether a subagent is the one that a summary describes.
pub open spec fn describes(summary: ThreadLoadedSummary, agent: LoadedSubagentThread) -> bool {
    &&& thread_id::uuid_value(summary.id@) == Some(agent.thread_id.value)
    &&& text::option_view(agent.agent_nickname) == text::option_view(summary.agent_nickname)
    &&& text::option_view(agent.agent_role) == text::option_view(summary.agent_role)
}

/// Whether a subagent is one of a thread's, as some summary describes it.
pub open spec fn is_described(
    summaries: Seq<ThreadLoadedSummary>,
    agent: LoadedSubagentThread,
    top: u128,
) -> bool {
    exists|i: int|
        0 <= i < summaries.len() && is_subagent(ids(summaries), parents(summaries), i, top)
            && describes(#[trigger] summaries[i], agent)
}

/// Whether a thread is among subagents as a summary describes it.
pub open spec fn is_listed(
    summary: ThreadLoadedSummary,
    agents: Seq<LoadedSubagentThread>,
) -> bool {
    exists|a: int| 0 <= a < agents.len() && describes(summary, #[trigger] agents[a])
}

/// The subagents of a thread, direct and indirect, in the order of their identifiers' texts.
/// The thread itself is never among them.
pub fn find_loaded_subagent_threads_for_primary(
    summaries: &[ThreadLoadedSummary],
    primary_thread_id: ThreadId,
) -> (r: Vec<LoadedSubagentThread>)
    ensures
        forall|a: int|
            0 <= a < r@.len() ==> is_described(
                summaries@,
                #[trigger] r@[a],
                primary_thread_id.value,
            ),
        forall|i: int|
            0 <= i < summaries@.len() && is_subagent(
                ids(summaries@),
                parents(summaries@),
                i,
                primary_thread_id.value,
            ) ==> is_listed(#[trigger] summaries@[i], r@),
        forall|a: int, b: int|
            0 <= a < b < r@.len() ==> order::comes_before(
                thread_id::uuid_text((#[trigger] r@[a]).thread_id.value),
                thread_id::uuid_text((#[trigger] r@[b]).thread_id.value),
            ),
{
    let (own, above) = read_ids(summaries);
    let top = primary_thread_id.value;
    let found = find_subagents(&own, &above, top);
    let mut positions: Vec<usize> = Vec::new();
    let mut keys: Vec<order::SortKey> = Vec::new();
    let mut i: usize = 0;
    while i < summaries.len()
        invariant
            i <= summaries.len(),
            own@ == ids(summaries@),
            above@ == parents(summaries@),
            found@.len() == own@.len(),
            forall|j: int|
                0 <= j < own@.len() ==> #[trigger] found@[j] == is_subagent(
                    own@,
                    above@,
                    j,
                    top,
                ),
            positions@.len() == keys@.len(),
            forall|a: int|
                0 <= a < positions@.len() ==> (#[trigger] positions@[a]) < i
                    && found@[positions@[a] as int] && own@[positions@[a] as int] is Some,
            forall|a: int|
                0 <= a < keys@.len() ==> (#[trigger] keys@[a])@ == order::name_key(
                    thread_id::uuid_text(own@[positions@[a] as int]->0),
                ) && thread_id::uuid_value(keys@[a].name@) == own@[positions@[a] as int],
            forall|a: int, b: int|
                0 <= a < b < positions@.len() ==> #[trigger] positions@[a]
                    < #[trigger] positions@[b],
            forall|j: int|
                0 <= j < i && #[trigger] found@[j] ==> exists|a: int|
                    0 <= a < positions@.len() && #[trigger] positions@[a] == j,
        decreases summaries.len() - i,
    {
        let ghost before = positions@;
        if found[i] {
            proof {
                let k = choose|k: nat| climbs_to(own@, above@, i as int, top, k);
                assert(is_current(own@, i as int));
            }
            if let Some(value) = own[i] {
                let id = ThreadId { value };
                let t = id.to_text();
                positions.push(i);
                keys.push(
                    order::SortKey {
                        first: 0,
                        second: 0,
                        third: 0,
                        name: text::chars_of(t.as_str()),
                    },
                );
                assert(positions@[before.len() as int] == i);
            }
        }
        proof {
            assert forall|j: int| 0 <= j < i + 1 && #[trigger] found@[j] implies exists|a: int|
                0 <= a < positions@.len() && #[trigger] positions@[a] == j by {
                if j < i {
                    let a = choose|a: int| 0 <= a < before.len() && #[trigger] before[a] == j;
                    assert(positions@[a] == j);
                }
            }
        }
        i = i + 1;
    }
    let sorted = order::sorted_positions(keys.as_slice());
    let ghost views = order::key_views(keys@);
    let mut r: Vec<LoadedSubagentThread> = Vec::new();
    let mut a: usize = 0;
    while a < sorted.len()
        invariant
            a <= sorted.len(),
            own@ == ids(summaries@),
            found@.len() == own@.len(),
            positions@.len() == keys@.len(),
            order::is_arrangement(sorted@, keys@.len() as int),
            forall|a: int|
                0 <= a < positions@.len() ==> (#[trigger] positions@[a]) < own@.len()
                    && found@[positions@[a] as int] && own@[positions@[a] as int] is Some,
            r@.len() == a,
            forall|b: int|
                0 <= b < a ==> own@[positions@[sorted@[b] as int] as int] == Some(
                    (#[trigger] r@[b]).thread_id.value,
                ) && describes(summaries@[positions@[sorted@[b] as int] as int], r@[b]),
        decreases sorted.len() - a,
    {
        let p = positions[sorted[a]];
        if let Some(value) = own[p] {
            let agent = LoadedSubagentThread {
                thread_id: ThreadId { value },
                agent_nickname: text::clone_option(&summaries[p].agent_nickname),
                agent_role: text::clone_option(&summaries[p].agent_role),
            };
            r.push(agent);
        }
        a = a + 1;
    }
    proof {
        assert forall|a: int| 0 <= a < r@.len() implies is_described(
            summaries@,
            #[trigger] r@[a],
            top,
        ) by {
            let i = positions@[sorted@[a] as int] as int;
            assert(found@[i]);
            assert(describes(summaries@[i], r@[a]));
        }
        assert forall|i: int|
            0 <= i < summaries@.len() && is_subagent(
                ids(summaries@),
                parents(summaries@),
                i,
                top,
            ) implies is_listed(#[trigger] summaries@[i], r@) by {
            assert(found@[i]);
            let p = choose|p: int| 0 <= p < positions@.len() && #[trigger] positions@[p] == i;
            lemma_arrangement_holds_all(sorted@, keys@.len() as int, p);
            let a = choose|a: int| 0 <= a < sorted@.len() && #[trigger] sorted@[a] == p;
            assert(describes(summaries@[i], r@[a]));
        }
        assert forall|a: int, b: int| 0 <= a < b < r@.len() implies order::comes_before(
            thread_id::uuid_text((#[trigger] r@[a]).thread_id.value),
            thread_id::uuid_text((#[trigger] r@[b]).thread_id.value),
        ) by {
            let p = sorted@[a] as int;
            let q = sorted@[b] as int;
            assert(order::goes_first(views, p, q));
            assert(views[p] == keys@[p]@ && views[q] == keys@[q]@);
            if views[p] == views[q] {
                assert(keys@[p].name@ == keys@[q].name@);
                assert(own@[positions@[p] as int] == own@[positions@[q] as int]);
                lemma_current_is_unique(
                    own@,
                    above@,
                    positions@[p] as int,
                    positions@[q] as int,
                    top,
                );
            }
        }
    }
    r
}

proof fn lemma_current_is_unique(
    ids: Seq<Option<u128>>,
    parents: Seq<Option<u128>>,
    i: int,
    j: int,
    top: u128,
)
    requires
        is_subagent(ids, parents, i, top),
        is_subagent(ids, parents, j, top),
        ids[i] == ids[j],
    ensures
        i == j,
{
    let k = choose|k: nat| climbs_to(ids, parents, i, top, k);
    let l = choose|l: nat| climbs_to(ids, parents, j, top, l);
    assert(is_current(ids, i) && is_current(ids, j));
}

proof fn lemma_arrangement_holds_all(arrangement: Seq<usize>, n: int, p: int)
    requires
        order::is_arrangement(arrangement, n),
        0 <= p < n,
    ensures
        exists|a: int| 0 <= a < arrangement.len() && #[trigger] arrangement[a] == p,
{
    let values = arrangement.map_values(|x: usize| x as int);
    let s = values.to_set();
    let full = Set::new(|x: int| 0 <= x < n);
    values.unique_seq_to_set();
    vstd::set_lib::lemma_int_range(0, n);
    assert(full =~= vstd::set_lib::set_int_range(0, n));
    assert(s.subset_of(full)) by {
        assert forall|x: int| s.contains(x) implies full.contains(x) by {
            let a = choose|a: int| 0 <= a < values.len() && values[a] == x;
            assert(arrangement[a] < n);
        }
    }
    vstd::set_lib::lemma_subset_equality(s, full);
    assert(s.contains(p));
    let a = choose|a: int| 0 <= a < values.len() && values[a] == p;
    assert(arrangement[a] == p);
}

/// A thread right below the primary one is a subagent of it, and so is each thread below a
/// subagent; the primary one itself is none.
pub proof fn subagents_are_found_all_the_way_down(
    ids: Seq<Option<u128>>,
    parents: Seq<Option<u128>>,
    i: int,
    j: int,
    top: u128,
)
    requires
        ids.len() == parents.len(),
        is_current(ids, i),
    ensures
        ids[i] == Some(top) ==> !is_subagent(ids, parents, i, top),
        ids[i] != Some(top) && parents[i] == Some(top) ==> is_subagent(ids, parents, i, top),
        ids[i] != Some(top) && is_current(ids, j) && parents[i] == ids[j] && is_subagent(
            ids,
            parents,
            j,
            top,
        ) ==> is_subagent(ids, parents, i, top),
{
    if parents[i] == Some(top) {
        assert(climbs_to(ids, parents, i, top, 0));
    }
    if is_current(ids, j) && parents[i] == ids[j] && is_subagent(ids, parents, j, top) {
        let k = choose|k: nat| climbs_to(ids, parents, j, top, k);
        assert(climbs_to(ids, parents, i, top, k + 1));
    }
}

/// A thread is only found through its parent: it is right below the primary one, or a thread that
/// is listed under its parent's identifier leads there. So one without a parent is no subagent.
pub proof fn subagents_have_a_parent_that_leads_up(
    ids: Seq<Option<u128>>,
    parents: Seq<Option<u128>>,
    i: int,
    top: u128,
)
    requires
        ids.len() == parents.len(),
        is_subagent(ids, parents, i, top),
    ensures
        is_current(ids, i),
        parents[i] is Some,
        parents[i] == Some(top) || exists|j: int|
            #![trigger ids[j]]
            is_current(ids, j) && ids[j] == parents[i] && (exists|k: nat|
                climbs_to(ids, parents, j, top, k)),
{
    let k = choose|k: nat| climbs_to(ids, parents, i, top, k);
    if k > 0 {
        let j = choose|j: int|
            #![trigger ids[j]]
            is_current(ids, j) && ids[j] == parents[i] && climbs_to(
                ids,
                parents,
                j,
                top,
                (k - 1) as nat,
            );
        assert(is_current(ids, j) && climbs_to(ids, parents, j, top, (k - 1) as nat));
    }
}

/// What is listed is a subagent under its own identifier, with its own nickname and role.
pub proof fn listed_agents_are_subagents(
    summaries: Seq<ThreadLoadedSummary>,
    agent: LoadedSubagentThread,
    top: u128,
)
    requires
        is_described(summaries, agent, top),
    ensures
        exists|i: int|
            0 <= i < summaries.len() && is_subagent(ids(summaries), parents(summaries), i, top)
                && thread_id::uuid_value((#[trigger] summaries[i]).id@) == Some(
                agent.thread_id.value,
            ) && text::option_view(summaries[i].agent_nickname) == text::option_view(
                agent.agent_nickname,
            ) && text::option_view(summaries[i].agent_role) == text::option_view(agent.agent_role),
{
    let i = choose|i: int|
        0 <= i < summaries.len() && is_subagent(ids(summaries), parents(summaries), i, top)
            && describes(#[trigger] summaries[i], agent);
    assert(describes(summaries[i], agent));
}

/// A subagent that is listed is so with its own nickname and role.
pub proof fn subagents_are_listed_as_they_are(
    summary: ThreadLoadedSummary,
    agents: Seq<LoadedSubagentThread>,
)
    requires
        is_listed(summary, agents),
    ensures
        exists|a: int|
            0 <= a < agents.len() && thread_id::uuid_value(summary.id@) == Some(
                (#[trigger] agents[a]).thread_id.value,
            ) && text::option_view(summary.agent_nickname) == text::option_view(
                agents[a].agent_nickname,
            ) && text::option_view(summary.agent_role) == text::option_view(agents[a].agent_role),
{
    let a = choose|a: int| 0 <= a < agents.len() && describes(summary, #[trigger] agents[a]);
    assert(describes(summary, agents[a]));
}

} // verus!
