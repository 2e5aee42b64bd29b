//! Which calls a listing reports.

use vstd::prelude::*;
use crate::address::Address;
use crate::call_registry::storage::{get_call, get_call_counter, RegistryEnv, RegistryState};
use crate::call_registry::types::{Call, CallState};

verus! {

/// The most calls on one page.
pub const MAX_CALL_PAGE_SIZE: u32 = 20;

/// The values of a list of calls.
pub open spec fn states(calls: Seq<Call>) -> Seq<CallState> {
    calls.map_values(|call: Call| call@)
}

/// Whether there is a call of a number.
pub open spec fn stored(calls: Map<u64, CallState>, id: int) -> bool {
    0 <= id <= u64::MAX && calls.contains_key(id as u64)
}

/// Whether there is a call of a number and, if an address is given, that address made it.
pub open spec fn listed(calls: Map<u64, CallState>, creator: Option<Address>, id: int) -> bool {
    &&& stored(calls, id)
    &&& creator matches Some(who) ==> calls[id as u64].creator == who
}

/// The numbers from `from` up to but not including `to` of stored calls, in order.
pub open spec fn stored_ids(calls: Map<u64, CallState>, from: int, to: int) -> Seq<u64>
    decreases to - from,
{
    if to <= from {
        Seq::empty()
    } else if stored(calls, to - 1) {
        stored_ids(calls, from, to - 1).push((to - 1) as u64)
    } else {
        stored_ids(calls, from, to - 1)
    }
}

/// The numbers from `from` up to but not including `to` of the calls that are listed, in order.
pub open spec fn listed_ids(
    calls: Map<u64, CallState>,
    creator: Option<Address>,
    from: int,
    to: int,
) -> Seq<u64>
    decreases to - from,
{
    if to <= from {
        Seq::empty()
    } else if listed(calls, creator, to - 1) {
        listed_ids(calls, creator, from, to - 1).push((to - 1) as u64)
    } else {
        listed_ids(calls, creator, from, to - 1)
    }
}

/// Where a search that starts at `from` stops: behind the call that is the `wanted`-th listed
/// one, or behind `last` if there are fewer.
pub open spec fn search_end(
    calls: Map<u64, CallState>,
    creator: Option<Address>,
    from: int,
    last: int,
    wanted: nat,
) -> int
    decreases last - from + 1,
{
    if wanted == 0 || from > last {
        from
    } else if listed(calls, creator, from) {
        search_end(calls, creator, from + 1, last, (wanted - 1) as nat)
    } else {
        search_end(calls, creator, from + 1, last, wanted)
    }
}

/// The calls of the given numbers.
pub open spec fn calls_of(calls: Map<u64, CallState>, ids: Seq<u64>) -> Seq<CallState> {
    ids.map_values(|id: u64| calls[id])
}

/// The number that a listing starts at.
pub open spec fn first_id(start_id: u64) -> int {
    if start_id < 1 {
        1
    } else {
        start_id as int
    }
}

/// How many calls go on a page.
pub open spec fn page_size(limit: u32) -> nat {
    if limit < MAX_CALL_PAGE_SIZE {
        limit as nat
    } else {
        MAX_CALL_PAGE_SIZE as nat
    }
}

impl RegistryState {
    /// The calls of the given numbers are read, one after the other.
    pub open spec fn after_reads(self, ids: Seq<u64>) -> RegistryState
        decreases ids.len(),
    {
        if ids.len() == 0 {
            self
        } else {
            self.after_reads(ids.drop_last()).after_get_call(ids.last())
        }
    }

    /// Where the search for a page stops.
    pub open spec fn page_end(self, creator: Option<Address>, start_id: u64, limit: u32) -> int {
        search_end(
            self.calls,
            creator,
            first_id(start_id),
            self.count() as int,
            page_size(limit),
        )
    }

    /// The calls on a page.
    pub open spec fn page(self, creator: Option<Address>, start_id: u64, limit: u32) -> Seq<
        CallState,
    > {
        calls_of(
            self.calls,
            listed_ids(
                self.calls,
                creator,
                first_id(start_id),
                self.page_end(creator, start_id, limit),
            ),
        )
    }

    /// The number from which on calls are still to be loaded for a page, if those up to `loaded`
    /// are.
    pub open spec fn next_to_load(self, start_id: u64, loaded: u64) -> int {
        if loaded < first_id(start_id) {
            first_id(start_id)
        } else {
            loaded + 1
        }
    }

    /// How many more calls have to be loaded for a page, if those up to `loaded` are: as many as
    /// the page lacks, as far as there are numbers left.
    pub open spec fn left_to_load(
        self,
        creator: Option<Address>,
        start_id: u64,
        limit: u32,
        loaded: u64,
    ) -> int {
        let next = self.next_to_load(start_id, loaded);
        let lacking = page_size(limit) - listed_ids(
            self.calls,
            creator,
            first_id(start_id),
            next,
        ).len();
        let left = self.count() + 1 - next;
        if lacking <= 0 || left <= 0 {
            0
        } else if lacking < left {
            lacking
        } else {
            left
        }
    }

    /// A page is read: every stored call that the search comes by is kept alive.
    pub open spec fn after_page(
        self,
        creator: Option<Address>,
        start_id: u64,
        limit: u32,
    ) -> RegistryState {
        self.after_reads(
            stored_ids(
                self.calls,
                first_id(start_id),
                self.page_end(creator, start_id, limit),
            ),
        )
    }
}

/// Reading calls changes nothing but how long they live.
pub proof fn lemma_reads_keep_entries(s: RegistryState, ids: Seq<u64>)
    ensures
        s.after_reads(ids) == (RegistryState { effects: s.after_reads(ids).effects, ..s }),
    decreases ids.len(),
{
    if ids.len() > 0 {
        lemma_reads_keep_entries(s, ids.drop_last());
    }
}

/// A search stops between its start and the number behind the last one.
pub proof fn lemma_search_end_range(
    calls: Map<u64, CallState>,
    creator: Option<Address>,
    from: int,
    last: int,
    wanted: nat,
)
    ensures
        from <= search_end(calls, creator, from, last, wanted),
        search_end(calls, creator, from, last, wanted) <= last + 1 || search_end(
            calls,
            creator,
            from,
            last,
            wanted,
        ) == from,
    decreases last - from + 1,
{
    if wanted == 0 || from > last {
    } else if listed(calls, creator, from) {
        lemma_search_end_range(calls, creator, from + 1, last, (wanted - 1) as nat);
    } else {
        lemma_search_end_range(calls, creator, from + 1, last, wanted);
    }
}

/// A search that wants as many calls as there are numbers goes through to the end.
pub proof fn lemma_search_to_end(
    calls: Map<u64, CallState>,
    creator: Option<Address>,
    from: int,
    last: int,
    wanted: nat,
)
    requires
        wanted >= last - from + 1,
        from <= last + 1,
    ensures
        search_end(calls, creator, from, last, wanted) == last + 1,
    decreases last - from + 1,
{
    if from <= last {
        if listed(calls, creator, from) {
            lemma_search_to_end(calls, creator, from + 1, last, (wanted - 1) as nat);
        } else {
            lemma_search_to_end(calls, creator, from + 1, last, wanted);
        }
    }
}

/// Says which calls a page needs next, by their first and last number, if those up to `loaded`
/// are loaded; none if the page needs no more.
pub fn calls_to_load(
    env: &RegistryEnv,
    creator: Option<Address>,
    start_id: u64,
    limit: u32,
    loaded: u64,
) -> (r: Option<(u64, u64)>)
    ensures
        r is None <==> env@.left_to_load(creator, start_id, limit, loaded) == 0,
        r matches Some((from, to)) ==> from == env@.next_to_load(start_id, loaded) && to == from
            + env@.left_to_load(creator, start_id, limit, loaded) - 1,
{
    let total_calls: u64 = get_call_counter(env);
    let wanted: u64 = if limit < MAX_CALL_PAGE_SIZE {
        limit as u64
    } else {
        MAX_CALL_PAGE_SIZE as u64
    };
    let first: u64 = if start_id < 1 {
        1
    } else {
        start_id
    };
    if first > total_calls || loaded >= total_calls {
        return None;
    }
    let next: u64 = if loaded < first {
        first
    } else {
        loaded + 1
    };
    let ghost calls = env@.calls;
    let mut found: u64 = 0;
    let mut current: u64 = first;
    while current < next
        invariant
            first <= current <= next,
            calls == env@.calls,
            found == listed_ids(calls, creator, first as int, current as int).len(),
            found <= current - first,
        decreases next - current,
    {
        if let Some(call) = env.peek_call(current) {
            let wants: bool = match creator {
                Some(who) => call.creator == who,
                None => true,
            };
            if wants {
                found += 1;
            }
        }
        current += 1;
    }
    if found >= wanted {
        return None;
    }
    let lacking: u64 = wanted - found;
    let left: u64 = total_calls - next;
    if lacking <= left {
        Some((next, next + (lacking - 1)))
    } else {
        Some((next, total_calls))
    }
}

/// Reads the calls from `first` to `last` in turn, until `wanted` of them are listed.
pub(crate) fn search_calls(
    env: &mut RegistryEnv,
    creator: Option<Address>,
    first: u64,
    last: u64,
    wanted: u64,
) -> (r: Vec<Call>)
    ensures
        ({
            let s = old(env)@;
            let end = search_end(s.calls, creator, first as int, last as int, wanted as nat);
            &&& states(r@) == calls_of(
                s.calls,
                listed_ids(s.calls, creator, first as int, end),
            )
            &&& final(env)@ == s.after_reads(stored_ids(s.calls, first as int, end))
        }),
{
    let ghost s = env@;
    let ghost calls = s.calls;
    let mut found: Vec<Call> = Vec::new();
    let mut current: u64 = first;
    let mut searching: bool = first <= last && wanted > 0;
    let ghost mut end: int = first as int;
    let mut count: u64 = 0;
    assert(states(found@) =~= calls_of(calls, listed_ids(calls, creator, first as int, end)));
    while searching
        invariant
            s == old(env)@,
            calls == s.calls,
            first <= end,
            searching ==> end == current && current <= last && count < wanted,
            !searching ==> end > last || count == wanted,
            count <= wanted,
            search_end(calls, creator, end, last as int, (wanted - count) as nat) == search_end(
                calls,
                creator,
                first as int,
                last as int,
                wanted as nat,
            ),
            states(found@) == calls_of(calls, listed_ids(calls, creator, first as int, end)),
            env@ == s.after_reads(stored_ids(calls, first as int, end)),
        decreases last + 1 - end,
    {
        proof {
            lemma_reads_keep_entries(s, stored_ids(calls, first as int, end));
            let seen = stored_ids(calls, first as int, end + 1);
            if stored(calls, end) {
                assert(seen.drop_last() =~= stored_ids(calls, first as int, end));
            }
            let shown = listed_ids(calls, creator, first as int, end + 1);
            if listed(calls, creator, end) {
                assert(calls_of(calls, shown) =~= calls_of(
                    calls,
                    listed_ids(calls, creator, first as int, end),
                ).push(calls[current]));
            }
        }
        let ghost before = found@;
        if let Some(call) = get_call(env, current) {
            let wants: bool = match creator {
                Some(who) => call.creator == who,
                None => true,
            };
            if wants {
                proof {
                    assert(states(before.push(call)) =~= states(before).push(call@));
                }
                found.push(call);
                count += 1;
            }
        }
        searching = current < last && count < wanted;
        if searching {
            current += 1;
        }
        proof {
            end = end + 1;
        }
    }
    found
}

} // verus!
