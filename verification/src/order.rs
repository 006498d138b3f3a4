use crate::layout::Request;
use vstd::prelude::*;

verus! {

/// Where a request of `texels` texels joins a queue that is ordered from the
/// largest to the smallest: behind the last request that is at least as large.
pub open spec fn landing(queue: Seq<Request>, texels: int) -> int
    decreases queue.len(),
{
    if queue.len() == 0 {
        0
    } else if queue.last().texels() >= texels {
        queue.len() as int
    } else {
        landing(queue.drop_last(), texels)
    }
}

/// The requests in the order in which they are placed: from the largest to the
/// smallest, requests of one size in the order in which they were queued.
pub open spec fn largest_first(requests: Seq<Request>) -> Seq<Request>
    decreases requests.len(),
{
    if requests.len() == 0 {
        requests
    } else {
        let head = largest_first(requests.drop_last());
        head.insert(landing(head, requests.last().texels()), requests.last())
    }
}

/// No request is followed by a larger one.
pub open spec fn descending(queue: Seq<Request>) -> bool {
    forall|i: int, j: int|
        0 <= i < j < queue.len() ==> (#[trigger] queue[i]).texels() >= (#[trigger] queue[j]).texels()
}

/// The test that picks the requests of exactly `texels` texels.
pub open spec fn of_size(texels: int) -> spec_fn(Request) -> bool {
    |request: Request| request.texels() == texels
}

/// No two requests of the queue carry the same name.
pub open spec fn distinct_names(queue: Seq<Request>) -> bool {
    forall|i: int, j: int|
        0 <= i < queue.len() && 0 <= j < queue.len() && i != j ==> (#[trigger] queue[i]).name != (
        #[trigger] queue[j]).name
}

pub proof fn lemma_landing(queue: Seq<Request>, texels: int)
    ensures
        0 <= landing(queue, texels) <= queue.len(),
        landing(queue, texels) > 0 ==> queue[landing(queue, texels) - 1].texels() >= texels,
        forall|j: int|
            landing(queue, texels) <= j < queue.len() ==> (#[trigger] queue[j]).texels() < texels,
    decreases queue.len(),
{
    if queue.len() > 0 && queue.last().texels() < texels {
        lemma_landing(queue.drop_last(), texels);
        assert forall|j: int| landing(queue, texels) <= j < queue.len() implies (
        #[trigger] queue[j]).texels() < texels by {
            if j < queue.len() - 1 {
                assert(queue.drop_last()[j] == queue[j]);
            }
        }
    }
}

/// The place behind the last request that is at least as large is what
/// `landing` names.
pub proof fn lemma_landing_is(queue: Seq<Request>, texels: int, at: int)
    requires
        0 <= at <= queue.len(),
        at > 0 ==> queue[at - 1].texels() >= texels,
        forall|j: int| at <= j < queue.len() ==> (#[trigger] queue[j]).texels() < texels,
    ensures
        landing(queue, texels) == at,
{
    lemma_landing(queue, texels);
}

pub proof fn lemma_filter_none(queue: Seq<Request>, pred: spec_fn(Request) -> bool)
    requires
        forall|i: int| 0 <= i < queue.len() ==> !pred(#[trigger] queue[i]),
    ensures
        queue.filter(pred) == Seq::<Request>::empty(),
    decreases queue.len(),
{
    reveal(Seq::filter);
    if queue.len() > 0 {
        assert forall|i: int| 0 <= i < queue.drop_last().len() implies !pred(
            #[trigger] queue.drop_last()[i],
        ) by {
            assert(queue.drop_last()[i] == queue[i]);
        }
        lemma_filter_none(queue.drop_last(), pred);
    }
}

/// Joining a request behind the last one that is at least as large keeps the
/// queue ordered and keeps the requests of every size in their order.
proof fn lemma_join(queue: Seq<Request>, request: Request)
    requires
        descending(queue),
    ensures
        descending(queue.insert(landing(queue, request.texels()), request)),
        forall|texels: int|
            (#[trigger] queue.insert(landing(queue, request.texels()), request).filter(
                of_size(texels),
            )) == queue.push(request).filter(of_size(texels)),
{
    let at = landing(queue, request.texels());
    let joined = queue.insert(at, request);
    lemma_landing(queue, request.texels());
    queue.insert_ensures(at, request);
    assert forall|i: int, j: int| 0 <= i < j < joined.len() implies (#[trigger] joined[i]).texels()
        >= (#[trigger] joined[j]).texels() by {
        if j < at {
            assert(queue[i].texels() >= queue[j].texels());
        } else if j == at {
            if i < at - 1 {
                assert(queue[i].texels() >= queue[at - 1].texels());
            }
        } else if i < at {
            assert(joined[j] == queue[j - 1]);
            assert(queue[i].texels() >= queue[j - 1].texels());
        } else if i == at {
            assert(joined[j] == queue[j - 1]);
        } else {
            assert(joined[i] == queue[i - 1]);
            assert(joined[j] == queue[j - 1]);
            assert(queue[i - 1].texels() >= queue[j - 1].texels());
        }
    }
    assert forall|texels: int|
        (#[trigger] joined.filter(of_size(texels))) == queue.push(request).filter(
            of_size(texels),
        ) by {
        let pred = of_size(texels);
        let front = queue.take(at);
        let back = queue.skip(at);
        assert(joined =~= front.push(request) + back);
        assert(queue =~= front + back);
        Seq::filter_distributes_over_add(front.push(request), back, pred);
        Seq::filter_distributes_over_add(front, back, pred);
        front.lemma_filter_push(request, pred);
        queue.lemma_filter_push(request, pred);
        if pred(request) {
            assert forall|i: int| 0 <= i < back.len() implies !pred(#[trigger] back[i]) by {
                assert(back[i] == queue[at + i]);
            }
            lemma_filter_none(back, pred);
            assert(front.filter(pred) + Seq::<Request>::empty() =~= front.filter(pred));
            assert(front.filter(pred).push(request) + Seq::<Request>::empty() =~= front.filter(
                pred,
            ).push(request));
        }
    }
}

/// The order of placement: it keeps every request, runs from the largest
/// request to the smallest, and keeps requests of the same size in the order
/// in which they were queued.
pub proof fn lemma_largest_first(requests: Seq<Request>)
    ensures
        largest_first(requests).len() == requests.len(),
        largest_first(requests).to_multiset() == requests.to_multiset(),
        descending(largest_first(requests)),
        forall|texels: int|
            (#[trigger] largest_first(requests).filter(of_size(texels))) == requests.filter(
                of_size(texels),
            ),
    decreases requests.len(),
{
    if requests.len() > 0 {
        let fewer = requests.drop_last();
        let last = requests.last();
        let head = largest_first(fewer);
        lemma_largest_first(fewer);
        lemma_landing(head, last.texels());
        lemma_join(head, last);
        head.insert_ensures(landing(head, last.texels()), last);
        assert(requests =~= fewer.push(last));
        vstd::seq_lib::to_multiset_insert(head, landing(head, last.texels()), last);
        vstd::seq_lib::to_multiset_build(fewer, last);
        assert forall|texels: int|
            (#[trigger] largest_first(requests).filter(of_size(texels))) == requests.filter(
                of_size(texels),
            ) by {
            let pred = of_size(texels);
            assert(head.filter(pred) == fewer.filter(pred));
            head.lemma_filter_push(last, pred);
            fewer.lemma_filter_push(last, pred);
        }
    } else {
        assert(largest_first(requests) =~= requests);
    }
}

/// A queue that is already ordered from the largest to the smallest is left
/// as it is.
pub proof fn lemma_largest_first_settled(requests: Seq<Request>)
    requires
        descending(requests),
    ensures
        largest_first(requests) == requests,
    decreases requests.len(),
{
    if requests.len() > 0 {
        let fewer = requests.drop_last();
        assert forall|i: int, j: int| 0 <= i < j < fewer.len() implies (#[trigger] fewer[i]).texels()
            >= (#[trigger] fewer[j]).texels() by {
            assert(fewer[i] == requests[i] && fewer[j] == requests[j]);
        }
        lemma_largest_first_settled(fewer);
        if fewer.len() > 0 {
            assert(fewer.last() == requests[fewer.len() - 1]);
            assert(requests[fewer.len() - 1].texels() >= requests[requests.len() - 1].texels());
        }
        assert(fewer.insert(fewer.len() as int, requests.last()) =~= requests);
    }
}

/// Every request of the placement order is one that was queued, and the other
/// way round.
pub proof fn lemma_largest_first_members(requests: Seq<Request>)
    ensures
        forall|i: int|
            0 <= i < largest_first(requests).len() ==> requests.contains(
                #[trigger] largest_first(requests)[i],
            ),
        forall|i: int|
            0 <= i < requests.len() ==> largest_first(requests).contains(#[trigger] requests[i]),
    decreases requests.len(),
{
    if requests.len() > 0 {
        let fewer = requests.drop_last();
        let last = requests.last();
        let head = largest_first(fewer);
        let at = landing(head, last.texels());
        let order = largest_first(requests);
        lemma_largest_first_members(fewer);
        lemma_landing(head, last.texels());
        head.insert_ensures(at, last);
        assert forall|i: int| 0 <= i < order.len() implies requests.contains(#[trigger] order[i]) by {
            if i == at {
                assert(requests[requests.len() - 1] == last);
            } else {
                let from = if i < at { i } else { i - 1 };
                assert(order[i] == head[from]);
                assert(fewer.contains(head[from]));
                let j = choose|j: int| 0 <= j < fewer.len() && fewer[j] == head[from];
                assert(requests[j] == fewer[j]);
            }
        }
        assert forall|i: int| 0 <= i < requests.len() implies order.contains(
            #[trigger] requests[i],
        ) by {
            if i == requests.len() - 1 {
                assert(order[at] == last);
            } else {
                assert(fewer[i] == requests[i]);
                assert(head.contains(fewer[i]));
                let j = choose|j: int| 0 <= j < head.len() && head[j] == fewer[i];
                let to = if j < at { j } else { j + 1 };
                assert(order[to] == head[j]);
            }
        }
    }
}

/// The placement order of requests with distinct names has distinct names.
pub proof fn lemma_largest_first_distinct(requests: Seq<Request>)
    requires
        distinct_names(requests),
    ensures
        distinct_names(largest_first(requests)),
    decreases requests.len(),
{
    if requests.len() > 0 {
        let fewer = requests.drop_last();
        let last = requests.last();
        let head = largest_first(fewer);
        assert forall|i: int, j: int|
            0 <= i < fewer.len() && 0 <= j < fewer.len() && i != j implies (#[trigger] fewer[i]).name
            != (#[trigger] fewer[j]).name by {
            assert(fewer[i] == requests[i] && fewer[j] == requests[j]);
        }
        lemma_largest_first_distinct(fewer);
        lemma_largest_first_members(fewer);
        lemma_largest_first(fewer);
        let at = landing(head, last.texels());
        lemma_landing(head, last.texels());
        head.insert_ensures(at, last);
        let joined = head.insert(at, last);
        assert forall|i: int| 0 <= i < head.len() implies (#[trigger] head[i]).name != last.name by {
            assert(fewer.contains(head[i]));
            let j = choose|j: int| 0 <= j < fewer.len() && fewer[j] == head[i];
            assert(requests[j] == fewer[j]);
            assert(requests[j].name != requests[requests.len() - 1].name);
        }
        assert forall|i: int, j: int|
            0 <= i < joined.len() && 0 <= j < joined.len() && i != j implies (
        #[trigger] joined[i]).name != (#[trigger] joined[j]).name by {
            let from_i = if i < at { i } else { i - 1 };
            let from_j = if j < at { j } else { j - 1 };
            if i != at {
                assert(joined[i] == head[from_i]);
            }
            if j != at {
                assert(joined[j] == head[from_j]);
            }
            if i != at && j != at {
                assert(head[from_i].name != head[from_j].name);
            }
        }
    }
}

} // verus!
