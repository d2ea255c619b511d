//! The context window: cutting the oldest messages of a history so that what
//! is sent to the model fits its token budget and keeps every tool request
//! together with its response.
use vstd::prelude::*;
use crate::message::{item_id, Content, Message};

verus! {

/// The item is a tool request (`request`) or a tool response (`!request`) with this id.
pub open spec fn is_item(c: Content, id: Seq<char>, request: bool) -> bool {
    &&& if request {
        c is ToolRequest
    } else {
        c is ToolResponse
    }
    &&& item_id(c) == id
}

/// Some message from index `from` on holds such an item.
pub open spec fn has_item(msgs: Seq<Message>, from: int, id: Seq<char>, request: bool) -> bool {
    exists|i: int, j: int|
        from <= i < msgs.len() && 0 <= j < msgs[i].content@.len() && is_item(
            #[trigger] msgs[i].content@[j],
            id,
            request,
        )
}

/// From index `from` on, every tool request id has a response with the same
/// id and every tool response id a request.
pub open spec fn paired_from(msgs: Seq<Message>, from: int) -> bool {
    forall|id: Seq<char>| has_item(msgs, from, id, true) <==> has_item(msgs, from, id, false)
}

/// Every tool request id of the sequence has a matching tool response id and vice versa.
pub open spec fn paired(msgs: Seq<Message>) -> bool {
    paired_from(msgs, 0)
}

/// The sum of the sizes.
pub open spec fn total_size(sizes: Seq<u64>) -> int
    decreases sizes.len(),
{
    if sizes.len() == 0 {
        0
    } else {
        sizes[0] + total_size(sizes.drop_first())
    }
}

/// The messages from index `from` on, with the given sizes, fit the budget.
pub open spec fn fits_from(sizes: Seq<u64>, from: int, budget: u64) -> bool {
    total_size(sizes.subrange(from, sizes.len() as int)) <= budget
}

proof fn lemma_total_step(sizes: Seq<u64>, k: int)
    requires
        0 <= k < sizes.len(),
    ensures
        total_size(sizes.subrange(k, sizes.len() as int)) == sizes[k] + total_size(
            sizes.subrange(k + 1, sizes.len() as int),
        ),
{
    assert(sizes.subrange(k, sizes.len() as int).drop_first() =~= sizes.subrange(k + 1, sizes.len() as int));
}

/// A longer suffix is at least as large.
proof fn lemma_total_monotone(sizes: Seq<u64>, a: int, b: int)
    requires
        0 <= a <= b <= sizes.len(),
    ensures
        total_size(sizes.subrange(a, sizes.len() as int)) >= total_size(sizes.subrange(b, sizes.len() as int)),
    decreases b - a,
{
    if a < b {
        lemma_total_step(sizes, a);
        lemma_total_monotone(sizes, a + 1, b);
    }
}

proof fn lemma_has_item_shift(msgs: Seq<Message>, from: int, id: Seq<char>, request: bool)
    requires
        0 <= from <= msgs.len(),
    ensures
        has_item(msgs, from, id, request) == has_item(msgs.subrange(from, msgs.len() as int), 0, id, request),
{
    let s = msgs.subrange(from, msgs.len() as int);
    if has_item(msgs, from, id, request) {
        let (i, j) = choose|i: int, j: int|
            from <= i < msgs.len() && 0 <= j < msgs[i].content@.len() && is_item(
                #[trigger] msgs[i].content@[j],
                id,
                request,
            );
        assert(s[i - from] == msgs[i]);
        assert(is_item(s[i - from].content@[j], id, request));
    }
    if has_item(s, 0, id, request) {
        let (i, j) = choose|i: int, j: int|
            0 <= i < s.len() && 0 <= j < s[i].content@.len() && is_item(#[trigger] s[i].content@[j], id, request);
        assert(s[i] == msgs[i + from]);
        assert(is_item(msgs[i + from].content@[j], id, request));
    }
}

/// The pairing of a suffix is the pairing of the messages from its start.
pub proof fn lemma_paired_suffix(msgs: Seq<Message>, from: int)
    requires
        0 <= from <= msgs.len(),
    ensures
        paired_from(msgs, from) == paired(msgs.subrange(from, msgs.len() as int)),
{
    let s = msgs.subrange(from, msgs.len() as int);
    assert forall|id: Seq<char>|
        #![trigger has_item(msgs, from, id, true)]
        #![trigger has_item(s, 0, id, true)]
        has_item(msgs, from, id, true) == has_item(s, 0, id, true) && has_item(msgs, from, id, false)
            == has_item(s, 0, id, false) by {
        lemma_has_item_shift(msgs, from, id, true);
        lemma_has_item_shift(msgs, from, id, false);
    }
}

/// Whether some message from index `from` on holds a tool request
/// (`request`) or a tool response (`!request`) with this id.
pub fn find_item(msgs: &Vec<Message>, from: usize, id: &String, request: bool) -> (r: bool)
    requires
        from <= msgs@.len(),
    ensures
        r == has_item(msgs@, from as int, id@, request),
{
    let mut i: usize = from;
    while i < msgs.len()
        invariant
            from <= i <= msgs@.len(),
            forall|a: int, b: int|
                from <= a < i && 0 <= b < msgs@[a].content@.len() ==> !is_item(
                    #[trigger] msgs@[a].content@[b],
                    id@,
                    request,
                ),
        decreases msgs@.len() - i,
    {
        let mut j: usize = 0;
        while j < msgs[i].content.len()
            invariant
                from <= i < msgs@.len(),
                j <= msgs@[i as int].content@.len(),
                forall|a: int, b: int|
                    from <= a < i && 0 <= b < msgs@[a].content@.len() ==> !is_item(
                        #[trigger] msgs@[a].content@[b],
                        id@,
                        request,
                    ),
                forall|b: int| 0 <= b < j ==> !is_item(#[trigger] msgs@[i as int].content@[b], id@, request),
            decreases msgs@[i as int].content@.len() - j,
        {
            let found = match &msgs[i].content[j] {
                Content::ToolRequest { id: cid, .. } => request && *cid == *id,
                Content::ToolResponse { id: cid, .. } => !request && *cid == *id,
                _ => false,
            };
            if found {
                proof {
                    assert(is_item(msgs@[i as int].content@[j as int], id@, request));
                }
                return true;
            }
            j = j + 1;
        }
        i = i + 1;
    }
    false
}

/// The item has its counterpart among the messages from index `from` on.
pub open spec fn item_answered(msgs: Seq<Message>, from: int, c: Content) -> bool {
    &&& c is ToolRequest ==> has_item(msgs, from, item_id(c), false)
    &&& c is ToolResponse ==> has_item(msgs, from, item_id(c), true)
}

/// Whether the messages from index `from` on are paired.
pub fn is_paired_from(msgs: &Vec<Message>, from: usize) -> (r: bool)
    requires
        from <= msgs@.len(),
    ensures
        r == paired_from(msgs@, from as int),
{
    let mut i: usize = from;
    while i < msgs.len()
        invariant
            from <= i <= msgs@.len(),
            forall|a: int, b: int|
                from <= a < i && 0 <= b < msgs@[a].content@.len() ==> item_answered(
                    msgs@,
                    from as int,
                    #[trigger] msgs@[a].content@[b],
                ),
        decreases msgs@.len() - i,
    {
        let mut j: usize = 0;
        while j < msgs[i].content.len()
            invariant
                from <= i < msgs@.len(),
                j <= msgs@[i as int].content@.len(),
                forall|a: int, b: int|
                    from <= a < i && 0 <= b < msgs@[a].content@.len() ==> item_answered(
                        msgs@,
                        from as int,
                        #[trigger] msgs@[a].content@[b],
                    ),
                forall|b: int|
                    0 <= b < j ==> item_answered(msgs@, from as int, #[trigger] msgs@[i as int].content@[b]),
            decreases msgs@[i as int].content@.len() - j,
        {
            let ok = match &msgs[i].content[j] {
                Content::ToolRequest { id, .. } => find_item(msgs, from, id, false),
                Content::ToolResponse { id, .. } => find_item(msgs, from, id, true),
                _ => true,
            };
            if !ok {
                proof {
                    let c = msgs@[i as int].content@[j as int];
                    if c is ToolRequest {
                        assert(is_item(c, item_id(c), true));
                        assert(has_item(msgs@, from as int, item_id(c), true));
                    } else {
                        assert(is_item(c, item_id(c), false));
                        assert(has_item(msgs@, from as int, item_id(c), false));
                    }
                }
                return false;
            }
            j = j + 1;
        }
        i = i + 1;
    }
    proof {
        assert forall|id: Seq<char>|
            has_item(msgs@, from as int, id, true) <==> has_item(msgs@, from as int, id, false) by {
            if has_item(msgs@, from as int, id, true) {
                let (a, b) = choose|a: int, b: int|
                    from <= a < msgs@.len() && 0 <= b < msgs@[a].content@.len() && is_item(
                        #[trigger] msgs@[a].content@[b],
                        id,
                        true,
                    );
                assert(item_answered(msgs@, from as int, msgs@[a].content@[b]));
            }
            if has_item(msgs@, from as int, id, false) {
                let (a, b) = choose|a: int, b: int|
                    from <= a < msgs@.len() && 0 <= b < msgs@[a].content@.len() && is_item(
                        #[trigger] msgs@[a].content@[b],
                        id,
                        false,
                    );
                assert(item_answered(msgs@, from as int, msgs@[a].content@[b]));
            }
        }
    }
    true
}

/// Cuts the oldest messages of the history so that the rest fits the
/// budget and keeps tool requests and responses paired: the result is the
/// longest such suffix of the history. `sizes` holds the estimated token
/// size of each message.
pub fn fit_to_budget(messages: Vec<Message>, sizes: &Vec<u64>, budget: u64) -> (r: Vec<Message>)
    requires
        sizes@.len() == messages@.len(),
    ensures
        r@.len() <= messages@.len(),
        r@ == messages@.subrange(messages@.len() - r@.len(), messages@.len() as int),
        paired(r@),
        fits_from(sizes@, messages@.len() - r@.len(), budget),
        forall|k: int|
            0 <= k < messages@.len() - r@.len() ==> !(paired_from(messages@, k) && fits_from(
                sizes@,
                k,
                budget,
            )),
{
    let n = messages.len();
    let mut start: usize = n;
    let mut total: u64 = 0;
    proof {
        assert(sizes@.subrange(n as int, n as int) =~= Seq::<u64>::empty());
    }
    while start > 0 && sizes[start - 1] <= budget - total
        invariant
            start <= n,
            n == sizes@.len(),
            total <= budget,
            total == total_size(sizes@.subrange(start as int, n as int)),
        decreases start,
    {
        proof {
            lemma_total_step(sizes@, start - 1);
        }
        total = total + sizes[start - 1];
        start = start - 1;
    }
    proof {
        if start > 0 {
            lemma_total_step(sizes@, start - 1);
        }
        assert forall|k: int| 0 <= k < start implies !fits_from(sizes@, k, budget) by {
            lemma_total_monotone(sizes@, k, start - 1);
            lemma_total_step(sizes@, start - 1);
        }
    }
    let mut k: usize = start;
    while k < n
        invariant
            start <= k <= n,
            n == messages@.len(),
            n == sizes@.len(),
            fits_from(sizes@, start as int, budget),
            forall|x: int| 0 <= x < start ==> !fits_from(sizes@, x, budget),
            forall|x: int| start <= x < k ==> !paired_from(messages@, x),
        ensures
            start <= k <= n,
            k < n ==> paired_from(messages@, k as int),
            forall|x: int| start <= x < k ==> !paired_from(messages@, x),
        decreases n - k,
    {
        if is_paired_from(&messages, k) {
            break;
        }
        k = k + 1;
    }
    proof {
        if k == n {
            assert forall|id: Seq<char>, request: bool| !has_item(messages@, n as int, id, request) by {}
        }
        assert(paired_from(messages@, k as int));
        lemma_paired_suffix(messages@, k as int);
        lemma_total_monotone(sizes@, start as int, k as int);
    }
    let mut all = messages;
    let r = all.split_off(k);
    r
}

} // verus!
