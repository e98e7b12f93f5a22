//! What holds of sending, whatever the attempts come to.

use vstd::prelude::*;

use crate::delivery::{attempt_limit, DeliveryStepView, DeliveryView, TrySendView, VerdictView};
use crate::text::{joined, lemma_without_repeats, without_repeats};
use crate::text_laws::{law_joining_one_more, law_only_repeats_are_left_out};

verus! {

/// A payload is never sent more often than the limit says, and as long as it is
/// neither sent nor given up another attempt is due.
pub proof fn law_attempts_are_limited(
    retry: Option<u8>,
    outcomes: Seq<Result<(), Seq<char>>>,
)
    ensures
        TrySendView::run(retry, outcomes).limit == attempt_limit(retry),
        TrySendView::run(retry, outcomes).attempts() <= attempt_limit(retry),
        TrySendView::run(retry, outcomes).attempts() <= outcomes.len(),
        TrySendView::run(retry, outcomes).verdict() is Attempt ==> TrySendView::run(
            retry,
            outcomes,
        ).attempts() == outcomes.len(),
    decreases outcomes.len(),
{
    if outcomes.len() > 0 {
        law_attempts_are_limited(retry, outcomes.drop_last());
    }
}

/// As long as attempts are left, failures call for another one, and their errors are
/// kept in order.
pub proof fn law_failures_are_kept(retry: Option<u8>, errors: Seq<Seq<char>>)
    requires
        errors.len() <= attempt_limit(retry),
    ensures
        TrySendView::run(
            retry,
            errors.map_values(|e: Seq<char>| Err::<(), Seq<char>>(e)),
        ) == (TrySendView { limit: attempt_limit(retry), errors, sent: false }),
    decreases errors.len(),
{
    let outcomes = errors.map_values(|e: Seq<char>| Err::<(), Seq<char>>(e));
    if errors.len() > 0 {
        let front = errors.drop_last();
        assert(outcomes.drop_last() =~= front.map_values(
            |e: Seq<char>| Err::<(), Seq<char>>(e),
        ));
        law_failures_are_kept(retry, front);
        assert(front.push(errors.last()) =~= errors);
    }
    assert(TrySendView::run(retry, outcomes).errors =~= errors);
}

/// Once every attempt has failed the payload is given up, and the reasons are the
/// errors, each once where it repeats the one before.
pub proof fn law_all_failures_give_up(retry: Option<u8>, errors: Seq<Seq<char>>)
    requires
        errors.len() == attempt_limit(retry),
    ensures
        TrySendView::run(
            retry,
            errors.map_values(|e: Seq<char>| Err::<(), Seq<char>>(e)),
        ).verdict() == VerdictView::Failed(joined(without_repeats(errors), ", "@)),
{
    law_failures_are_kept(retry, errors);
}

/// The first success ends the attempts, whatever failed before it.
pub proof fn law_first_success_ends(retry: Option<u8>, errors: Seq<Seq<char>>)
    requires
        errors.len() < attempt_limit(retry),
    ensures
        TrySendView::run(
            retry,
            errors.map_values(|e: Seq<char>| Err::<(), Seq<char>>(e)).push(Ok(())),
        ).verdict() == VerdictView::Sent,
{
    let failures = errors.map_values(|e: Seq<char>| Err::<(), Seq<char>>(e));
    law_failures_are_kept(retry, errors);
    assert(failures.push(Ok(())).drop_last() =~= failures);
}

/// What is decided stays decided.
pub proof fn law_verdicts_are_final(
    retry: Option<u8>,
    outcomes: Seq<Result<(), Seq<char>>>,
    outcome: Result<(), Seq<char>>,
)
    requires
        !(TrySendView::run(retry, outcomes).verdict() is Attempt),
    ensures
        TrySendView::run(retry, outcomes.push(outcome)) == TrySendView::run(retry, outcomes),
{
    assert(outcomes.push(outcome).drop_last() =~= outcomes);
}

/// The state of sending one payload that took note of these failures.
pub open spec fn after_failures(retry: Option<u8>, errors: Seq<Seq<char>>) -> TrySendView
    decreases errors.len(),
{
    if errors.len() == 0 {
        TrySendView::start(retry)
    } else {
        after_failures(retry, errors.drop_last()).record(Err(errors.last()))
    }
}

proof fn lemma_after_failures(retry: Option<u8>, errors: Seq<Seq<char>>)
    ensures
        after_failures(retry, errors) == (TrySendView {
            limit: attempt_limit(retry),
            errors,
            sent: false,
        }),
    decreases errors.len(),
{
    if errors.len() > 0 {
        lemma_after_failures(retry, errors.drop_last());
        assert(errors.drop_last().push(errors.last()) =~= errors);
    } else {
        assert(errors =~= Seq::<Seq<char>>::empty());
    }
}

/// With `n` attempts configured, another one is due as long as fewer than `n` have
/// failed; a success then ends it, and the failure of the last one gives it up, for the
/// reasons that it failed.
pub proof fn law_as_many_attempts_as_configured(n: u8, errors: Seq<Seq<char>>)
    ensures
        errors.len() < n ==> after_failures(Some(n), errors).verdict() == VerdictView::Attempt,
        errors.len() < n ==> after_failures(Some(n), errors).record(Ok(())).verdict()
            == VerdictView::Sent,
        errors.len() == n ==> after_failures(Some(n), errors).verdict() == VerdictView::Failed(
            joined(without_repeats(errors), ", "@),
        ),
{
    lemma_after_failures(Some(n), errors);
}

/// Where nothing is configured there are three attempts.
pub proof fn law_three_attempts_by_default(errors: Seq<Seq<char>>)
    ensures
        errors.len() < 3 ==> after_failures(None, errors).verdict() == VerdictView::Attempt,
        errors.len() < 3 ==> after_failures(None, errors).record(Ok(())).verdict()
            == VerdictView::Sent,
        errors.len() == 3 ==> after_failures(None, errors).verdict() == VerdictView::Failed(
            joined(without_repeats(errors), ", "@),
        ),
        forall|failures: Seq<Seq<char>>| #[trigger]
            after_failures(None, failures) == after_failures(Some(3), failures),
{
    lemma_after_failures(None, errors);
    assert forall|failures: Seq<Seq<char>>| #[trigger]
        after_failures(None, failures) == after_failures(Some(3), failures) by {
        lemma_after_failures(None, failures);
        lemma_after_failures(Some(3), failures);
    }
}

/// A payload that fails the same way every time is given up for that one reason.
pub proof fn law_one_reason_is_named_once(n: u8, error: Seq<char>)
    requires
        n > 0,
    ensures
        after_failures(Some(n), Seq::new(n as nat, |i: int| error)).verdict()
            == VerdictView::Failed(error),
{
    let errors = Seq::new(n as nat, |i: int| error);
    law_as_many_attempts_as_configured(n, errors);
    lemma_same_reasons(n as nat, error);
    law_joining_one_more(Seq::empty(), error, ", "@);
}

proof fn lemma_same_reasons(n: nat, error: Seq<char>)
    requires
        n > 0,
    ensures
        without_repeats(Seq::new(n, |i: int| error)) == seq![error],
    decreases n,
{
    let errors = Seq::new(n, |i: int| error);
    if n == 1 {
        assert(errors =~= seq![error]);
    } else {
        let front = Seq::new((n - 1) as nat, |i: int| error);
        lemma_same_reasons((n - 1) as nat, error);
        assert(errors =~= front.push(error));
        law_only_repeats_are_left_out(front, error);
    }
    law_only_repeats_are_left_out(Seq::empty(), error);
}

/// A last failure that is unlike the one before it adds its reason, behind a comma.
pub proof fn law_all_reasons_are_named(n: u8, errors: Seq<Seq<char>>, error: Seq<char>)
    requires
        errors.len() > 0,
        errors.len() + 1 == n,
        errors.last() != error,
    ensures
        ({
            let fewer = after_failures(Some((n - 1) as u8), errors).verdict();
            let all = after_failures(Some(n), errors.push(error)).verdict();
            &&& fewer is Failed
            &&& all == VerdictView::Failed(fewer->Failed_0 + ", "@ + error)
        }),
{
    law_as_many_attempts_as_configured((n - 1) as u8, errors);
    law_as_many_attempts_as_configured(n, errors.push(error));
    law_only_repeats_are_left_out(errors, error);
    lemma_some_are_kept(errors);
    law_joining_one_more(without_repeats(errors), error, ", "@);
}

proof fn lemma_some_are_kept(errors: Seq<Seq<char>>)
    requires
        errors.len() > 0,
    ensures
        without_repeats(errors).len() > 0,
{
    lemma_without_repeats(errors);
    assert(errors.contains(errors[0]));
    assert(without_repeats(errors).contains(errors[0]));
}

/// The state of a delivery that took note of these failures of the payload that is being
/// sent.
pub open spec fn after_more_failures(state: DeliveryView, errors: Seq<Seq<char>>) -> DeliveryView
    decreases errors.len(),
{
    if errors.len() == 0 {
        state
    } else {
        after_more_failures(state, errors.drop_last()).record(Err(errors.last()))
    }
}

/// Whether a delivery has just come to the payload at position `i`.
pub open spec fn at_payload(state: DeliveryView, count: nat, retry: Option<u8>, i: nat) -> bool {
    &&& state.count == count
    &&& state.retry == retry
    &&& state.sent == i
    &&& state.current == TrySendView::start(retry)
}

proof fn lemma_after_more_failures(
    state: DeliveryView,
    count: nat,
    retry: Option<u8>,
    i: nat,
    errors: Seq<Seq<char>>,
)
    requires
        at_payload(state, count, retry, i),
    ensures
        after_more_failures(state, errors) == (DeliveryView {
            current: after_failures(retry, errors),
            ..state
        }),
    decreases errors.len(),
{
    if errors.len() > 0 {
        lemma_after_more_failures(state, count, retry, i, errors.drop_last());
    }
}

/// A delivery starts at the first payload. Each payload gets its own number of attempts:
/// it is sent again until one succeeds, which leads to the next payload, or until all of
/// them failed, which ends the delivery. Behind the last payload the delivery is done.
pub proof fn law_each_payload_has_its_own_attempts(
    state: DeliveryView,
    count: nat,
    n: u8,
    i: nat,
    errors: Seq<Seq<char>>,
)
    requires
        at_payload(state, count, Some(n), i),
    ensures
        at_payload(DeliveryView::start(count, Some(n)), count, Some(n), 0),
        i >= count ==> state.step() == DeliveryStepView::Done,
        i < count && errors.len() < n ==> {
            &&& after_more_failures(state, errors).step() == DeliveryStepView::Send(i)
            &&& at_payload(
                after_more_failures(state, errors).record(Ok(())),
                count,
                Some(n),
                i + 1,
            )
        },
        i < count && errors.len() == n ==> after_more_failures(state, errors).step()
            == DeliveryStepView::Failed(joined(without_repeats(errors), ", "@)),
{
    lemma_after_more_failures(state, count, Some(n), i, errors);
    law_as_many_attempts_as_configured(n, errors);
}

/// Where nothing is configured each payload has three attempts.
pub proof fn law_each_payload_has_three_attempts_by_default(
    state: DeliveryView,
    count: nat,
    i: nat,
    errors: Seq<Seq<char>>,
)
    requires
        at_payload(state, count, None, i),
    ensures
        at_payload(DeliveryView::start(count, None), count, None, 0),
        i >= count ==> state.step() == DeliveryStepView::Done,
        i < count && errors.len() < 3 ==> {
            &&& after_more_failures(state, errors).step() == DeliveryStepView::Send(i)
            &&& at_payload(after_more_failures(state, errors).record(Ok(())), count, None, i + 1)
        },
        i < count && errors.len() == 3 ==> after_more_failures(state, errors).step()
            == DeliveryStepView::Failed(joined(without_repeats(errors), ", "@)),
{
    lemma_after_more_failures(state, count, None, i, errors);
    law_three_attempts_by_default(errors);
}

/// Payloads are sent in order, none is passed over, and none is tried more often than
/// the limit says.
pub proof fn law_delivery_goes_in_order(
    count: nat,
    retry: Option<u8>,
    outcomes: Seq<Result<(), Seq<char>>>,
)
    ensures
        ({
            let state = DeliveryView::run(count, retry, outcomes);
            &&& state.count == count
            &&& state.retry == retry
            &&& state.sent <= count
            &&& state.current.limit == attempt_limit(retry)
            &&& state.current.errors.len() <= attempt_limit(retry)
            &&& !state.current.sent
            &&& state.step() matches DeliveryStepView::Send(i) ==> i == state.sent && i < count
            &&& state.step() is Done <==> state.sent == count
        }),
    decreases outcomes.len(),
{
    if outcomes.len() > 0 {
        law_delivery_goes_in_order(count, retry, outcomes.drop_last());
    }
}

/// Where every attempt succeeds, every payload is sent with one attempt.
pub proof fn law_delivery_without_failures(
    count: nat,
    retry: Option<u8>,
    outcomes: Seq<Result<(), Seq<char>>>,
)
    requires
        attempt_limit(retry) > 0,
        outcomes.len() <= count,
        forall|i: int| 0 <= i < outcomes.len() ==> #[trigger] outcomes[i] is Ok,
    ensures
        DeliveryView::run(count, retry, outcomes).sent == outcomes.len(),
        outcomes.len() == count ==> DeliveryView::run(count, retry, outcomes).step() is Done,
        DeliveryView::run(count, retry, outcomes).current == TrySendView::start(retry),
    decreases outcomes.len(),
{
    law_delivery_goes_in_order(count, retry, outcomes);
    if outcomes.len() > 0 {
        let front = outcomes.drop_last();
        assert(forall|i: int| 0 <= i < front.len() ==> front[i] == outcomes[i]);
        law_delivery_without_failures(count, retry, front);
        law_delivery_goes_in_order(count, retry, front);
        assert(outcomes[outcomes.len() - 1] is Ok);
    }
}

/// A payload that is given up ends the delivery: no further attempt changes anything.
pub proof fn law_delivery_stops_at_failure(
    count: nat,
    retry: Option<u8>,
    outcomes: Seq<Result<(), Seq<char>>>,
    outcome: Result<(), Seq<char>>,
)
    requires
        !(DeliveryView::run(count, retry, outcomes).step() is Send),
    ensures
        DeliveryView::run(count, retry, outcomes.push(outcome)) == DeliveryView::run(
            count,
            retry,
            outcomes,
        ),
{
    assert(outcomes.push(outcome).drop_last() =~= outcomes);
}

/// The delivery of a single payload goes as the attempts to send it go.
pub proof fn law_single_delivery(retry: Option<u8>, outcomes: Seq<Result<(), Seq<char>>>)
    ensures
        DeliveryView::run(1, retry, outcomes).step() == match TrySendView::run(
            retry,
            outcomes,
        ).verdict() {
            VerdictView::Attempt => DeliveryStepView::Send(0),
            VerdictView::Sent => DeliveryStepView::Done,
            VerdictView::Failed(reasons) => DeliveryStepView::Failed(reasons),
        },
        TrySendView::run(retry, outcomes).sent == (DeliveryView::run(1, retry, outcomes).sent == 1),
        !TrySendView::run(retry, outcomes).sent ==> DeliveryView::run(1, retry, outcomes).current
            == TrySendView::run(retry, outcomes),
    decreases outcomes.len(),
{
    law_delivery_goes_in_order(1, retry, outcomes);
    if outcomes.len() > 0 {
        law_single_delivery(retry, outcomes.drop_last());
        law_delivery_goes_in_order(1, retry, outcomes.drop_last());
    }
}

} // verus!
