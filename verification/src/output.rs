//! Steering outputs and the way several of them combine into one.

use core::ops::Add;
use vstd::std_specs::ops::AddSpec;
use vstd::prelude::*;

verus! {

/// A request for acceleration over one tick.
///
/// Either channel may be absent. An absent channel means that the behaviour
/// has no opinion on it, which is not the same as asking for zero.
#[derive(Debug)]
pub struct SteeringOutput<V> {
    pub linear: Option<V>,
    pub angular: Option<V>,
}

impl<V> SteeringOutput<V> {
    /// The output that asks for nothing: both channels absent.
    pub fn new() -> (out: Self)
        ensures
            out.linear.is_none(),
            out.angular.is_none(),
    {
        SteeringOutput { linear: None, angular: None }
    }
}

/// The linear channels of a list of outputs, in order.
pub open spec fn linear_channel<V>(outputs: Seq<&SteeringOutput<V>>) -> Seq<Option<V>> {
    Seq::new(outputs.len(), |i: int| outputs[i].linear)
}

/// The angular channels of a list of outputs, in order.
pub open spec fn angular_channel<V>(outputs: Seq<&SteeringOutput<V>>) -> Seq<Option<V>> {
    Seq::new(outputs.len(), |i: int| outputs[i].angular)
}

/// Every contributor defines the channel.
pub open spec fn all_present<V>(channel: Seq<Option<V>>) -> bool {
    forall|i: int| 0 <= i < channel.len() ==> (#[trigger] channel[i]).is_some()
}

/// The sum of one channel over its contributors, taken from left to right.
///
/// It is absent when there is no contributor and when any contributor
/// leaves the channel undefined.
pub open spec fn sum_channel<V: Add<Output = V>>(channel: Seq<Option<V>>) -> Option<V>
    decreases channel.len(),
{
    if channel.len() == 0 {
        None
    } else if channel.len() == 1 {
        channel[0]
    } else {
        match (sum_channel(channel.drop_last()), channel.last()) {
            (Some(a), Some(b)) => Some(a.add_spec(b)),
            _ => None,
        }
    }
}

/// The combination of a list of outputs: each channel summed on its own.
pub open spec fn combined<V: Add<Output = V>>(outputs: Seq<&SteeringOutput<V>>) -> SteeringOutput<
    V,
> {
    SteeringOutput {
        linear: sum_channel(linear_channel(outputs)),
        angular: sum_channel(angular_channel(outputs)),
    }
}

/// A channel sum is present exactly when there is a contributor and all
/// contributors define the channel.
pub proof fn lemma_sum_present<V: Add<Output = V>>(channel: Seq<Option<V>>)
    ensures
        sum_channel(channel).is_some() <==> channel.len() > 0 && all_present(channel),
    decreases channel.len(),
{
    if channel.len() > 1 {
        let front = channel.drop_last();
        lemma_sum_present(front);
        if all_present(channel) {
            assert forall|i: int| 0 <= i < front.len() implies (#[trigger] front[i]).is_some() by {
                assert(front[i] == channel[i]);
            }
        }
        if all_present(front) && channel.last().is_some() {
            assert forall|i: int| 0 <= i < channel.len() implies (#[trigger] channel[i]).is_some() by {
                if i < front.len() {
                    assert(channel[i] == front[i]);
                }
            }
        }
    }
}

/// A single absent contributor makes the whole channel absent, wherever it
/// stands in the list.
pub proof fn lemma_absent_linear_wins<V: Add<Output = V>>(
    outputs: Seq<&SteeringOutput<V>>,
    i: int,
)
    requires
        0 <= i < outputs.len(),
        outputs[i].linear.is_none(),
    ensures
        combined(outputs).linear.is_none(),
{
    lemma_sum_present(linear_channel(outputs));
    assert(linear_channel(outputs)[i].is_none());
}

/// The angular counterpart of [`lemma_absent_linear_wins`].
pub proof fn lemma_absent_angular_wins<V: Add<Output = V>>(
    outputs: Seq<&SteeringOutput<V>>,
    i: int,
)
    requires
        0 <= i < outputs.len(),
        outputs[i].angular.is_none(),
    ensures
        combined(outputs).angular.is_none(),
{
    lemma_sum_present(angular_channel(outputs));
    assert(angular_channel(outputs)[i].is_none());
}

/// The sum of a channel with two contributors: the sum of the two values
/// where both are present, absent otherwise.
pub open spec fn pair_sum<V: Add<Output = V>>(a: Option<V>, b: Option<V>) -> Option<V> {
    match (a, b) {
        (Some(v1), Some(v2)) => Some(v1.add_spec(v2)),
        _ => None,
    }
}

/// Combining two outputs adds them channel by channel, and a channel that
/// either of them leaves undefined stays undefined.
pub proof fn lemma_combine_pair<V: Add<Output = V>>(x: &SteeringOutput<V>, y: &SteeringOutput<V>)
    ensures
        combined(seq![x, y]).linear == pair_sum(x.linear, y.linear),
        combined(seq![x, y]).angular == pair_sum(x.angular, y.angular),
{
    let outputs = seq![x, y];
    let linear = linear_channel(outputs);
    let angular = angular_channel(outputs);
    assert(linear.drop_last() =~= seq![x.linear]);
    assert(angular.drop_last() =~= seq![x.angular]);
    assert(linear.last() == y.linear);
    assert(angular.last() == y.angular);
    assert(sum_channel(seq![x.linear]) == x.linear);
    assert(sum_channel(seq![x.angular]) == x.angular);
}

/// Combining two outputs does not depend on their order, as far as adding
/// the two values of each channel does not.
pub proof fn lemma_combine_commutes<V: Add<Output = V>>(
    x: &SteeringOutput<V>,
    y: &SteeringOutput<V>,
)
    requires
        x.linear matches Some(a) && y.linear matches Some(b) ==> a.add_spec(b) == b.add_spec(a),
        x.angular matches Some(a) && y.angular matches Some(b) ==> a.add_spec(b) == b.add_spec(a),
    ensures
        combined(seq![x, y]) == combined(seq![y, x]),
{
    lemma_combine_pair(x, y);
    lemma_combine_pair(y, x);
}

/// Whether a channel survives a combination does not depend on the order
/// in which the outputs are given.
pub proof fn lemma_presence_ignores_order<V: Add<Output = V>>(
    outputs: Seq<&SteeringOutput<V>>,
    reordered: Seq<&SteeringOutput<V>>,
)
    requires
        outputs.to_multiset() == reordered.to_multiset(),
    ensures
        combined(outputs).linear.is_some() == combined(reordered).linear.is_some(),
        combined(outputs).angular.is_some() == combined(reordered).angular.is_some(),
{
    outputs.to_multiset_ensures();
    reordered.to_multiset_ensures();
    assert forall|x: &SteeringOutput<V>| outputs.contains(x) <==> reordered.contains(x) by {
        assert(outputs.contains(x) <==> outputs.to_multiset().count(x) > 0);
        assert(reordered.contains(x) <==> reordered.to_multiset().count(x) > 0);
    }
    lemma_sum_present(linear_channel(outputs));
    lemma_sum_present(linear_channel(reordered));
    lemma_sum_present(angular_channel(outputs));
    lemma_sum_present(angular_channel(reordered));
    lemma_members_present(outputs, reordered);
    lemma_members_present(reordered, outputs);
}

/// If every output of `part` also occurs in `whole`, a channel that all of
/// `whole` define is defined by all of `part`.
proof fn lemma_members_present<V>(whole: Seq<&SteeringOutput<V>>, part: Seq<&SteeringOutput<V>>)
    requires
        forall|x: &SteeringOutput<V>| part.contains(x) ==> whole.contains(x),
    ensures
        all_present(linear_channel(whole)) ==> all_present(linear_channel(part)),
        all_present(angular_channel(whole)) ==> all_present(angular_channel(part)),
{
    if all_present(linear_channel(whole)) {
        assert forall|i: int| 0 <= i < part.len() implies (#[trigger] linear_channel(
            part,
        )[i]).is_some() by {
            assert(part.contains(part[i]));
            let j = choose|j: int| 0 <= j < whole.len() && whole[j] == part[i];
            assert(linear_channel(whole)[j] == linear_channel(part)[i]);
        }
    }
    if all_present(angular_channel(whole)) {
        assert forall|i: int| 0 <= i < part.len() implies (#[trigger] angular_channel(
            part,
        )[i]).is_some() by {
            assert(part.contains(part[i]));
            let j = choose|j: int| 0 <= j < whole.len() && whole[j] == part[i];
            assert(angular_channel(whole)[j] == angular_channel(part)[i]);
        }
    }
}

/// Folds one more contributor into a running channel value.
fn accumulate<V: Copy + Add<Output = V>>(running: Option<V>, next: Option<V>) -> (sum: Option<V>)
    requires
        forall|a: V, b: V| #[trigger] a.add_req(b),
    ensures
        sum.is_some() <==> running.is_some() && next.is_some(),
        V::obeys_add_spec() ==> sum == match (running, next) {
            (Some(a), Some(b)) => Some(a.add_spec(b)),
            _ => None,
        },
{
    match (running, next) {
        (Some(a), Some(b)) => Some(a + b),
        _ => None,
    }
}

/// Combines steering outputs channel by channel.
///
/// A channel of the result is present exactly when at least one output is
/// given and every output defines that channel; it then holds their sum,
/// taken in the order given. Addition on `V` must not fail.
pub fn combine<V: Copy + Add<Output = V>>(steering_behaviors: Vec<&SteeringOutput<V>>) -> (result:
    SteeringOutput<V>)
    requires
        forall|a: V, b: V| #[trigger] a.add_req(b),
    ensures
        result.linear.is_some() <==> steering_behaviors.len() > 0 && all_present(
            linear_channel(steering_behaviors@),
        ),
        result.angular.is_some() <==> steering_behaviors.len() > 0 && all_present(
            angular_channel(steering_behaviors@),
        ),
        V::obeys_add_spec() ==> result == combined(steering_behaviors@),
{
    let mut result = SteeringOutput::new();
    let n = steering_behaviors.len();
    let mut i: usize = 0;
    while i < n
        invariant
            n == steering_behaviors.len(),
            i <= n,
            forall|a: V, b: V| #[trigger] a.add_req(b),
            result.linear.is_some() <==> i > 0 && all_present(
                linear_channel(steering_behaviors@.take(i as int)),
            ),
            result.angular.is_some() <==> i > 0 && all_present(
                angular_channel(steering_behaviors@.take(i as int)),
            ),
            V::obeys_add_spec() ==> result == combined(steering_behaviors@.take(i as int)),
        decreases n - i,
    {
        let behavior = steering_behaviors[i];
        let ghost before = steering_behaviors@.take(i as int);
        let ghost after = steering_behaviors@.take(i + 1);
        proof {
            assert(after.drop_last() =~= before);
            assert(linear_channel(after).drop_last() =~= linear_channel(before));
            assert(angular_channel(after).drop_last() =~= angular_channel(before));
            assert(linear_channel(after).last() == behavior.linear);
            assert(angular_channel(after).last() == behavior.angular);
            lemma_sum_present(linear_channel(before));
            lemma_sum_present(angular_channel(before));
            lemma_sum_present(linear_channel(after));
            lemma_sum_present(angular_channel(after));
        }
        if i == 0 {
            result = SteeringOutput { linear: behavior.linear, angular: behavior.angular };
        } else {
            result = SteeringOutput {
                linear: accumulate(result.linear, behavior.linear),
                angular: accumulate(result.angular, behavior.angular),
            };
        }
        i += 1;
    }
    proof {
        assert(steering_behaviors@.take(n as int) =~= steering_behaviors@);
    }
    result
}

} // verus!
