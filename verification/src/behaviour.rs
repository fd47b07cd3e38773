//! What a planned builder does, stated on values: the state that its
//! members start in, what a call of a setter does to it, and what the
//! finalizer hands out. A driver that emits the builder as code writes one
//! statement per policy; this module says what those statements mean and
//! proves what follows for whole runs of calls.

use vstd::prelude::*;
use crate::builder::{policy, BuilderPlan, BuilderPlanView, Policy, PolicyView};
use crate::directive::OutcomeView;
use crate::syntax::Field;
use crate::wrapper::{wrapped, WrapperKind};

verus! {

/// What a member of a builder holds.
#[derive(Debug, PartialEq, Eq)]
pub enum Stored<T> {
    /// A value of the declared type of the field: `None` while the member
    /// still holds the default of that type, then the value last set.
    Whole(Option<T>),
    /// An optional value: absent, or present with the value last set.
    Optional(Option<T>),
    /// A sequence: the elements appended so far, oldest first.
    Sequence(Vec<T>),
}

pub enum StoredView<T> {
    Whole(Option<T>),
    Optional(Option<T>),
    Sequence(Seq<T>),
}

impl<T> View for Stored<T> {
    type V = StoredView<T>;

    open spec fn view(&self) -> StoredView<T> {
        match *self {
            Stored::Whole(v) => StoredView::Whole(v),
            Stored::Optional(v) => StoredView::Optional(v),
            Stored::Sequence(vs) => StoredView::Sequence(vs@),
        }
    }
}

impl PolicyView {
    /// What the member of a field with this policy holds before any call.
    pub open spec fn initial<T>(self) -> StoredView<T> {
        match self {
            PolicyView::Direct => StoredView::Whole(None),
            PolicyView::DirectIntoOptional => StoredView::Optional(None),
            PolicyView::AppendToSequence(_) => StoredView::Sequence(Seq::empty()),
        }
    }
}

impl<T> StoredView<T> {
    /// What the member holds after a call of its setter with `value`.
    pub open spec fn set(self, value: T) -> StoredView<T> {
        match self {
            StoredView::Whole(_) => StoredView::Whole(Some(value)),
            StoredView::Optional(_) => StoredView::Optional(Some(value)),
            StoredView::Sequence(vs) => StoredView::Sequence(vs.push(value)),
        }
    }
}

/// The members of a builder fresh from the factory.
pub open spec fn initial_members<T>(policies: Seq<PolicyView>) -> Seq<StoredView<T>> {
    Seq::new(policies.len(), |i: int| policies[i].initial())
}

/// The policies of a plan, field by field.
pub open spec fn policies(plan: BuilderPlanView) -> Seq<PolicyView> {
    Seq::new(plan.fields.len(), |i: int| plan.fields[i].policy)
}

/// The members after one call: the setter of the field numbered `call.0`
/// is called with the value `call.1`. A call of a setter that the builder
/// does not have changes nothing.
pub open spec fn apply<T>(members: Seq<StoredView<T>>, call: (int, T)) -> Seq<StoredView<T>> {
    if 0 <= call.0 < members.len() {
        members.update(call.0, members[call.0].set(call.1))
    } else {
        members
    }
}

/// The members after a run of calls, made in the order of the sequence.
pub open spec fn run<T>(members: Seq<StoredView<T>>, calls: Seq<(int, T)>) -> Seq<StoredView<T>>
    decreases calls.len(),
{
    if calls.len() == 0 {
        members
    } else {
        apply(run(members, calls.drop_last()), calls.last())
    }
}

/// The value of the last call in `calls` of the setter of `field`, if
/// there is such a call.
pub open spec fn last_value<T>(calls: Seq<(int, T)>, field: int) -> Option<T>
    decreases calls.len(),
{
    if calls.len() == 0 {
        None
    } else if calls.last().0 == field {
        Some(calls.last().1)
    } else {
        last_value(calls.drop_last(), field)
    }
}

/// The values of the calls in `calls` of the setter of `field`, in the
/// order of the calls.
pub open spec fn values_for<T>(calls: Seq<(int, T)>, field: int) -> Seq<T>
    decreases calls.len(),
{
    if calls.len() == 0 {
        Seq::empty()
    } else if calls.last().0 == field {
        values_for(calls.drop_last(), field).push(calls.last().1)
    } else {
        values_for(calls.drop_last(), field)
    }
}

/// A run of calls with the numbers of the fields as mathematical integers.
pub open spec fn call_views<T>(calls: Seq<(usize, T)>) -> Seq<(int, T)> {
    Seq::new(calls.len(), |k: int| (calls[k].0 as int, calls[k].1))
}

/// A builder in use.
#[derive(Debug, PartialEq, Eq)]
pub struct BuilderState<T> {
    pub members: Vec<Stored<T>>,
}

/// The views of a list of members.
pub open spec fn stored_views<T>(members: Seq<Stored<T>>) -> Seq<StoredView<T>> {
    Seq::new(members.len(), |i: int| members[i]@)
}

impl<T> View for BuilderState<T> {
    type V = Seq<StoredView<T>>;

    open spec fn view(&self) -> Seq<StoredView<T>> {
        stored_views(self.members@)
    }
}

impl Policy {
    /// The member of a field with this policy, before any call.
    pub fn initial<T>(&self) -> (r: Stored<T>)
        ensures
            r@ == self@.initial::<T>(),
    {
        match self {
            Policy::Direct => Stored::Whole(None),
            Policy::DirectIntoOptional => Stored::Optional(None),
            Policy::AppendToSequence(_) => Stored::Sequence(Vec::new()),
        }
    }
}

impl<'a> BuilderPlan<'a> {
    /// The factory: a builder with one member per field, each in the
    /// initial state of its policy.
    pub fn builder<T>(&self) -> (r: BuilderState<T>)
        ensures
            r@ == initial_members::<T>(policies(self@)),
    {
        let mut members: Vec<Stored<T>> = Vec::new();
        let n = self.fields.len();
        let mut i: usize = 0;
        while i < n
            invariant
                n == self.fields.len(),
                i <= n,
                members.len() == i,
                forall|k: int|
                    0 <= k < i ==> (#[trigger] members@[k])@ == self.fields@[k].policy@.initial::<
                        T,
                    >(),
            decreases n - i,
        {
            members.push(self.fields[i].policy.initial());
            i = i + 1;
        }
        let r = BuilderState { members };
        proof {
            assert(r@ =~= initial_members::<T>(policies(self@)));
        }
        r
    }
}

impl<T> BuilderState<T> {
    /// Calls the setter of the field numbered `field` with `value`, and
    /// says whether the builder has such a field. The call does what the
    /// policy of the field says and nothing else.
    pub fn set(&mut self, field: usize, value: T) -> (r: bool)
        ensures
            r == (field < old(self)@.len()),
            final(self)@ == apply(old(self)@, (field as int, value)),
    {
        if field >= self.members.len() {
            return false;
        }
        let ghost before = self.members@;
        match &mut self.members[field] {
            Stored::Whole(slot) => {
                *slot = Some(value);
            },
            Stored::Optional(slot) => {
                *slot = Some(value);
            },
            Stored::Sequence(items) => {
                items.push(value);
            },
        }
        proof {
            assert(self@ =~= apply(stored_views(before), (field as int, value)));
        }
        true
    }

    /// Makes the calls in `calls` one after the other, each a pair of the
    /// number of a field and the value for its setter.
    pub fn set_all(&mut self, calls: Vec<(usize, T)>)
        ensures
            final(self)@ == run(old(self)@, call_views(calls@)),
    {
        let ghost all = call_views(calls@);
        let ghost mut done: int = 0;
        for call in it: calls
            invariant
                all == call_views(it.seq()),
                done == it.index(),
                self@ == run(old(self)@, all.take(done)),
        {
            proof {
                assert(all.take(done + 1).drop_last() =~= all.take(done));
                assert(all.take(done + 1).last() == (call.0 as int, call.1));
                done = done + 1;
            }
            self.set(call.0, call.1);
        }
        proof {
            assert(all.take(done) =~= all);
        }
    }

    /// The finalizer: hands out what every member holds, as it is. It
    /// never fails; a member that no call has set goes out in its initial
    /// state.
    pub fn build(self) -> (r: Vec<Stored<T>>)
        ensures
            stored_views(r@) == self@,
    {
        self.members
    }
}

/// A field that is neither optional nor a sequence is set directly,
/// whatever its attributes read as.
pub proof fn law_plain_field_is_direct(field: Field, outcome: OutcomeView)
    requires
        wrapped(WrapperKind::OptionalValue.head(), field.ty) is None,
        wrapped(WrapperKind::Sequence.head(), field.ty) is None,
    ensures
        policy(field, outcome) is Direct,
{
}

/// The run `calls` holds no call of the setter of `field`.
pub open spec fn never_called<T>(calls: Seq<(int, T)>, field: int) -> bool {
    forall|k: int| 0 <= k < calls.len() ==> (#[trigger] calls[k]).0 != field
}

/// The run `calls` holds exactly one call of the setter of `field`, and
/// that call passes `value`.
pub open spec fn called_once_with<T>(calls: Seq<(int, T)>, field: int, value: T) -> bool {
    exists|k: int|
        {
            &&& 0 <= k < calls.len()
            &&& #[trigger] calls[k] == (field, value)
            &&& forall|l: int| 0 <= l < calls.len() && (#[trigger] calls[l]).0 == field ==> l == k
        }
}

/// A run of calls keeps the number of members.
pub proof fn lemma_run_length<T>(members: Seq<StoredView<T>>, calls: Seq<(int, T)>)
    ensures
        run(members, calls).len() == members.len(),
    decreases calls.len(),
{
    if calls.len() > 0 {
        lemma_run_length(members, calls.drop_last());
    }
}

/// A setter that is never called has no last value and no values.
pub proof fn lemma_never_called<T>(calls: Seq<(int, T)>, field: int)
    requires
        never_called(calls, field),
    ensures
        last_value(calls, field) is None,
        values_for(calls, field) == Seq::<T>::empty(),
    decreases calls.len(),
{
    if calls.len() > 0 {
        assert(calls[calls.len() - 1].0 != field);
        assert forall|k: int| 0 <= k < calls.drop_last().len() implies (
        #[trigger] calls.drop_last()[k]).0 != field by {
            assert(calls[k].0 != field);
        }
        lemma_never_called(calls.drop_last(), field);
    }
}

/// If every call of a run is a call of the setter of `field`, the values
/// of that setter are the values of the run, call by call.
pub proof fn lemma_only_called<T>(calls: Seq<(int, T)>, field: int)
    requires
        forall|k: int| 0 <= k < calls.len() ==> (#[trigger] calls[k]).0 == field,
    ensures
        values_for(calls, field) == Seq::new(calls.len(), |k: int| calls[k].1),
    decreases calls.len(),
{
    if calls.len() > 0 {
        assert(calls[calls.len() - 1].0 == field);
        assert forall|k: int| 0 <= k < calls.drop_last().len() implies (
        #[trigger] calls.drop_last()[k]).0 == field by {
            assert(calls[k].0 == field);
        }
        lemma_only_called(calls.drop_last(), field);
        assert(values_for(calls, field) =~= Seq::new(calls.len(), |k: int| calls[k].1));
    } else {
        assert(values_for(calls, field) =~= Seq::new(calls.len(), |k: int| calls[k].1));
    }
}

/// A setter that is called exactly once has the value of that call as its
/// last value and as its only value.
pub proof fn lemma_called_once<T>(calls: Seq<(int, T)>, field: int, value: T)
    requires
        called_once_with(calls, field, value),
    ensures
        last_value(calls, field) == Some(value),
        values_for(calls, field) == seq![value],
    decreases calls.len(),
{
    let k = choose|k: int|
        {
            &&& 0 <= k < calls.len()
            &&& #[trigger] calls[k] == (field, value)
            &&& forall|l: int| 0 <= l < calls.len() && (#[trigger] calls[l]).0 == field ==> l == k
        };
    let before = calls.drop_last();
    if k == calls.len() - 1 {
        assert forall|l: int| 0 <= l < before.len() implies (#[trigger] before[l]).0 != field by {
            assert(calls[l].0 == field ==> l == k);
        }
        lemma_never_called(before, field);
        assert(Seq::<T>::empty().push(value) =~= seq![value]);
    } else {
        assert(calls[calls.len() - 1].0 == field ==> calls.len() - 1 == k);
        assert(before[k] == (field, value));
        assert forall|l: int| 0 <= l < before.len() && (#[trigger] before[l]).0 == field implies l
            == k by {
            assert(calls[l].0 == field);
        }
        lemma_called_once(before, field, value);
    }
}

/// Overwriting. After any run of calls on a fresh builder, the member of
/// a field that is set directly holds the value of the last call of its
/// setter, whatever was set before, and the default of its type if the
/// setter was never called.
pub proof fn law_direct_keeps_last<T>(policies: Seq<PolicyView>, calls: Seq<(int, T)>, field: int)
    requires
        0 <= field < policies.len(),
        policies[field] is Direct,
    ensures
        run(initial_members(policies), calls)[field] == StoredView::Whole(
            last_value(calls, field),
        ),
        never_called(calls, field) ==> run(initial_members(policies), calls)[field]
            == StoredView::<T>::Whole(None),
    decreases calls.len(),
{
    if calls.len() > 0 {
        law_direct_keeps_last(policies, calls.drop_last(), field);
        lemma_run_length(initial_members::<T>(policies), calls.drop_last());
    }
    if never_called(calls, field) {
        lemma_never_called(calls, field);
    }
}

/// Every field is set once. On a builder whose fields are all set
/// directly, a run that calls the setter of every field exactly once, in
/// any order, each with the value that `inputs` holds for the field,
/// leaves the record built from `inputs`.
pub proof fn law_each_setter_once<T>(policies: Seq<PolicyView>, calls: Seq<(int, T)>, inputs: Seq<T>)
    requires
        inputs.len() == policies.len(),
        forall|i: int| 0 <= i < policies.len() ==> #[trigger] policies[i] is Direct,
        forall|i: int|
            0 <= i < policies.len() ==> called_once_with(calls, i, #[trigger] inputs[i]),
    ensures
        run(initial_members(policies), calls) == Seq::new(
            inputs.len(),
            |i: int| StoredView::Whole(Some(inputs[i])),
        ),
{
    let result = run(initial_members::<T>(policies), calls);
    let wanted = Seq::new(inputs.len(), |i: int| StoredView::Whole(Some(inputs[i])));
    lemma_run_length(initial_members::<T>(policies), calls);
    assert forall|i: int| 0 <= i < policies.len() implies #[trigger] result[i] == wanted[i] by {
        assert(policies[i] is Direct);
        law_direct_keeps_last(policies, calls, i);
        assert(called_once_with(calls, i, inputs[i]));
        lemma_called_once(calls, i, inputs[i]);
    }
    assert(result =~= wanted);
}

/// Appending. After any run of calls on a fresh builder, the member of a
/// sequence field with a repeated setter holds the values of the calls of
/// that setter, one element per call, in the order of the calls: it is
/// empty if the setter was never called, and holds the values of the whole
/// run if the run calls no other setter.
pub proof fn law_append_collects<T>(policies: Seq<PolicyView>, calls: Seq<(int, T)>, field: int)
    requires
        0 <= field < policies.len(),
        policies[field] is AppendToSequence,
    ensures
        run(initial_members(policies), calls)[field] == StoredView::Sequence(
            values_for(calls, field),
        ),
        never_called(calls, field) ==> run(initial_members(policies), calls)[field]
            == StoredView::Sequence(Seq::<T>::empty()),
        (forall|k: int| 0 <= k < calls.len() ==> (#[trigger] calls[k]).0 == field) ==> run(
            initial_members(policies),
            calls,
        )[field] == StoredView::Sequence(Seq::new(calls.len(), |k: int| calls[k].1)),
    decreases calls.len(),
{
    if calls.len() > 0 {
        law_append_collects(policies, calls.drop_last(), field);
        lemma_run_length(initial_members::<T>(policies), calls.drop_last());
    }
    if never_called(calls, field) {
        lemma_never_called(calls, field);
    }
    if forall|k: int| 0 <= k < calls.len() ==> (#[trigger] calls[k]).0 == field {
        lemma_only_called(calls, field);
    }
}

/// Optional fields. After any run of calls on a fresh builder, the member
/// of an optional field is absent if its setter was never called, and
/// otherwise present with the value of the last call: with the one value
/// set, if it was set once.
pub proof fn law_optional_holds_last<T>(
    policies: Seq<PolicyView>,
    calls: Seq<(int, T)>,
    field: int,
)
    requires
        0 <= field < policies.len(),
        policies[field] is DirectIntoOptional,
    ensures
        run(initial_members(policies), calls)[field] == StoredView::Optional(
            last_value(calls, field),
        ),
        never_called(calls, field) ==> run(initial_members(policies), calls)[field]
            == StoredView::<T>::Optional(None),
        forall|value: T| #[trigger]
            called_once_with(calls, field, value) ==> run(initial_members(policies), calls)[field]
                == StoredView::Optional(Some(value)),
    decreases calls.len(),
{
    if calls.len() > 0 {
        law_optional_holds_last(policies, calls.drop_last(), field);
        lemma_run_length(initial_members::<T>(policies), calls.drop_last());
    }
    if never_called(calls, field) {
        lemma_never_called(calls, field);
    }
    assert forall|value: T| #[trigger] called_once_with(calls, field, value) implies run(
        initial_members(policies),
        calls,
    )[field] == StoredView::Optional(Some(value)) by {
        lemma_called_once(calls, field, value);
    }
}

} // verus!
