//! The dispatch queue, one item at a time and in order.
//!
//! An item of the queue is a parsed message, or the error that parsing gave
//! together with the sender's nick. A message goes to its handler; an error,
//! whether it came through the queue or from the handler, is reported to the
//! sender. Items are handled strictly one after the other, so everything that
//! one item leads to stands before anything that a later item leads to.
use vstd::prelude::*;
use crate::channel_list::{ChannelList, ChannelView};
use crate::massage_sender::{
    error_delivery, error_msg_sender, global_msg_sender, message_step, nothing, Effects,
    EffectsView,
};
use crate::types::{DispatchError, ErrorType, MessageView, Nick, ParsedMessage};
use crate::user::{
    deliveries_view, Delivery, DeliveryView, UserList, UserView,
};

verus! {

/// Both registries after one item of the queue, and what the item led to.
pub struct Turn {
    pub users: Seq<UserView>,
    pub channels: Seq<ChannelView>,
    pub effects: EffectsView,
    pub failure: Option<DispatchError>,
}

/// What handling one item of the queue gave: what to write and to schedule,
/// and the error that ended it, if one did. The error is for the log; where it
/// is a client's, its report is among the deliveries already.
#[derive(Clone, Debug, PartialEq, Eq)]
pub struct Handled {
    pub effects: Effects,
    pub failure: Option<DispatchError>,
}

/// The effects of reporting an error: the one delivery, if there is one.
pub open spec fn reported(d: Option<DeliveryView>) -> EffectsView {
    match d {
        Some(d) => EffectsView { deliveries: seq![d], job: None },
        None => nothing(),
    }
}

/// An item of the queue as plain values: the nick it was sent under, and
/// the message, or the error that parsing gave.
pub struct ItemView {
    pub sender: Seq<char>,
    pub content: Result<MessageView, ErrorType>,
}

/// An item of the queue as plain values.
pub open spec fn item_view(item: Result<ParsedMessage, (ErrorType, Nick)>) -> ItemView {
    match item {
        Ok(parsed) => ItemView { sender: parsed.sender_nick@, content: Ok(parsed.message@) },
        Err((err, nick)) => ItemView { sender: nick@, content: Err(err) },
    }
}

/// The views of a queue's items, one for one.
pub open spec fn items_view(v: Seq<Result<ParsedMessage, (ErrorType, Nick)>>) -> Seq<ItemView> {
    Seq::new(v.len(), |i: int| item_view(v[i]))
}

/// What one item of the queue does. A message goes to its handler. Where
/// the handler fails, neither registry has changed; an error that is a
/// client's is reported to the sender, any other to nobody. An error that the
/// reader handed in is reported to the sender.
pub open spec fn dispatch_step(
    users: Seq<UserView>,
    channels: Seq<ChannelView>,
    item: ItemView,
) -> Turn {
    match item.content {
        Ok(message) => {
            let step = message_step(users, channels, item.sender, message);
            match step.outcome {
                Ok(effects) => Turn {
                    users: step.users,
                    channels: step.channels,
                    effects,
                    failure: None,
                },
                Err(err) => Turn {
                    users: step.users,
                    channels: step.channels,
                    effects: reported(error_delivery(step.users, err, item.sender)),
                    failure: Some(err),
                },
            }
        },
        Err(err) => Turn {
            users,
            channels,
            effects: reported(error_delivery(users, DispatchError::Client(err), item.sender)),
            failure: Some(DispatchError::Client(err)),
        },
    }
}

/// Both registries after the items of `items`, handled in order, and what
/// each item led to, in the same order.
pub open spec fn run(
    users: Seq<UserView>,
    channels: Seq<ChannelView>,
    items: Seq<ItemView>,
) -> (Seq<UserView>, Seq<ChannelView>, Seq<EffectsView>)
    decreases items.len(),
{
    if items.len() == 0 {
        (users, channels, Seq::empty())
    } else {
        let before = run(users, channels, items.drop_last());
        let turn = dispatch_step(before.0, before.1, items.last());
        (turn.users, turn.channels, before.2.push(turn.effects))
    }
}

/// The views of a sequence of effects, one for one.
pub open spec fn effects_view(v: Seq<Effects>) -> Seq<EffectsView> {
    Seq::new(v.len(), |i: int| v[i]@)
}

fn report(d: Option<Delivery>) -> (e: Effects)
    ensures
        e@ == reported(
            match d {
                Some(d) => Some(d@),
                None => None,
            },
        ),
{
    let mut deliveries: Vec<Delivery> = Vec::new();
    match d {
        Some(d) => {
            let ghost v = d@;
            deliveries.push(d);
            assert(deliveries_view(deliveries@) =~= seq![v]);
        },
        None => {
            assert(deliveries_view(deliveries@) =~= Seq::<DeliveryView>::empty());
        },
    }
    Effects { deliveries, job: None }
}

/// The items of `v` in the opposite order.
fn back_to_front<T>(v: Vec<T>) -> (r: Vec<T>)
    ensures
        r@.len() == v@.len(),
        forall|j: int| 0 <= j < r@.len() ==> r@[j] == v@[v@.len() - 1 - j],
{
    let ghost all = v@;
    let mut v = v;
    let mut r: Vec<T> = Vec::new();
    while v.len() > 0
        invariant
            v@.len() + r@.len() == all.len(),
            forall|j: int| 0 <= j < v@.len() ==> v@[j] == all[j],
            forall|j: int| 0 <= j < r@.len() ==> r@[j] == all[all.len() - 1 - j],
        decreases v@.len(),
    {
        let x = v.pop().unwrap();
        r.push(x);
    }
    r
}

/// Handles one item of the queue.
pub fn dispatch(
    user_list: &mut UserList,
    channel_list: &mut ChannelList,
    item: Result<ParsedMessage, (ErrorType, Nick)>,
) -> (handled: Handled)
    requires
        old(user_list).wf(),
        old(channel_list).wf(),
    ensures
        final(user_list).wf(),
        final(channel_list).wf(),
        (Turn {
            users: final(user_list)@,
            channels: final(channel_list)@,
            effects: handled.effects@,
            failure: handled.failure,
        }) == dispatch_step(old(user_list)@, old(channel_list)@, item_view(item)),
{
    match item {
        Ok(parsed) => {
            let sender = Nick(parsed.sender_nick.0.clone());
            match global_msg_sender(user_list, channel_list, parsed) {
                Ok(effects) => Handled { effects, failure: None },
                Err(err) => Handled {
                    effects: report(error_msg_sender(err, user_list, sender)),
                    failure: Some(err),
                },
            }
        },
        Err((err, nick)) => {
            let failure = DispatchError::Client(err);
            Handled {
                effects: report(error_msg_sender(failure, user_list, nick)),
                failure: Some(failure),
            }
        },
    }
}

/// Handles the items of `items` in order; the effects of each come back in
/// the same order.
pub fn dispatch_all(
    user_list: &mut UserList,
    channel_list: &mut ChannelList,
    items: Vec<Result<ParsedMessage, (ErrorType, Nick)>>,
) -> (out: Vec<Effects>)
    requires
        old(user_list).wf(),
        old(channel_list).wf(),
    ensures
        final(user_list).wf(),
        final(channel_list).wf(),
        (final(user_list)@, final(channel_list)@, effects_view(out@)) == run(
            old(user_list)@,
            old(channel_list)@,
            items_view(items@),
        ),
{
    let ghost users0 = user_list@;
    let ghost channels0 = channel_list@;
    let ghost given = items@;
    let ghost all = items_view(items@);
    let mut out: Vec<Effects> = Vec::new();
    let n = items.len();
    let mut items = back_to_front(items);
    let mut k: usize = 0;
    assert(all.take(0) =~= Seq::<ItemView>::empty());
    assert(effects_view(out@) =~= Seq::<EffectsView>::empty());
    while k < n
        invariant
            user_list.wf(),
            channel_list.wf(),
            n == given.len(),
            all == items_view(given),
            k <= n,
            items@.len() == n - k,
            forall|j: int| 0 <= j < n - k ==> items@[j] == given[n - 1 - j],
            (user_list@, channel_list@, effects_view(out@)) == run(
                users0,
                channels0,
                all.take(k as int),
            ),
        decreases n - k,
    {
        let ghost done = all.take(k as int);
        let ghost next = all.take(k + 1);
        assert(next.drop_last() =~= done);
        assert(next.last() == all[k as int]);
        let item = items.pop().unwrap();
        assert(item == given[k as int]);
        let ghost prev = effects_view(out@);
        let handled = dispatch(user_list, channel_list, item);
        let ghost e = handled.effects@;
        out.push(handled.effects);
        assert(effects_view(out@) =~= prev.push(e));
        k += 1;
    }
    assert(all.take(n as int) =~= all);
    out
}

/// Handling a queue and then one more item is handling the longer queue: the
/// registries are those that the last item leaves, and the effects of the
/// last item stand behind the effects of all that came before it.
pub proof fn lemma_run_then_one(
    users: Seq<UserView>,
    channels: Seq<ChannelView>,
    items: Seq<ItemView>,
    item: ItemView,
)
    ensures
        ({
            let before = run(users, channels, items);
            let turn = dispatch_step(before.0, before.1, item);
            let after = run(users, channels, items.push(item));
            &&& after.0 == turn.users
            &&& after.1 == turn.channels
            &&& after.2 == before.2.push(turn.effects)
        }),
{
    assert(items.push(item).drop_last() =~= items);
}

/// An error that the reader handed in is reported when its turn comes:
/// after every item that stood before it in the queue has been handled, to
/// the user then found under the sender's nick, and without a change to
/// either registry.
pub proof fn lemma_error_waits_its_turn(
    users: Seq<UserView>,
    channels: Seq<ChannelView>,
    items: Seq<ItemView>,
    err: ErrorType,
    sender: Seq<char>,
)
    ensures
        ({
            let before = run(users, channels, items);
            let after = run(users, channels, items.push(ItemView { sender, content: Err(err) }));
            &&& after.0 == before.0
            &&& after.1 == before.1
            &&& after.2 == before.2.push(
                reported(error_delivery(before.0, DispatchError::Client(err), sender)),
            )
        }),
{
    lemma_run_then_one(users, channels, items, ItemView { sender, content: Err(err) });
}

/// The effects of a queue come back one per item and in the items' order:
/// those of an earlier part of the queue are the beginning of those of the
/// whole queue. So whatever one item leads to stands before whatever a later
/// item leads to, be it a message or an error that the reader reported.
pub proof fn lemma_run_keeps_order(
    users: Seq<UserView>,
    channels: Seq<ChannelView>,
    items: Seq<ItemView>,
    k: int,
)
    requires
        0 <= k <= items.len(),
    ensures
        run(users, channels, items).2.len() == items.len(),
        run(users, channels, items.take(k)).2 == run(users, channels, items).2.take(k),
    decreases items.len(),
{
    if items.len() == 0 {
        assert(items.take(k) =~= items);
        assert(run(users, channels, items).2.take(k) =~= run(users, channels, items).2);
    } else if k == items.len() {
        lemma_run_keeps_order(users, channels, items.drop_last(), 0);
        assert(items.take(k) =~= items);
        assert(run(users, channels, items).2.take(k) =~= run(users, channels, items).2);
    } else {
        lemma_run_keeps_order(users, channels, items.drop_last(), k);
        assert(items.drop_last().take(k) =~= items.take(k));
        let before = run(users, channels, items.drop_last());
        let whole = run(users, channels, items);
        assert(whole.2.take(k) =~= before.2.take(k));
    }
}

} // verus!
