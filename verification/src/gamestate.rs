//! The scheduler: one tick of the whole world, phase by phase. Within a phase every
//! agent or store is worked on independently of the others, and no phase begins
//! before the one before it has ended.

use crate::geography::{Geography, Position, TilePoint, TILE_SCALE};
use crate::human::{thought, Activity, Human, Job, Mind, MindView, FATIGUE_TIRED};
use crate::item::{
    lemma_apply_all_in_turn, Envelope, Inventory, Item, ItemMessage, Stock, WEIGHT_SCALE,
};
use crate::plant::{growth, Crop};
use crate::weather::{amount, Weather};
use crate::world::{Container, Time, World};
use rayon::iter::{
    IndexedParallelIterator, IntoParallelRefIterator, IntoParallelRefMutIterator, ParallelIterator,
};
use vstd::prelude::*;

verus! {

/// The world, the minds of its agents (the mind at an index drives the human at the
/// same index), and for every store the queue of messages that wait for it, in
/// the order in which they arrived. Whoever sends a message to a store puts it at
/// the end of that store's queue; only the store's own drain takes it out.
pub struct GameState {
    pub world: World,
    pub minds: Vec<Mind>,
    pub inboxes: Vec<Vec<ItemMessage>>,
}

/// What chance decides for one tick: the weather level of the day, used where a
/// day begins, and for the mind at each index the tile to stroll to, if any.
pub struct Draws {
    pub weather: i64,
    pub wander: Vec<Option<TilePoint>>,
}

/// The queues as sequences of messages.
pub open spec fn queues(inboxes: Seq<Vec<ItemMessage>>) -> Seq<Seq<ItemMessage>> {
    Seq::new(inboxes.len(), |i: int| inboxes[i]@)
}

/// The batches as sequences of messages.
pub open spec fn batches(sent: Seq<Vec<Envelope>>) -> Seq<Seq<Envelope>> {
    Seq::new(sent.len(), |i: int| sent[i]@)
}

/// `n` queues with nothing in them.
pub open spec fn empty_queues(n: nat) -> Seq<Seq<ItemMessage>> {
    Seq::new(n, |i: int| Seq::empty())
}

/// The queues after each message of `envelopes` has been put, in order, at the end
/// of the queue it is addressed to. A message to a store that does not exist is
/// dropped.
pub open spec fn delivered(queues: Seq<Seq<ItemMessage>>, envelopes: Seq<Envelope>) -> Seq<
    Seq<ItemMessage>,
>
    decreases envelopes.len(),
{
    if envelopes.len() == 0 {
        queues
    } else {
        let before = delivered(queues, envelopes.drop_last());
        let envelope = envelopes.last();
        if envelope.to < before.len() {
            before.update(envelope.to as int, before[envelope.to as int].push(envelope.message))
        } else {
            before
        }
    }
}

/// The queues after every batch of `sent` has been delivered, first to last.
pub open spec fn delivered_all(queues: Seq<Seq<ItemMessage>>, sent: Seq<Seq<Envelope>>) -> Seq<
    Seq<ItemMessage>,
>
    decreases sent.len(),
{
    if sent.len() == 0 {
        queues
    } else {
        delivered(delivered_all(queues, sent.drop_last()), sent.last())
    }
}

/// What the crops send on a day with the given sun and rain, crop by crop.
pub open spec fn growth_batches(crops: Seq<Crop>, sun: u32, rain: u32) -> Seq<Seq<Envelope>> {
    Seq::new(crops.len(), |i: int| growth(crops[i].inventory_id, sun, rain))
}

/// What the minds send when they act, mind by mind.
pub open spec fn deed_batches(minds: Seq<MindView>, humans: Seq<Human>) -> Seq<Seq<Envelope>> {
    Seq::new(
        minds.len(),
        |i: int| minds[i].acted(&humans[i]).sent,
    )
}

/// What the stores send when each applies its queue, store by store.
pub open spec fn reply_batches(stocks: Seq<Stock>, pending: Seq<Seq<ItemMessage>>) -> Seq<
    Seq<Envelope>,
> {
    Seq::new(stocks.len(), |i: int| stocks[i].replies(pending[i]))
}

/// Delivery only appends: there are as many queues after it as before, and each
/// queue begins with what it held before.
pub proof fn lemma_delivery_appends(queues: Seq<Seq<ItemMessage>>, envelopes: Seq<Envelope>)
    ensures
        delivered(queues, envelopes).len() == queues.len(),
        forall|i: int|
            0 <= i < queues.len() ==> (#[trigger] queues[i]).is_prefix_of(
                delivered(queues, envelopes)[i],
            ),
    decreases envelopes.len(),
{
    if envelopes.len() > 0 {
        lemma_delivery_appends(queues, envelopes.drop_last());
        let before = delivered(queues, envelopes.drop_last());
        let after = delivered(queues, envelopes);
        assert forall|i: int| 0 <= i < queues.len() implies (#[trigger] queues[i]).is_prefix_of(
            after[i],
        ) by {
            assert(queues[i].is_prefix_of(before[i]));
            assert(before[i].is_prefix_of(after[i])) by {
                if envelopes.last().to == i {
                    assert(after[i] == before[i].push(envelopes.last().message));
                    assert(after[i].subrange(0, before[i].len() as int) =~= before[i]);
                } else {
                    assert(after[i].subrange(0, before[i].len() as int) =~= before[i]);
                }
            }
            assert(after[i].subrange(0, queues[i].len() as int) =~= before[i].subrange(
                0,
                queues[i].len() as int,
            ));
        }
    }
}

/// Delivery of batches only appends.
pub proof fn lemma_delivery_of_all_appends(queues: Seq<Seq<ItemMessage>>, sent: Seq<Seq<Envelope>>)
    ensures
        delivered_all(queues, sent).len() == queues.len(),
        forall|i: int|
            0 <= i < queues.len() ==> (#[trigger] queues[i]).is_prefix_of(
                delivered_all(queues, sent)[i],
            ),
    decreases sent.len(),
{
    if sent.len() > 0 {
        lemma_delivery_of_all_appends(queues, sent.drop_last());
        let before = delivered_all(queues, sent.drop_last());
        lemma_delivery_appends(before, sent.last());
        let after = delivered_all(queues, sent);
        assert forall|i: int| 0 <= i < queues.len() implies (#[trigger] queues[i]).is_prefix_of(
            after[i],
        ) by {
            assert(queues[i].is_prefix_of(before[i]));
            assert(before[i].is_prefix_of(after[i]));
            assert(after[i].subrange(0, queues[i].len() as int) =~= before[i].subrange(
                0,
                queues[i].len() as int,
            ));
        }
    }
}

/// What a store sends while it applies its queue reaches no store before the next
/// tick. The store `i` is after this tick's drain what applying its own queue
/// makes of it, whatever the stores send meanwhile; what they send to it waits in
/// its queue, and when the next drain begins the queue still begins with it, in
/// the order sent, ahead of everything that the next tick's crops and minds send.
/// So the next drain applies it first.
pub proof fn lemma_answers_wait_one_tick(
    stocks: Seq<Stock>,
    pending: Seq<Seq<ItemMessage>>,
    later: Seq<Seq<Envelope>>,
    i: int,
)
    requires
        stocks.len() == pending.len(),
        0 <= i < stocks.len(),
    ensures
        ({
            let answers = delivered_all(
                empty_queues(stocks.len()),
                reply_batches(stocks, pending),
            );
            let next = delivered_all(answers, later);
            let drained = stocks[i].apply_all(pending[i]);
            &&& answers.len() == stocks.len()
            &&& next.len() == stocks.len()
            &&& answers[i].is_prefix_of(next[i])
            &&& drained.apply_all(next[i]) == drained.apply_all(answers[i]).apply_all(
                next[i].subrange(answers[i].len() as int, next[i].len() as int),
            )
        }),
{
    let answers = delivered_all(empty_queues(stocks.len()), reply_batches(stocks, pending));
    lemma_delivery_of_all_appends(empty_queues(stocks.len()), reply_batches(stocks, pending));
    lemma_delivery_of_all_appends(answers, later);
    let next = delivered_all(answers, later);
    let rest = next[i].subrange(answers[i].len() as int, next[i].len() as int);
    assert(next[i] =~= answers[i] + rest);
    lemma_apply_all_in_turn(stocks[i].apply_all(pending[i]), answers[i], rest);
}

/// Puts each message of `batch` at the end of the queue it is addressed to.
pub fn post(inboxes: &mut Vec<Vec<ItemMessage>>, batch: &Vec<Envelope>)
    ensures
        queues(final(inboxes)@) == delivered(queues(old(inboxes)@), batch@),
        final(inboxes).len() == old(inboxes).len(),
{
    let mut k: usize = 0;
    proof {
        assert(batch@.take(0) == Seq::<Envelope>::empty());
    }
    while k < batch.len()
        invariant
            k <= batch.len(),
            inboxes.len() == old(inboxes).len(),
            queues(inboxes@) == delivered(queues(old(inboxes)@), batch@.take(k as int)),
        decreases batch.len() - k,
    {
        let envelope = batch[k];
        let ghost before = inboxes@;
        proof {
            assert(batch@.take(k + 1).drop_last() == batch@.take(k as int));
            assert(batch@.take(k + 1).last() == envelope);
        }
        if envelope.to < inboxes.len() {
            inboxes[envelope.to].push(envelope.message);
            proof {
                assert(queues(inboxes@) =~= queues(before).update(
                    envelope.to as int,
                    queues(before)[envelope.to as int].push(envelope.message),
                ));
            }
        }
        k = k + 1;
    }
    proof {
        assert(batch@.take(k as int) == batch@);
    }
}

/// Delivers every batch of `sent`, first to last.
pub fn post_all(inboxes: &mut Vec<Vec<ItemMessage>>, sent: &Vec<Vec<Envelope>>)
    ensures
        queues(final(inboxes)@) == delivered_all(queues(old(inboxes)@), batches(sent@)),
        final(inboxes).len() == old(inboxes).len(),
{
    let mut k: usize = 0;
    proof {
        assert(batches(sent@).take(0) == Seq::<Seq<Envelope>>::empty());
    }
    while k < sent.len()
        invariant
            k <= sent.len(),
            inboxes.len() == old(inboxes).len(),
            queues(inboxes@) == delivered_all(queues(old(inboxes)@), batches(sent@).take(k as int)),
        decreases sent.len() - k,
    {
        proof {
            assert(batches(sent@).take(k + 1).drop_last() == batches(sent@).take(k as int));
            assert(batches(sent@).take(k + 1).last() == sent[k as int]@);
        }
        post(inboxes, &sent[k]);
        k = k + 1;
    }
    proof {
        assert(batches(sent@).take(k as int) == batches(sent@));
    }
}

fn fresh_queues(n: usize) -> (inboxes: Vec<Vec<ItemMessage>>)
    ensures
        inboxes.len() == n,
        queues(inboxes@) == empty_queues(n as nat),
{
    let mut inboxes: Vec<Vec<ItemMessage>> = Vec::new();
    while inboxes.len() < n
        invariant
            inboxes.len() <= n,
            forall|i: int| 0 <= i < inboxes.len() ==> (#[trigger] inboxes[i])@ == Seq::<
                ItemMessage,
            >::empty(),
        decreases n - inboxes.len(),
    {
        inboxes.push(Vec::new());
    }
    proof {
        assert(queues(inboxes@) =~= empty_queues(n as nat));
    }
    inboxes
}

/// `rayon`'s `par_iter`, `map` and `collect` on the crops: `Crop::grow` is called
/// once on every crop, and what the calls return is collected in the order of the
/// crops.
#[verifier::external_body]
fn grow_each(crops: &Vec<Crop>, sun: u32, rain: u32) -> (sent: Vec<Vec<Envelope>>)
    ensures
        batches(sent@) == growth_batches(crops@, sun, rain),
{
    crops.par_iter().map(|crop| crop.grow(sun, rain)).collect()
}

/// `rayon`'s `par_iter_mut`, `zip` and `for_each` on the minds: `Mind::think` is
/// called once on every mind, with the human and the stroll at the same index.
#[verifier::external_body]
fn think_each(minds: &mut Vec<Mind>, world: &World, wander: &Vec<Option<TilePoint>>)
    requires
        world.wf(),
        old(minds).len() == world.humans.len(),
        wander.len() == old(minds).len(),
    ensures
        final(minds).len() == old(minds).len(),
        forall|i: int|
            0 <= i < old(minds).len() ==> (#[trigger] final(minds)[i])@ == thought(
                old(minds)[i]@,
                &world.humans[i],
                world,
                wander[i],
            ),
{
    minds.par_iter_mut().zip(world.humans.par_iter()).zip(wander.par_iter()).for_each(
        |((mind, human), stroll)| mind.think(human, world, *stroll),
    );
}

/// `rayon`'s `par_iter_mut`, `zip`, `map` and `collect` on the minds and the humans:
/// `Mind::act` is called once on every mind, with the human at the same index, and
/// what the calls return is collected in the order of the minds.
#[verifier::external_body]
fn act_each(minds: &mut Vec<Mind>, humans: &mut Vec<Human>) -> (sent: Vec<Vec<Envelope>>)
    requires
        old(minds).len() == old(humans).len(),
    ensures
        final(minds).len() == old(minds).len(),
        final(humans).len() == old(humans).len(),
        sent.len() == old(minds).len(),
        forall|i: int|
            #![trigger final(minds)[i]]
            #![trigger final(humans)[i]]
            #![trigger sent[i]]
            0 <= i < old(minds).len() ==> ({
                let deed = old(minds)[i]@.acted(&old(humans)[i]);
                &&& final(minds)[i]@ == deed.mind
                &&& sent[i]@ == deed.sent
                &&& final(humans)[i] == (Human {
                    hunger: deed.hunger,
                    fatigue: deed.fatigue,
                    ..old(humans)[i]
                })
            }),
{
    minds.par_iter_mut().zip(humans.par_iter_mut()).map(|(mind, human)| mind.act(human)).collect()
}

/// `rayon`'s `par_iter_mut`, `zip`, `map` and `collect` on the stores and their
/// queues: `Inventory::receive_all` is called once on every store, with the queue at
/// the same index, and what the calls return is collected in the order of the
/// stores.
#[verifier::external_body]
fn receive_each(inventories: &mut Vec<Inventory>, pending: &Vec<Vec<ItemMessage>>) -> (sent: Vec<
    Vec<Envelope>,
>)
    requires
        old(inventories).len() == pending.len(),
    ensures
        final(inventories).len() == old(inventories).len(),
        sent.len() == old(inventories).len(),
        forall|i: int|
            #![trigger final(inventories)[i]]
            #![trigger sent[i]]
            0 <= i < old(inventories).len() ==> final(inventories)[i]@ == old(
                inventories,
            )[i]@.apply_all(pending[i]@) && sent[i]@ == old(inventories)[i]@.replies(pending[i]@),
{
    inventories.par_iter_mut().zip(pending.par_iter()).map(
        |(inventory, inbox)| inventory.receive_all(inbox),
    ).collect()
}

/// The tile that chance sends the mind at `i` strolling to, if any: none where
/// `wander` has nothing to say of it.
pub open spec fn stroll_of(wander: Seq<Option<TilePoint>>, i: int) -> Option<TilePoint> {
    if 0 <= i < wander.len() {
        wander[i]
    } else {
        None
    }
}

fn strolls_for(wander: &Vec<Option<TilePoint>>, n: usize) -> (strolls: Vec<Option<TilePoint>>)
    ensures
        strolls.len() == n,
        forall|i: int| 0 <= i < n ==> #[trigger] strolls[i] == stroll_of(wander@, i),
{
    let mut strolls: Vec<Option<TilePoint>> = Vec::new();
    while strolls.len() < n
        invariant
            strolls.len() <= n,
            forall|i: int| 0 <= i < strolls.len() ==> #[trigger] strolls[i] == stroll_of(wander@, i),
        decreases n - strolls.len(),
    {
        let i = strolls.len();
        let stroll = if i < wander.len() {
            wander[i]
        } else {
            None
        };
        strolls.push(stroll);
    }
    strolls
}

/// What the minds think in the second phase of a tick, mind by mind.
pub open spec fn thoughts(
    minds: Seq<Mind>,
    humans: Seq<Human>,
    world: &World,
    wander: Seq<Option<TilePoint>>,
) -> Seq<MindView> {
    Seq::new(minds.len(), |i: int| thought(minds[i]@, &humans[i], world, stroll_of(wander, i)))
}

/// Whether `after` is `before` one tick later, given what chance decided. The
/// phases follow one another in this order:
///
/// 1. Where a day begins, the weather is set and every crop sends its messages.
/// 2. Every mind thinks; it reads the world as the first phase left it.
/// 3. Every mind acts on its own human and sends its messages.
/// 4. Every store applies the queue it had when this phase began, which holds
///    what the phases before have sent. What the stores send now stays queued,
///    unapplied, until the next tick.
/// 5. The time moves on by one tick.
pub open spec fn ticked(before: &GameState, draws: &Draws, after: &GameState) -> bool {
    let new_day = before.world.time.begins_day();
    let weather = if new_day {
        Weather { sun: amount(draws.weather as int), rain: amount(-draws.weather) }
    } else {
        before.world.weather
    };
    let grown = if new_day {
        growth_batches(before.world.crops@, weather.sun, weather.rain)
    } else {
        Seq::empty()
    };
    let seen = World { weather, ..before.world };
    let thoughts = thoughts(before.minds@, before.world.humans@, &seen, draws.wander@);
    let applied = delivered_all(
        delivered_all(before.pending(), grown),
        deed_batches(thoughts, before.world.humans@),
    );
    &&& after.minds.len() == before.minds.len()
    &&& after.world.humans.len() == before.world.humans.len()
    &&& forall|i: int|
        0 <= i < before.minds.len() ==> ({
            let human = before.world.humans[i];
            let deed = thoughts[i].acted(&human);
            &&& (#[trigger] after.minds[i])@ == deed.mind
            &&& after.world.humans[i] == (Human {
                hunger: deed.hunger,
                fatigue: deed.fatigue,
                ..human
            })
        })
    &&& after.world.inventories.len() == before.world.inventories.len()
    &&& forall|i: int|
        0 <= i < before.world.inventories.len() ==> (#[trigger] after.world.inventories[i])@
            == before.world.inventories[i]@.apply_all(applied[i])
    &&& after.pending() == delivered_all(
        empty_queues(before.world.inventories.len() as nat),
        reply_batches(before.stocks(), applied),
    )
    &&& after.world.time == before.world.time.next()
    &&& after.world.weather == weather
    &&& after.world.geography == before.world.geography
    &&& after.world.containers == before.world.containers
    &&& after.world.crops == before.world.crops
}

impl GameState {
    /// The world is well formed, every human has a mind and every store a queue.
    pub open spec fn wf(&self) -> bool {
        &&& self.world.wf()
        &&& self.minds.len() == self.world.humans.len()
        &&& self.inboxes.len() == self.world.inventories.len()
    }

    /// Whether the state is well formed.
    pub fn is_well_formed(&self) -> (ok: bool)
        ensures
            ok == self.wf(),
    {
        self.world.is_well_formed() && self.minds.len() == self.world.humans.len()
            && self.inboxes.len() == self.world.inventories.len()
    }

    /// The messages that wait for each store.
    pub open spec fn pending(&self) -> Seq<Seq<ItemMessage>> {
        queues(self.inboxes@)
    }

    /// What each store holds.
    pub open spec fn stocks(&self) -> Seq<Stock> {
        Seq::new(self.world.inventories@.len(), |i: int| self.world.inventories[i]@)
    }

    /// A world on the given grid at the first moment, without agents or stores.
    pub fn empty(geography: Geography) -> (state: GameState)
        requires
            geography.wf(),
        ensures
            state.wf(),
            state.world.geography == geography,
            state.world.time == (Time {
                tick: 0,
                minute: 0,
                hour: 0,
                day: 0,
                weekday: 0,
                month: 0,
                year: 0,
            }),
            state.world.weather == (Weather { sun: 0, rain: 0 }),
            state.world.humans.len() == 0,
            state.world.containers.len() == 0,
            state.world.crops.len() == 0,
            state.world.inventories.len() == 0,
    {
        GameState {
            world: World {
                geography,
                time: Time::new(),
                humans: Vec::new(),
                containers: Vec::new(),
                weather: Weather::new(),
                crops: Vec::new(),
                inventories: Vec::new(),
            },
            minds: Vec::new(),
            inboxes: Vec::new(),
        }
    }

    /// Adds an empty store of the given capacity, with its queue, and returns its
    /// id.
    pub fn create_inventory(&mut self, capacity: u64) -> (index: usize)
        requires
            old(self).wf(),
        ensures
            final(self).wf(),
            index == old(self).world.inventories.len(),
            final(self).world.inventories@.len() == index + 1,
            final(self).world.inventories[index as int]@ == (Stock {
                food: 0,
                money: 0,
                water: 0,
                capacity: capacity as nat,
            }),
            forall|i: int|
                0 <= i < index ==> #[trigger] final(self).world.inventories[i] == old(
                    self,
                ).world.inventories[i],
            final(self).pending() == old(self).pending().push(Seq::empty()),
            final(self).minds == old(self).minds,
            final(self).world.humans == old(self).world.humans,
            final(self).world.containers == old(self).world.containers,
            final(self).world.crops == old(self).world.crops,
            final(self).world.geography == old(self).world.geography,
            final(self).world.time == old(self).world.time,
            final(self).world.weather == old(self).world.weather,
    {
        let index = self.world.inventories.len();
        self.world.inventories.push(Inventory::new(capacity));
        self.inboxes.push(Vec::new());
        proof {
            assert(self.pending() =~= old(self).pending().push(Seq::empty()));
            assert forall|i: int| 0 <= i < self.world.humans.len() implies self.world.hosts(
                #[trigger] &self.world.humans[i],
            ) by {
                assert(old(self).world.hosts(&old(self).world.humans[i]));
            }
        }
        index
    }

    /// Puts `message` at the end of the queue of the store `store_id`. A message to
    /// a store that does not exist is dropped.
    pub fn enqueue(&mut self, store_id: usize, message: ItemMessage)
        ensures
            final(self).pending() == delivered(
                old(self).pending(),
                seq![Envelope { to: store_id, message }],
            ),
            final(self).inboxes.len() == old(self).inboxes.len(),
            final(self).world == old(self).world,
            final(self).minds == old(self).minds,
    {
        let mut batch: Vec<Envelope> = Vec::new();
        batch.push(Envelope { to: store_id, message });
        post(&mut self.inboxes, &batch);
    }

    /// Adds a crop that keeps its water and food in the store `inventory_id`, and
    /// returns its id.
    pub fn add_crop(&mut self, location: Position, inventory_id: usize) -> (index: usize)
        requires
            old(self).wf(),
            inventory_id < old(self).world.inventories.len(),
        ensures
            final(self).wf(),
            index == old(self).world.crops.len(),
            final(self).world.crops@ == old(self).world.crops@.push(
                Crop { location, inventory_id },
            ),
            final(self).minds == old(self).minds,
            final(self).inboxes == old(self).inboxes,
            final(self).world.humans == old(self).world.humans,
            final(self).world.containers == old(self).world.containers,
            final(self).world.inventories == old(self).world.inventories,
            final(self).world.geography == old(self).world.geography,
            final(self).world.time == old(self).world.time,
            final(self).world.weather == old(self).world.weather,
    {
        let index = self.world.crops.len();
        self.world.crops.push(Crop::new(location, inventory_id));
        proof {
            assert forall|i: int| 0 <= i < self.world.humans.len() implies self.world.hosts(
                #[trigger] &self.world.humans[i],
            ) by {
                assert(old(self).world.hosts(&old(self).world.humans[i]));
            }
        }
        index
    }

    /// Adds a container that keeps its items in the store `inventory_id`, and
    /// returns its index.
    pub fn add_container(&mut self, location: Position, inventory_id: usize) -> (index: usize)
        requires
            old(self).wf(),
            inventory_id < old(self).world.inventories.len(),
        ensures
            final(self).wf(),
            index == old(self).world.containers.len(),
            final(self).world.containers@ == old(self).world.containers@.push(
                Container { location, inventory_id },
            ),
            final(self).minds == old(self).minds,
            final(self).inboxes == old(self).inboxes,
            final(self).world.humans == old(self).world.humans,
            final(self).world.crops == old(self).world.crops,
            final(self).world.inventories == old(self).world.inventories,
            final(self).world.geography == old(self).world.geography,
            final(self).world.time == old(self).world.time,
            final(self).world.weather == old(self).world.weather,
    {
        let index = self.world.containers.len();
        self.world.containers.push(Container { location, inventory_id });
        proof {
            assert forall|i: int| 0 <= i < self.world.humans.len() implies self.world.hosts(
                #[trigger] &self.world.humans[i],
            ) by {
                assert(old(self).world.hosts(&old(self).world.humans[i]));
            }
        }
        index
    }

    /// Adds an agent, body and mind, and returns its index.
    pub fn add_human(&mut self, human: Human, mind: Mind) -> (index: usize)
        requires
            old(self).wf(),
            old(self).world.hosts(&human),
        ensures
            final(self).wf(),
            index == old(self).world.humans.len(),
            final(self).world.humans@ == old(self).world.humans@.push(human),
            final(self).minds@ == old(self).minds@.push(mind),
            final(self).inboxes == old(self).inboxes,
            final(self).world.containers == old(self).world.containers,
            final(self).world.crops == old(self).world.crops,
            final(self).world.inventories == old(self).world.inventories,
            final(self).world.geography == old(self).world.geography,
            final(self).world.time == old(self).world.time,
            final(self).world.weather == old(self).world.weather,
    {
        let index = self.world.humans.len();
        self.world.humans.push(human);
        self.minds.push(mind);
        proof {
            assert forall|i: int| 0 <= i < self.world.humans.len() implies self.world.hosts(
                #[trigger] &self.world.humans[i],
            ) by {
                if i < index {
                    assert(old(self).world.hosts(&old(self).world.humans[i]));
                }
            }
        }
        index
    }

    /// The world as a simulation begins with it: on the given grid, at the first
    /// moment, one crop with ten units of food grown in the middle of the tile
    /// (29, 16), one farmer who tends it and stands at the upper side of the tile
    /// (25, 15), and at the farmer's home in the middle of the tile (29, 14) one
    /// food box with a hundred units of food.
    pub fn new(geography: Geography) -> (state: GameState)
        requires
            geography.wf(),
        ensures
            state.wf(),
            state.world.geography == geography,
            state.world.time == (Time {
                tick: 0,
                minute: 0,
                hour: 0,
                day: 0,
                weekday: 0,
                month: 0,
                year: 0,
            }),
            state.world.weather == (Weather { sun: 0, rain: 0 }),
            state.world.crops@ == seq![Crop { location: Position { x: 1933312, y: 1081344 }, inventory_id: 0 }],
            state.world.containers@ == seq![
                Container { location: Position { x: 1933312, y: 950272 }, inventory_id: 2 },
            ],
            state.stocks() == seq![
                Stock { food: 10, money: 0, water: 0, capacity: 100 },
                Stock { food: 0, money: 0, water: 0, capacity: 1000 },
                Stock { food: 100, money: 0, water: 0, capacity: 1_000_000_000_000 },
            ],
            state.pending() == empty_queues(3),
            state.world.humans.len() == 1,
            state.world.humans[0].location == (Position { x: 1671168, y: 983040 }),
            state.world.humans[0].inventory_id == 1,
            state.world.humans[0].job == Job::Farmer(0),
            state.world.humans[0].hunger == 0,
            state.world.humans[0].fatigue == FATIGUE_TIRED,
            state.world.humans[0].owned_container_indeces@ == seq![0usize],
            state.minds.len() == 1,
            state.minds[0]@ == (MindView {
                path: Seq::empty(),
                state: Activity::Idle,
                home: Position { x: 1933312, y: 950272 },
                had_breakfast: false,
                had_dinner: false,
                meal_size: 0,
                target_inventory_id: None,
                progress: 0,
                wait: 0,
                travel_aim: None,
            }),
    {
        let mut state = GameState::empty(geography);
        let crop_store = state.create_inventory(10 * WEIGHT_SCALE);
        state.world.inventories[crop_store].do_give_up_to(Item::Food, 10);
        let ghost first = state.world.inventories[0]@;
        proof {
            assert(state.wf()) by {
                assert forall|i: int| 0 <= i < state.world.humans.len() implies state.world.hosts(
                    #[trigger] &state.world.humans[i],
                ) by {}
            }
        }
        state.add_crop(Position::new(29 * TILE_SCALE + TILE_SCALE / 2, 16 * TILE_SCALE + TILE_SCALE / 2), crop_store);
        let own_store = state.create_inventory(100 * WEIGHT_SCALE);
        let mut human = Human::new(Position::new(25 * TILE_SCALE + TILE_SCALE / 2, 15 * TILE_SCALE), own_store, Job::Farmer(0));
        let home = Position::new(29 * TILE_SCALE + TILE_SCALE / 2, 14 * TILE_SCALE + TILE_SCALE / 2);
        let mind = Mind::new(home);
        let box_store = state.create_inventory(100_000_000_000 * WEIGHT_SCALE);
        state.world.inventories[box_store].do_give_up_to(Item::Food, 100);
        proof {
            assert(state.wf()) by {
                assert forall|i: int| 0 <= i < state.world.humans.len() implies state.world.hosts(
                    #[trigger] &state.world.humans[i],
                ) by {}
            }
        }
        state.add_container(home, box_store);
        human.give_container(0);
        state.add_human(human, mind);
        proof {
            assert(state.stocks() =~= seq![
                Stock { food: 10, money: 0, water: 0, capacity: 100 },
                Stock { food: 0, money: 0, water: 0, capacity: 1000 },
                Stock { food: 100, money: 0, water: 0, capacity: 1_000_000_000_000 },
            ]);
            assert(state.pending() =~= empty_queues(3));
        }
        state
    }

    /// The first phase of a tick: where a day begins, the weather is set from
    /// `level` and every crop sends the messages by which it grows.
    pub fn begin_day(&mut self, level: i64)
        requires
            old(self).wf(),
        ensures
            final(self).wf(),
            ({
                let new_day = old(self).world.time.begins_day();
                let weather = if new_day {
                    Weather { sun: amount(level as int), rain: amount(-level) }
                } else {
                    old(self).world.weather
                };
                &&& final(self).world == (World { weather, ..old(self).world })
                &&& final(self).minds == old(self).minds
                &&& final(self).pending() == delivered_all(
                    old(self).pending(),
                    if new_day {
                        growth_batches(old(self).world.crops@, weather.sun, weather.rain)
                    } else {
                        Seq::empty()
                    },
                )
            }),
    {
        if self.world.time.is_new_day() {
            self.world.weather.update(level);
            let sun = self.world.weather.sun();
            let rain = self.world.weather.rain();
            let sent = grow_each(&self.world.crops, sun, rain);
            post_all(&mut self.inboxes, &sent);
        }
    }

    /// The second phase of a tick: every mind thinks. Each reads the world and its
    /// own human and changes nothing but itself. A mind of which `wander` has
    /// nothing to say is sent nowhere.
    pub fn think_all(&mut self, wander: &Vec<Option<TilePoint>>)
        requires
            old(self).wf(),
        ensures
            final(self).wf(),
            final(self).world == old(self).world,
            final(self).inboxes == old(self).inboxes,
            final(self).minds.len() == old(self).minds.len(),
            forall|i: int|
                0 <= i < old(self).minds.len() ==> (#[trigger] final(self).minds[i])@ == thought(
                    old(self).minds[i]@,
                    &old(self).world.humans[i],
                    &old(self).world,
                    stroll_of(wander@, i),
                ),
    {
        let strolls = strolls_for(wander, self.minds.len());
        think_each(&mut self.minds, &self.world, &strolls);
    }

    /// The third phase of a tick: every mind acts on its own human, and what the
    /// minds send is queued at the stores, in the order of the minds.
    pub fn act_all(&mut self)
        requires
            old(self).wf(),
        ensures
            final(self).wf(),
            final(self).minds.len() == old(self).minds.len(),
            final(self).world.humans.len() == old(self).world.humans.len(),
            forall|i: int|
                0 <= i < old(self).minds.len() ==> ({
                    let human = old(self).world.humans[i];
                    let deed = old(self).minds[i]@.acted(&human);
                    &&& (#[trigger] final(self).minds[i])@ == deed.mind
                    &&& final(self).world.humans[i] == (Human {
                        hunger: deed.hunger,
                        fatigue: deed.fatigue,
                        ..human
                    })
                }),
            final(self).pending() == delivered_all(
                old(self).pending(),
                deed_batches(old(self).minds@.map_values(|m: Mind| m@), old(self).world.humans@),
            ),
            final(self).world.inventories == old(self).world.inventories,
            final(self).world.geography == old(self).world.geography,
            final(self).world.containers == old(self).world.containers,
            final(self).world.crops == old(self).world.crops,
            final(self).world.time == old(self).world.time,
            final(self).world.weather == old(self).world.weather,
    {
        let sent = act_each(&mut self.minds, &mut self.world.humans);
        post_all(&mut self.inboxes, &sent);
        proof {
            let views = old(self).minds@.map_values(|m: Mind| m@);
            let expected = deed_batches(views, old(self).world.humans@);
            assert forall|i: int| 0 <= i < sent.len() implies #[trigger] batches(sent@)[i]
                == expected[i] by {
                assert(self.minds[i]@ == self.minds[i]@);
                assert(views[i] == old(self).minds[i]@);
            }
            assert(batches(sent@) =~= expected);
            assert forall|i: int| 0 <= i < self.world.humans.len() implies self.world.hosts(
                #[trigger] &self.world.humans[i],
            ) by {
                assert(old(self).world.hosts(&old(self).world.humans[i]));
                assert(self.minds[i]@ == self.minds[i]@);
                let then = old(self).world.humans[i];
                let now = self.world.humans[i];
                assert(now.owned_container_indeces == then.owned_container_indeces);
                assert(now.inventory_id == then.inventory_id);
                assert(now.job == then.job);
            }
        }
    }

    /// The fourth phase of a tick: every store applies the messages that were
    /// queued for it when the phase began, each once and in the order of arrival.
    /// What the stores send while they do so is queued afterwards, in the order of
    /// the stores, and none of it is applied in this phase.
    pub fn drain(&mut self)
        requires
            old(self).wf(),
        ensures
            final(self).wf(),
            final(self).world.inventories.len() == old(self).world.inventories.len(),
            forall|i: int|
                0 <= i < old(self).world.inventories.len() ==> (
                #[trigger] final(self).world.inventories[i])@ == old(
                    self,
                ).world.inventories[i]@.apply_all(old(self).pending()[i]),
            final(self).pending() == delivered_all(
                empty_queues(old(self).world.inventories.len() as nat),
                reply_batches(old(self).stocks(), old(self).pending()),
            ),
            final(self).minds == old(self).minds,
            final(self).world.humans == old(self).world.humans,
            final(self).world.geography == old(self).world.geography,
            final(self).world.containers == old(self).world.containers,
            final(self).world.crops == old(self).world.crops,
            final(self).world.time == old(self).world.time,
            final(self).world.weather == old(self).world.weather,
    {
        let mut pending = fresh_queues(self.inboxes.len());
        std::mem::swap(&mut self.inboxes, &mut pending);
        let sent = receive_each(&mut self.world.inventories, &pending);
        post_all(&mut self.inboxes, &sent);
        proof {
            let expected = reply_batches(old(self).stocks(), old(self).pending());
            assert forall|i: int| 0 <= i < sent.len() implies #[trigger] batches(sent@)[i]
                == expected[i] by {
                assert(self.world.inventories[i]@ == self.world.inventories[i]@);
            }
            assert(batches(sent@) =~= expected);
            assert forall|i: int| 0 <= i < self.world.humans.len() implies self.world.hosts(
                #[trigger] &self.world.humans[i],
            ) by {
                assert(old(self).world.hosts(&old(self).world.humans[i]));
            }
        }
    }

    /// One tick of the whole world.
    pub fn update(&mut self, draws: &Draws)
        requires
            old(self).wf(),
        ensures
            final(self).wf(),
            ticked(old(self), draws, final(self)),
    {
        self.begin_day(draws.weather);
        let ghost seen = self.world;
        self.think_all(&draws.wander);
        let ghost thought = self.minds@.map_values(|m: Mind| m@);
        self.act_all();
        let ghost acted = *self;
        self.drain();
        self.world.time.tick();
        proof {
            assert(thought =~= thoughts(
                old(self).minds@,
                old(self).world.humans@,
                &seen,
                draws.wander@,
            ));
            assert(acted.stocks() =~= old(self).stocks());
            assert forall|i: int| 0 <= i < self.world.humans.len() implies self.world.hosts(
                #[trigger] &self.world.humans[i],
            ) by {
                assert(acted.world.hosts(&acted.world.humans[i]));
            }
        }
    }
}

} // verus!
