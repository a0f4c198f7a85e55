//! Resource kinds, the transfer messages between stores, and the store itself.
//!
//! Weights are whole numbers of tenths of a weight unit, so that the lightest item
//! (a coin, a tenth of a unit) weighs exactly 1.

use crate::clock::{decimal, decimal_text};
use vstd::prelude::*;
use vstd::string::StringExecFns;

verus! {

/// How many weight counts make one weight unit.
pub const WEIGHT_SCALE: u64 = 10;

/// A kind of resource.
#[derive(Copy, Clone, Debug, PartialEq, Eq, Hash, Structural)]
pub enum Item {
    Food,
    Money,
    Water,
}

/// A transfer request, queued at the store that is to apply it.
#[derive(Copy, Clone, Debug, PartialEq, Eq)]
pub enum ItemMessage {
    /// Add the quantity; what does not fit goes back to the named store.
    Give(Item, u32, usize),
    /// Add what fits of the quantity and discard the rest.
    GiveOrDrop(Item, u32),
    /// Offer the first pair for the second pair; the last field names the store to answer.
    Trade((Item, u32), (Item, u32), usize),
    /// Remove up to the quantity and send what was removed to the named store.
    Take(Item, u32, usize),
    /// Remove up to the quantity; nothing is sent.
    Remove(Item, u32),
}

/// A message together with the id of the store it is addressed to.
#[derive(Copy, Clone, Debug, PartialEq, Eq)]
pub struct Envelope {
    pub to: usize,
    pub message: ItemMessage,
}

impl Item {
    /// The weight of one unit of the item, in tenths.
    pub open spec fn unit_weight(self) -> nat {
        match self {
            Item::Food => 10,
            Item::Money => 1,
            Item::Water => 10,
        }
    }

    /// The weight of one unit of the item, in tenths.
    pub fn weight(&self) -> (w: u64)
        ensures
            w == self.unit_weight(),
    {
        match self {
            Item::Food => 10,
            Item::Money => 1,
            Item::Water => 10,
        }
    }
}

/// The mathematical content of a store: a quantity per item and a weight limit.
pub struct Stock {
    pub food: nat,
    pub money: nat,
    pub water: nat,
    pub capacity: nat,
}

impl Stock {
    /// The quantity held of `item`.
    pub open spec fn count(self, item: Item) -> nat {
        match item {
            Item::Food => self.food,
            Item::Money => self.money,
            Item::Water => self.water,
        }
    }

    /// The total weight held: the sum over the items of quantity times unit weight
    /// (10 for food and water, 1 for money).
    pub open spec fn weight(self) -> nat {
        10 * self.food + self.money + 10 * self.water
    }

    /// The weight stays within the capacity, and the capacity is one that the
    /// machine can count.
    pub open spec fn wf(self) -> bool {
        &&& self.weight() <= self.capacity
        &&& self.capacity <= u64::MAX
    }

    /// The same store with the quantity of `item` replaced by `n`.
    pub open spec fn with_count(self, item: Item, n: nat) -> Stock {
        match item {
            Item::Food => Stock { food: n, ..self },
            Item::Money => Stock { money: n, ..self },
            Item::Water => Stock { water: n, ..self },
        }
    }

    /// How many more units of `item` the store admits: as many as the free weight
    /// carries.
    pub open spec fn room(self, item: Item) -> nat {
        if self.weight() >= self.capacity {
            0
        } else {
            ((self.capacity - self.weight()) / (item.unit_weight() as int)) as nat
        }
    }

    /// The quantity that an add of `quantity` units of `item` really adds.
    pub open spec fn admitted(self, item: Item, quantity: nat) -> nat {
        if quantity <= self.room(item) {
            quantity
        } else {
            self.room(item)
        }
    }

    /// The quantity that a removal of `quantity` units of `item` really removes.
    pub open spec fn yielded(self, item: Item, quantity: nat) -> nat {
        if quantity <= self.count(item) {
            quantity
        } else {
            self.count(item)
        }
    }

    /// The store after `n` units of `item` were added.
    pub open spec fn plus(self, item: Item, n: nat) -> Stock {
        self.with_count(item, self.count(item) + n)
    }

    /// The store after `n` units of `item` were removed.
    pub open spec fn minus(self, item: Item, n: nat) -> Stock {
        self.with_count(item, (self.count(item) - n) as nat)
    }

    /// The store after an add clipped to what fits.
    pub open spec fn give_up_to(self, item: Item, quantity: nat) -> Stock {
        self.plus(item, self.admitted(item, quantity))
    }

    /// The store after a removal clipped to what is held.
    pub open spec fn take_up_to(self, item: Item, quantity: nat) -> Stock {
        self.minus(item, self.yielded(item, quantity))
    }

    /// Whether a trade of `offer` for `want` goes through: the wanted quantity is
    /// held, and once it has left, the whole offer fits.
    pub open spec fn trade_succeeds(self, offer: (Item, u32), want: (Item, u32)) -> bool {
        &&& want.1 <= self.count(want.0)
        &&& offer.1 <= self.minus(want.0, want.1 as nat).room(offer.0)
    }

    /// The store after it has applied `msg`.
    pub open spec fn apply(self, msg: ItemMessage) -> Stock {
        match msg {
            ItemMessage::Give(item, quantity, _) => self.give_up_to(item, quantity as nat),
            ItemMessage::GiveOrDrop(item, quantity) => self.give_up_to(item, quantity as nat),
            ItemMessage::Trade(offer, want, _) => if self.trade_succeeds(offer, want) {
                self.minus(want.0, want.1 as nat).plus(offer.0, offer.1 as nat)
            } else {
                self
            },
            ItemMessage::Take(item, quantity, _) => self.take_up_to(item, quantity as nat),
            ItemMessage::Remove(item, quantity) => self.take_up_to(item, quantity as nat),
        }
    }

    /// The message that applying `msg` sends, if it sends one.
    pub open spec fn reply(self, msg: ItemMessage) -> Option<Envelope> {
        match msg {
            ItemMessage::Give(item, quantity, reply_to) => {
                let given = self.admitted(item, quantity as nat);
                if given < quantity {
                    Some(
                        Envelope {
                            to: reply_to,
                            message: ItemMessage::GiveOrDrop(item, (quantity - given) as u32),
                        },
                    )
                } else {
                    None
                }
            },
            ItemMessage::GiveOrDrop(_, _) => None,
            ItemMessage::Trade(offer, want, reply_to) => if self.trade_succeeds(offer, want) {
                Some(Envelope { to: reply_to, message: ItemMessage::GiveOrDrop(want.0, want.1) })
            } else {
                Some(Envelope { to: reply_to, message: ItemMessage::GiveOrDrop(offer.0, offer.1) })
            },
            ItemMessage::Take(item, quantity, reply_to) => Some(
                Envelope {
                    to: reply_to,
                    message: ItemMessage::GiveOrDrop(
                        item,
                        self.yielded(item, quantity as nat) as u32,
                    ),
                },
            ),
            ItemMessage::Remove(_, _) => None,
        }
    }

    /// The store after it has applied every message of `msgs`, first to last.
    pub open spec fn apply_all(self, msgs: Seq<ItemMessage>) -> Stock
        decreases msgs.len(),
    {
        if msgs.len() == 0 {
            self
        } else {
            self.apply_all(msgs.drop_last()).apply(msgs.last())
        }
    }

    /// The messages sent while applying every message of `msgs`, in the order sent.
    pub open spec fn replies(self, msgs: Seq<ItemMessage>) -> Seq<Envelope>
        decreases msgs.len(),
    {
        if msgs.len() == 0 {
            Seq::empty()
        } else {
            let before = self.replies(msgs.drop_last());
            match self.apply_all(msgs.drop_last()).reply(msgs.last()) {
                Some(envelope) => before.push(envelope),
                None => before,
            }
        }
    }
}

/// The total weight of a store is the sum over the items of quantity times unit
/// weight.
pub proof fn lemma_weight_is_sum(stock: Stock)
    ensures
        stock.weight() == stock.count(Item::Food) * Item::Food.unit_weight() + stock.count(
            Item::Money,
        ) * Item::Money.unit_weight() + stock.count(Item::Water) * Item::Water.unit_weight(),
{
    assert(stock.count(Item::Food) * Item::Food.unit_weight() == 10 * stock.food);
    assert(stock.count(Item::Money) * Item::Money.unit_weight() == stock.money);
    assert(stock.count(Item::Water) * Item::Water.unit_weight() == 10 * stock.water);
}

/// A quantity is within the room of a store exactly where its weight and the
/// weight held are together no more than the capacity.
pub proof fn lemma_room_is_free_weight(stock: Stock, item: Item, n: nat)
    requires
        stock.wf(),
    ensures
        n <= stock.room(item) <==> stock.weight() + n * item.unit_weight() <= stock.capacity,
{
    let free = stock.capacity - stock.weight();
    match item {
        Item::Food => {
            assert(n * item.unit_weight() == 10 * n);
            assert(n <= free / 10 <==> 10 * n <= free);
        },
        Item::Money => {
            assert(n * item.unit_weight() == n);
        },
        Item::Water => {
            assert(n * item.unit_weight() == 10 * n);
            assert(n <= free / 10 <==> 10 * n <= free);
        },
    }
}

/// Adding what the room admits keeps a store well formed, and removing what is held
/// does too.
pub proof fn lemma_plus_minus_wf(stock: Stock, item: Item, n: nat)
    requires
        stock.wf(),
    ensures
        n <= stock.room(item) ==> stock.plus(item, n).wf() && stock.plus(item, n).weight()
            == stock.weight() + n * item.unit_weight(),
        n <= stock.count(item) ==> stock.minus(item, n).wf() && stock.minus(item, n).weight()
            == stock.weight() - n * item.unit_weight(),
{
    let free = stock.capacity - stock.weight();
    match item {
        Item::Food => {
            assert(n * item.unit_weight() == 10 * n);
            assert(n <= free / 10 ==> 10 * n <= free);
        },
        Item::Money => {
            assert(n * item.unit_weight() == n);
        },
        Item::Water => {
            assert(n * item.unit_weight() == 10 * n);
            assert(n <= free / 10 ==> 10 * n <= free);
        },
    }
}

/// What was removed from a store fits back into it, and putting it back restores
/// the store.
pub proof fn lemma_minus_then_plus(stock: Stock, item: Item, n: nat)
    requires
        stock.wf(),
        n <= stock.count(item),
    ensures
        n <= stock.minus(item, n).room(item),
        stock.minus(item, n).plus(item, n) == stock,
{
    let less = stock.minus(item, n);
    let free = less.capacity - less.weight();
    match item {
        Item::Food => {
            assert(free >= 10 * n);
            assert(free / 10 >= n);
        },
        Item::Money => {
            assert(free >= n);
        },
        Item::Water => {
            assert(free >= 10 * n);
            assert(free / 10 >= n);
        },
    }
}

/// Applying a message keeps a store well formed.
pub proof fn lemma_apply_wf(stock: Stock, msg: ItemMessage)
    requires
        stock.wf(),
    ensures
        stock.apply(msg).wf(),
{
    match msg {
        ItemMessage::Give(item, quantity, _) => {
            lemma_plus_minus_wf(stock, item, stock.admitted(item, quantity as nat));
        },
        ItemMessage::GiveOrDrop(item, quantity) => {
            lemma_plus_minus_wf(stock, item, stock.admitted(item, quantity as nat));
        },
        ItemMessage::Trade(offer, want, _) => {
            if stock.trade_succeeds(offer, want) {
                lemma_plus_minus_wf(stock, want.0, want.1 as nat);
                lemma_plus_minus_wf(stock.minus(want.0, want.1 as nat), offer.0, offer.1 as nat);
            }
        },
        ItemMessage::Take(item, quantity, _) => {
            lemma_plus_minus_wf(stock, item, stock.yielded(item, quantity as nat));
        },
        ItemMessage::Remove(item, quantity) => {
            lemma_plus_minus_wf(stock, item, stock.yielded(item, quantity as nat));
        },
    }
}

/// Whatever messages a store applies, in whatever order, its total weight is within
/// its capacity after each one of them: after the first `k`, for every `k`.
pub proof fn lemma_weight_within_capacity(stock: Stock, msgs: Seq<ItemMessage>, k: int)
    requires
        stock.wf(),
        0 <= k <= msgs.len(),
    ensures
        stock.apply_all(msgs.take(k)).wf(),
        stock.apply_all(msgs.take(k)).weight() <= stock.capacity,
        stock.apply_all(msgs.take(k)).capacity == stock.capacity,
    decreases k,
{
    if k > 0 {
        lemma_weight_within_capacity(stock, msgs, k - 1);
        assert(msgs.take(k).drop_last() == msgs.take(k - 1));
        let before = stock.apply_all(msgs.take(k - 1));
        lemma_apply_wf(before, msgs.take(k).last());
        lemma_apply_keeps_capacity(before, msgs.take(k).last());
    }
}

/// No message changes the capacity of the store that applies it.
pub proof fn lemma_apply_keeps_capacity(stock: Stock, msg: ItemMessage)
    ensures
        stock.apply(msg).capacity == stock.capacity,
{
    match msg {
        ItemMessage::Give(item, _, _) => lemma_with_count_keeps_capacity(stock, item),
        ItemMessage::GiveOrDrop(item, _) => lemma_with_count_keeps_capacity(stock, item),
        ItemMessage::Trade(offer, want, _) => {
            lemma_with_count_keeps_capacity(stock, want.0);
            lemma_with_count_keeps_capacity(stock.minus(want.0, want.1 as nat), offer.0);
        },
        ItemMessage::Take(item, _, _) => lemma_with_count_keeps_capacity(stock, item),
        ItemMessage::Remove(item, _) => lemma_with_count_keeps_capacity(stock, item),
    }
}

proof fn lemma_with_count_keeps_capacity(stock: Stock, item: Item)
    ensures
        forall|n: nat| (#[trigger] stock.with_count(item, n)).capacity == stock.capacity,
{
    match item {
        Item::Food => {},
        Item::Money => {},
        Item::Water => {},
    }
}

/// Applying one sequence of messages and then another is applying the two in a
/// row.
pub proof fn lemma_apply_all_in_turn(stock: Stock, first: Seq<ItemMessage>, then: Seq<ItemMessage>)
    ensures
        stock.apply_all(first + then) == stock.apply_all(first).apply_all(then),
    decreases then.len(),
{
    if then.len() == 0 {
        assert(first + then =~= first);
    } else {
        lemma_apply_all_in_turn(stock, first, then.drop_last());
        assert((first + then).drop_last() =~= first + then.drop_last());
        assert((first + then).last() == then.last());
    }
}

/// A take removes what it answers with: the quantity in its answer is no more than
/// the request and no more than was held, and the store holds exactly that much
/// less of the item afterwards, and as much as before of every other item.
pub proof fn lemma_take_removes_its_answer(
    stock: Stock,
    item: Item,
    quantity: u32,
    reply_to: usize,
)
    requires
        stock.wf(),
    ensures
        ({
            let msg = ItemMessage::Take(item, quantity, reply_to);
            let taken = stock.yielded(item, quantity as nat);
            &&& 0 <= taken <= quantity
            &&& taken <= stock.count(item)
            &&& taken == quantity || taken == stock.count(item)
            &&& stock.reply(msg) == Some(
                Envelope { to: reply_to, message: ItemMessage::GiveOrDrop(item, taken as u32) },
            )
            &&& stock.apply(msg).count(item) == stock.count(item) - taken
            &&& forall|other: Item|
                other != item ==> #[trigger] stock.apply(msg).count(other) == stock.count(other)
        }),
{
    match item {
        Item::Food => {},
        Item::Money => {},
        Item::Water => {},
    }
}

/// A trade is all or nothing. Where it goes through, the store has given up exactly
/// the wanted quantity and gained exactly the offer, and it sends the wanted items to
/// the store that asked. Where it does not, the store is exactly as it was, and it
/// sends the whole offer back.
pub proof fn lemma_trade_all_or_nothing(
    stock: Stock,
    offer: (Item, u32),
    want: (Item, u32),
    reply_to: usize,
)
    requires
        stock.wf(),
    ensures
        ({
            let msg = ItemMessage::Trade(offer, want, reply_to);
            let after = stock.apply(msg);
            if stock.trade_succeeds(offer, want) {
                &&& forall|item: Item|
                    #[trigger] after.count(item) == stock.count(item) - (if item == want.0 {
                        want.1 as int
                    } else {
                        0
                    }) + (if item == offer.0 {
                        offer.1 as int
                    } else {
                        0
                    })
                &&& stock.reply(msg) == Some(
                    Envelope { to: reply_to, message: ItemMessage::GiveOrDrop(want.0, want.1) },
                )
            } else {
                &&& after == stock
                &&& stock.reply(msg) == Some(
                    Envelope { to: reply_to, message: ItemMessage::GiveOrDrop(offer.0, offer.1) },
                )
            }
        }),
{
    match want.0 {
        Item::Food => {},
        Item::Money => {},
        Item::Water => {},
    }
    match offer.0 {
        Item::Food => {},
        Item::Money => {},
        Item::Water => {},
    }
}

/// A capacity-bounded holder of countable resources: a quantity for each kind of
/// item, zero for a kind never added, and the greatest total weight it may hold.
pub struct Inventory {
    food: u64,
    money: u64,
    water: u64,
    capacity: u64,
}

impl View for Inventory {
    type V = Stock;

    closed spec fn view(&self) -> Stock {
        Stock {
            food: self.food as nat,
            money: self.money as nat,
            water: self.water as nat,
            capacity: self.capacity as nat,
        }
    }
}

impl Inventory {
    #[verifier::type_invariant]
    spec fn within_capacity(self) -> bool {
        self@.weight() <= self.capacity
    }

    /// An empty store with the given capacity, in tenths of a weight unit.
    pub fn new(capacity: u64) -> (store: Inventory)
        ensures
            store@ == (Stock { food: 0, money: 0, water: 0, capacity: capacity as nat }),
            store@.wf(),
    {
        Inventory { food: 0, money: 0, water: 0, capacity }
    }

    /// The capacity, in tenths of a weight unit.
    pub fn capacity(&self) -> (c: u64)
        ensures
            c == self@.capacity,
    {
        self.capacity
    }

    /// The quantity held of `item`; zero for an item never added.
    pub fn count(&self, item: Item) -> (n: u64)
        ensures
            n == self@.count(item),
    {
        match item {
            Item::Food => self.food,
            Item::Money => self.money,
            Item::Water => self.water,
        }
    }

    /// The total weight held, in tenths of a weight unit.
    pub fn weight(&self) -> (w: u64)
        ensures
            w == self@.weight(),
            w <= self@.capacity,
    {
        proof {
            use_type_invariant(self);
        }
        self.food * 10 + self.money + self.water * 10
    }

    fn set_count(&mut self, item: Item, n: u64)
        requires
            old(self)@.with_count(item, n as nat).weight() <= old(self)@.capacity,
        ensures
            final(self)@ == old(self)@.with_count(item, n as nat),
    {
        match item {
            Item::Food => {
                self.food = n;
            },
            Item::Money => {
                self.money = n;
            },
            Item::Water => {
                self.water = n;
            },
        }
    }

    /// How many more units of `item` fit.
    pub fn room(&self, item: Item) -> (n: u64)
        ensures
            n == self@.room(item),
    {
        let free: u64 = self.capacity - self.weight();
        free / item.weight()
    }

    /// Adds `received_quantity` units of `received_item` if all of them fit, and
    /// nothing otherwise; says whether it added them. They fit where their weight
    /// and the weight held are together no more than the capacity.
    pub fn do_give_exact(&mut self, received_item: Item, received_quantity: u32) -> (done: bool)
        ensures
            done == (old(self)@.weight() + received_quantity * received_item.unit_weight() <= old(
                self,
            )@.capacity),
            done == (received_quantity <= old(self)@.room(received_item)),
            done ==> final(self)@ == old(self)@.plus(received_item, received_quantity as nat),
            !done ==> final(self)@ == old(self)@,
            final(self)@.wf(),
    {
        proof {
            use_type_invariant(&*self);
            lemma_plus_minus_wf(self@, received_item, received_quantity as nat);
            lemma_room_is_free_weight(self@, received_item, received_quantity as nat);
        }
        if received_quantity as u64 <= self.room(received_item) {
            let held = self.count(received_item);
            self.set_count(received_item, held + received_quantity as u64);
            true
        } else {
            false
        }
    }

    /// Adds as many of `received_quantity` units of `received_item` as fit, and
    /// returns how many it added: the smaller of the request and what the free
    /// weight carries.
    pub fn do_give_up_to(&mut self, received_item: Item, received_quantity: u32) -> (given: u32)
        ensures
            given == old(self)@.admitted(received_item, received_quantity as nat),
            final(self)@ == old(self)@.give_up_to(received_item, received_quantity as nat),
            final(self)@.wf(),
    {
        let room = self.room(received_item);
        let given: u32 = if received_quantity as u64 <= room {
            received_quantity
        } else {
            room as u32
        };
        proof {
            use_type_invariant(&*self);
            lemma_plus_minus_wf(self@, received_item, given as nat);
        }
        let held = self.count(received_item);
        self.set_count(received_item, held + given as u64);
        given
    }

    /// Removes `taken_quantity` units of `taken_item` if that many are held, and
    /// nothing otherwise; says whether it removed them.
    pub fn do_take_exact(&mut self, taken_item: Item, taken_quantity: u32) -> (done: bool)
        ensures
            done == (taken_quantity <= old(self)@.count(taken_item)),
            done ==> final(self)@ == old(self)@.minus(taken_item, taken_quantity as nat),
            !done ==> final(self)@ == old(self)@,
            final(self)@.wf(),
    {
        let held = self.count(taken_item);
        proof {
            use_type_invariant(&*self);
            lemma_plus_minus_wf(self@, taken_item, taken_quantity as nat);
        }
        if taken_quantity as u64 <= held {
            self.set_count(taken_item, held - taken_quantity as u64);
            true
        } else {
            false
        }
    }

    /// Removes up to `taken_quantity` units of `taken_item` and returns how many it
    /// removed: the smaller of the request and what was held.
    pub fn do_take_up_to(&mut self, taken_item: Item, taken_quantity: u32) -> (taken: u32)
        ensures
            taken == old(self)@.yielded(taken_item, taken_quantity as nat),
            taken <= taken_quantity,
            taken <= old(self)@.count(taken_item),
            final(self)@ == old(self)@.take_up_to(taken_item, taken_quantity as nat),
            final(self)@.count(taken_item) == old(self)@.count(taken_item) - taken,
            final(self)@.wf(),
    {
        let held = self.count(taken_item);
        let taken: u32 = if taken_quantity as u64 <= held {
            taken_quantity
        } else {
            held as u32
        };
        proof {
            use_type_invariant(&*self);
            lemma_plus_minus_wf(self@, taken_item, taken as nat);
        }
        self.set_count(taken_item, held - taken as u64);
        taken
    }
    /// What the store holds, a line for each item: food, money, water.
    pub fn description_lines(&self) -> (lines: Vec<String>)
        ensures
            lines@.len() == 3,
            lines[0]@ == "Food: "@ + decimal_text(self@.food, 1),
            lines[1]@ == "Money: "@ + decimal_text(self@.money, 1),
            lines[2]@ == "Water: "@ + decimal_text(self@.water, 1),
    {
        let mut lines: Vec<String> = Vec::new();
        lines.push(String::from_str("Food: ").concat(decimal(self.food, 1).as_str()));
        lines.push(String::from_str("Money: ").concat(decimal(self.money, 1).as_str()));
        lines.push(String::from_str("Water: ").concat(decimal(self.water, 1).as_str()));
        lines
    }

    /// Applies one message and returns the message that this sends, if any.
    pub fn process_msg(&mut self, msg: ItemMessage) -> (reply: Option<Envelope>)
        ensures
            final(self)@ == old(self)@.apply(msg),
            reply == old(self)@.reply(msg),
            final(self)@.wf(),
    {
        proof {
            use_type_invariant(&*self);
            lemma_apply_wf(self@, msg);
        }
        match msg {
            ItemMessage::Give(received_item, received_quantity, ack_id) => {
                let given_quantity = self.do_give_up_to(received_item, received_quantity);
                let ungiven = received_quantity - given_quantity;
                if ungiven > 0 {
                    Some(
                        Envelope {
                            to: ack_id,
                            message: ItemMessage::GiveOrDrop(received_item, ungiven),
                        },
                    )
                } else {
                    None
                }
            },
            ItemMessage::GiveOrDrop(received_item, received_quantity) => {
                self.do_give_up_to(received_item, received_quantity);
                None
            },
            ItemMessage::Trade(
                (received_item, received_quantity),
                (requested_item, requested_quantity),
                ack_id,
            ) => {
                if self.do_take_exact(requested_item, requested_quantity) {
                    if self.do_give_exact(received_item, received_quantity) {
                        Some(
                            Envelope {
                                to: ack_id,
                                message: ItemMessage::GiveOrDrop(
                                    requested_item,
                                    requested_quantity,
                                ),
                            },
                        )
                    } else {
                        proof {
                            lemma_minus_then_plus(
                                old(self)@,
                                requested_item,
                                requested_quantity as nat,
                            );
                        }
                        self.do_give_up_to(requested_item, requested_quantity);
                        Some(
                            Envelope {
                                to: ack_id,
                                message: ItemMessage::GiveOrDrop(received_item, received_quantity),
                            },
                        )
                    }
                } else {
                    Some(
                        Envelope {
                            to: ack_id,
                            message: ItemMessage::GiveOrDrop(received_item, received_quantity),
                        },
                    )
                }
            },
            ItemMessage::Take(taken_item, taken_quantity, ack_id) => {
                let taken = self.do_take_up_to(taken_item, taken_quantity);
                Some(Envelope { to: ack_id, message: ItemMessage::GiveOrDrop(taken_item, taken) })
            },
            ItemMessage::Remove(taken_item, taken_quantity) => {
                let _ = self.do_take_up_to(taken_item, taken_quantity);
                None
            },
        }
    }

    /// Applies every message of `inbox` once, first to last, and returns the messages
    /// that this sends, in the order sent. None of them is applied here, whichever
    /// store it is addressed to.
    pub fn receive_all(&mut self, inbox: &Vec<ItemMessage>) -> (sent: Vec<Envelope>)
        ensures
            final(self)@ == old(self)@.apply_all(inbox@),
            sent@ == old(self)@.replies(inbox@),
            final(self)@.wf(),
    {
        let mut sent: Vec<Envelope> = Vec::new();
        let mut i: usize = 0;
        proof {
            use_type_invariant(&*self);
            assert(inbox@.take(0) == Seq::<ItemMessage>::empty());
        }
        while i < inbox.len()
            invariant
                i <= inbox.len(),
                self@ == old(self)@.apply_all(inbox@.take(i as int)),
                sent@ == old(self)@.replies(inbox@.take(i as int)),
                self@.wf(),
            decreases inbox.len() - i,
        {
            proof {
                assert(inbox@.take(i + 1).drop_last() == inbox@.take(i as int));
            }
            match self.process_msg(inbox[i]) {
                Some(envelope) => {
                    sent.push(envelope);
                },
                None => {},
            }
            i = i + 1;
        }
        proof {
            assert(inbox@.take(i as int) == inbox@);
        }
        sent
    }
}

} // verus!
