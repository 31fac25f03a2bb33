//! In-process message bus: which subscriptions a publisher reaches, and which
//! hosted services and actions answer to which name.
use std::collections::HashMap;
use vstd::prelude::*;
use crate::backend::{
    bump, next_number, ActionServerId, BackendError, PublisherId, ServiceServerId, SubscriptionId,
};
use crate::cdr::{le_bytes, Endian};
use crate::dict::Dict;
use crate::json::JsonValue;
use crate::text::{concat2, decimal, decimal_chars, to_text};

verus! {

broadcast use vstd::std_specs::hash::group_hash_axioms;

/// The bus of one server. Handles are numbered in the order in which they are given
/// out.
pub struct Bus {
    /// topic -> active subscriptions.
    topic_subs: Dict<Vec<SubscriptionId>>,
    /// publisher id -> topic.
    publishers: HashMap<u64, String>,
    /// subscription id -> topic (for cleanup).
    sub_topic: HashMap<u64, String>,
    /// service name -> server.
    services: Dict<ServiceServerId>,
    service_names: HashMap<u64, String>,
    /// action name -> server.
    actions: Dict<ActionServerId>,
    action_names: HashMap<u64, String>,
    counter: u64,
}

/// A bus as mathematics.
#[verifier::ext_equal]
pub ghost struct BusModel {
    pub topic_subs: Map<Seq<char>, Seq<SubscriptionId>>,
    pub publishers: Map<u64, Seq<char>>,
    pub sub_topic: Map<u64, Seq<char>>,
    pub services: Map<Seq<char>, ServiceServerId>,
    pub service_names: Map<u64, Seq<char>>,
    pub actions: Map<Seq<char>, ActionServerId>,
    pub action_names: Map<u64, Seq<char>>,
    pub counter: u64,
}

impl View for Bus {
    type V = BusModel;

    closed spec fn view(&self) -> BusModel {
        BusModel {
            topic_subs: self.topic_subs@.map_values(|v: Vec<SubscriptionId>| v@),
            publishers: self.publishers@.map_values(|s: String| s@),
            sub_topic: self.sub_topic@.map_values(|s: String| s@),
            services: self.services@,
            service_names: self.service_names@.map_values(|s: String| s@),
            actions: self.actions@,
            action_names: self.action_names@.map_values(|s: String| s@),
            counter: self.counter,
        }
    }
}

/// The subscriptions of a topic.
pub open spec fn reached(b: BusModel, topic: Seq<char>) -> Seq<SubscriptionId> {
    if b.topic_subs.dom().contains(topic) {
        b.topic_subs[topic]
    } else {
        Seq::empty()
    }
}

/// The subscriptions but for those in `gone`.
pub open spec fn without(subs: Seq<SubscriptionId>, gone: Seq<SubscriptionId>) -> Seq<
    SubscriptionId,
>
    decreases subs.len(),
{
    if subs.len() == 0 {
        Seq::empty()
    } else {
        let rest = without(subs.drop_last(), gone);
        if gone.contains(subs.last()) {
            rest
        } else {
            rest.push(subs.last())
        }
    }
}

/// A bus with a new publisher.
pub open spec fn with_publisher(b: BusModel, topic: Seq<char>) -> BusModel {
    BusModel {
        publishers: b.publishers.insert(b.counter, topic),
        counter: next_number(b.counter),
        ..b
    }
}

/// A bus without the subscriptions of a publisher's topic that could not be reached.
pub open spec fn pruned(b: BusModel, id: PublisherId, gone: Seq<SubscriptionId>) -> BusModel {
    if b.publishers.dom().contains(id.0) && b.topic_subs.dom().contains(b.publishers[id.0]) {
        let topic = b.publishers[id.0];
        BusModel {
            topic_subs: b.topic_subs.insert(topic, without(b.topic_subs[topic], gone)),
            ..b
        }
    } else {
        b
    }
}

/// A bus with a new subscription.
pub open spec fn with_subscription(b: BusModel, topic: Seq<char>) -> BusModel {
    BusModel {
        topic_subs: b.topic_subs.insert(
            topic,
            reached(b, topic).push(SubscriptionId(b.counter)),
        ),
        sub_topic: b.sub_topic.insert(b.counter, topic),
        counter: next_number(b.counter),
        ..b
    }
}

/// A bus without a subscription.
pub open spec fn without_subscription(b: BusModel, id: SubscriptionId) -> BusModel {
    if b.sub_topic.dom().contains(id.0) {
        let topic = b.sub_topic[id.0];
        BusModel {
            sub_topic: b.sub_topic.remove(id.0),
            topic_subs: if b.topic_subs.dom().contains(topic) {
                b.topic_subs.insert(topic, without(b.topic_subs[topic], seq![id]))
            } else {
                b.topic_subs
            },
            ..b
        }
    } else {
        b
    }
}

/// A bus with a new service server.
pub open spec fn with_service(b: BusModel, service: Seq<char>) -> BusModel {
    BusModel {
        services: b.services.insert(service, ServiceServerId(b.counter)),
        service_names: b.service_names.insert(b.counter, service),
        counter: next_number(b.counter),
        ..b
    }
}

/// A bus without a service server.
pub open spec fn without_service(b: BusModel, id: ServiceServerId) -> BusModel {
    if b.service_names.dom().contains(id.0) {
        BusModel {
            services: b.services.remove(b.service_names[id.0]),
            service_names: b.service_names.remove(id.0),
            ..b
        }
    } else {
        b
    }
}

/// A bus with a new action server.
pub open spec fn with_action(b: BusModel, action: Seq<char>) -> BusModel {
    BusModel {
        actions: b.actions.insert(action, ActionServerId(b.counter)),
        action_names: b.action_names.insert(b.counter, action),
        counter: next_number(b.counter),
        ..b
    }
}

/// A bus without an action server.
pub open spec fn without_action(b: BusModel, id: ActionServerId) -> BusModel {
    if b.action_names.dom().contains(id.0) {
        BusModel {
            actions: b.actions.remove(b.action_names[id.0]),
            action_names: b.action_names.remove(id.0),
            ..b
        }
    } else {
        b
    }
}

fn copy_ids(v: &Vec<SubscriptionId>) -> (r: Vec<SubscriptionId>)
    ensures
        r@ == v@,
{
    let mut out: Vec<SubscriptionId> = Vec::new();
    for i in 0..v.len()
        invariant
            out@ == v@.take(i as int),
    {
        out.push(v[i]);
        assert(v@.take(i as int + 1) =~= v@.take(i as int).push(v@[i as int]));
    }
    assert(v@.take(v@.len() as int) =~= v@);
    out
}

fn has_id(v: &Vec<SubscriptionId>, id: SubscriptionId) -> (r: bool)
    ensures
        r == v@.contains(id),
{
    for i in 0..v.len()
        invariant
            forall|j: int| 0 <= j < i ==> v@[j] != id,
    {
        if v[i].0 == id.0 {
            assert(v@[i as int] == id);
            return true;
        }
    }
    false
}

fn drop_ids(v: &Vec<SubscriptionId>, gone: &Vec<SubscriptionId>) -> (r: Vec<SubscriptionId>)
    ensures
        r@ == without(v@, gone@),
{
    let mut out: Vec<SubscriptionId> = Vec::new();
    assert(v@.take(0) =~= Seq::empty());
    for i in 0..v.len()
        invariant
            out@ == without(v@.take(i as int), gone@),
    {
        assert(v@.take(i as int + 1).drop_last() =~= v@.take(i as int));
        if !has_id(gone, v[i]) {
            out.push(v[i]);
        }
    }
    assert(v@.take(v@.len() as int) =~= v@);
    out
}

impl Bus {
    /// A bus without any handle.
    pub fn new() -> (r: Self)
        ensures
            r@ == new_bus(),
    {
        let r = Bus {
            topic_subs: Dict::new(),
            publishers: HashMap::new(),
            sub_topic: HashMap::new(),
            services: Dict::new(),
            service_names: HashMap::new(),
            actions: Dict::new(),
            action_names: HashMap::new(),
            counter: 0,
        };
        assert(r@ =~= new_bus());
        r
    }

    /// The next number.
    pub fn next_id(&mut self) -> (r: u64)
        ensures
            r == old(self)@.counter,
            final(self)@ == (BusModel { counter: next_number(old(self)@.counter), ..old(self)@ }),
    {
        let n = self.counter;
        self.counter = bump(n);
        n
    }

    /// A publisher on a topic.
    pub fn advertise(&mut self, topic: &str) -> (r: PublisherId)
        ensures
            r == PublisherId(old(self)@.counter),
            final(self)@ == with_publisher(old(self)@, topic@),
    {
        let ghost before = self@;
        let n = self.next_id();
        self.publishers.insert(n, topic.to_owned());
        assert(self@.publishers =~= before.publishers.insert(n, topic@));
        PublisherId(n)
    }

    /// The subscriptions that a message of a publisher goes to.
    pub fn publish(&self, id: PublisherId) -> (r: Result<Vec<SubscriptionId>, BackendError>)
        ensures
            match r {
                Ok(v) => self@.publishers.dom().contains(id.0) && v@ == reached(
                    self@,
                    self@.publishers[id.0],
                ),
                Err(e) => !self@.publishers.dom().contains(id.0) && (
                e matches BackendError::Failed(s) && s@ == "unknown publisher"@),
            },
    {
        match self.publishers.get(&id.0) {
            Some(topic) => match self.topic_subs.get(topic.as_str()) {
                Some(v) => Ok(copy_ids(v)),
                None => Ok(Vec::new()),
            },
            None => Err(BackendError::Failed("unknown publisher".to_owned())),
        }
    }

    /// Forgets the subscriptions of a publisher's topic that could not be reached.
    pub fn prune(&mut self, id: PublisherId, gone: &Vec<SubscriptionId>)
        ensures
            final(self)@ == pruned(old(self)@, id, gone@),
    {
        let ghost before = self@;
        if let Some(topic) = self.publishers.get(&id.0) {
            let name = topic.as_str().to_owned();
            if let Some(v) = self.topic_subs.get(name.as_str()) {
                let left = drop_ids(v, gone);
                let ghost t = name@;
                self.topic_subs.insert(name, left);
                assert(self@.topic_subs =~= before.topic_subs.insert(t, left@));
            }
        }
    }

    /// Destroys a publisher.
    pub fn unadvertise(&mut self, id: PublisherId)
        ensures
            final(self)@ == (BusModel {
                publishers: old(self)@.publishers.remove(id.0),
                ..old(self)@
            }),
    {
        let ghost before = self@;
        self.publishers.remove(&id.0);
        assert(self@.publishers =~= before.publishers.remove(id.0));
    }

    /// A subscription to a topic.
    pub fn subscribe(&mut self, topic: &str) -> (r: SubscriptionId)
        ensures
            r == SubscriptionId(old(self)@.counter),
            final(self)@ == with_subscription(old(self)@, topic@),
    {
        let ghost before = self@;
        let id = SubscriptionId(self.next_id());
        let mut subs = match self.topic_subs.get(topic) {
            Some(v) => copy_ids(v),
            None => Vec::new(),
        };
        assert(subs@ =~= reached(before, topic@));
        subs.push(id);
        self.topic_subs.insert(topic.to_owned(), subs);
        self.sub_topic.insert(id.0, topic.to_owned());
        assert(self@.topic_subs =~= before.topic_subs.insert(topic@, subs@));
        assert(self@.sub_topic =~= before.sub_topic.insert(id.0, topic@));
        id
    }

    /// Destroys a subscription.
    pub fn unsubscribe(&mut self, id: SubscriptionId)
        ensures
            final(self)@ == without_subscription(old(self)@, id),
    {
        let ghost before = self@;
        let found = self.sub_topic.remove(&id.0);
        assert(self@.sub_topic =~= before.sub_topic.remove(id.0));
        match found {
            Some(name) => {
                if let Some(v) = self.topic_subs.get(name.as_str()) {
                    let mut gone: Vec<SubscriptionId> = Vec::new();
                    gone.push(id);
                    assert(gone@ =~= seq![id]);
                    let left = drop_ids(v, &gone);
                    let ghost t = name@;
                    self.topic_subs.insert(name, left);
                    assert(self@.topic_subs =~= before.topic_subs.insert(t, left@));
                }
            },
            None => {
                assert(self@.sub_topic =~= before.sub_topic);
            },
        }
    }

    /// A server that hosts a service; a later one takes the name over.
    pub fn advertise_service(&mut self, service: &str) -> (r: ServiceServerId)
        ensures
            r == ServiceServerId(old(self)@.counter),
            final(self)@ == with_service(old(self)@, service@),
    {
        let ghost before = self@;
        let id = ServiceServerId(self.next_id());
        self.services.insert(service.to_owned(), id);
        self.service_names.insert(id.0, service.to_owned());
        assert(self@.service_names =~= before.service_names.insert(id.0, service@));
        id
    }

    /// The server that answers to a service name.
    pub fn service_server(&self, service: &str) -> (r: Result<ServiceServerId, BackendError>)
        ensures
            match r {
                Ok(id) => self@.services.dom().contains(service@) && id == self@.services[service@],
                Err(e) => !self@.services.dom().contains(service@) && (
                e matches BackendError::Failed(s) && s@ == "service "@ + service@
                    + " not available"@),
            },
    {
        match self.services.get(service) {
            Some(id) => Ok(*id),
            None => {
                let mut s = "service ".to_owned();
                s.append(service);
                s.append(" not available");
                Err(BackendError::Failed(s))
            },
        }
    }

    /// Stops hosting a service.
    pub fn unadvertise_service(&mut self, id: ServiceServerId)
        ensures
            final(self)@ == without_service(old(self)@, id),
    {
        let ghost before = self@;
        let found = self.service_names.remove(&id.0);
        assert(self@.service_names =~= before.service_names.remove(id.0));
        match found {
            Some(name) => {
                let dropped = self.services.remove(name.as_str());
            },
            None => {
                assert(self@.service_names =~= before.service_names);
            },
        }
    }

    /// A server that hosts an action; a later one takes the name over.
    pub fn advertise_action(&mut self, action: &str) -> (r: ActionServerId)
        ensures
            r == ActionServerId(old(self)@.counter),
            final(self)@ == with_action(old(self)@, action@),
    {
        let ghost before = self@;
        let id = ActionServerId(self.next_id());
        self.actions.insert(action.to_owned(), id);
        self.action_names.insert(id.0, action.to_owned());
        assert(self@.action_names =~= before.action_names.insert(id.0, action@));
        id
    }

    /// The server that answers to an action name.
    pub fn action_server(&self, action: &str) -> (r: Result<ActionServerId, BackendError>)
        ensures
            match r {
                Ok(id) => self@.actions.dom().contains(action@) && id == self@.actions[action@],
                Err(e) => !self@.actions.dom().contains(action@) && (
                e matches BackendError::Failed(s) && s@ == "action "@ + action@
                    + " not available"@),
            },
    {
        match self.actions.get(action) {
            Some(id) => Ok(*id),
            None => {
                let mut s = "action ".to_owned();
                s.append(action);
                s.append(" not available");
                Err(BackendError::Failed(s))
            },
        }
    }

    /// Stops hosting an action server.
    pub fn unadvertise_action(&mut self, id: ActionServerId)
        ensures
            final(self)@ == without_action(old(self)@, id),
    {
        let ghost before = self@;
        let found = self.action_names.remove(&id.0);
        assert(self@.action_names =~= before.action_names.remove(id.0));
        match found {
            Some(name) => {
                let dropped = self.actions.remove(name.as_str());
            },
            None => {
                assert(self@.action_names =~= before.action_names);
            },
        }
    }

    /// The id of a new goal at the time `nanos`.
    pub fn make_goal_id(&mut self, nanos: u64) -> (r: [u8; 16])
        ensures
            r@ == goal_id(old(self)@.counter, nanos),
            final(self)@ == (BusModel { counter: next_number(old(self)@.counter), ..old(self)@ }),
    {
        let n = self.next_id();
        goal_bytes(n, nanos)
    }
}

/// The bytes of a goal id: a number and a time, each least significant byte first.
pub open spec fn goal_id(n: u64, nanos: u64) -> Seq<u8> {
    le_bytes(n as nat, 8) + le_bytes(nanos as nat, 8)
}

fn goal_bytes(n: u64, nanos: u64) -> (r: [u8; 16])
    ensures
        r@ == goal_id(n, nanos),
{
    let mut w = crate::cdr::CdrWriter::new(Endian::Little);
    w.write_u64(n);
    w.write_u64(nanos);
    let b = w.into_bytes();
    proof {
        crate::cdr::le_bytes_have_value(n as nat, 8);
        crate::cdr::le_bytes_have_value(nanos as nat, 8);
    }
    assert(b@.len() == 20);
    assert(b@.skip(4) =~= goal_id(n, nanos));
    let r: [u8; 16] = [
        b[4],
        b[5],
        b[6],
        b[7],
        b[8],
        b[9],
        b[10],
        b[11],
        b[12],
        b[13],
        b[14],
        b[15],
        b[16],
        b[17],
        b[18],
        b[19],
    ];
    assert(r@ =~= goal_id(n, nanos)) by {
        assert forall|i: int| 0 <= i < 16 implies #[trigger] r@[i] == b@.skip(4)[i] by {
        }
    }
    r
}

/// What came of a request to a hosted service.
pub enum ServiceReply {
    /// The server answered, with values or with a failure.
    Answered(Option<JsonValue>),
    /// The server went away without an answer.
    Dropped,
    /// No answer came in time.
    TimedOut,
}

/// What the caller of a service gets.
pub fn service_outcome(reply: ServiceReply) -> (r: Result<JsonValue, BackendError>)
    ensures
        match reply {
            ServiceReply::Answered(Some(v)) => r == Ok::<JsonValue, BackendError>(v),
            ServiceReply::Answered(None) => r matches Err(BackendError::Failed(s)) && s@
                == "service returned failure"@,
            ServiceReply::Dropped => r matches Err(BackendError::Failed(s)) && s@
                == "service server dropped"@,
            ServiceReply::TimedOut => r == Err::<JsonValue, BackendError>(BackendError::Timeout),
        },
{
    match reply {
        ServiceReply::Answered(Some(v)) => Ok(v),
        ServiceReply::Answered(None) => Err(
            BackendError::Failed("service returned failure".to_owned()),
        ),
        ServiceReply::Dropped => Err(BackendError::Failed("service server dropped".to_owned())),
        ServiceReply::TimedOut => Err(BackendError::Timeout),
    }
}

/// A signed number in decimal.
pub open spec fn signed_decimal(x: int) -> Seq<char> {
    if x < 0 {
        seq!['-'] + decimal((-x) as nat)
    } else {
        decimal(x as nat)
    }
}

fn signed_text(x: i8) -> (r: String)
    ensures
        r@ == signed_decimal(x as int),
{
    if x < 0 {
        let digits = to_text(decimal_chars((-(x as i64)) as u64).as_slice());
        let r = concat2("-", digits.as_str());
        proof {
            reveal_strlit("-");
            assert(r@ =~= seq!['-'] + decimal((-(x as int)) as nat));
        }
        r
    } else {
        to_text(decimal_chars(x as u64).as_slice())
    }
}

/// What the issuer of a goal gets of the hosting server's result and status; `None`
/// stands for a server that went away.
pub fn goal_outcome(result: Option<(Option<JsonValue>, i8)>) -> (r: Result<(JsonValue, i8), String>)
    ensures
        match result {
            Some((Some(v), status)) => r == Ok::<(JsonValue, i8), String>((v, status)),
            Some((None, status)) => r matches Err(s) && s@ == "action aborted (status "@
                + signed_decimal(status as int) + ")"@,
            None => r matches Err(s) && s@ == "action server dropped"@,
        },
{
    match result {
        Some((Some(v), status)) => Ok((v, status)),
        Some((None, status)) => {
            let mut s = "action aborted (status ".to_owned();
            s.append(signed_text(status).as_str());
            s.append(")");
            Err(s)
        },
        None => Err("action server dropped".to_owned()),
    }
}

/// A bus without any handle.
pub open spec fn new_bus() -> BusModel {
    BusModel {
        topic_subs: Map::empty(),
        publishers: Map::empty(),
        sub_topic: Map::empty(),
        services: Map::empty(),
        service_names: Map::empty(),
        actions: Map::empty(),
        action_names: Map::empty(),
        counter: 0,
    }
}

/// Whether a subscription is listed under a topic.
pub open spec fn listed(b: BusModel, topic: Seq<char>, id: SubscriptionId) -> bool {
    reached(b, topic).contains(id)
}

/// Every subscription that is listed under a topic is one to that topic, and no number
/// from the counter on has been given to a subscription.
pub open spec fn coherent(b: BusModel) -> bool {
    &&& forall|t: Seq<char>, id: SubscriptionId| #[trigger]
        listed(b, t, id) ==> b.sub_topic.dom().contains(id.0) && b.sub_topic[id.0] == t
    &&& forall|n: u64| #[trigger] b.sub_topic.dom().contains(n) ==> n < b.counter
}

proof fn lemma_without(subs: Seq<SubscriptionId>, gone: Seq<SubscriptionId>, id: SubscriptionId)
    ensures
        without(subs, gone).contains(id) <==> subs.contains(id) && !gone.contains(id),
    decreases subs.len(),
{
    if subs.len() > 0 {
        let rest = subs.drop_last();
        lemma_without(rest, gone, id);
        assert(subs =~= rest.push(subs.last()));
        lemma_pushed(rest, subs.last(), id);
        lemma_pushed(without(rest, gone), subs.last(), id);
    }
}

proof fn lemma_pushed(s: Seq<SubscriptionId>, x: SubscriptionId, id: SubscriptionId)
    ensures
        s.push(x).contains(id) <==> s.contains(id) || id == x,
{
    if s.contains(id) {
        let i = choose|i: int| 0 <= i < s.len() && s[i] == id;
        assert(s.push(x)[i] == id);
    }
    if id == x {
        assert(s.push(x)[s.len() as int] == id);
    }
    if s.push(x).contains(id) && id != x {
        let i = choose|i: int| 0 <= i < s.push(x).len() && s.push(x)[i] == id;
        assert(s[i] == id);
    }
}

/// A new bus is coherent.
pub proof fn new_bus_is_coherent()
    ensures
        coherent(new_bus()),
{
}

/// A subscription reaches its subscriber: a message on the topic goes to it and to
/// those that were there before, and other topics stay as they were.
pub proof fn subscriber_is_reached(b: BusModel, topic: Seq<char>, t: Seq<char>, id: SubscriptionId)
    ensures
        listed(with_subscription(b, topic), t, id) <==> listed(b, t, id) || (t == topic && id
            == SubscriptionId(b.counter)),
{
    let new = SubscriptionId(b.counter);
    lemma_pushed(reached(b, topic), new, id);
    if t == topic {
        assert(reached(with_subscription(b, topic), t) == reached(b, topic).push(new));
    } else {
        assert(reached(with_subscription(b, topic), t) == reached(b, t));
    }
}

/// Subscribing keeps a bus coherent, as long as the numbers last.
pub proof fn subscribing_keeps_coherent(b: BusModel, topic: Seq<char>)
    requires
        coherent(b),
        b.counter < u64::MAX,
    ensures
        coherent(with_subscription(b, topic)),
{
    let c = with_subscription(b, topic);
    assert forall|t: Seq<char>, id: SubscriptionId| #[trigger]
        listed(c, t, id) implies c.sub_topic.dom().contains(id.0) && c.sub_topic[id.0] == t by {
        subscriber_is_reached(b, topic, t, id);
        if listed(b, t, id) {
            assert(b.sub_topic.dom().contains(id.0));
        }
    }
}

/// After a subscription has ended, no message on any topic goes to it, and those that
/// went to others still do.
pub proof fn unsubscribing_stops_delivery(
    b: BusModel,
    gone: SubscriptionId,
    t: Seq<char>,
    id: SubscriptionId,
)
    requires
        coherent(b),
    ensures
        listed(without_subscription(b, gone), t, id) <==> listed(b, t, id) && id != gone,
{
    assert(seq![gone].contains(id) <==> id == gone) by {
        assert(seq![gone][0] == gone);
    }
    if listed(b, t, gone) {
        assert(b.sub_topic[gone.0] == t);
    }
    if b.sub_topic.dom().contains(gone.0) {
        lemma_without(reached(b, t), seq![gone], id);
    }
}

/// The end of a subscription keeps a bus coherent.
pub proof fn unsubscribing_keeps_coherent(b: BusModel, gone: SubscriptionId)
    requires
        coherent(b),
    ensures
        coherent(without_subscription(b, gone)),
{
    let c = without_subscription(b, gone);
    assert forall|t: Seq<char>, id: SubscriptionId| #[trigger]
        listed(c, t, id) implies c.sub_topic.dom().contains(id.0) && c.sub_topic[id.0] == t by {
        unsubscribing_stops_delivery(b, gone, t, id);
        assert(listed(b, t, id));
        assert(id.0 != gone.0);
    }
}

/// Pruning takes exactly the subscriptions out that could not be reached, and those of
/// the publisher's topic only.
pub proof fn pruning_forgets_the_unreachable(
    b: BusModel,
    publisher: PublisherId,
    gone: Seq<SubscriptionId>,
    t: Seq<char>,
    id: SubscriptionId,
)
    requires
        b.publishers.dom().contains(publisher.0),
    ensures
        listed(pruned(b, publisher, gone), t, id) <==> listed(b, t, id) && !(t
            == b.publishers[publisher.0] && gone.contains(id)),
{
    lemma_without(reached(b, t), gone, id);
}

/// Pruning keeps a bus coherent.
pub proof fn pruning_keeps_coherent(b: BusModel, publisher: PublisherId, gone: Seq<SubscriptionId>)
    requires
        coherent(b),
    ensures
        coherent(pruned(b, publisher, gone)),
{
    let c = pruned(b, publisher, gone);
    if b.publishers.dom().contains(publisher.0) {
        assert forall|t: Seq<char>, id: SubscriptionId| #[trigger]
            listed(c, t, id) implies c.sub_topic.dom().contains(id.0) && c.sub_topic[id.0] == t by {
            pruning_forgets_the_unreachable(b, publisher, gone, t, id);
            assert(listed(b, t, id));
        }
    }
}

/// What has nothing to do with subscriptions keeps a bus coherent, as long as the
/// numbers last.
pub proof fn other_handles_keep_coherent(b: BusModel, name: Seq<char>)
    requires
        coherent(b),
        b.counter < u64::MAX,
    ensures
        coherent(with_publisher(b, name)),
        coherent(with_service(b, name)),
        coherent(with_action(b, name)),
{
    let p = with_publisher(b, name);
    let s = with_service(b, name);
    let a = with_action(b, name);
    assert forall|t: Seq<char>, id: SubscriptionId|
        (#[trigger] listed(p, t, id) <==> listed(b, t, id)) && (#[trigger] listed(s, t, id)
            <==> listed(b, t, id)) && (#[trigger] listed(a, t, id) <==> listed(b, t, id)) by {
        assert(reached(p, t) == reached(b, t));
        assert(reached(s, t) == reached(b, t));
        assert(reached(a, t) == reached(b, t));
    }
    assert forall|t: Seq<char>, id: SubscriptionId| #[trigger]
        listed(p, t, id) implies p.sub_topic.dom().contains(id.0) && p.sub_topic[id.0] == t by {
        assert(reached(p, t) == reached(b, t));
        assert(listed(b, t, id));
    }
    assert forall|t: Seq<char>, id: SubscriptionId| #[trigger]
        listed(s, t, id) implies s.sub_topic.dom().contains(id.0) && s.sub_topic[id.0] == t by {
        assert(reached(s, t) == reached(b, t));
        assert(listed(b, t, id));
    }
    assert forall|t: Seq<char>, id: SubscriptionId| #[trigger]
        listed(a, t, id) implies a.sub_topic.dom().contains(id.0) && a.sub_topic[id.0] == t by {
        assert(reached(a, t) == reached(b, t));
        assert(listed(b, t, id));
    }
}

/// A hosted service answers to its name until it is withdrawn, and a hosted action
/// likewise.
pub proof fn hosted_names_answer(b: BusModel, name: Seq<char>)
    ensures
        with_service(b, name).services[name] == ServiceServerId(b.counter),
        !without_service(
            with_service(b, name),
            ServiceServerId(b.counter),
        ).services.dom().contains(name),
        with_action(b, name).actions[name] == ActionServerId(b.counter),
        !without_action(with_action(b, name), ActionServerId(b.counter)).actions.dom().contains(
            name,
        ),
{
}

/// Goals with different numbers have different ids.
pub proof fn goal_ids_differ(n: u64, t: u64, m: u64, u: u64)
    requires
        n != m,
    ensures
        goal_id(n, t) != goal_id(m, u),
{
    crate::cdr::le_bytes_have_value(n as nat, 8);
    crate::cdr::le_bytes_have_value(m as nat, 8);
    crate::cdr::lemma_byte_ranges();
    assert(goal_id(n, t).take(8) =~= le_bytes(n as nat, 8));
    assert(goal_id(m, u).take(8) =~= le_bytes(m as nat, 8));
}

/// A name that is hosted, or withdrawn, leaves the others as they were; a later server takes
/// the name of an earlier one over.
pub proof fn other_names_stay(b: BusModel, name: Seq<char>, other: Seq<char>, n: u64)
    requires
        other != name,
        b.service_names.dom().contains(n) ==> b.service_names[n] == name,
        b.action_names.dom().contains(n) ==> b.action_names[n] == name,
    ensures
        ({
            let (s, t) = (with_service(b, name), without_service(b, ServiceServerId(n)));
            &&& s.services.dom().contains(other) <==> b.services.dom().contains(other)
            &&& t.services.dom().contains(other) <==> b.services.dom().contains(other)
            &&& b.services.dom().contains(other) ==> s.services[other] == b.services[other]
                && t.services[other] == b.services[other]
            &&& s.actions == b.actions && s.publishers == b.publishers && s.topic_subs
                == b.topic_subs
            &&& t.actions == b.actions && t.publishers == b.publishers && t.topic_subs
                == b.topic_subs
        }),
        ({
            let (s, t) = (with_action(b, name), without_action(b, ActionServerId(n)));
            &&& s.actions.dom().contains(other) <==> b.actions.dom().contains(other)
            &&& t.actions.dom().contains(other) <==> b.actions.dom().contains(other)
            &&& b.actions.dom().contains(other) ==> s.actions[other] == b.actions[other]
                && t.actions[other] == b.actions[other]
            &&& s.services == b.services && s.publishers == b.publishers && s.topic_subs
                == b.topic_subs
            &&& t.services == b.services && t.publishers == b.publishers && t.topic_subs
                == b.topic_subs
        }),
{
}

/// A publisher sends on the topic that it was made for, and the others on theirs.
pub proof fn publisher_sends_on_its_topic(b: BusModel, topic: Seq<char>, other: u64)
    requires
        other != b.counter,
    ensures
        with_publisher(b, topic).publishers.dom().contains(b.counter),
        with_publisher(b, topic).publishers[b.counter] == topic,
        with_publisher(b, topic).publishers.dom().contains(other)
            <==> b.publishers.dom().contains(other),
        b.publishers.dom().contains(other) ==> with_publisher(b, topic).publishers[other]
            == b.publishers[other],
        with_publisher(b, topic).topic_subs == b.topic_subs,
{
}

/// No handle is given out twice, as long as the numbers last.
pub proof fn handles_are_new(b: BusModel, name: Seq<char>)
    requires
        b.counter < u64::MAX,
    ensures
        with_publisher(b, name).counter == b.counter + 1,
        with_subscription(b, name).counter == b.counter + 1,
        with_service(b, name).counter == b.counter + 1,
        with_action(b, name).counter == b.counter + 1,
{
}

/// A signed decimal numeral is read as its number.
pub proof fn signed_decimal_reads_back(x: int)
    ensures
        crate::text::signed_value(signed_decimal(x), x, x) == Some(x),
{
    let n = if x < 0 {
        (-x) as nat
    } else {
        x as nat
    };
    crate::text::decimal_reads_back(n);
    let d = decimal(n);
    assert(crate::text::digit(d[0]) is Some);
    if x < 0 {
        assert((seq!['-'] + d).drop_first() =~= d);
    }
}

} // verus!
