//! Topic operations of a session: `advertise`, `unadvertise`, `publish`, `subscribe`
//! and `unsubscribe`.
use vstd::prelude::*;
use crate::backend::{
    publisher_qos, subscriber_qos, BackendError, Durability, PublisherId, QosSpec, Reliability,
    SubscriptionId,
};
use crate::compression::Compression;
use crate::config::GlobList;
use crate::dict::Dict;
use crate::effect::{Effect, EffectModel};
use crate::glob::{allowed, passes};
use crate::incoming::{Advertise, Publish, Subscribe, Unadvertise, Unsubscribe};
use crate::outgoing::{status, Status, StatusLevel};
use crate::qos::QosProfile;
use crate::session::{
    inferred, learned, ClientSession, PubEntry, PubModel, SessionModel, Shared, SubEntry, SubModel,
};
use crate::stamp::{fill_header_stamp, stamped};
use crate::subscription::{agreed, coalesce_all, SubParams};
use crate::text::{concat2, concat3, copy_optional, optional, same_text};

verus! {

/// The id of an `advertise` without one.
pub const DUMMY_ADV_ID: &'static str = "dummy_adv_id";

/// The reliability that a name stands for.
pub open spec fn reliability_named(s: Seq<char>) -> Reliability {
    if s == "reliable"@ {
        Reliability::Reliable
    } else if s == "best_effort"@ {
        Reliability::BestEffort
    } else if s == "best_available"@ {
        Reliability::BestAvailable
    } else {
        Reliability::SystemDefault
    }
}

/// The durability that a name stands for.
pub open spec fn durability_named(s: Seq<char>) -> Durability {
    if s == "transient_local"@ {
        Durability::TransientLocal
    } else if s == "volatile"@ {
        Durability::Volatile
    } else if s == "best_available"@ {
        Durability::BestAvailable
    } else {
        Durability::SystemDefault
    }
}

/// A QoS with what a profile says in place of the defaults.
pub open spec fn profiled(qos: Option<QosProfile>, base: QosSpec) -> QosSpec {
    match qos {
        None => base,
        Some(q) => QosSpec {
            history_keep_all: match q.history {
                Some(h) => h@ == "keep_all"@,
                None => base.history_keep_all,
            },
            depth: match q.depth {
                Some(d) => d,
                None => base.depth,
            },
            reliability: match q.reliability {
                Some(r) => reliability_named(r@),
                None => base.reliability,
            },
            durability: match q.durability {
                Some(d) => durability_named(d@),
                None => base.durability,
            },
        },
    }
}

/// A QoS as the protocol's `qos` object gives it, overridden by the deprecated `latch`
/// and `queue_size`.
pub open spec fn resolved(
    qos: Option<QosProfile>,
    latch: Option<bool>,
    queue_size: Option<usize>,
    base: QosSpec,
) -> QosSpec {
    let q = profiled(qos, base);
    QosSpec {
        durability: if latch == Some(true) {
            Durability::TransientLocal
        } else {
            q.durability
        },
        depth: match queue_size {
            Some(n) => n,
            None => q.depth,
        },
        ..q
    }
}

/// Maps the protocol QoS plus deprecated latch/queue_size to a [`QosSpec`].
pub fn resolve_qos(
    qos: &Option<QosProfile>,
    latch: Option<bool>,
    queue_size: Option<usize>,
    base: QosSpec,
) -> (r: QosSpec)
    ensures
        r == resolved(*qos, latch, queue_size, base),
{
    let mut out = base;
    if let Some(q) = qos {
        if let Some(h) = &q.history {
            out.history_keep_all = same_text(h.as_str(), "keep_all");
        }
        if let Some(d) = q.depth {
            out.depth = d;
        }
        if let Some(r) = &q.reliability {
            let r = r.as_str();
            out.reliability = if same_text(r, "reliable") {
                Reliability::Reliable
            } else if same_text(r, "best_effort") {
                Reliability::BestEffort
            } else if same_text(r, "best_available") {
                Reliability::BestAvailable
            } else {
                Reliability::SystemDefault
            };
        }
        if let Some(d) = &q.durability {
            let d = d.as_str();
            out.durability = if same_text(d, "transient_local") {
                Durability::TransientLocal
            } else if same_text(d, "volatile") {
                Durability::Volatile
            } else if same_text(d, "best_available") {
                Durability::BestAvailable
            } else {
                Durability::SystemDefault
            };
        }
    }
    if let Some(true) = latch {
        out.durability = Durability::TransientLocal;
    }
    if let Some(qs) = queue_size {
        out.depth = qs;
    }
    out
}

/// The id of an `advertise`.
pub open spec fn adv_id_of(id: Option<Seq<char>>) -> Seq<char> {
    match id {
        Some(x) => x,
        None => DUMMY_ADV_ID@,
    }
}

fn adv_id(id: &Option<String>) -> (r: String)
    ensures
        r@ == adv_id_of(optional(*id)),
{
    match id {
        Some(x) => x.as_str().to_owned(),
        None => DUMMY_ADV_ID.to_owned(),
    }
}

/// What comes of an `advertise`.
pub open spec fn advertise_step(s: SessionModel, globs: GlobList, m: Advertise) -> (
    SessionModel,
    EffectModel,
) {
    let topic = m.topic@;
    let id = optional(m.id);
    if !passes(globs, topic) {
        let msg = "advertise to "@ + topic + " blocked by topics_pub_glob"@;
        (s, EffectModel::Report(status(StatusLevel::Warning, msg, id)))
    } else if s.publishers.dom().contains(topic) {
        let e = s.publishers[topic];
        if e.ros_type != m.msg_type@ {
            let msg = "topic "@ + topic + " already advertised as "@ + e.ros_type + ", not "@
                + m.msg_type@;
            (s, EffectModel::Report(status(StatusLevel::Error, msg, id)))
        } else {
            let adv_ids = e.adv_ids.insert(adv_id_of(id));
            (
                SessionModel {
                    publishers: s.publishers.insert(topic, PubModel { adv_ids, ..e }),
                    ..s
                },
                EffectModel::Nothing,
            )
        }
    } else {
        (
            s,
            EffectModel::Advertise {
                topic,
                ros_type: m.msg_type@,
                qos: resolved(m.qos, m.latch, m.queue_size, publisher_qos()),
                adv_id: adv_id_of(id),
                id,
            },
        )
    }
}

/// The session with a new publisher.
pub open spec fn with_publisher(
    s: SessionModel,
    topic: Seq<char>,
    ros_type: Seq<char>,
    adv_id: Seq<char>,
    id: PublisherId,
) -> SessionModel {
    SessionModel {
        publishers: s.publishers.insert(
            topic,
            PubModel { id, ros_type, adv_ids: Set::empty().insert(adv_id) },
        ),
        ..s
    }
}

/// What comes of an `unadvertise`.
pub open spec fn unadvertise_step(s: SessionModel, globs: GlobList, m: Unadvertise) -> (
    SessionModel,
    EffectModel,
) {
    let topic = m.topic@;
    let id = optional(m.id);
    if !passes(globs, topic) {
        (s, EffectModel::Nothing)
    } else if !s.publishers.dom().contains(topic) {
        let msg = "topic "@ + topic + " was not advertised"@;
        (s, EffectModel::Report(status(StatusLevel::Error, msg, id)))
    } else {
        let e = s.publishers[topic];
        let adv_ids = e.adv_ids.remove(adv_id_of(id));
        if adv_ids == Set::<Seq<char>>::empty() {
            (
                SessionModel { publishers: s.publishers.remove(topic), ..s },
                EffectModel::Unadvertise(e.id),
            )
        } else {
            (
                SessionModel {
                    publishers: s.publishers.insert(topic, PubModel { adv_ids, ..e }),
                    ..s
                },
                EffectModel::Nothing,
            )
        }
    }
}

/// The type that a client has advertised a topic with; none is the empty text.
pub open spec fn advertised_type(s: SessionModel, topic: Seq<char>) -> Seq<char> {
    if s.publishers.dom().contains(topic) {
        s.publishers[topic].ros_type
    } else {
        Seq::empty()
    }
}

/// The type that a message is published with.
pub open spec fn publish_type(
    s: SessionModel,
    types: Map<Seq<char>, Seq<char>>,
    m: Publish,
    found: Option<Seq<char>>,
) -> Option<Seq<char>> {
    let known = advertised_type(s, m.topic@);
    if known.len() > 0 {
        Some(known)
    } else if m.msg_type is Some {
        optional(m.msg_type)
    } else {
        inferred(types, m.topic@, found)
    }
}

/// Whether the type of a topic has to be looked up in the ROS graph before a message
/// is published.
pub open spec fn publish_looks_up(
    s: SessionModel,
    globs: GlobList,
    types: Map<Seq<char>, Seq<char>>,
    m: Publish,
) -> bool {
    passes(globs, m.topic@) && advertised_type(s, m.topic@).len() == 0 && m.msg_type is None
        && !types.dom().contains(m.topic@)
}

/// What comes of a `publish`, with the type found in the ROS graph and the time.
pub open spec fn publish_step(
    s: SessionModel,
    globs: GlobList,
    types: Map<Seq<char>, Seq<char>>,
    m: Publish,
    found: Option<Seq<char>>,
    now: (i32, u32),
) -> EffectModel {
    let topic = m.topic@;
    let id = optional(m.id);
    if !passes(globs, topic) {
        let msg = "publish to "@ + topic + " blocked by topics_pub_glob"@;
        EffectModel::Report(status(StatusLevel::Warning, msg, id))
    } else {
        match publish_type(s, types, m, found) {
            None => {
                let msg = "cannot publish to "@ + topic + ": unknown message type"@;
                EffectModel::Report(status(StatusLevel::Error, msg, id))
            },
            Some(ros_type) => if s.publishers.dom().contains(topic) {
                EffectModel::Publish {
                    publisher: s.publishers[topic].id,
                    msg: stamped(m.msg@, now),
                    id,
                }
            } else {
                EffectModel::AdvertiseAndPublish {
                    topic,
                    ros_type,
                    qos: resolved(m.qos, m.latch, None, publisher_qos()),
                    msg: stamped(m.msg@, now),
                    id,
                }
            },
        }
    }
}

/// The id of a `subscribe`: without one it is the topic.
pub open spec fn sid_of(m: Subscribe) -> Seq<char> {
    match m.id {
        Some(x) => x@,
        None => m.topic@,
    }
}

/// The parameters of a `subscribe`.
pub open spec fn params_of(m: Subscribe) -> SubParams {
    SubParams {
        throttle_rate: match m.throttle_rate {
            Some(x) => x,
            None => 0,
        },
        queue_length: match m.queue_length {
            Some(x) => x,
            None => 0,
        },
        fragment_size: m.fragment_size,
        compression: match m.compression {
            Some(x) => Compression::named(x@),
            None => Compression::Plain,
        },
    }
}

fn params(m: &Subscribe) -> (r: SubParams)
    ensures
        r == params_of(*m),
{
    SubParams {
        throttle_rate: match m.throttle_rate {
            Some(x) => x,
            None => 0,
        },
        queue_length: match m.queue_length {
            Some(x) => x,
            None => 0,
        },
        fragment_size: m.fragment_size,
        compression: match &m.compression {
            Some(x) => Compression::parse(x.as_str()),
            None => Compression::Plain,
        },
    }
}

/// Whether the type of a topic has to be looked up in the ROS graph before it is
/// subscribed to.
pub open spec fn subscribe_looks_up(
    s: SessionModel,
    globs: GlobList,
    types: Map<Seq<char>, Seq<char>>,
    m: Subscribe,
) -> bool {
    passes(globs, m.topic@) && !s.subscriptions.dom().contains(m.topic@) && m.msg_type is None
        && !types.dom().contains(m.topic@)
}

/// What comes of a `subscribe`, with the type found in the ROS graph.
pub open spec fn subscribe_step(
    s: SessionModel,
    globs: GlobList,
    types: Map<Seq<char>, Seq<char>>,
    m: Subscribe,
    found: Option<Seq<char>>,
) -> (SessionModel, EffectModel) {
    let topic = m.topic@;
    let id = optional(m.id);
    if !passes(globs, topic) {
        let msg = "subscribe to "@ + topic + " blocked by topics_sub_glob"@;
        (s, EffectModel::Report(status(StatusLevel::Warning, msg, id)))
    } else if s.subscriptions.dom().contains(topic) {
        let e = s.subscriptions[topic];
        let sids = e.sids.insert(sid_of(m), params_of(m));
        (
            SessionModel {
                subscriptions: s.subscriptions.insert(
                    topic,
                    SubModel { sids, effective: agreed(sids), ..e },
                ),
                ..s
            },
            EffectModel::Nothing,
        )
    } else {
        let ros_type = match optional(m.msg_type) {
            Some(t) => Some(t),
            None => inferred(types, topic, found),
        };
        match ros_type {
            None => {
                let msg = "subscribe to "@ + topic + ": unknown message type (provide 'type')"@;
                (s, EffectModel::Report(status(StatusLevel::Error, msg, id)))
            },
            Some(ros_type) => (
                s,
                EffectModel::Subscribe {
                    topic,
                    ros_type,
                    qos: resolved(m.qos, None, None, subscriber_qos()),
                    sid: sid_of(m),
                    params: params_of(m),
                    id,
                },
            ),
        }
    }
}

/// The session with a new subscription.
pub open spec fn with_subscription(
    s: SessionModel,
    topic: Seq<char>,
    ros_type: Seq<char>,
    sid: Seq<char>,
    params: SubParams,
    id: SubscriptionId,
) -> SessionModel {
    SessionModel {
        subscriptions: s.subscriptions.insert(
            topic,
            SubModel {
                id,
                ros_type,
                sids: Map::<Seq<char>, SubParams>::empty().insert(sid, params),
                effective: params,
            },
        ),
        ..s
    }
}

/// What comes of an `unsubscribe`.
pub open spec fn unsubscribe_step(s: SessionModel, m: Unsubscribe) -> (SessionModel, EffectModel) {
    let topic = m.topic@;
    if !s.subscriptions.dom().contains(topic) {
        (s, EffectModel::Nothing)
    } else {
        let e = s.subscriptions[topic];
        let sids = match m.id {
            Some(sid) => e.sids.remove(sid@),
            None => Map::empty(),
        };
        if sids.dom() == Set::<Seq<char>>::empty() {
            (
                SessionModel { subscriptions: s.subscriptions.remove(topic), ..s },
                EffectModel::Unsubscribe(e.id),
            )
        } else {
            (
                SessionModel {
                    subscriptions: s.subscriptions.insert(
                        topic,
                        SubModel { sids, effective: agreed(sids), ..e },
                    ),
                    ..s
                },
                EffectModel::Nothing,
            )
        }
    }
}

impl ClientSession {
    /// Advertises a topic: a further `advertise` of the same type counts with the
    /// first one.
    pub fn op_advertise(&mut self, shared: &Shared, m: Advertise) -> (r: Effect)
        requires
            old(self).wf(),
        ensures
            final(self).wf(),
            (final(self)@, r@) == advertise_step(old(self)@, shared.cfg.topics_pub_glob, m),
    {
        let ghost before = self@;
        if !allowed(&shared.cfg.topics_pub_glob, m.topic.as_str()) {
            let msg = concat3("advertise to ", m.topic.as_str(), " blocked by topics_pub_glob");
            return Effect::Report(Status::warning(msg.as_str(), m.id));
        }
        let adv_id = adv_id(&m.id);
        match self.publishers.remove(m.topic.as_str()) {
            Some(entry) => {
                let mut entry = entry;
                let ghost e = entry@;
                if !same_text(entry.ros_type.as_str(), m.msg_type.as_str()) {
                    let mut msg = concat3("topic ", m.topic.as_str(), " already advertised as ");
                    msg.append(entry.ros_type.as_str());
                    msg.append(", not ");
                    msg.append(m.msg_type.as_str());
                    self.publishers.insert(m.topic, entry);
                    assert(self@.publishers =~= before.publishers);
                    return Effect::Report(Status::error(msg.as_str(), m.id));
                }
                let ghost key = adv_id@;
                entry.adv_ids.insert(adv_id, ());
                assert(entry@.adv_ids =~= e.adv_ids.insert(key));
                self.publishers.insert(m.topic, entry);
                assert(self@.publishers =~= before.publishers.insert(m.topic@, entry@));
                Effect::Nothing
            },
            None => {
                assert(self@.publishers =~= before.publishers);
                let qos = resolve_qos(&m.qos, m.latch, m.queue_size, QosSpec::default_publisher());
                Effect::Advertise {
                    topic: m.topic,
                    ros_type: m.msg_type,
                    qos,
                    adv_id,
                    id: m.id,
                }
            },
        }
    }

    /// Takes up what came of creating a publisher for an `advertise`.
    pub fn advertised(
        &mut self,
        shared: &mut Shared,
        topic: &str,
        ros_type: &str,
        adv_id: &str,
        id: Option<String>,
        result: Result<PublisherId, BackendError>,
    ) -> (r: Option<Status>)
        requires
            old(self).wf(),
        ensures
            final(self).wf(),
            final(shared).cfg == old(shared).cfg,
            match result {
                Ok(p) => {
                    &&& r is None
                    &&& final(self)@ == with_publisher(old(self)@, topic@, ros_type@, adv_id@, p)
                    &&& final(shared).types() == learned(old(shared).types(), topic@, ros_type@)
                },
                Err(e) => {
                    &&& r is Some
                    &&& r.unwrap()@ == status(
                        StatusLevel::Error,
                        "advertise failed: "@ + e.text(),
                        optional(id),
                    )
                    &&& final(self)@ == old(self)@
                    &&& final(shared).types() == old(shared).types()
                },
            },
    {
        match result {
            Ok(p) => {
                self.add_publisher(shared, topic, ros_type, adv_id, p);
                None
            },
            Err(e) => {
                let msg = concat2("advertise failed: ", e.message().as_str());
                Some(Status::error(msg.as_str(), id))
            },
        }
    }

    fn add_publisher(
        &mut self,
        shared: &mut Shared,
        topic: &str,
        ros_type: &str,
        adv_id: &str,
        id: PublisherId,
    )
        requires
            old(self).wf(),
        ensures
            final(self).wf(),
            final(shared).cfg == old(shared).cfg,
            final(self)@ == with_publisher(old(self)@, topic@, ros_type@, adv_id@, id),
            final(shared).types() == learned(old(shared).types(), topic@, ros_type@),
    {
        let ghost before = self@;
        let mut adv_ids: Dict<()> = Dict::new();
        adv_ids.insert(adv_id.to_owned(), ());
        let entry = PubEntry { id, ros_type: ros_type.to_owned(), adv_ids };
        assert(entry@.adv_ids =~= Set::empty().insert(adv_id@));
        self.publishers.insert(topic.to_owned(), entry);
        assert(self@.publishers =~= before.publishers.insert(topic@, entry@));
        shared.learn_type(topic, ros_type);
    }

    /// Withdraws an `advertise`; the publisher goes with the last of them.
    pub fn op_unadvertise(&mut self, shared: &Shared, m: Unadvertise) -> (r: Effect)
        requires
            old(self).wf(),
        ensures
            final(self).wf(),
            (final(self)@, r@) == unadvertise_step(old(self)@, shared.cfg.topics_pub_glob, m),
    {
        let ghost before = self@;
        if !allowed(&shared.cfg.topics_pub_glob, m.topic.as_str()) {
            return Effect::Nothing;
        }
        let adv_id = adv_id(&m.id);
        match self.publishers.remove(m.topic.as_str()) {
            Some(entry) => {
                let mut entry = entry;
                let ghost e = entry@;
                let dropped = entry.adv_ids.remove(adv_id.as_str());
                assert(entry@.adv_ids =~= e.adv_ids.remove(adv_id@));
                if entry.adv_ids.is_empty() {
                    assert(self@.publishers =~= before.publishers.remove(m.topic@));
                    Effect::Unadvertise(entry.id)
                } else {
                    self.publishers.insert(m.topic, entry);
                    assert(self@.publishers =~= before.publishers.insert(m.topic@, entry@));
                    Effect::Nothing
                }
            },
            None => {
                assert(self@.publishers =~= before.publishers);
                let msg = concat3("topic ", m.topic.as_str(), " was not advertised");
                Effect::Report(Status::error(msg.as_str(), m.id))
            },
        }
    }

    /// Whether the type of a topic has to be looked up before a message is published.
    pub fn publish_needs_type(&self, shared: &Shared, m: &Publish) -> (r: bool)
        ensures
            r == publish_looks_up(self@, shared.cfg.topics_pub_glob, shared.types(), *m),
    {
        let topic = m.topic.as_str();
        let known = match self.publishers.get(topic) {
            Some(e) => !same_text(e.ros_type.as_str(), ""),
            None => false,
        };
        proof {
            reveal_strlit("");
            assert(""@ =~= Seq::<char>::empty());
            assert(known == (advertised_type(self@, topic@).len() > 0)) by {
                if self.publishers@.dom().contains(topic@) {
                    let t = self.publishers@[topic@].ros_type@;
                    assert(t.len() == 0 ==> t =~= ""@);
                }
            }
        }
        allowed(&shared.cfg.topics_pub_glob, topic) && !known && m.msg_type.is_none()
            && !shared.topic_types.contains_key(topic)
    }

    /// Publishes a message: through the client's publisher, or through a new one. The
    /// time goes into the header of the message where that asks for it; `found` is the
    /// type that the ROS graph has for the topic.
    pub fn op_publish(
        &self,
        shared: &Shared,
        m: Publish,
        found: Option<String>,
        now: (i32, u32),
    ) -> (r: Effect)
        ensures
            r@ == publish_step(
                self@,
                shared.cfg.topics_pub_glob,
                shared.types(),
                m,
                optional(found),
                now,
            ),
    {
        if !allowed(&shared.cfg.topics_pub_glob, m.topic.as_str()) {
            let msg = concat3("publish to ", m.topic.as_str(), " blocked by topics_pub_glob");
            return Effect::Report(Status::warning(msg.as_str(), m.id));
        }
        let (publisher, known) = match self.publishers.get(m.topic.as_str()) {
            Some(e) => (Some(e.id), e.ros_type.as_str().to_owned()),
            None => (None, "".to_owned()),
        };
        proof {
            reveal_strlit("");
            assert(""@ =~= Seq::<char>::empty());
            assert(known@ == advertised_type(self@, m.topic@));
            assert(known@.len() == 0 ==> known@ =~= ""@);
        }
        let ros_type = if !same_text(known.as_str(), "") {
            Some(known)
        } else if let Some(t) = copy_optional(&m.msg_type) {
            Some(t)
        } else {
            shared.infer_type(m.topic.as_str(), found)
        };
        match ros_type {
            None => {
                let msg = concat3("cannot publish to ", m.topic.as_str(), ": unknown message type");
                Effect::Report(Status::error(msg.as_str(), m.id))
            },
            Some(ros_type) => {
                let msg = fill_header_stamp(m.msg, now);
                match publisher {
                    Some(publisher) => Effect::Publish { publisher, msg, id: m.id },
                    None => {
                        let qos = resolve_qos(&m.qos, m.latch, None, QosSpec::default_publisher());
                        Effect::AdvertiseAndPublish {
                            topic: m.topic,
                            ros_type,
                            qos,
                            msg,
                            id: m.id,
                        }
                    },
                }
            },
        }
    }

    /// Takes up what came of creating a publisher for a `publish`: the publisher to
    /// publish through, or what to report.
    pub fn auto_advertised(
        &mut self,
        shared: &mut Shared,
        topic: &str,
        ros_type: &str,
        id: &Option<String>,
        result: Result<PublisherId, BackendError>,
    ) -> (r: Result<PublisherId, Status>)
        requires
            old(self).wf(),
        ensures
            final(self).wf(),
            final(shared).cfg == old(shared).cfg,
            match result {
                Ok(p) => {
                    &&& r == Ok::<PublisherId, Status>(p)
                    &&& final(self)@ == with_publisher(
                        old(self)@,
                        topic@,
                        ros_type@,
                        DUMMY_ADV_ID@,
                        p,
                    )
                    &&& final(shared).types() == learned(old(shared).types(), topic@, ros_type@)
                },
                Err(e) => {
                    &&& r is Err
                    &&& r->Err_0@ == status(
                        StatusLevel::Error,
                        "publish auto-advertise failed: "@ + e.text(),
                        optional(*id),
                    )
                    &&& final(self)@ == old(self)@
                    &&& final(shared).types() == old(shared).types()
                },
            },
    {
        match result {
            Ok(p) => {
                self.add_publisher(shared, topic, ros_type, DUMMY_ADV_ID, p);
                Ok(p)
            },
            Err(e) => {
                let msg = concat2("publish auto-advertise failed: ", e.message().as_str());
                Err(Status::error(msg.as_str(), copy_optional(id)))
            },
        }
    }

    /// What to report of a message that could not be published.
    pub fn publish_failed(&self, e: &BackendError, id: Option<String>) -> (r: Status)
        ensures
            r@ == status(StatusLevel::Error, "publish failed: "@ + e.text(), optional(id)),
    {
        let msg = concat2("publish failed: ", e.message().as_str());
        Status::error(msg.as_str(), id)
    }

    /// Whether the type of a topic has to be looked up before it is subscribed to.
    pub fn subscribe_needs_type(&self, shared: &Shared, m: &Subscribe) -> (r: bool)
        ensures
            r == subscribe_looks_up(self@, shared.cfg.topics_sub_glob, shared.types(), *m),
    {
        let topic = m.topic.as_str();
        allowed(&shared.cfg.topics_sub_glob, topic) && !self.subscriptions.contains_key(topic)
            && m.msg_type.is_none() && !shared.topic_types.contains_key(topic)
    }

    /// Subscribes to a topic: further subscriptions to it are coalesced with the
    /// first. `found` is the type that the ROS graph has for the topic.
    pub fn op_subscribe(&mut self, shared: &Shared, m: Subscribe, found: Option<String>) -> (r:
        Effect)
        requires
            old(self).wf(),
        ensures
            final(self).wf(),
            (final(self)@, r@) == subscribe_step(
                old(self)@,
                shared.cfg.topics_sub_glob,
                shared.types(),
                m,
                optional(found),
            ),
    {
        let ghost before = self@;
        if !allowed(&shared.cfg.topics_sub_glob, m.topic.as_str()) {
            let msg = concat3("subscribe to ", m.topic.as_str(), " blocked by topics_sub_glob");
            return Effect::Report(Status::warning(msg.as_str(), m.id));
        }
        let params = params(&m);
        let sid = match &m.id {
            Some(x) => x.as_str().to_owned(),
            None => m.topic.as_str().to_owned(),
        };
        match self.subscriptions.remove(m.topic.as_str()) {
            Some(entry) => {
                let mut entry = entry;
                entry.sids.insert(sid, params);
                entry.effective = coalesce_all(&entry.sids);
                self.subscriptions.insert(m.topic, entry);
                assert(self@.subscriptions =~= before.subscriptions.insert(m.topic@, entry@));
                Effect::Nothing
            },
            None => {
                assert(self@.subscriptions =~= before.subscriptions);
                let ros_type = match m.msg_type {
                    Some(t) => Some(t),
                    None => shared.infer_type(m.topic.as_str(), found),
                };
                match ros_type {
                    Some(ros_type) => {
                        let qos = resolve_qos(&m.qos, None, None, QosSpec::default_subscriber());
                        Effect::Subscribe { topic: m.topic, ros_type, qos, sid, params, id: m.id }
                    },
                    None => {
                        let msg = concat3(
                            "subscribe to ",
                            m.topic.as_str(),
                            ": unknown message type (provide 'type')",
                        );
                        Effect::Report(Status::error(msg.as_str(), m.id))
                    },
                }
            },
        }
    }

    /// Takes up what came of subscribing to a topic.
    pub fn subscribed(
        &mut self,
        shared: &mut Shared,
        topic: &str,
        ros_type: &str,
        sid: &str,
        params: SubParams,
        id: Option<String>,
        result: Result<SubscriptionId, BackendError>,
    ) -> (r: Option<Status>)
        requires
            old(self).wf(),
        ensures
            final(self).wf(),
            final(shared).cfg == old(shared).cfg,
            match result {
                Ok(s) => {
                    &&& r is None
                    &&& final(self)@ == with_subscription(
                        old(self)@,
                        topic@,
                        ros_type@,
                        sid@,
                        params,
                        s,
                    )
                    &&& final(shared).types() == learned(old(shared).types(), topic@, ros_type@)
                },
                Err(e) => {
                    &&& r is Some
                    &&& r.unwrap()@ == status(
                        StatusLevel::Error,
                        "subscribe failed: "@ + e.text(),
                        optional(id),
                    )
                    &&& final(self)@ == old(self)@
                    &&& final(shared).types() == old(shared).types()
                },
            },
    {
        let ghost before = self@;
        match result {
            Ok(s) => {
                shared.learn_type(topic, ros_type);
                let mut sids: Dict<SubParams> = Dict::new();
                sids.insert(sid.to_owned(), params);
                let entry = SubEntry {
                    id: s,
                    ros_type: ros_type.to_owned(),
                    sids,
                    effective: params,
                };
                self.subscriptions.insert(topic.to_owned(), entry);
                assert(self@.subscriptions =~= before.subscriptions.insert(topic@, entry@));
                None
            },
            Err(e) => {
                let msg = concat2("subscribe failed: ", e.message().as_str());
                Some(Status::error(msg.as_str(), id))
            },
        }
    }

    /// Ends a subscription, or without an id all of them to a topic; the backend's
    /// subscription goes with the last of them.
    pub fn op_unsubscribe(&mut self, m: Unsubscribe) -> (r: Effect)
        requires
            old(self).wf(),
        ensures
            final(self).wf(),
            (final(self)@, r@) == unsubscribe_step(old(self)@, m),
    {
        let ghost before = self@;
        match self.subscriptions.remove(m.topic.as_str()) {
            Some(entry) => {
                let mut entry = entry;
                match &m.id {
                    Some(sid) => {
                        let dropped = entry.sids.remove(sid.as_str());
                    },
                    None => {
                        entry.sids = Dict::new();
                    },
                }
                if entry.sids.is_empty() {
                    assert(self@.subscriptions =~= before.subscriptions.remove(m.topic@));
                    Effect::Unsubscribe(entry.id)
                } else {
                    entry.effective = coalesce_all(&entry.sids);
                    self.subscriptions.insert(m.topic, entry);
                    assert(self@.subscriptions =~= before.subscriptions.insert(m.topic@, entry@));
                    Effect::Nothing
                }
            },
            None => {
                assert(self@.subscriptions =~= before.subscriptions);
                Effect::Nothing
            },
        }
    }
}

} // verus!
