//! Laws of client sessions.
use vstd::prelude::*;
use crate::actions::{
    action_feedback_step, action_result_step, cancel_goal_step, with_goal, without_goal,
};
use crate::backend::{Durability, PublisherId, QosSpec, SubscriptionId};
use crate::compression::Compression;
use crate::config::{Config, GlobList};
use crate::dispatch::{looked_up, step};
use crate::document::{cbor_bytes, json_text};
use crate::effect::EffectModel;
use crate::glob::passes;
use crate::incoming::{
    ActionFeedback, ActionResult, Advertise, CancelActionGoal, IncomingMessage, Publish,
    ServiceResponse, Subscribe, Unadvertise, Unsubscribe,
};
use crate::json::Json;
use crate::loopback::{listed, reached, BusModel};
use crate::outgoing::{status, StatusLevel, StatusModel};
use crate::qos::QosProfile;
use crate::services::{name_and_id, request_id, service_response_step};
use crate::session::{
    cut_session, forwards, fragment_id, inferred, learned, new_session, publish_op, sample_frames,
    sampled, status_frames, status_op, FrameModel, PubModel, SessionModel, SubModel,
};
use crate::stamp::stamped;
use crate::subscription::{agreed, single_request_is_agreed, SubParams};
use crate::text::{decimal, decimal_reads_back, digit, optional};
use crate::topics::{
    adv_id_of, advertise_step, publish_step, resolved, sid_of, subscribe_step, unadvertise_step,
    unsubscribe_step, with_publisher, with_subscription,
};
use crate::uuid::{hex, uuid_reads_back};

verus! {

/// A publisher is there as long as it is advertised.
pub open spec fn publisher_sound(e: PubModel) -> bool {
    exists|id: Seq<char>| e.adv_ids.contains(id)
}

/// A subscription is there as long as someone has subscribed, and its parameters are
/// what those that have subscribed agree on.
pub open spec fn subscription_sound(e: SubModel) -> bool {
    &&& exists|sid: Seq<char>| e.sids.dom().contains(sid)
    &&& e.effective == agreed(e.sids)
}

/// What every operation keeps of a session.
pub open spec fn sound(s: SessionModel) -> bool {
    &&& forall|t: Seq<char>| #[trigger]
        s.publishers.dom().contains(t) ==> publisher_sound(s.publishers[t])
    &&& forall|t: Seq<char>| #[trigger]
        s.subscriptions.dom().contains(t) ==> subscription_sound(s.subscriptions[t])
}

/// The session of a client that has just connected is sound.
pub proof fn new_session_is_sound(id: u64, timeout: nat)
    ensures
        sound(new_session(id, timeout)),
{
}

proof fn lemma_not_empty(s: Set<Seq<char>>)
    requires
        s != Set::<Seq<char>>::empty(),
    ensures
        exists|x: Seq<char>| s.contains(x),
{
    if forall|x: Seq<char>| !s.contains(x) {
        assert(s =~= Set::empty());
    }
}

proof fn lemma_advertise(s: SessionModel, globs: GlobList, m: Advertise)
    requires
        sound(s),
    ensures
        sound(advertise_step(s, globs, m).0),
{
    let r = advertise_step(s, globs, m).0;
    let id = adv_id_of(optional(m.id));
    assert forall|t: Seq<char>| #[trigger] r.publishers.dom().contains(t) implies publisher_sound(
        r.publishers[t],
    ) by {
        if t == m.topic@ && r != s {
            assert(r.publishers[t].adv_ids.contains(id));
        } else {
            assert(s.publishers.dom().contains(t));
        }
    }
}

proof fn lemma_unadvertise(s: SessionModel, globs: GlobList, m: Unadvertise)
    requires
        sound(s),
    ensures
        sound(unadvertise_step(s, globs, m).0),
{
    let r = unadvertise_step(s, globs, m).0;
    assert forall|t: Seq<char>| #[trigger] r.publishers.dom().contains(t) implies publisher_sound(
        r.publishers[t],
    ) by {
        assert(s.publishers.dom().contains(t));
        if passes(globs, m.topic@) && t == m.topic@ {
            let left = s.publishers[t].adv_ids.remove(adv_id_of(optional(m.id)));
            assert(r.publishers[t].adv_ids == left);
            lemma_not_empty(left);
        }
    }
}

proof fn lemma_subscribe(
    s: SessionModel,
    globs: GlobList,
    types: Map<Seq<char>, Seq<char>>,
    m: Subscribe,
    found: Option<Seq<char>>,
)
    requires
        sound(s),
    ensures
        sound(subscribe_step(s, globs, types, m, found).0),
{
    let r = subscribe_step(s, globs, types, m, found).0;
    assert forall|t: Seq<char>| #[trigger]
        r.subscriptions.dom().contains(t) implies subscription_sound(r.subscriptions[t]) by {
        if passes(globs, m.topic@) && s.subscriptions.dom().contains(m.topic@) && t == m.topic@ {
            assert(r.subscriptions[t].sids.dom().contains(sid_of(m)));
        } else {
            assert(s.subscriptions.dom().contains(t));
        }
    }
}

proof fn lemma_unsubscribe(s: SessionModel, m: Unsubscribe)
    requires
        sound(s),
    ensures
        sound(unsubscribe_step(s, m).0),
{
    let r = unsubscribe_step(s, m).0;
    assert forall|t: Seq<char>| #[trigger]
        r.subscriptions.dom().contains(t) implies subscription_sound(r.subscriptions[t]) by {
        assert(s.subscriptions.dom().contains(t));
        if t == m.topic@ {
            lemma_not_empty(r.subscriptions[t].sids.dom());
        }
    }
}

/// Every operation keeps a session sound.
pub proof fn operations_keep_sound(
    s: SessionModel,
    cfg: Config,
    types: Map<Seq<char>, Seq<char>>,
    msg: IncomingMessage,
    found: Option<Seq<char>>,
    now: (i32, u32),
    clock: u64,
)
    requires
        sound(s),
    ensures
        sound(step(s, cfg, types, msg, found, now, clock).0),
{
    match msg {
        IncomingMessage::Advertise(m) => {
            lemma_advertise(s, cfg.topics_pub_glob, m);
        },
        IncomingMessage::Unadvertise(m) => {
            lemma_unadvertise(s, cfg.topics_pub_glob, m);
        },
        IncomingMessage::Subscribe(m) => {
            lemma_subscribe(s, cfg.topics_sub_glob, types, m, found);
        },
        IncomingMessage::Unsubscribe(m) => {
            lemma_unsubscribe(s, m);
        },
        _ => {
            let r = step(s, cfg, types, msg, found, now, clock).0;
            assert(r.publishers == s.publishers);
            assert(r.subscriptions == s.subscriptions);
        },
    }
}

/// A new publisher and a new subscription keep a session sound.
pub proof fn new_handles_keep_sound(
    s: SessionModel,
    topic: Seq<char>,
    ros_type: Seq<char>,
    name: Seq<char>,
    publisher: PublisherId,
    params: SubParams,
    subscription: SubscriptionId,
)
    requires
        sound(s),
    ensures
        sound(with_publisher(s, topic, ros_type, name, publisher)),
        sound(with_subscription(s, topic, ros_type, name, params, subscription)),
{
    let p = with_publisher(s, topic, ros_type, name, publisher);
    assert forall|t: Seq<char>| #[trigger] p.publishers.dom().contains(t) implies publisher_sound(
        p.publishers[t],
    ) by {
        if t == topic {
            assert(p.publishers[t].adv_ids.contains(name));
        } else {
            assert(s.publishers.dom().contains(t));
        }
    }
    let q = with_subscription(s, topic, ros_type, name, params, subscription);
    assert forall|t: Seq<char>| #[trigger]
        q.subscriptions.dom().contains(t) implies subscription_sound(q.subscriptions[t]) by {
        if t == topic {
            single_request_is_agreed(name, params);
            assert(q.subscriptions[t].sids.dom().contains(name));
        } else {
            assert(s.subscriptions.dom().contains(t));
        }
    }
}

/// Whether the glob lists of the server keep an operation out.
pub open spec fn blocked(cfg: Config, msg: IncomingMessage) -> bool {
    match msg {
        IncomingMessage::Advertise(m) => !passes(cfg.topics_pub_glob, m.topic@),
        IncomingMessage::Unadvertise(m) => !passes(cfg.topics_pub_glob, m.topic@),
        IncomingMessage::Publish(m) => !passes(cfg.topics_pub_glob, m.topic@),
        IncomingMessage::Subscribe(m) => !passes(cfg.topics_sub_glob, m.topic@),
        IncomingMessage::CallService(m) => !passes(
            cfg.services_glob,
            name_and_id(m.service@).0,
        ),
        IncomingMessage::AdvertiseService(m) => !passes(cfg.services_glob, m.service@),
        IncomingMessage::UnadvertiseService(m) => !passes(cfg.services_glob, m.service@),
        IncomingMessage::SendActionGoal(m) => !passes(cfg.actions_glob, m.action@),
        IncomingMessage::AdvertiseAction(m) => !passes(cfg.actions_glob, m.action@),
        IncomingMessage::UnadvertiseAction(m) => !passes(cfg.actions_glob, m.action@),
        _ => false,
    }
}

/// An operation that the glob lists keep out changes nothing and asks nothing of ROS:
/// what the client gets of it is a warning at most.
pub proof fn blocked_operations_change_nothing(
    s: SessionModel,
    cfg: Config,
    types: Map<Seq<char>, Seq<char>>,
    msg: IncomingMessage,
    found: Option<Seq<char>>,
    now: (i32, u32),
    clock: u64,
)
    requires
        blocked(cfg, msg),
    ensures
        step(s, cfg, types, msg, found, now, clock).0 == s,
        step(s, cfg, types, msg, found, now, clock).1 is Nothing || (step(
            s,
            cfg,
            types,
            msg,
            found,
            now,
            clock,
        ).1 matches EffectModel::Report(m) && m.level == StatusLevel::Warning),
{
}

/// The ROS graph matters for an operation only where it was to be looked up.
pub proof fn graph_matters_only_where_looked_up(
    s: SessionModel,
    cfg: Config,
    types: Map<Seq<char>, Seq<char>>,
    msg: IncomingMessage,
    found: Option<Seq<char>>,
    other: Option<Seq<char>>,
    now: (i32, u32),
    clock: u64,
)
    requires
        looked_up(s, cfg, types, msg) is None,
    ensures
        step(s, cfg, types, msg, found, now, clock) == step(
            s,
            cfg,
            types,
            msg,
            other,
            now,
            clock,
        ),
{
}

/// A type that was learned of a topic stays, whatever is learned later.
pub proof fn learned_types_stay(
    types: Map<Seq<char>, Seq<char>>,
    topic: Seq<char>,
    first: Seq<char>,
    second: Seq<char>,
)
    ensures
        learned(learned(types, topic, first), topic, second) == learned(types, topic, first),
        learned(types, topic, first).dom().contains(topic),
{
}

/// Withdrawing the only `advertise` of a topic gives its publisher up and leaves the
/// session as it was before.
pub proof fn unadvertise_undoes_advertise(
    s: SessionModel,
    globs: GlobList,
    topic: Seq<char>,
    ros_type: Seq<char>,
    m: Unadvertise,
    id: PublisherId,
)
    requires
        m.topic@ == topic,
        passes(globs, topic),
        !s.publishers.dom().contains(topic),
    ensures
        unadvertise_step(
            with_publisher(s, topic, ros_type, adv_id_of(optional(m.id)), id),
            globs,
            m,
        ) == (s, EffectModel::Unadvertise(id)),
{
    let w = with_publisher(s, topic, ros_type, adv_id_of(optional(m.id)), id);
    assert(w.publishers[topic].adv_ids.remove(adv_id_of(optional(m.id))) =~= Set::<
        Seq<char>,
    >::empty());
    assert(w.publishers.remove(topic) =~= s.publishers);
}

/// A publisher stays as long as one `advertise` of its topic has not been withdrawn.
pub proof fn publisher_stays_while_advertised(
    s: SessionModel,
    globs: GlobList,
    m: Unadvertise,
    other: Seq<char>,
)
    requires
        s.publishers.dom().contains(m.topic@),
        s.publishers[m.topic@].adv_ids.contains(other),
        other != adv_id_of(optional(m.id)),
    ensures
        unadvertise_step(s, globs, m).1 is Nothing,
        unadvertise_step(s, globs, m).0.publishers.dom().contains(m.topic@),
        unadvertise_step(s, globs, m).0.publishers[m.topic@].id == s.publishers[m.topic@].id,
        unadvertise_step(s, globs, m).0.publishers[m.topic@].adv_ids.contains(other),
{
    let left = s.publishers[m.topic@].adv_ids.remove(adv_id_of(optional(m.id)));
    assert(left.contains(other));
}

/// A topic keeps the type that it was first advertised with: an `advertise` with
/// another type is refused, and with the same type counts with the first.
pub proof fn advertised_type_stays(s: SessionModel, globs: GlobList, m: Advertise)
    requires
        s.publishers.dom().contains(m.topic@),
    ensures
        advertise_step(s, globs, m).0.publishers.dom() == s.publishers.dom(),
        advertise_step(s, globs, m).0.publishers[m.topic@].ros_type
            == s.publishers[m.topic@].ros_type,
        passes(globs, m.topic@) && s.publishers[m.topic@].ros_type != m.msg_type@ ==> (
        advertise_step(s, globs, m).0 == s && (advertise_step(
            s,
            globs,
            m,
        ).1 matches EffectModel::Report(r) && r.level == StatusLevel::Error)),
{
    assert(advertise_step(s, globs, m).0.publishers.dom() =~= s.publishers.dom());
}

/// Ending the only subscription to a topic gives it up and leaves the session as it was
/// before.
pub proof fn unsubscribe_undoes_subscribe(
    s: SessionModel,
    topic: Seq<char>,
    ros_type: Seq<char>,
    sid: Seq<char>,
    params: SubParams,
    m: Unsubscribe,
    id: SubscriptionId,
)
    requires
        m.topic@ == topic,
        m.id matches Some(x) ==> x@ == sid,
        !s.subscriptions.dom().contains(topic),
    ensures
        unsubscribe_step(with_subscription(s, topic, ros_type, sid, params, id), m) == (
            s,
            EffectModel::Unsubscribe(id),
        ),
{
    let w = with_subscription(s, topic, ros_type, sid, params, id);
    assert(w.subscriptions[topic].sids.remove(sid).dom() =~= Set::<Seq<char>>::empty());
    assert(w.subscriptions.remove(topic) =~= s.subscriptions);
}

/// An `unsubscribe` without an id ends every subscription to its topic.
pub proof fn unsubscribe_without_id_ends_all(s: SessionModel, m: Unsubscribe)
    requires
        m.id is None,
    ensures
        !unsubscribe_step(s, m).0.subscriptions.dom().contains(m.topic@),
{
    assert(Map::<Seq<char>, SubParams>::empty().dom() =~= Set::<Seq<char>>::empty());
}

/// A subscription stays as long as someone else has subscribed to its topic.
pub proof fn subscription_stays_while_subscribed(s: SessionModel, m: Unsubscribe, other: Seq<char>)
    requires
        s.subscriptions.dom().contains(m.topic@),
        s.subscriptions[m.topic@].sids.dom().contains(other),
        m.id is Some,
        m.id.unwrap()@ != other,
    ensures
        unsubscribe_step(s, m).1 is Nothing,
        unsubscribe_step(s, m).0.subscriptions.dom().contains(m.topic@),
        unsubscribe_step(s, m).0.subscriptions[m.topic@].sids.dom().contains(other),
{
    let left = s.subscriptions[m.topic@].sids.remove(m.id.unwrap()@);
    assert(left.dom().contains(other));
}

/// A request to a hosted service is answered once: a second response to it is refused.
pub proof fn request_is_answered_once(s: SessionModel, m: ServiceResponse, again: ServiceResponse)
    requires
        m.id is Some,
        again.id is Some,
        again.id.unwrap()@ == m.id.unwrap()@,
        s.pending.contains(m.id.unwrap()@),
    ensures
        service_response_step(s, m).1 matches EffectModel::Respond { request, .. } && request
            == m.id.unwrap()@,
        service_response_step(service_response_step(s, m).0, again) == (
            service_response_step(s, m).0,
            EffectModel::Report(
                status(
                    StatusLevel::Error,
                    "no pending service request for id "@ + m.id.unwrap()@,
                    Some(m.id.unwrap()@),
                ),
            ),
        ),
{
}

/// A hosted goal takes feedback until its result, which is its only one.
pub proof fn goal_has_one_result(s: SessionModel, m: ActionResult, f: ActionFeedback)
    requires
        s.hosted_goals.contains(m.id@),
        f.id@ == m.id@,
    ensures
        action_feedback_step(s, f) == (EffectModel::Feedback {
            goal: f.id@,
            progress: f.values@,
        }),
        action_result_step(s, m).1 is Finish,
        action_feedback_step(action_result_step(s, m).0, f) is Report,
        action_result_step(action_result_step(s, m).0, m).1 is Report,
        action_result_step(action_result_step(s, m).0, m).0 == action_result_step(s, m).0,
{
}

/// An issued goal can be cancelled by the text of its id, whatever action is named,
/// unless the client has given that text as the id of another goal.
pub proof fn issued_goal_can_be_cancelled(
    s: SessionModel,
    goal_id: Seq<u8>,
    action: Seq<char>,
    m: CancelActionGoal,
)
    requires
        goal_id.len() == 16,
        m.id@ == hex(goal_id),
        s.issued_goals.dom().contains(m.id@),
        s.issued_goals[m.id@] == action,
        !s.goal_names.dom().contains(m.id@) || s.goal_names[m.id@] == m.id@,
    ensures
        cancel_goal_step(s, m) == (EffectModel::CancelGoal { action, goal_id }),
{
    uuid_reads_back(goal_id);
}

/// An accepted goal can be cancelled by the id that the client gave it, whatever action
/// is named.
pub proof fn named_goal_can_be_cancelled(
    s: SessionModel,
    goal_id: Seq<u8>,
    action: Seq<char>,
    m: CancelActionGoal,
)
    requires
        goal_id.len() == 16,
    ensures
        cancel_goal_step(with_goal(s, action, hex(goal_id), Some(m.id@)), m) == (
        EffectModel::CancelGoal { action, goal_id }),
{
    uuid_reads_back(goal_id);
}

/// A goal that has ended leaves the session as it was before the goal.
pub proof fn ended_goal_is_forgotten(
    s: SessionModel,
    action: Seq<char>,
    goal: Seq<char>,
    id: Option<Seq<char>>,
)
    requires
        !s.issued_goals.dom().contains(goal),
        id matches Some(x) ==> !s.goal_names.dom().contains(x),
    ensures
        without_goal(with_goal(s, action, goal, id), goal, id) == s,
{
    assert(without_goal(with_goal(s, action, goal, id), goal, id) =~= s);
}

/// The level `none` keeps every error, warning and information from the client, and the
/// level `info` none.
pub proof fn levels_silence_and_open(s: SessionModel, m: StatusModel)
    ensures
        s.status_level == StatusLevel::Off && m.level != StatusLevel::Off ==> status_frames(s, m)
            == Seq::<FrameModel>::empty(),
        s.status_level == StatusLevel::Info ==> status_frames(s, m) == seq![
            FrameModel::Text(json_text(status_op(m))),
        ],
{
}

/// A level lets everything pass that a less verbose one does.
pub proof fn levels_are_nested(s: SessionModel, t: SessionModel, level: StatusLevel)
    requires
        s.status_level.verbosity() <= t.status_level.verbosity(),
        forwards(s, level),
    ensures
        forwards(t, level),
{
}

/// An operation that the protocol does not know is answered with an error, and nothing
/// else comes of it.
pub proof fn unknown_operation_is_reported(
    s: SessionModel,
    cfg: Config,
    types: Map<Seq<char>, Seq<char>>,
    found: Option<Seq<char>>,
    now: (i32, u32),
    clock: u64,
)
    ensures
        step(s, cfg, types, IncomingMessage::Unknown, found, now, clock) == (
            s,
            EffectModel::Report(status(StatusLevel::Error, "unknown operation"@, None)),
        ),
{
}

/// On a topic `cbor-raw` behaves as `cbor`, and both send one binary frame.
pub proof fn raw_cbor_is_sent_as_cbor(
    s: SessionModel,
    max: usize,
    topic: Seq<char>,
    msg: Json,
    p: SubParams,
)
    requires
        p.compression == Compression::Cbor || p.compression == Compression::CborRaw,
    ensures
        sample_frames(s, max, topic, msg, p) == seq![
            FrameModel::Binary(cbor_bytes(publish_op(topic, msg))),
        ],
{
}

/// Without compression and without a fragment size a message is sent as one text frame.
pub proof fn plain_message_is_one_text(
    s: SessionModel,
    max: usize,
    topic: Seq<char>,
    msg: Json,
    p: SubParams,
)
    requires
        p.compression == Compression::Plain,
        p.fragment_size is None,
    ensures
        sample_frames(s, max, topic, msg, p) == seq![
            FrameModel::Text(json_text(publish_op(topic, msg))),
        ],
{
}

/// The deprecated `latch` and `queue_size` override the profile; where nothing is said,
/// the defaults stay.
pub proof fn deprecated_qos_overrides(
    qos: Option<QosProfile>,
    latch: Option<bool>,
    queue_size: Option<usize>,
    base: QosSpec,
)
    ensures
        latch == Some(true) ==> resolved(qos, latch, queue_size, base).durability
            == Durability::TransientLocal,
        queue_size matches Some(n) ==> resolved(qos, latch, queue_size, base).depth == n,
        resolved(qos, Some(false), queue_size, base) == resolved(qos, None, queue_size, base),
        resolved(None, None, None, base) == base,
{
}

/// Texts that end in a separator and a number are equal only where the numbers are.
proof fn lemma_numbered(a: Seq<char>, b: Seq<char>, n: nat, m: nat)
    requires
        a + ":"@ + decimal(n) == b + ":"@ + decimal(m),
    ensures
        n == m,
{
    reveal_strlit(":");
    decimal_reads_back(n);
    decimal_reads_back(m);
    let x = a + ":"@ + decimal(n);
    let y = b + ":"@ + decimal(m);
    let i = a.len() as int;
    let j = b.len() as int;
    assert(x.len() == i + 1 + decimal(n).len());
    assert(y.len() == j + 1 + decimal(m).len());
    assert(x[i] == ':' && y[j] == ':');
    if i < j {
        assert(x[j] == decimal(n)[j - i - 1]);
        assert(digit(decimal(n)[j - i - 1]) is Some);
    }
    if j < i {
        assert(y[i] == decimal(m)[i - j - 1]);
        assert(digit(decimal(m)[i - j - 1]) is Some);
    }
    assert(x.skip(i + 1) =~= decimal(n));
    assert(y.skip(j + 1) =~= decimal(m));
}

/// The fragments of two texts of a client have different ids, as long as the numbers
/// last.
pub proof fn fragment_ids_differ(client: u64, other: u64, n: u64, m: u64)
    requires
        n != m,
    ensures
        fragment_id(client, n) != fragment_id(other, m),
{
    if fragment_id(client, n) == fragment_id(other, m) {
        lemma_numbered(
            "f"@ + decimal(client as nat),
            "f"@ + decimal(other as nat),
            n as nat,
            m as nat,
        );
    }
}

/// Two requests have different ids, to whichever services they go, as long as the
/// numbers last.
pub proof fn request_ids_differ(service: Seq<char>, other: Seq<char>, n: u64, m: u64)
    requires
        n != m,
    ensures
        request_id(service, n) != request_id(other, m),
{
    if request_id(service, n) == request_id(other, m) {
        lemma_numbered("service_request:"@ + service, "service_request:"@ + other, n as nat, m as nat);
    }
}

/// On the in-process bus a message goes from the client that publishes it to every
/// subscription to its topic: it is published through the client's publisher, and that
/// publisher reaches the subscription.
pub proof fn published_message_reaches_subscriber(
    s: SessionModel,
    b: BusModel,
    globs: GlobList,
    types: Map<Seq<char>, Seq<char>>,
    m: Publish,
    found: Option<Seq<char>>,
    now: (i32, u32),
    sub: SubscriptionId,
)
    requires
        passes(globs, m.topic@),
        s.publishers.dom().contains(m.topic@),
        s.publishers[m.topic@].ros_type.len() > 0,
        b.publishers.dom().contains(s.publishers[m.topic@].id.0),
        b.publishers[s.publishers[m.topic@].id.0] == m.topic@,
        listed(b, m.topic@, sub),
    ensures
        publish_step(s, globs, types, m, found, now) == (EffectModel::Publish {
            publisher: s.publishers[m.topic@].id,
            msg: stamped(m.msg@, now),
            id: optional(m.id),
        }),
        reached(b, b.publishers[s.publishers[m.topic@].id.0]).contains(sub),
{
}

/// A topic's type is learned where none was known, and no other topic's type changes by
/// that; what was learned goes before what the ROS graph says.
pub proof fn learned_type_is_the_first_seen(
    types: Map<Seq<char>, Seq<char>>,
    topic: Seq<char>,
    ros_type: Seq<char>,
    other: Seq<char>,
    found: Option<Seq<char>>,
)
    requires
        other != topic,
    ensures
        !types.dom().contains(topic) ==> inferred(learned(types, topic, ros_type), topic, found)
            == Some(ros_type),
        types.dom().contains(topic) ==> inferred(learned(types, topic, ros_type), topic, found)
            == Some(types[topic]),
        !types.dom().contains(topic) ==> inferred(types, topic, found) == found,
        inferred(learned(types, topic, ros_type), other, found) == inferred(types, other, found),
{
}

/// The id that a client gave an operation.
pub open spec fn given_id(msg: IncomingMessage) -> Option<Seq<char>> {
    match msg {
        IncomingMessage::Advertise(m) => optional(m.id),
        IncomingMessage::Unadvertise(m) => optional(m.id),
        IncomingMessage::Publish(m) => optional(m.id),
        IncomingMessage::Subscribe(m) => optional(m.id),
        IncomingMessage::SendActionGoal(m) => optional(m.id),
        IncomingMessage::SetLevel(m) => optional(m.id),
        IncomingMessage::ServiceResponse(m) => optional(m.id),
        IncomingMessage::ActionFeedback(m) => Some(m.id@),
        IncomingMessage::ActionResult(m) => Some(m.id@),
        IncomingMessage::Fragment(m) => Some(m.id@),
        _ => None,
    }
}

/// Whether what is reported of an operation is a status with the given id, and the operation
/// changes nothing of the session but its fragments.
pub open spec fn reported_with(
    s: SessionModel,
    r: (SessionModel, EffectModel),
    id: Option<Seq<char>>,
) -> bool {
    r.1 matches EffectModel::Report(m) ==> m.op == "status"@ && (m.level is Error
        || m.level is Warning) && m.id == id && r.0 == (SessionModel { groups: r.0.groups, ..s })
}

/// What is reported of an operation has the id that the client gave it, and an operation of
/// which something is reported changes nothing of the session but its fragments.
pub proof fn reports_have_the_operations_id(
    s: SessionModel,
    cfg: Config,
    types: Map<Seq<char>, Seq<char>>,
    msg: IncomingMessage,
    found: Option<Seq<char>>,
    now: (i32, u32),
    clock: u64,
)
    requires
        !(msg is CallService),
    ensures
        reported_with(
            s,
            step(s, cfg, types, msg, found, now, clock),
            given_id(msg),
        ),
{
    if msg is Advertise || msg is Unadvertise || msg is Publish {
        lemma_publishing_reports(s, cfg, types, msg, found, now, clock);
    } else if msg is Subscribe || msg is Unsubscribe {
        lemma_subscribing_reports(s, cfg, types, msg, found, now, clock);
    } else if msg is AdvertiseService || msg is UnadvertiseService || msg is ServiceResponse {
        lemma_service_reports(s, cfg, types, msg, found, now, clock);
    } else if msg is SetLevel || msg is Status || msg is Auth || msg is Fragment || msg is Unknown {
        lemma_other_reports(s, cfg, types, msg, found, now, clock);
    } else {
        lemma_action_reports(s, cfg, types, msg, found, now, clock);
    }
}

proof fn lemma_publishing_reports(
    s: SessionModel,
    cfg: Config,
    types: Map<Seq<char>, Seq<char>>,
    msg: IncomingMessage,
    found: Option<Seq<char>>,
    now: (i32, u32),
    clock: u64,
)
    requires
        msg is Advertise || msg is Unadvertise || msg is Publish,
    ensures
        reported_with(
            s,
            step(s, cfg, types, msg, found, now, clock),
            given_id(msg),
        ),
{
}

proof fn lemma_subscribing_reports(
    s: SessionModel,
    cfg: Config,
    types: Map<Seq<char>, Seq<char>>,
    msg: IncomingMessage,
    found: Option<Seq<char>>,
    now: (i32, u32),
    clock: u64,
)
    requires
        msg is Subscribe || msg is Unsubscribe,
    ensures
        reported_with(
            s,
            step(s, cfg, types, msg, found, now, clock),
            given_id(msg),
        ),
{
}

proof fn lemma_service_reports(
    s: SessionModel,
    cfg: Config,
    types: Map<Seq<char>, Seq<char>>,
    msg: IncomingMessage,
    found: Option<Seq<char>>,
    now: (i32, u32),
    clock: u64,
)
    requires
        msg is AdvertiseService || msg is UnadvertiseService || msg is ServiceResponse,
    ensures
        reported_with(
            s,
            step(s, cfg, types, msg, found, now, clock),
            given_id(msg),
        ),
{
}

proof fn lemma_action_reports(
    s: SessionModel,
    cfg: Config,
    types: Map<Seq<char>, Seq<char>>,
    msg: IncomingMessage,
    found: Option<Seq<char>>,
    now: (i32, u32),
    clock: u64,
)
    requires
        msg is AdvertiseAction || msg is UnadvertiseAction || msg is SendActionGoal || msg
            is CancelActionGoal || msg is ActionFeedback || msg is ActionResult,
    ensures
        reported_with(
            s,
            step(s, cfg, types, msg, found, now, clock),
            given_id(msg),
        ),
{
}

proof fn lemma_other_reports(
    s: SessionModel,
    cfg: Config,
    types: Map<Seq<char>, Seq<char>>,
    msg: IncomingMessage,
    found: Option<Seq<char>>,
    now: (i32, u32),
    clock: u64,
)
    requires
        msg is SetLevel || msg is Status || msg is Auth || msg is Fragment || msg is Unknown,
    ensures
        reported_with(
            s,
            step(s, cfg, types, msg, found, now, clock),
            given_id(msg),
        ),
{
}

/// An operation changes only the part of the session that it is about.
pub proof fn operations_change_their_part_only(
    s: SessionModel,
    cfg: Config,
    types: Map<Seq<char>, Seq<char>>,
    msg: IncomingMessage,
    found: Option<Seq<char>>,
    now: (i32, u32),
    clock: u64,
)
    ensures
        ({
            let t = step(s, cfg, types, msg, found, now, clock).0;
            &&& t.id == s.id && t.timeout == s.timeout && t.frag_seed == s.frag_seed
                && t.service_req_seq == s.service_req_seq
            &&& !(msg is SetLevel) ==> t.status_level == s.status_level
            &&& !(msg is Advertise) && !(msg is Unadvertise) ==> t.publishers == s.publishers
            &&& !(msg is Subscribe) && !(msg is Unsubscribe) ==> t.subscriptions == s.subscriptions
            &&& !(msg is UnadvertiseService) ==> t.services == s.services
            &&& !(msg is UnadvertiseAction) ==> t.actions == s.actions
            &&& !(msg is ServiceResponse) ==> t.pending == s.pending
            &&& !(msg is ActionResult) ==> t.hosted_goals == s.hosted_goals
            &&& !(msg is Fragment) ==> t.groups == s.groups
            &&& t.issued_goals == s.issued_goals && t.goal_names == s.goal_names
        }),
{
}

/// An id is used up by a text that may be cut, so that the next one has another; nothing else
/// of the session changes by sending.
pub proof fn next_text_has_another_id(
    s: SessionModel,
    max: usize,
    size: Option<usize>,
    topic: Seq<char>,
    msg: Json,
    p: SubParams,
)
    ensures
        ({
            let t = cut_session(s, max, size);
            let cuts = size matches Some(n) && n > 0 && max > 0;
            &&& t == (SessionModel { frag_seed: t.frag_seed, ..s })
            &&& cuts ==> fragment_id(t.id, t.frag_seed) != fragment_id(s.id, s.frag_seed)
            &&& !cuts ==> t == s
        }),
        ({
            let t = sampled(s, max, topic, msg, p);
            let cuts = p.fragment_size matches Some(n) && n > 0 && max > 0;
            &&& t == (SessionModel { frag_seed: t.frag_seed, ..s })
            &&& cuts && p.compression is Plain ==> fragment_id(t.id, t.frag_seed) != fragment_id(
                s.id,
                s.frag_seed,
            )
            &&& cuts && sample_frames(s, max, topic, msg, p).len() > 1 ==> fragment_id(
                t.id,
                t.frag_seed,
            ) != fragment_id(s.id, s.frag_seed)
            &&& !cuts || p.compression is Cbor || p.compression is CborRaw ==> t == s
        }),
{
    let n = crate::backend::next_number(s.frag_seed);
    fragment_ids_differ(s.id, s.id, n, s.frag_seed);
}

/// Whether a text stands somewhere in another.
pub open spec fn mentions(text: Seq<char>, what: Seq<char>) -> bool {
    exists|a: Seq<char>, b: Seq<char>| #[trigger] (a + what + b) == text
}

proof fn lemma_mentions(a: Seq<char>, what: Seq<char>, b: Seq<char>)
    ensures
        mentions(a + what + b, what),
        mentions(a + what, what),
{
    let none = Seq::<char>::empty();
    assert(a + what =~= (a + what) + none);
}

/// What an operation is about: the topic, service or action that it names, the request or the
/// goal that it answers, or the level that it sets.
pub open spec fn subject(msg: IncomingMessage) -> Seq<char> {
    match msg {
        IncomingMessage::Advertise(m) => m.topic@,
        IncomingMessage::Unadvertise(m) => m.topic@,
        IncomingMessage::Publish(m) => m.topic@,
        IncomingMessage::Subscribe(m) => m.topic@,
        IncomingMessage::CallService(m) => name_and_id(m.service@).0,
        IncomingMessage::UnadvertiseService(m) => m.service@,
        IncomingMessage::ServiceResponse(m) => match m.id {
            Some(id) => id@,
            None => "missing id"@,
        },
        IncomingMessage::UnadvertiseAction(m) => m.action@,
        IncomingMessage::SendActionGoal(m) => m.action@,
        IncomingMessage::ActionFeedback(m) => m.id@,
        IncomingMessage::ActionResult(m) => m.id@,
        IncomingMessage::SetLevel(m) => m.level@,
        _ => Seq::empty(),
    }
}

/// Whether what is reported of an operation says what the operation is about.
pub open spec fn names_subject(e: EffectModel, msg: IncomingMessage) -> bool {
    e matches EffectModel::Report(r) ==> mentions(r.msg, subject(msg))
}

/// What is reported of an operation says what the operation is about.
pub proof fn reports_name_the_subject(
    s: SessionModel,
    cfg: Config,
    types: Map<Seq<char>, Seq<char>>,
    msg: IncomingMessage,
    found: Option<Seq<char>>,
    now: (i32, u32),
    clock: u64,
)
    ensures
        names_subject(step(s, cfg, types, msg, found, now, clock).1, msg),
{
    if msg is Advertise || msg is Unadvertise || msg is Publish || msg is Subscribe {
        lemma_topic_named(s, cfg, types, msg, found, now, clock);
    } else if msg is CallService || msg is UnadvertiseService || msg is ServiceResponse {
        lemma_service_named(s, cfg, types, msg, found, now, clock);
    } else if msg is UnadvertiseAction || msg is SendActionGoal || msg is ActionFeedback || msg
        is ActionResult || msg is SetLevel {
        lemma_action_named(s, cfg, types, msg, found, now, clock);
    } else if let EffectModel::Report(r) = step(s, cfg, types, msg, found, now, clock).1 {
        lemma_mentions(r.msg, Seq::empty(), Seq::empty());
        assert(r.msg + Seq::<char>::empty() =~= r.msg);
    }
}

proof fn lemma_topic_named(
    s: SessionModel,
    cfg: Config,
    types: Map<Seq<char>, Seq<char>>,
    msg: IncomingMessage,
    found: Option<Seq<char>>,
    now: (i32, u32),
    clock: u64,
)
    requires
        msg is Advertise || msg is Unadvertise || msg is Publish || msg is Subscribe,
    ensures
        names_subject(step(s, cfg, types, msg, found, now, clock).1, msg),
{
    let t = subject(msg);
    match msg {
        IncomingMessage::Advertise(m) => {
            lemma_mentions("advertise to "@, t, " blocked by topics_pub_glob"@);
            if s.publishers.dom().contains(t) {
                let rest = " already advertised as "@ + s.publishers[t].ros_type + ", not "@
                    + m.msg_type@;
                lemma_mentions("topic "@, t, rest);
                assert("topic "@ + t + " already advertised as "@ + s.publishers[t].ros_type
                    + ", not "@ + m.msg_type@ =~= "topic "@ + t + rest);
            }
        },
        IncomingMessage::Unadvertise(_) => {
            lemma_mentions("topic "@, t, " was not advertised"@);
        },
        IncomingMessage::Publish(_) => {
            lemma_mentions("publish to "@, t, " blocked by topics_pub_glob"@);
            lemma_mentions("cannot publish to "@, t, ": unknown message type"@);
        },
        _ => {
            lemma_mentions("subscribe to "@, t, " blocked by topics_sub_glob"@);
            lemma_mentions("subscribe to "@, t, ": unknown message type (provide 'type')"@);
        },
    }
}

proof fn lemma_service_named(
    s: SessionModel,
    cfg: Config,
    types: Map<Seq<char>, Seq<char>>,
    msg: IncomingMessage,
    found: Option<Seq<char>>,
    now: (i32, u32),
    clock: u64,
)
    requires
        msg is CallService || msg is UnadvertiseService || msg is ServiceResponse,
    ensures
        names_subject(step(s, cfg, types, msg, found, now, clock).1, msg),
{
    let t = subject(msg);
    match msg {
        IncomingMessage::CallService(_) => {
            lemma_mentions("call to service "@, t, " blocked by services_glob"@);
            lemma_mentions("call_service "@, t, ": missing service type"@);
        },
        IncomingMessage::UnadvertiseService(_) => {
            lemma_mentions("service "@, t, " was not advertised"@);
        },
        _ => {
            lemma_mentions("no pending service request for id "@, t, t);
            reveal_strlit("service_response ");
            reveal_strlit("missing id");
            reveal_strlit("service_response missing id");
            assert("service_response missing id"@ =~= "service_response "@ + "missing id"@);
            lemma_mentions("service_response "@, "missing id"@, t);
        },
    }
}

proof fn lemma_action_named(
    s: SessionModel,
    cfg: Config,
    types: Map<Seq<char>, Seq<char>>,
    msg: IncomingMessage,
    found: Option<Seq<char>>,
    now: (i32, u32),
    clock: u64,
)
    requires
        msg is UnadvertiseAction || msg is SendActionGoal || msg is ActionFeedback || msg
            is ActionResult || msg is SetLevel,
    ensures
        names_subject(step(s, cfg, types, msg, found, now, clock).1, msg),
{
    let t = subject(msg);
    match msg {
        IncomingMessage::UnadvertiseAction(_) => {
            lemma_mentions("action "@, t, " was not advertised"@);
        },
        IncomingMessage::SendActionGoal(_) => {
            lemma_mentions("send_action_goal to "@, t, " blocked by actions_glob"@);
        },
        IncomingMessage::ActionFeedback(_) => {
            lemma_mentions("action_feedback for unknown goal "@, t, t);
        },
        IncomingMessage::ActionResult(_) => {
            lemma_mentions("action_result for unknown goal "@, t, t);
        },
        _ => {
            lemma_mentions("invalid set_level value: "@, t, t);
        },
    }
}

/// A client that has set no level gets the status messages of every level.
pub proof fn new_session_forwards_every_level(id: u64, timeout: nat, level: StatusLevel)
    ensures
        forwards(new_session(id, timeout), level),
{
}

} // verus!
