//! Per-client protocol session: the state that one connected client has, and the
//! frames that are sent to it.
use vstd::prelude::*;
use vstd::utf8::encode_utf8;
use crate::backend::{
    bump, next_number, ActionServerId, PublisherId, ServiceServerId, SubscriptionId,
};
use crate::compression::{png_encode, png_of, to_cbor, Compression};
use crate::config::Config;
use crate::dict::Dict;
use crate::document::{cbor_bytes, finite_json, json_text, op, reads_back, Operation};
use crate::fragment::{fragment, fragment_texts, Defragmenter, PendingModel};
use crate::json::{optional_json, Json, JsonValue};
use crate::outgoing::{Status, StatusLevel, StatusModel};
use crate::subscription::SubParams;
use crate::text::{decimal, decimal_chars, optional, texts};

verus! {

/// An outgoing WebSocket frame.
#[derive(Debug)]
pub enum OutFrame {
    Text(String),
    Binary(Vec<u8>),
    Ping(Vec<u8>),
    Pong(Vec<u8>),
    Close,
}

/// An outgoing frame as mathematics.
#[verifier::ext_equal]
pub ghost enum FrameModel {
    Text(Seq<char>),
    Binary(Seq<u8>),
    Ping(Seq<u8>),
    Pong(Seq<u8>),
    Close,
}

impl View for OutFrame {
    type V = FrameModel;

    open spec fn view(&self) -> FrameModel {
        match self {
            OutFrame::Text(s) => FrameModel::Text(s@),
            OutFrame::Binary(b) => FrameModel::Binary(b@),
            OutFrame::Ping(b) => FrameModel::Ping(b@),
            OutFrame::Pong(b) => FrameModel::Pong(b@),
            OutFrame::Close => FrameModel::Close,
        }
    }
}

/// What frames stand for.
pub open spec fn frames(v: Seq<OutFrame>) -> Seq<FrameModel> {
    v.map_values(|f: OutFrame| f@)
}

/// State shared across all client sessions of one server.
pub struct Shared {
    pub cfg: Config,
    /// Best-effort topic -> type map, learned from advertise/publish, used to
    /// infer types for `subscribe` when the client omits `type`.
    pub topic_types: Dict<String>,
}

/// The type that is learned of a topic: the first one that it was seen with.
pub open spec fn learned(
    types: Map<Seq<char>, Seq<char>>,
    topic: Seq<char>,
    ros_type: Seq<char>,
) -> Map<Seq<char>, Seq<char>> {
    if types.dom().contains(topic) {
        types
    } else {
        types.insert(topic, ros_type)
    }
}

/// The type of a topic: the one that was learned, else the one found in the ROS graph.
pub open spec fn inferred(
    types: Map<Seq<char>, Seq<char>>,
    topic: Seq<char>,
    found: Option<Seq<char>>,
) -> Option<Seq<char>> {
    if types.dom().contains(topic) {
        Some(types[topic])
    } else {
        found
    }
}

impl Shared {
    /// The types that were learned.
    pub open spec fn types(&self) -> Map<Seq<char>, Seq<char>> {
        self.topic_types@.map_values(|s: String| s@)
    }

    /// The state of a server without clients.
    pub fn new(cfg: Config) -> (r: Self)
        ensures
            r.cfg == cfg,
            r.types() == Map::<Seq<char>, Seq<char>>::empty(),
    {
        let r = Shared { cfg, topic_types: Dict::new() };
        assert(r.types() =~= Map::empty());
        r
    }

    /// Learns the type of a topic.
    pub fn learn_type(&mut self, topic: &str, ros_type: &str)
        ensures
            final(self).cfg == old(self).cfg,
            final(self).types() == learned(old(self).types(), topic@, ros_type@),
    {
        if !self.topic_types.contains_key(topic) {
            let ghost before = self.types();
            self.topic_types.insert(topic.to_owned(), ros_type.to_owned());
            assert(self.types() =~= before.insert(topic@, ros_type@));
        }
    }

    /// Prefers a type learned locally from advertise/publish; otherwise takes the one
    /// that the backend found in the ROS graph.
    pub fn infer_type(&self, topic: &str, found: Option<String>) -> (r: Option<String>)
        ensures
            optional(r) == inferred(self.types(), topic@, optional(found)),
    {
        match self.topic_types.get(topic) {
            Some(t) => Some(t.as_str().to_owned()),
            None => found,
        }
    }
}

/// A topic that the client advertises.
pub struct PubEntry {
    pub id: PublisherId,
    pub ros_type: String,
    pub adv_ids: Dict<()>,
}

#[verifier::ext_equal]
pub ghost struct PubModel {
    pub id: PublisherId,
    pub ros_type: Seq<char>,
    pub adv_ids: Set<Seq<char>>,
}

impl View for PubEntry {
    type V = PubModel;

    open spec fn view(&self) -> PubModel {
        PubModel { id: self.id, ros_type: self.ros_type@, adv_ids: self.adv_ids@.dom() }
    }
}

/// A topic that the client subscribes to.
pub struct SubEntry {
    pub id: SubscriptionId,
    pub ros_type: String,
    pub sids: Dict<SubParams>,
    pub effective: SubParams,
}

#[verifier::ext_equal]
pub ghost struct SubModel {
    pub id: SubscriptionId,
    pub ros_type: Seq<char>,
    pub sids: Map<Seq<char>, SubParams>,
    pub effective: SubParams,
}

impl View for SubEntry {
    type V = SubModel;

    open spec fn view(&self) -> SubModel {
        SubModel {
            id: self.id,
            ros_type: self.ros_type@,
            sids: self.sids@,
            effective: self.effective,
        }
    }
}

/// An action server that the client hosts.
pub struct ActEntry {
    pub id: ActionServerId,
    pub ros_type: String,
}

#[verifier::ext_equal]
pub ghost struct ActModel {
    pub id: ActionServerId,
    pub ros_type: Seq<char>,
}

impl View for ActEntry {
    type V = ActModel;

    open spec fn view(&self) -> ActModel {
        ActModel { id: self.id, ros_type: self.ros_type@ }
    }
}

/// A single connected client.
pub struct ClientSession {
    pub id: u64,
    /// topic -> publisher.
    pub publishers: Dict<PubEntry>,
    /// topic -> subscription.
    pub subscriptions: Dict<SubEntry>,
    /// service -> hosted service server.
    pub services: Dict<ServiceServerId>,
    /// action -> hosted action server.
    pub actions: Dict<ActEntry>,
    /// Requests to hosted services that have not been answered.
    pub pending: Dict<()>,
    /// goal id (as string) -> action name, for cancellation of issued goals.
    pub issued_goals: Dict<String>,
    /// id that the client gave a goal -> goal id (as string), for cancellation by it.
    pub goal_names: Dict<String>,
    /// Goals (ids as strings) that hosted action servers are working on.
    pub hosted_goals: Dict<()>,
    pub defrag: Defragmenter,
    pub frag_seed: u64,
    pub service_req_seq: u64,
    /// Threshold controlling which `status` messages are forwarded to the
    /// client (set via the `set_level` op). Messages are always logged.
    pub status_level: StatusLevel,
}

/// A session as mathematics.
#[verifier::ext_equal]
pub ghost struct SessionModel {
    pub id: u64,
    pub publishers: Map<Seq<char>, PubModel>,
    pub subscriptions: Map<Seq<char>, SubModel>,
    pub services: Map<Seq<char>, ServiceServerId>,
    pub actions: Map<Seq<char>, ActModel>,
    pub pending: Set<Seq<char>>,
    pub issued_goals: Map<Seq<char>, Seq<char>>,
    pub goal_names: Map<Seq<char>, Seq<char>>,
    pub hosted_goals: Set<Seq<char>>,
    pub groups: Map<Seq<char>, PendingModel>,
    pub timeout: nat,
    pub frag_seed: u64,
    pub service_req_seq: u64,
    pub status_level: StatusLevel,
}

impl View for ClientSession {
    type V = SessionModel;

    open spec fn view(&self) -> SessionModel {
        SessionModel {
            id: self.id,
            publishers: self.publishers@.map_values(|e: PubEntry| e@),
            subscriptions: self.subscriptions@.map_values(|e: SubEntry| e@),
            services: self.services@,
            actions: self.actions@.map_values(|e: ActEntry| e@),
            pending: self.pending@.dom(),
            issued_goals: self.issued_goals@.map_values(|s: String| s@),
            goal_names: self.goal_names@.map_values(|s: String| s@),
            hosted_goals: self.hosted_goals@.dom(),
            groups: self.defrag.groups(),
            timeout: self.defrag.timeout(),
            frag_seed: self.frag_seed,
            service_req_seq: self.service_req_seq,
            status_level: self.status_level,
        }
    }
}

/// The session of a client that has just connected.
pub open spec fn new_session(id: u64, timeout: nat) -> SessionModel {
    SessionModel {
        id,
        publishers: Map::empty(),
        subscriptions: Map::empty(),
        services: Map::empty(),
        actions: Map::empty(),
        pending: Set::empty(),
        issued_goals: Map::empty(),
        goal_names: Map::empty(),
        hosted_goals: Set::empty(),
        groups: Map::empty(),
        timeout,
        frag_seed: 0,
        service_req_seq: 0,
        status_level: StatusLevel::Info,
    }
}

/// The size that texts are cut to: the lesser of what the client asks for and what
/// the server sends; 0 is no size.
pub open spec fn fragment_cap(max: usize, size: Option<usize>) -> Option<usize> {
    match size {
        Some(n) => {
            let c = if n <= max {
                n
            } else {
                max
            };
            if c > 0 {
                Some(c)
            } else {
                None
            }
        },
        None => None,
    }
}

/// The id of the fragments of a text.
pub open spec fn fragment_id(client: u64, seed: u64) -> Seq<char> {
    "f"@ + decimal(client as nat) + ":"@ + decimal(seed as nat)
}

/// Text frames.
pub open spec fn text_models(v: Seq<Seq<char>>) -> Seq<FrameModel> {
    v.map_values(|s: Seq<char>| FrameModel::Text(s))
}

/// The frames of a text: one, or its fragments where it is longer than they may be.
pub open spec fn text_frames_of(
    client: u64,
    seed: u64,
    max: usize,
    text: Seq<char>,
    size: Option<usize>,
) -> Seq<FrameModel> {
    match fragment_cap(max, size) {
        Some(c) => if text.len() > c {
            text_models(fragment_texts(text, c as nat, fragment_id(client, seed)))
        } else {
            seq![FrameModel::Text(text)]
        },
        None => seq![FrameModel::Text(text)],
    }
}

/// The session after a text was cut: an id for fragments is used up wherever a size
/// is given.
pub open spec fn cut_session(s: SessionModel, max: usize, size: Option<usize>) -> SessionModel {
    match fragment_cap(max, size) {
        Some(_) => SessionModel { frag_seed: next_number(s.frag_seed), ..s },
        None => s,
    }
}

/// The `publish` operation that carries a message to a client.
pub open spec fn publish_op(topic: Seq<char>, msg: Json) -> Json {
    Json::Object(op("publish"@).insert("topic"@, Json::String(topic)).insert("msg"@, msg))
}

/// The `png` operation that carries a compressed text.
pub open spec fn png_op(data: Seq<char>) -> Json {
    Json::Object(op("png"@).insert("data"@, Json::String(data)))
}

/// The text that is sent of an operation, where the compression is one of text.
pub open spec fn sample_text(v: Json, compression: Compression) -> Option<Seq<char>> {
    match compression {
        Compression::Plain => Some(json_text(v)),
        Compression::Png => match png_of(encode_utf8(json_text(v))) {
            Ok(data) => Some(json_text(png_op(data))),
            Err(_) => None,
        },
        _ => None,
    }
}

/// The frames that carry a message of a topic to a client.
pub open spec fn sample_frames(
    s: SessionModel,
    max: usize,
    topic: Seq<char>,
    msg: Json,
    p: SubParams,
) -> Seq<FrameModel> {
    let v = publish_op(topic, msg);
    match p.compression {
        Compression::Cbor => seq![FrameModel::Binary(cbor_bytes(v))],
        Compression::CborRaw => seq![FrameModel::Binary(cbor_bytes(v))],
        _ => match sample_text(v, p.compression) {
            Some(text) => text_frames_of(s.id, s.frag_seed, max, text, p.fragment_size),
            None => Seq::empty(),
        },
    }
}

/// The session after a message was sent to its client.
pub open spec fn sampled(s: SessionModel, max: usize, topic: Seq<char>, msg: Json, p: SubParams) ->
    SessionModel {
    match sample_text(publish_op(topic, msg), p.compression) {
        Some(_) => cut_session(s, max, p.fragment_size),
        None => s,
    }
}

/// The `status` operation.
pub open spec fn status_op(s: StatusModel) -> Json {
    Json::Object(
        op("status"@).insert("level"@, Json::String(s.level.label())).insert(
            "msg"@,
            Json::String(s.msg),
        ).insert("id"@, optional_json(s.id)),
    )
}

/// Whether a status message is within the verbosity that the client has set.
pub open spec fn forwards(s: SessionModel, level: StatusLevel) -> bool {
    level.verbosity() <= s.status_level.verbosity()
}

/// The frames by which a status message is sent to the client.
pub open spec fn status_frames(s: SessionModel, m: StatusModel) -> Seq<FrameModel> {
    if forwards(s, m.level) {
        seq![FrameModel::Text(json_text(status_op(m)))]
    } else {
        Seq::empty()
    }
}

/// An error that says what was wrong with a message that came in.
pub fn rejected(what: &str, why: &str) -> (r: Status)
    ensures
        r@ == crate::outgoing::status(StatusLevel::Error, what@ + ": "@ + why@, None),
{
    let msg = crate::text::concat3(what, ": ", why);
    Status::error(msg.as_str(), None)
}

impl ClientSession {
    /// The parts of the session are well-formed.
    pub open spec fn wf(&self) -> bool {
        self.defrag.wf()
    }

    /// The session of a client that has just connected.
    pub fn new(id: u64, cfg: &Config) -> (r: Self)
        ensures
            r.wf(),
            r@ == new_session(id, cfg.fragment_timeout as nat),
    {
        let r = ClientSession {
            id,
            publishers: Dict::new(),
            subscriptions: Dict::new(),
            services: Dict::new(),
            actions: Dict::new(),
            pending: Dict::new(),
            issued_goals: Dict::new(),
            goal_names: Dict::new(),
            hosted_goals: Dict::new(),
            defrag: Defragmenter::new(cfg.fragment_timeout),
            frag_seed: 0,
            service_req_seq: 0,
            status_level: StatusLevel::Info,
        };
        assert(r@ =~= new_session(id, cfg.fragment_timeout as nat));
        r
    }

    /// The parameters that hold for the subscription to a topic.
    pub fn effective(&self, topic: &str) -> (r: Option<SubParams>)
        ensures
            r == (if self@.subscriptions.dom().contains(topic@) {
                Some(self@.subscriptions[topic@].effective)
            } else {
                None
            }),
    {
        match self.subscriptions.get(topic) {
            Some(e) => Some(e.effective),
            None => None,
        }
    }

    /// The frames by which a status message is sent to the client: none where it is
    /// beyond the configured verbosity.
    pub fn send_status(&self, status: &Status) -> (r: Vec<OutFrame>)
        ensures
            frames(r@) == status_frames(self@, status@),
    {
        let mut out: Vec<OutFrame> = Vec::new();
        if status.level.rank() <= self.status_level.rank() {
            let text = Operation::new("status").with(
                "level",
                JsonValue::text(status.level.as_str()),
            ).with("msg", JsonValue::text(status.msg.as_str())).with(
                "id",
                JsonValue::optional_text(&status.id),
            ).text();
            out.push(OutFrame::Text(text));
        }
        assert(frames(out@) =~= status_frames(self@, status@));
        out
    }

    /// The id of the fragments of the next text.
    pub fn next_frag_id(&mut self) -> (r: String)
        ensures
            r@ == fragment_id(old(self)@.id, old(self)@.frag_seed),
            final(self)@ == (SessionModel {
                frag_seed: next_number(old(self)@.frag_seed),
                ..old(self)@
            }),
            final(self).wf() == old(self).wf(),
    {
        let mut s = "f".to_owned();
        s.append(crate::text::to_text(decimal_chars(self.id).as_slice()).as_str());
        s.append(":");
        s.append(crate::text::to_text(decimal_chars(self.frag_seed).as_slice()).as_str());
        self.frag_seed = bump(self.frag_seed);
        s
    }

    /// Applies central fragmentation to a text payload if needed.
    pub fn text_frames(&mut self, cfg: &Config, serialized: String, fragment_size: Option<usize>)
        -> (r: Vec<OutFrame>)
        ensures
            frames(r@) == text_frames_of(
                old(self)@.id,
                old(self)@.frag_seed,
                cfg.max_message_size,
                serialized@,
                fragment_size,
            ),
            final(self)@ == cut_session(old(self)@, cfg.max_message_size, fragment_size),
            final(self).wf() == old(self).wf(),
    {
        let cap = match fragment_size {
            Some(f) => {
                let c: usize = if f <= cfg.max_message_size {
                    f
                } else {
                    cfg.max_message_size
                };
                if c > 0 {
                    Some(c)
                } else {
                    None
                }
            },
            None => None,
        };
        let mut out: Vec<OutFrame> = Vec::new();
        if let Some(size) = cap {
            let id = self.next_frag_id();
            if let Some(parts) = fragment(serialized.as_str(), size, id.as_str()) {
                for i in 0..parts.len()
                    invariant
                        frames(out@) == text_models(texts(parts@)).take(i as int),
                {
                    let ghost before = out@;
                    let part = OutFrame::Text(parts[i].as_str().to_owned());
                    out.push(part);
                    proof {
                        let all = text_models(texts(parts@));
                        assert(frames(out@) =~= frames(before).push(part@));
                        assert(all[i as int] == FrameModel::Text(parts@[i as int]@));
                        assert(all.take(i as int + 1) =~= all.take(i as int).push(all[i as int]));
                    }
                }
                assert(text_models(texts(parts@)).take(parts@.len() as int) =~= text_models(
                    texts(parts@),
                ));
                return out;
            }
        }
        out.push(OutFrame::Text(serialized));
        assert(frames(out@) =~= seq![FrameModel::Text(serialized@)]);
        out
    }

    /// Converts a received sample into outgoing frames. `cbor-raw` requires the raw
    /// serialized message, which the backend boundary does not carry; it therefore
    /// behaves as `cbor` here. What is sent as CBOR is read back as the operation.
    pub fn build_publish_frames(
        &mut self,
        cfg: &Config,
        topic: &str,
        msg: JsonValue,
        p: &SubParams,
    ) -> (r: Vec<OutFrame>)
        requires
            finite_json(msg@),
        ensures
            frames(r@) == sample_frames(old(self)@, cfg.max_message_size, topic@, msg@, *p),
            final(self)@ == sampled(old(self)@, cfg.max_message_size, topic@, msg@, *p),
            final(self).wf() == old(self).wf(),
            (p.compression is Cbor || p.compression is CborRaw) ==> r@.len() == 1 && (
            r@[0] matches OutFrame::Binary(b) && reads_back(b@, publish_op(topic@, msg@))),
    {
        let v = Operation::new("publish").with("topic", JsonValue::text(topic)).with("msg", msg);
        let mut out: Vec<OutFrame> = Vec::new();
        match p.compression {
            Compression::Cbor | Compression::CborRaw => {
                let bytes = to_cbor(&v.value());
                out.push(OutFrame::Binary(bytes));
                assert(frames(out@) =~= seq![FrameModel::Binary(bytes@)]);
                out
            },
            Compression::Png => {
                let text = v.text();
                match png_encode(text.as_str()) {
                    Ok(data) => {
                        let frame = Operation::new("png").with(
                            "data",
                            JsonValue::text(data.as_str()),
                        ).text();
                        self.text_frames(cfg, frame, p.fragment_size)
                    },
                    Err(_) => {
                        assert(frames(out@) =~= Seq::empty());
                        out
                    },
                }
            },
            Compression::Plain => {
                let text = v.text();
                self.text_frames(cfg, text, p.fragment_size)
            },
        }
    }
}

} // verus!
