//! A registry of interface definitions, resolving nested types on demand.
use vstd::prelude::*;
use vstd::slice::slice_subrange;
use crate::datatype::{BaseModel, BaseType, FieldType, Multiplicity};
use crate::dict::{lemma_dict_dom, lemma_dict_first, no_key, Dict};
use crate::interface::{
    ActionModel, ActionSpec, MessageModel, MessageSpec, ServiceModel, ServiceSpec,
};
use crate::nesting::{
    covers, grounded, grounded_within, held, named_in, shallow, shallow_more,
};
use crate::parser::{
    action_model, message_model, parse_action, parse_message, parse_service, service_model,
    ParseError, ParseFault,
};
use crate::text::{
    concat2, concat3, find_last, optional, pieces, rfind, same_chars, split, split_char, to_chars,
    to_text,
};
use crate::wrapped::{
    feedback, feedback_message, get_result, get_result_service, send_goal, send_goal_service,
};

verus! {

/// Errors raised by the registry.
#[derive(Debug, PartialEq)]
pub enum RegistryError {
    UnknownType(String),
    UnknownService(String),
    UnknownAction(String),
    Parse { name: String, source: ParseError },
}

/// A registry error as mathematics.
pub ghost enum RegistryFault {
    UnknownType(Seq<char>),
    UnknownService(Seq<char>),
    UnknownAction(Seq<char>),
    Parse { name: Seq<char>, source: ParseFault },
}

impl View for RegistryError {
    type V = RegistryFault;

    open spec fn view(&self) -> RegistryFault {
        match self {
            RegistryError::UnknownType(s) => RegistryFault::UnknownType(s@),
            RegistryError::UnknownService(s) => RegistryFault::UnknownService(s@),
            RegistryError::UnknownAction(s) => RegistryFault::UnknownAction(s@),
            RegistryError::Parse { name, source } => RegistryFault::Parse {
                name: name@,
                source: source@,
            },
        }
    }
}

impl RegistryError {
    /// The error in words.
    pub open spec fn text(&self) -> Seq<char> {
        match self {
            RegistryError::UnknownType(s) => "unknown message type: "@ + s@,
            RegistryError::UnknownService(s) => "unknown service type: "@ + s@,
            RegistryError::UnknownAction(s) => "unknown action type: "@ + s@,
            RegistryError::Parse { name, source } => "parse error in "@ + name@ + ": "@
                + source.text(),
        }
    }

    /// The error in words.
    pub fn message(&self) -> (r: String)
        ensures
            r@ == self.text(),
    {
        match self {
            RegistryError::UnknownType(s) => concat2("unknown message type: ", s.as_str()),
            RegistryError::UnknownService(s) => concat2("unknown service type: ", s.as_str()),
            RegistryError::UnknownAction(s) => concat2("unknown action type: ", s.as_str()),
            RegistryError::Parse { name, source } => {
                let mut s = concat3("parse error in ", name.as_str(), ": ");
                s.append(source.message().as_str());
                s
            },
        }
    }
}

/// Holds all known message/service/action specs, keyed by `package/msg/Type`,
/// `package/srv/Type`, `package/action/Type`.
pub struct Registry {
    messages: Dict<MessageSpec>,
    services: Dict<ServiceSpec>,
    actions: Dict<ActionSpec>,
}

/// A registry as mathematics.
#[verifier::ext_equal]
pub ghost struct RegistryModel {
    pub messages: Map<Seq<char>, MessageModel>,
    pub services: Map<Seq<char>, ServiceModel>,
    pub actions: Map<Seq<char>, ActionModel>,
}

impl View for Registry {
    type V = RegistryModel;

    closed spec fn view(&self) -> RegistryModel {
        RegistryModel {
            messages: self.messages@.map_values(|m: MessageSpec| m@),
            services: self.services@.map_values(|s: ServiceSpec| s@),
            actions: self.actions@.map_values(|a: ActionSpec| a@),
        }
    }
}

/// The package of a fully-qualified name `package/kind/Type`.
pub open spec fn package_of(fqn: Seq<char>) -> Option<Seq<char>> {
    let parts = split(fqn, '/');
    if parts.len() == 3 {
        Some(parts[0])
    } else {
        None
    }
}

fn package_name(fqn: &str) -> (r: Option<String>)
    ensures
        match r {
            Some(p) => package_of(fqn@) == Some(p@),
            None => package_of(fqn@) is None,
        },
{
    let parts = split_char(to_chars(fqn).as_slice(), '/');
    let ghost p = pieces(parts@);
    if parts.len() == 3 {
        assert(p[0] == parts@[0]@);
        Some(to_text(parts[0].as_slice()))
    } else {
        None
    }
}

/// A name with its kind: `pkg/Type` becomes `pkg/kind/Type`, any other name stays.
pub open spec fn with_kind(name: Seq<char>, kind: Seq<char>) -> Seq<char> {
    let parts = split(name, '/');
    if parts.len() == 2 {
        parts[0] + "/"@ + kind + "/"@ + parts[1]
    } else {
        name
    }
}

/// Normalizes a possibly category-omitted type name to `pkg/kind/Type`.
pub fn normalize(name: &str, default_kind: &str) -> (r: String)
    ensures
        r@ == with_kind(name@, default_kind@),
{
    let parts = split_char(to_chars(name).as_slice(), '/');
    let ghost p = pieces(parts@);
    if parts.len() == 2 {
        assert(p[0] == parts@[0]@ && p[1] == parts@[1]@);
        let head = concat3(to_text(parts[0].as_slice()).as_str(), "/", default_kind);
        concat3(head.as_str(), "/", to_text(parts[1].as_slice()).as_str())
    } else {
        name.to_owned()
    }
}

/// A name that has its kind keeps it: normalizing twice is normalizing once.
pub proof fn with_kind_is_idempotent(name: Seq<char>, kind: Seq<char>, other: Seq<char>)
    ensures
        with_kind(with_kind(name, kind), other) == with_kind(name, kind),
{
    let parts = split(name, '/');
    if parts.len() == 2 {
        reveal_strlit("/");
        let (a, b) = (parts[0], parts[1]);
        assert(a + "/"@ + kind + "/"@ + b =~= a + seq!['/'] + (kind + seq!['/'] + b));
        crate::text::split_at_separator(a, kind + seq!['/'] + b, '/');
        crate::text::split_at_separator(kind, b, '/');
        crate::text::split_is_not_empty(a, '/');
        crate::text::split_is_not_empty(b, '/');
        crate::text::split_is_not_empty(kind, '/');
    }
}

/// A registry with a `.msg` body added.
pub open spec fn with_message(reg: RegistryModel, fqn: Seq<char>, body: Seq<char>) -> Result<
    RegistryModel,
    RegistryFault,
> {
    match package_of(fqn) {
        None => Err(RegistryFault::UnknownType(fqn)),
        Some(pkg) => match message_model(fqn, pkg, body) {
            Err(source) => Err(RegistryFault::Parse { name: fqn, source }),
            Ok(m) => Ok(RegistryModel { messages: reg.messages.insert(fqn, m), ..reg }),
        },
    }
}

/// A registry with a service, and its request and response as messages.
pub open spec fn serving(reg: RegistryModel, fqn: Seq<char>, s: ServiceModel) -> RegistryModel {
    RegistryModel {
        messages: reg.messages.insert(fqn + "_Request"@, s.request).insert(
            fqn + "_Response"@,
            s.response,
        ),
        services: reg.services.insert(fqn, s),
        ..reg
    }
}

/// A registry with an action: its goal, result and feedback as messages, and the
/// services and the message that ROS 2 generates round them.
pub open spec fn acting(reg: RegistryModel, fqn: Seq<char>, a: ActionModel) -> RegistryModel {
    let plain = RegistryModel {
        messages: reg.messages.insert(fqn + "_Goal"@, a.goal).insert(
            fqn + "_Result"@,
            a.result,
        ).insert(fqn + "_Feedback"@, a.feedback),
        actions: reg.actions.insert(fqn, a),
        ..reg
    };
    let sending = serving(plain, fqn + "_SendGoal"@, send_goal_service(fqn));
    let getting = serving(sending, fqn + "_GetResult"@, get_result_service(fqn));
    RegistryModel {
        messages: getting.messages.insert(fqn + "_FeedbackMessage"@, feedback_message(fqn)),
        ..getting
    }
}

/// A registry with a `.srv` body added: the service, and its request and response
/// as messages.
pub open spec fn with_service(reg: RegistryModel, fqn: Seq<char>, body: Seq<char>) -> Result<
    RegistryModel,
    RegistryFault,
> {
    match package_of(fqn) {
        None => Err(RegistryFault::UnknownService(fqn)),
        Some(pkg) => match service_model(fqn, pkg, body) {
            Err(source) => Err(RegistryFault::Parse { name: fqn, source }),
            Ok(s) => Ok(serving(reg, fqn, s)),
        },
    }
}

/// A registry with a `.action` body added: the action, its goal, result and feedback,
/// and the types that ROS 2 generates round these.
pub open spec fn with_action(reg: RegistryModel, fqn: Seq<char>, body: Seq<char>) -> Result<
    RegistryModel,
    RegistryFault,
> {
    match package_of(fqn) {
        None => Err(RegistryFault::UnknownAction(fqn)),
        Some(pkg) => match action_model(fqn, pkg, body) {
            Err(source) => Err(RegistryFault::Parse { name: fqn, source }),
            Ok(a) => Ok(acting(reg, fqn, a)),
        },
    }
}

/// Whether the message that a base type names is known, if it names one.
pub open spec fn known_in(messages: Map<Seq<char>, MessageModel>, base: BaseModel) -> bool {
    base matches BaseModel::Message(name) ==> messages.dom().contains(with_kind(name, "msg"@))
}

/// Whether every message that the fields of a message name is known.
pub open spec fn resolved_in(messages: Map<Seq<char>, MessageModel>, m: MessageModel) -> bool {
    forall|i: int|
        0 <= i < m.fields.len() ==> known_in(messages, (#[trigger] m.fields[i]).ty.base)
}

/// Whether every message that a field of a registered message names is registered.
pub open spec fn closed(reg: RegistryModel) -> bool {
    forall|k: Seq<char>| #[trigger]
        reg.messages.dom().contains(k) ==> resolved_in(reg.messages, reg.messages[k])
}

/// A registry with a `.msg` body added, if it can be parsed and names only known
/// messages.
pub open spec fn with_known_message(reg: RegistryModel, fqn: Seq<char>, body: Seq<char>) ->
    RegistryModel {
    match with_message(reg, fqn, body) {
        Ok(after) => if resolved_in(reg.messages, after.messages[fqn]) {
            after
        } else {
            reg
        },
        Err(_) => reg,
    }
}

/// A registry with a `.srv` body added, if it can be parsed and names only known
/// messages.
pub open spec fn with_known_service(reg: RegistryModel, fqn: Seq<char>, body: Seq<char>) ->
    RegistryModel {
    match with_service(reg, fqn, body) {
        Ok(after) => {
            let s = after.services[fqn];
            if resolved_in(reg.messages, s.request) && resolved_in(reg.messages, s.response) {
                after
            } else {
                reg
            }
        },
        Err(_) => reg,
    }
}

/// A registry with a `.action` body added, if it can be parsed, and it and the types
/// that ROS 2 generates round it name only known messages.
pub open spec fn with_known_action(reg: RegistryModel, fqn: Seq<char>, body: Seq<char>) ->
    RegistryModel {
    match package_of(fqn) {
        None => reg,
        Some(pkg) => match action_model(fqn, pkg, body) {
            Err(_) => reg,
            Ok(a) => {
                if resolved_in(reg.messages, a.goal) && resolved_in(reg.messages, a.result)
                    && resolved_in(reg.messages, a.feedback) && known_in(
                    reg.messages,
                    BaseModel::Message("unique_identifier_msgs/msg/UUID"@),
                ) && known_in(
                    reg.messages,
                    BaseModel::Message("builtin_interfaces/msg/Time"@),
                ) {
                    acting(reg, fqn, a)
                } else {
                    reg
                }
            },
        },
    }
}

/// The kinds of interface definition files.
#[derive(Debug, Clone, Copy, PartialEq, Eq, Structural)]
pub enum InterfaceKind {
    Msg,
    Srv,
    Action,
}

impl InterfaceKind {
    /// The directory name and file extension of the kind.
    pub open spec fn label(self) -> Seq<char> {
        match self {
            InterfaceKind::Msg => "msg"@,
            InterfaceKind::Srv => "srv"@,
            InterfaceKind::Action => "action"@,
        }
    }

    /// The directory name and file extension of the kind.
    pub fn as_str(self) -> (r: &'static str)
        ensures
            r@ == self.label(),
    {
        match self {
            InterfaceKind::Msg => "msg",
            InterfaceKind::Srv => "srv",
            InterfaceKind::Action => "action",
        }
    }
}

/// The name of the type that a file defines: the file's name is that of the type, a dot
/// and the kind.
pub open spec fn defined_by(file: Seq<char>, kind: InterfaceKind) -> Option<Seq<char>> {
    let i = rfind(file, '.');
    if i > 0 && file.skip(i + 1) == kind.label() {
        Some(file.take(i))
    } else {
        None
    }
}

/// The name of the type that a file of the given name defines, if it is a definition
/// of the kind.
pub fn defined_type(file: &str, kind: InterfaceKind) -> (r: Option<String>)
    ensures
        optional(r) == defined_by(file@, kind),
{
    let chars = to_chars(file);
    let n = chars.len();
    match find_last(chars.as_slice(), '.') {
        Some(i) => {
            let ext = slice_subrange(chars.as_slice(), i + 1, n);
            assert(ext@ =~= file@.skip(i + 1));
            if i > 0 && same_chars(ext, to_chars(kind.as_str()).as_slice()) {
                let stem = slice_subrange(chars.as_slice(), 0, i);
                assert(stem@ =~= file@.take(i as int));
                Some(to_text(stem))
            } else {
                None
            }
        },
        None => None,
    }
}

/// A registry with an interface file added under `pkg/kind/stem`.
pub open spec fn with_file(
    reg: RegistryModel,
    pkg: Seq<char>,
    kind: InterfaceKind,
    stem: Seq<char>,
    body: Seq<char>,
) -> Result<RegistryModel, RegistryFault> {
    let fqn = pkg + "/"@ + kind.label() + "/"@ + stem;
    match kind {
        InterfaceKind::Msg => with_message(reg, fqn, body),
        InterfaceKind::Srv => with_service(reg, fqn, body),
        InterfaceKind::Action => with_action(reg, fqn, body),
    }
}

/// Whether `r` reports `step`, with the registry after it `after`: on an error
/// the registry is as `before`.
pub open spec fn added(
    step: Result<RegistryModel, RegistryFault>,
    before: RegistryModel,
    after: RegistryModel,
    r: Result<(), RegistryError>,
) -> bool {
    match step {
        Ok(m) => r is Ok && after == m,
        Err(e) => r matches Err(x) && x@ == e && after == before,
    }
}

impl Registry {
    /// An empty registry.
    pub fn new() -> (r: Self)
        ensures
            r@.messages == Map::<Seq<char>, MessageModel>::empty(),
            r@.services == Map::<Seq<char>, ServiceModel>::empty(),
            r@.actions == Map::<Seq<char>, ActionModel>::empty(),
    {
        Registry { messages: Dict::new(), services: Dict::new(), actions: Dict::new() }
    }

    /// Registers a `.msg` body under its fully-qualified `pkg/msg/Type` name.
    pub fn add_message(&mut self, fqn: &str, body: &str) -> (r: Result<(), RegistryError>)
        ensures
            added(with_message(old(self)@, fqn@, body@), old(self)@, final(self)@, r),
    {
        let ghost before = self@;
        let pkg = match package_name(fqn) {
            Some(p) => p,
            None => {
                return Err(RegistryError::UnknownType(fqn.to_owned()));
            },
        };
        let parsed = match parse_message(fqn, pkg.as_str(), body) {
            Ok(m) => m,
            Err(e) => {
                return Err(RegistryError::Parse { name: fqn.to_owned(), source: e });
            },
        };
        self.messages.insert(fqn.to_owned(), parsed);
        assert(self@.messages =~= before.messages.insert(fqn@, parsed@));
        Ok(())
    }

    /// Registers a `.srv` body. Also registers the synthesized request/response
    /// messages as `pkg/srv/Type_Request` / `_Response`.
    pub fn add_service(&mut self, fqn: &str, body: &str) -> (r: Result<(), RegistryError>)
        ensures
            added(with_service(old(self)@, fqn@, body@), old(self)@, final(self)@, r),
    {
        let ghost before = self@;
        let pkg = match package_name(fqn) {
            Some(p) => p,
            None => {
                return Err(RegistryError::UnknownService(fqn.to_owned()));
            },
        };
        let parsed = match parse_service(fqn, pkg.as_str(), body) {
            Ok(m) => m,
            Err(e) => {
                return Err(RegistryError::Parse { name: fqn.to_owned(), source: e });
            },
        };
        self.serve(fqn, parsed);
        Ok(())
    }

    fn serve(&mut self, fqn: &str, service: ServiceSpec)
        ensures
            final(self)@ == serving(old(self)@, fqn@, service@),
    {
        let ghost before = self@;
        self.messages.insert(concat2(fqn, "_Request"), service.request.copy());
        self.messages.insert(concat2(fqn, "_Response"), service.response.copy());
        self.services.insert(fqn.to_owned(), service);
        assert(self@.messages =~= before.messages.insert(
            fqn@ + "_Request"@,
            service.request@,
        ).insert(fqn@ + "_Response"@, service.response@));
        assert(self@.services =~= before.services.insert(fqn@, service@));
        assert(self@ == serving(before, fqn@, service@));
    }

    /// Registers a `.action` body, synthesizing the wrapped goal/result/feedback
    /// service and message types that ROS 2 generates.
    pub fn add_action(&mut self, fqn: &str, body: &str) -> (r: Result<(), RegistryError>)
        ensures
            added(with_action(old(self)@, fqn@, body@), old(self)@, final(self)@, r),
    {
        let ghost before = self@;
        let pkg = match package_name(fqn) {
            Some(p) => p,
            None => {
                return Err(RegistryError::UnknownAction(fqn.to_owned()));
            },
        };
        let parsed = match parse_action(fqn, pkg.as_str(), body) {
            Ok(m) => m,
            Err(e) => {
                return Err(RegistryError::Parse { name: fqn.to_owned(), source: e });
            },
        };
        self.act(fqn, parsed);
        Ok(())
    }

    fn act(&mut self, fqn: &str, action: ActionSpec)
        ensures
            final(self)@ == acting(old(self)@, fqn@, action@),
    {
        let ghost before = self@;
        self.messages.insert(concat2(fqn, "_Goal"), action.goal.copy());
        self.messages.insert(concat2(fqn, "_Result"), action.result.copy());
        self.messages.insert(concat2(fqn, "_Feedback"), action.feedback.copy());
        self.actions.insert(fqn.to_owned(), action);
        assert(self@.messages =~= before.messages.insert(fqn@ + "_Goal"@, action.goal@).insert(
            fqn@ + "_Result"@,
            action.result@,
        ).insert(fqn@ + "_Feedback"@, action.feedback@));
        assert(self@.actions =~= before.actions.insert(fqn@, action@));
        self.serve(concat2(fqn, "_SendGoal").as_str(), send_goal(fqn));
        self.serve(concat2(fqn, "_GetResult").as_str(), get_result(fqn));
        let ghost getting = self@;
        let message = feedback(fqn);
        self.messages.insert(concat2(fqn, "_FeedbackMessage"), message);
        assert(self@.messages =~= getting.messages.insert(
            fqn@ + "_FeedbackMessage"@,
            message@,
        ));
    }

    /// Whether every message that the fields of a message name is known.
    fn resolves(&self, m: &MessageSpec) -> (r: bool)
        ensures
            r == resolved_in(self@.messages, m@),
    {
        for i in 0..m.fields.len()
            invariant
                forall|j: int|
                    0 <= j < i ==> known_in(self@.messages, (#[trigger] m@.fields[j]).ty.base),
        {
            assert(m@.fields[i as int] == m.fields@[i as int]@);
            if let BaseType::Message(name) = &m.fields[i].ty.base {
                if !self.has_message(name.as_str()) {
                    assert(!known_in(self@.messages, m@.fields[i as int].ty.base));
                    return false;
                }
            }
        }
        true
    }

    /// Registers a `.msg` body, unless it cannot be parsed or names a message that is not
    /// known.
    pub(crate) fn add_known_message(&mut self, fqn: &str, body: &str)
        ensures
            final(self)@ == with_known_message(old(self)@, fqn@, body@),
    {
        let ghost before = self@;
        if let Some(pkg) = package_name(fqn) {
            if let Ok(m) = parse_message(fqn, pkg.as_str(), body) {
                if self.resolves(&m) {
                    self.messages.insert(fqn.to_owned(), m);
                    assert(self@.messages =~= before.messages.insert(fqn@, m@));
                }
            }
        }
    }

    /// Registers a `.srv` body, unless it cannot be parsed or names a message that is not
    /// known.
    pub(crate) fn add_known_service(&mut self, fqn: &str, body: &str)
        ensures
            final(self)@ == with_known_service(old(self)@, fqn@, body@),
    {
        if let Some(pkg) = package_name(fqn) {
            if let Ok(s) = parse_service(fqn, pkg.as_str(), body) {
                if self.resolves(&s.request) && self.resolves(&s.response) {
                    self.serve(fqn, s);
                }
            }
        }
    }

    /// Registers a `.action` body, unless it cannot be parsed, or it or a type that ROS 2
    /// generates round it names a message that is not known.
    pub(crate) fn add_known_action(&mut self, fqn: &str, body: &str)
        ensures
            final(self)@ == with_known_action(old(self)@, fqn@, body@),
    {
        if let Some(pkg) = package_name(fqn) {
            if let Ok(a) = parse_action(fqn, pkg.as_str(), body) {
                if self.resolves(&a.goal) && self.resolves(&a.result) && self.resolves(&a.feedback)
                    && self.has_message("unique_identifier_msgs/msg/UUID") && self.has_message(
                    "builtin_interfaces/msg/Time",
                ) {
                    self.act(fqn, a);
                }
            }
        }
    }

    /// Registers the body of an interface file `<pkg>/<kind>/<stem>.<kind>` of an
    /// ament-style install tree, and says whether it could be read. A file that
    /// cannot is passed over.
    pub fn add_file(&mut self, pkg: &str, kind: InterfaceKind, stem: &str, body: &str) -> (r: bool)
        ensures
            match with_file(old(self)@, pkg@, kind, stem@, body@) {
                Ok(m) => r && final(self)@ == m,
                Err(_) => !r && final(self)@ == old(self)@,
            },
    {
        let head = concat3(pkg, "/", kind.as_str());
        let fqn = concat3(head.as_str(), "/", stem);
        let res = match kind {
            InterfaceKind::Msg => self.add_message(fqn.as_str(), body),
            InterfaceKind::Srv => self.add_service(fqn.as_str(), body),
            InterfaceKind::Action => self.add_action(fqn.as_str(), body),
        };
        res.is_ok()
    }

    /// Looks up a message spec (accepts `pkg/Type` or `pkg/msg/Type`).
    pub fn message(&self, name: &str) -> (r: Result<&MessageSpec, RegistryError>)
        ensures
            ({
                let norm = with_kind(name@, "msg"@);
                match r {
                    Ok(m) => self@.messages.dom().contains(norm) && m@ == self@.messages[norm],
                    Err(e) => !self@.messages.dom().contains(norm) && e@
                        == RegistryFault::UnknownType(norm),
                }
            }),
    {
        let norm = normalize(name, "msg");
        match self.messages.get(norm.as_str()) {
            Some(m) => Ok(m),
            None => Err(RegistryError::UnknownType(norm)),
        }
    }

    /// Looks up a service spec (accepts `pkg/Type` or `pkg/srv/Type`).
    pub fn service(&self, name: &str) -> (r: Result<&ServiceSpec, RegistryError>)
        ensures
            ({
                let norm = with_kind(name@, "srv"@);
                match r {
                    Ok(s) => self@.services.dom().contains(norm) && s@ == self@.services[norm],
                    Err(e) => !self@.services.dom().contains(norm) && e@
                        == RegistryFault::UnknownService(norm),
                }
            }),
    {
        let norm = normalize(name, "srv");
        match self.services.get(norm.as_str()) {
            Some(s) => Ok(s),
            None => Err(RegistryError::UnknownService(norm)),
        }
    }

    /// Looks up an action spec (accepts `pkg/Type` or `pkg/action/Type`).
    pub fn action(&self, name: &str) -> (r: Result<&ActionSpec, RegistryError>)
        ensures
            ({
                let norm = with_kind(name@, "action"@);
                match r {
                    Ok(a) => self@.actions.dom().contains(norm) && a@ == self@.actions[norm],
                    Err(e) => !self@.actions.dom().contains(norm) && e@
                        == RegistryFault::UnknownAction(norm),
                }
            }),
    {
        let norm = normalize(name, "action");
        match self.actions.get(norm.as_str()) {
            Some(a) => Ok(a),
            None => Err(RegistryError::UnknownAction(norm)),
        }
    }

    /// Whether a message type is known (accepts `pkg/Type` or `pkg/msg/Type`).
    pub fn has_message(&self, name: &str) -> (r: bool)
        ensures
            r == self@.messages.dom().contains(with_kind(name@, "msg"@)),
    {
        self.messages.contains_key(normalize(name, "msg").as_str())
    }

    /// Number of registered message specs (for diagnostics).
    pub fn message_count(&self) -> (r: usize)
        ensures
            r == self@.messages.dom().len(),
    {
        assert(self@.messages.dom() =~= self.messages@.dom());
        self.messages.len()
    }
}

/// The number of flags that are not set.
spec fn unset(flags: Seq<bool>) -> nat
    decreases flags.len(),
{
    if flags.len() == 0 {
        0
    } else {
        unset(flags.drop_last()) + (if flags.last() {
            0nat
        } else {
            1nat
        })
    }
}

proof fn lemma_unset(flags: Seq<bool>, i: int)
    requires
        0 <= i < flags.len(),
        !flags[i],
    ensures
        unset(flags) == unset(flags.update(i, true)) + 1,
    decreases flags.len(),
{
    let after = flags.update(i, true);
    if i == flags.len() - 1 {
        assert(after.drop_last() =~= flags.drop_last());
    } else {
        assert(after.drop_last() =~= flags.drop_last().update(i, true));
        lemma_unset(flags.drop_last(), i);
    }
}

impl Registry {
    /// The registered messages in the order of their entries.
    closed spec fn listed(&self) -> Seq<(String, MessageSpec)> {
        self.messages.entries@
    }

    /// Whether the flag of a name's first entry is set.
    spec fn flagged(&self, flags: Seq<bool>, k: Seq<char>) -> bool {
        exists|i: int|
            0 <= i < self.listed().len() && no_key(self.listed(), i, k) && (
            #[trigger] self.listed()[i]).0@ == k && flags[i]
    }

    /// Whether a field holds a registered message that is not flagged.
    spec fn open_field(&self, flags: Seq<bool>, ty: FieldType) -> bool {
        &&& held(self@.messages, ty@) is Some
        &&& ty.base matches BaseType::Message(name) && !self.flagged(
            flags,
            with_kind(name@, "msg"@),
        )
    }

    /// Whether a message has such a field.
    spec fn open_message(&self, flags: Seq<bool>, m: MessageSpec) -> bool {
        exists|i: int| 0 <= i < m.fields@.len() && self.open_field(flags, #[trigger] m.fields@[i].ty)
    }

    fn is_open_field(&self, flags: &Vec<bool>, ty: &FieldType) -> (r: bool)
        requires
            flags@.len() == self.listed().len(),
        ensures
            r == self.open_field(flags@, *ty),
    {
        let holds = match ty.multiplicity {
            Multiplicity::Scalar => true,
            Multiplicity::FixedArray(n) => n > 0,
            _ => false,
        };
        if !holds {
            return false;
        }
        match &ty.base {
            BaseType::Message(name) => {
                let norm = normalize(name.as_str(), "msg");
                match self.messages.position(norm.as_str()) {
                    Some(i) => {
                        proof {
                            lemma_dict_first(self.listed(), i as int, norm@);
                            assert(self.messages@.dom().contains(norm@));
                            if flags@[i as int] {
                                assert(self.listed()[i as int].0@ == norm@);
                            } else {
                                assert forall|j: int|
                                    0 <= j < self.listed().len() && no_key(self.listed(), j, norm@)
                                        && (#[trigger] self.listed()[j]).0@ == norm@ implies !flags@[j] by {
                                    if j < i {
                                        assert(self.listed()[j].0@ != norm@);
                                    } else if j > i {
                                        assert(self.listed()[i as int].0@ != norm@);
                                    }
                                }
                            }
                        }
                        !flags[i]
                    },
                    None => {
                        proof {
                            lemma_dict_dom(self.listed(), norm@);
                        }
                        false
                    },
                }
            },
            _ => false,
        }
    }

    fn is_open_message(&self, flags: &Vec<bool>, m: &MessageSpec) -> (r: bool)
        requires
            flags@.len() == self.listed().len(),
        ensures
            r == self.open_message(flags@, *m),
    {
        for i in 0..m.fields.len()
            invariant
                flags@.len() == self.listed().len(),
                forall|j: int|
                    0 <= j < i ==> !self.open_field(flags@, #[trigger] m.fields@[j].ty),
        {
            if self.is_open_field(flags, &m.fields[i].ty) {
                assert(self.open_field(flags@, m.fields@[i as int].ty));
                return true;
            }
        }
        false
    }

    /// A flagged message nests at most `c` deep.
    spec fn marked(&self, flags: Seq<bool>, c: nat) -> bool {
        forall|i: int|
            #![trigger self.listed()[i]]
            0 <= i < self.listed().len() && flags[i] ==> shallow(
                self@.messages,
                self@.messages[self.listed()[i].0@],
                c,
            )
    }

    proof fn lemma_mark(&self, flags: Seq<bool>, c: nat, i: int, m: MessageSpec)
        requires
            flags.len() == self.listed().len(),
            0 <= i < flags.len(),
            self.marked(flags, c),
            m@ == self@.messages[self.listed()[i].0@],
            !self.open_message(flags, m),
        ensures
            self.marked(flags.update(i, true), c + 1),
    {
        let messages = self@.messages;
        assert forall|x: int|
            #![trigger m@.fields[x]]
            0 <= x < m@.fields.len() implies (held(messages, m@.fields[x].ty) matches Some(sub)
            ==> c + 1 > 0 && shallow(messages, sub, c)) by {
            if let Some(sub) = held(messages, m@.fields[x].ty) {
                let ty = m.fields@[x].ty;
                assert(!self.open_field(flags, ty));
                assert(m@.fields[x].ty == ty@);
                let name = ty.base->Message_0;
                let norm = with_kind(name@, "msg"@);
                assert(self.flagged(flags, norm));
                let j = choose|j: int|
                    0 <= j < self.listed().len() && no_key(self.listed(), j, norm) && (
                    #[trigger] self.listed()[j]).0@ == norm && flags[j];
                assert(shallow(messages, messages[norm], c));
            }
        }
        assert(shallow(messages, m@, c + 1));
        let after = flags.update(i, true);
        assert forall|j: int|
            #![trigger self.listed()[j]]
            0 <= j < self.listed().len() && after[j] implies shallow(
            messages,
            messages[self.listed()[j].0@],
            c + 1,
        ) by {
            if j != i {
                shallow_more(messages, messages[self.listed()[j].0@], c, c + 1);
            }
        }
    }

    /// Whether every visited message without a flag holds another one without a flag.
    spec fn stuck(&self, visited: Seq<bool>, flags: Seq<bool>) -> bool {
        forall|i: int|
            #![trigger self.listed()[i]]
            0 <= i < self.listed().len() && visited[i] && !flags[i] ==> self.open_message(
                flags,
                self.messages@[self.listed()[i].0@],
            )
    }

    /// Whether every registered message that a visited message names is visited.
    spec fn complete(&self, visited: Seq<bool>) -> bool {
        forall|i: int|
            #![trigger self.listed()[i]]
            0 <= i < self.listed().len() && visited[i] ==> self.names_visited(
                visited,
                self.messages@[self.listed()[i].0@],
            )
    }

    /// Whether every registered message that a message names is visited.
    spec fn names_visited(&self, visited: Seq<bool>, m: MessageSpec) -> bool {
        forall|x: int|
            0 <= x < m.fields@.len() ==> self.field_visited(visited, #[trigger] m.fields@[x].ty)
    }

    spec fn field_visited(&self, visited: Seq<bool>, ty: FieldType) -> bool {
        ty.base matches BaseType::Message(name) ==> (self@.messages.dom().contains(
            with_kind(name@, "msg"@),
        ) ==> self.flagged(visited, with_kind(name@, "msg"@)))
    }

    /// Whether every visited message is in each set of names that goes with a message.
    spec fn needed(&self, visited: Seq<bool>, m: MessageModel) -> bool {
        forall|i: int, r: Set<Seq<char>>, top: nat|
            #![trigger self.listed()[i], grounded_within(self@.messages, r, top)]
            0 <= i < self.listed().len() && visited[i] && grounded_within(self@.messages, r, top)
                && covers(self@.messages, r, m) ==> r.contains(self.listed()[i].0@)
    }

    /// Where every visited message without a flag holds another one, none of them is
    /// shallow.
    proof fn lemma_unmarked(&self, visited: Seq<bool>, flags: Seq<bool>, k: Seq<char>, d: nat)
        requires
            visited.len() == self.listed().len(),
            flags.len() == self.listed().len(),
            self.stuck(visited, flags),
            self.complete(visited),
            self@.messages.dom().contains(k),
            self.flagged(visited, k),
            !self.flagged(flags, k),
        ensures
            !shallow(self@.messages, self@.messages[k], d),
        decreases d,
    {
        let messages = self@.messages;
        let i = choose|i: int|
            0 <= i < self.listed().len() && no_key(self.listed(), i, k) && (
            #[trigger] self.listed()[i]).0@ == k && visited[i];
        assert(!flags[i]);
        let m = self.messages@[k];
        assert(self.open_message(flags, m));
        assert(self.names_visited(visited, m));
        let x = choose|x: int|
            0 <= x < m.fields@.len() && self.open_field(flags, #[trigger] m.fields@[x].ty);
        let ty = m.fields@[x].ty;
        assert(self.field_visited(visited, ty));
        assert(m@.fields[x].ty == ty@);
        let name = ty.base->Message_0;
        let norm = with_kind(name@, "msg"@);
        assert(messages.dom().contains(norm));
        if shallow(messages, messages[k], d) {
            assert(messages[k] == m@);
            assert(held(messages, m@.fields[x].ty) == Some(messages[norm]));
            assert(d > 0 && shallow(messages, messages[norm], (d - 1) as nat));
            self.lemma_unmarked(visited, flags, norm, (d - 1) as nat);
        }
    }

    /// The first entry of a key.
    proof fn lemma_first(&self, k: Seq<char>, n: int) -> (i: int)
        requires
            0 <= n <= self.listed().len(),
            !no_key(self.listed(), n, k),
        ensures
            0 <= i < n,
            no_key(self.listed(), i, k),
            self.listed()[i].0@ == k,
        decreases n,
    {
        if no_key(self.listed(), n - 1, k) {
            n - 1
        } else {
            self.lemma_first(k, n - 1)
        }
    }

    /// More visits leave visited what was.
    proof fn lemma_more_visited(&self, visited: Seq<bool>, more: Seq<bool>, k: Seq<char>)
        requires
            visited.len() == self.listed().len(),
            more.len() == visited.len(),
            forall|i: int| 0 <= i < visited.len() && visited[i] ==> #[trigger] more[i],
            self.flagged(visited, k),
        ensures
            self.flagged(more, k),
    {
        let i = choose|i: int|
            0 <= i < self.listed().len() && no_key(self.listed(), i, k) && (
            #[trigger] self.listed()[i]).0@ == k && visited[i];
        assert(more[i]);
    }

    /// Visits the registered messages that a message names, and says whether one was not
    /// visited before. The message is `root`, or a visited one.
    fn visit(&self, visited: &mut Vec<bool>, m: &MessageSpec, Ghost(root): Ghost<MessageModel>)
        -> (r: bool)
        requires
            old(visited)@.len() == self.listed().len(),
            self.needed(old(visited)@, root),
            m@ == root || exists|i: int|
                #![trigger self.listed()[i]]
                0 <= i < self.listed().len() && old(visited)@[i] && self@.messages.dom().contains(
                    self.listed()[i].0@,
                ) && m@ == self@.messages[self.listed()[i].0@],
        ensures
            final(visited)@.len() == old(visited)@.len(),
            forall|i: int|
                0 <= i < old(visited)@.len() && old(visited)@[i] ==> #[trigger] final(visited)@[i],
            self.names_visited(final(visited)@, *m),
            self.needed(final(visited)@, root),
            r ==> unset(final(visited)@) < unset(old(visited)@),
            !r ==> final(visited)@ == old(visited)@,
    {
        let ghost start = visited@;
        let mut changed = false;
        for x in 0..m.fields.len()
            invariant
                start == old(visited)@,
                start.len() == self.listed().len(),
                visited@.len() == start.len(),
                m@ == root || exists|i: int|
                    #![trigger self.listed()[i]]
                    0 <= i < self.listed().len() && start[i] && self@.messages.dom().contains(
                        self.listed()[i].0@,
                    ) && m@ == self@.messages[self.listed()[i].0@],
                forall|i: int| 0 <= i < start.len() && start[i] ==> #[trigger] visited@[i],
                forall|y: int|
                    0 <= y < x ==> self.field_visited(visited@, #[trigger] m.fields@[y].ty),
                self.needed(visited@, root),
                changed ==> unset(visited@) < unset(start),
                !changed ==> visited@ == start,
        {
            if let BaseType::Message(name) = &m.fields[x].ty.base {
                let norm = normalize(name.as_str(), "msg");
                match self.messages.position(norm.as_str()) {
                    Some(i) => {
                        let ghost before = visited@;
                        if !visited[i] {
                            proof {
                                lemma_unset(visited@, i as int);
                            }
                            visited.set(i, true);
                            changed = true;
                        }
                        proof {
                            lemma_dict_first(self.listed(), i as int, norm@);
                            assert(self.messages@.dom().contains(norm@));
                            assert(self.listed()[i as int].0@ == norm@);
                            assert(self.flagged(visited@, norm@));
                            assert forall|y: int| 0 <= y < x implies self.field_visited(
                                visited@,
                                #[trigger] m.fields@[y].ty,
                            ) by {
                                assert(self.field_visited(before, m.fields@[y].ty));
                                if let BaseType::Message(other) = m.fields@[y].ty.base {
                                    let k = with_kind(other@, "msg"@);
                                    if self@.messages.dom().contains(k) {
                                        self.lemma_more_visited(before, visited@, k);
                                    }
                                }
                            }
                            self.lemma_needed(start, before, visited@, root, *m, x as int, i as int);
                        }
                    },
                    None => {
                        proof {
                            lemma_dict_dom(self.listed(), norm@);
                        }
                    },
                }
            }
        }
        changed
    }

    /// A message that a needed message names is needed too.
    proof fn lemma_needed(
        &self,
        start: Seq<bool>,
        before: Seq<bool>,
        after: Seq<bool>,
        root: MessageModel,
        m: MessageSpec,
        x: int,
        i: int,
    )
        requires
            start.len() == self.listed().len(),
            before.len() == start.len(),
            after.len() == start.len(),
            self.needed(before, root),
            forall|j: int| 0 <= j < start.len() && start[j] ==> #[trigger] before[j],
            m@ == root || exists|j: int|
                #![trigger self.listed()[j]]
                0 <= j < self.listed().len() && start[j] && self@.messages.dom().contains(
                    self.listed()[j].0@,
                ) && m@ == self@.messages[self.listed()[j].0@],
            0 <= x < m.fields@.len(),
            m.fields@[x].ty.base is Message,
            0 <= i < self.listed().len(),
            self.listed()[i].0@ == with_kind(m.fields@[x].ty.base->Message_0@, "msg"@),
            self@.messages.dom().contains(self.listed()[i].0@),
            forall|j: int| 0 <= j < after.len() && j != i ==> after[j] == before[j],
        ensures
            self.needed(after, root),
    {
        let messages = self@.messages;
        assert(m@.fields[x].ty == m.fields@[x].ty@);
        assert forall|j: int, r: Set<Seq<char>>, top: nat|
            #![trigger self.listed()[j], grounded_within(messages, r, top)]
            0 <= j < self.listed().len() && after[j] && grounded_within(messages, r, top) && covers(
                messages,
                r,
                root,
            ) implies r.contains(self.listed()[j].0@) by {
            if j == i {
                if m@ != root {
                    let y = choose|y: int|
                        #![trigger self.listed()[y]]
                        0 <= y < self.listed().len() && start[y] && messages.dom().contains(
                            self.listed()[y].0@,
                        ) && m@ == messages[self.listed()[y].0@];
                    assert(before[y]);
                    assert(r.contains(self.listed()[y].0@));
                }
                assert(covers(messages, r, m@));
                assert(named_in(messages, m@.fields[x].ty.base, r));
            } else {
                assert(before[j]);
            }
        }
    }

    /// Visits the registered messages that a message names, directly or through others.
    fn visits(&self, m: &MessageSpec) -> (visited: Vec<bool>)
        ensures
            visited@.len() == self.listed().len(),
            self.names_visited(visited@, *m),
            self.complete(visited@),
            self.needed(visited@, m@),
    {
        let n = self.messages.entries.len();
        let mut visited: Vec<bool> = Vec::new();
        for i in 0..n
            invariant
                visited@.len() == i,
                forall|j: int| 0 <= j < i ==> !visited@[j],
        {
            visited.push(false);
        }
        let first = self.visit(&mut visited, m, Ghost(m@));
        let mut changed = true;
        while changed
            invariant
                n == self.listed().len(),
                visited@.len() == n,
                self.names_visited(visited@, *m),
                self.needed(visited@, m@),
                !changed ==> self.complete(visited@),
            decreases
                    unset(visited@),
                    (if changed {
                        1nat
                    } else {
                        0nat
                    }),
        {
            changed = false;
            let ghost start = visited@;
            for i in 0..n
                invariant
                    n == self.listed().len(),
                    visited@.len() == n,
                    start.len() == n,
                    self.names_visited(visited@, *m),
                    self.needed(visited@, m@),
                    changed ==> unset(visited@) < unset(start),
                    !changed ==> visited@ == start,
                    !changed ==> forall|j: int|
                        #![trigger self.listed()[j]]
                        0 <= j < i && visited@[j] ==> self.names_visited(
                            visited@,
                            self.messages@[self.listed()[j].0@],
                        ),
            {
                if visited[i] {
                    let name = self.messages.entries[i].0.as_str();
                    proof {
                        lemma_dict_dom(self.listed(), name@);
                        assert(self.listed()[i as int].0@ == name@);
                    }
                    if let Some(sub) = self.messages.get(name) {
                        let ghost before = visited@;
                        let more = self.visit(&mut visited, sub, Ghost(m@));
                        if more {
                            changed = true;
                        }
                        proof {
                            self.lemma_names_stay(before, visited@, *m);
                        }
                    }
                }
            }
        }
        visited
    }

    proof fn lemma_names_stay(&self, visited: Seq<bool>, more: Seq<bool>, m: MessageSpec)
        requires
            visited.len() == self.listed().len(),
            more.len() == visited.len(),
            forall|i: int| 0 <= i < visited.len() && visited[i] ==> #[trigger] more[i],
            self.names_visited(visited, m),
        ensures
            self.names_visited(more, m),
    {
        assert forall|x: int| 0 <= x < m.fields@.len() implies self.field_visited(
            more,
            #[trigger] m.fields@[x].ty,
        ) by {
            assert(self.field_visited(visited, m.fields@[x].ty));
            if let BaseType::Message(name) = m.fields@[x].ty.base {
                let k = with_kind(name@, "msg"@);
                if self@.messages.dom().contains(k) {
                    self.lemma_more_visited(visited, more, k);
                }
            }
        }
    }

    /// Whether no message that a message names, directly or through others, nests without
    /// end: none holds itself, directly or through others, without a sequence in between.
    pub fn is_grounded(&self, m: &MessageSpec) -> (r: bool)
        ensures
            r == grounded(self@.messages, m@),
    {
        let visited = self.visits(m);
        let n = self.messages.entries.len();
        let mut flags: Vec<bool> = Vec::new();
        for i in 0..n
            invariant
                flags@.len() == i,
                forall|j: int| 0 <= j < i ==> !flags@[j],
        {
            flags.push(false);
        }
        let ghost mut c: nat = 0;
        let mut changed = true;
        while changed
            invariant
                n == self.listed().len(),
                flags@.len() == n,
                visited@.len() == n,
                self.marked(flags@, c),
                !changed ==> self.stuck(visited@, flags@),
            decreases
                    unset(flags@),
                    (if changed {
                        1nat
                    } else {
                        0nat
                    }),
        {
            changed = false;
            let ghost start = unset(flags@);
            for i in 0..n
                invariant
                    n == self.listed().len(),
                    flags@.len() == n,
                    visited@.len() == n,
                    self.marked(flags@, c),
                    changed ==> unset(flags@) < start,
                    !changed ==> unset(flags@) == start,
                    !changed ==> forall|j: int|
                        #![trigger self.listed()[j]]
                        0 <= j < i && visited@[j] && !flags@[j] ==> self.open_message(
                            flags@,
                            self.messages@[self.listed()[j].0@],
                        ),
            {
                if visited[i] && !flags[i] {
                    let name = self.messages.entries[i].0.as_str();
                    proof {
                        lemma_dict_dom(self.listed(), name@);
                        assert(self.listed()[i as int].0@ == name@);
                    }
                    if let Some(sub) = self.messages.get(name) {
                        if !self.is_open_message(&flags, sub) {
                            proof {
                                self.lemma_mark(flags@, c, i as int, *sub);
                                lemma_unset(flags@, i as int);
                                c = c + 1;
                            }
                            flags.set(i, true);
                            changed = true;
                        }
                    }
                }
            }
        }
        for i in 0..n
            invariant
                n == self.listed().len(),
                flags@.len() == n,
                visited@.len() == n,
                self.stuck(visited@, flags@),
                self.complete(visited@),
                self.needed(visited@, m@),
                forall|j: int| 0 <= j < i && visited@[j] ==> flags@[j],
        {
            if visited[i] && !flags[i] {
                proof {
                    self.lemma_endless(visited@, flags@, m@, i as int);
                }
                return false;
            }
        }
        proof {
            self.lemma_all_flagged(visited@, flags@, c, *m);
        }
        true
    }

    proof fn lemma_endless(&self, visited: Seq<bool>, flags: Seq<bool>, m: MessageModel, i: int)
        requires
            visited.len() == self.listed().len(),
            flags.len() == self.listed().len(),
            self.stuck(visited, flags),
            self.complete(visited),
            self.needed(visited, m),
            0 <= i < visited.len(),
            visited[i],
            !flags[i],
        ensures
            !grounded(self@.messages, m),
    {
        let messages = self@.messages;
        let k = self.listed()[i].0@;
        lemma_dict_dom(self.listed(), k);
        assert(!no_key(self.listed(), self.listed().len() as int, k));
        let sub = self.messages@[k];
        assert(self.open_message(flags, sub));
        assert(self.names_visited(visited, sub));
        let x = choose|x: int|
            0 <= x < sub.fields@.len() && self.open_field(flags, #[trigger] sub.fields@[x].ty);
        assert(self.field_visited(visited, sub.fields@[x].ty));
        let norm = with_kind(sub.fields@[x].ty.base->Message_0@, "msg"@);
        assert(messages.dom().contains(norm));
        assert(sub@.fields[x].ty == sub.fields@[x].ty@);
        if grounded(messages, m) {
            let (r, top) = choose|r: Set<Seq<char>>, top: nat| #[trigger]
                grounded_within(messages, r, top) && covers(messages, r, m);
            assert(r.contains(k));
            assert(covers(messages, r, messages[k]));
            assert(named_in(messages, sub@.fields[x].ty.base, r));
            assert(r.contains(norm));
            self.lemma_unmarked(visited, flags, norm, top);
        }
    }

    proof fn lemma_all_flagged(&self, visited: Seq<bool>, flags: Seq<bool>, c: nat, m: MessageSpec)
        requires
            visited.len() == self.listed().len(),
            flags.len() == self.listed().len(),
            self.marked(flags, c),
            self.complete(visited),
            self.names_visited(visited, m),
            forall|j: int| 0 <= j < visited.len() && visited[j] ==> flags[j],
        ensures
            grounded(self@.messages, m@),
    {
        let messages = self@.messages;
        let r = Set::new(|k: Seq<char>| self.flagged(visited, k));
        assert forall|k: Seq<char>| #[trigger] r.contains(k) implies messages.dom().contains(k)
            && shallow(messages, messages[k], c) && covers(messages, r, messages[k]) by {
            let i = choose|i: int|
                0 <= i < self.listed().len() && no_key(self.listed(), i, k) && (
                #[trigger] self.listed()[i]).0@ == k && visited[i];
            assert(flags[i]);
            lemma_dict_dom(self.listed(), k);
            assert(!no_key(self.listed(), self.listed().len() as int, k));
            self.lemma_covers(visited, self.messages@[k], r);
        }
        self.lemma_covers(visited, m, r);
        assert(grounded_within(messages, r, c));
    }

    proof fn lemma_covers(&self, visited: Seq<bool>, m: MessageSpec, r: Set<Seq<char>>)
        requires
            self.names_visited(visited, m),
            r == Set::new(|k: Seq<char>| self.flagged(visited, k)),
        ensures
            covers(self@.messages, r, m@),
    {
        assert forall|i: int|
            #![trigger m@.fields[i]]
            0 <= i < m@.fields.len() implies named_in(
            self@.messages,
            m@.fields[i].ty.base,
            r,
        ) by {
            assert(self.field_visited(visited, m.fields@[i].ty));
            assert(m@.fields[i].ty == m.fields@[i].ty@);
        }
    }
}

/// A message that was added is found under its name, and the others are found as
/// before.
pub proof fn added_message_is_found(
    reg: RegistryModel,
    fqn: Seq<char>,
    body: Seq<char>,
    other: Seq<char>,
)
    requires
        with_message(reg, fqn, body) is Ok,
    ensures
        ({
            let after = with_message(reg, fqn, body)->Ok_0;
            &&& with_kind(fqn, "msg"@) == fqn
            &&& after.messages.dom().contains(fqn)
            &&& message_model(fqn, package_of(fqn).unwrap(), body) == Ok::<
                MessageModel,
                ParseFault,
            >(after.messages[fqn])
            &&& other != fqn ==> (after.messages.dom().contains(other)
                <==> reg.messages.dom().contains(other)) && (reg.messages.dom().contains(other)
                ==> after.messages[other] == reg.messages[other])
            &&& after.services == reg.services
            &&& after.actions == reg.actions
        }),
{
}

/// A name with its kind keeps it with more behind it.
pub proof fn longer_name_keeps_kind(fqn: Seq<char>, suffix: Seq<char>, kind: Seq<char>)
    requires
        package_of(fqn) is Some,
        !suffix.contains('/'),
    ensures
        with_kind(fqn + suffix, kind) == fqn + suffix,
{
    crate::text::split_count_ignores_suffix(fqn, suffix, '/');
}

/// With an action that was added, its goal, result and feedback are found, and so are
/// the services and the messages that ROS 2 generates round them.
#[verifier::spinoff_prover]
#[verifier::rlimit(50)]
pub proof fn added_action_is_found(reg: RegistryModel, fqn: Seq<char>, body: Seq<char>)
    requires
        with_action(reg, fqn, body) is Ok,
    ensures
        ({
            let after = with_action(reg, fqn, body)->Ok_0;
            let a = after.actions[fqn];
            let send = send_goal_service(fqn);
            let get = get_result_service(fqn);
            &&& after.actions.dom().contains(fqn)
            &&& action_model(fqn, package_of(fqn).unwrap(), body) == Ok::<ActionModel, ParseFault>(
                a,
            )
            &&& has_message(after, fqn + "_Goal"@, a.goal)
            &&& has_message(after, fqn + "_Result"@, a.result)
            &&& has_message(after, fqn + "_Feedback"@, a.feedback)
            &&& has_service(after, fqn + "_SendGoal"@, send)
            &&& has_message(after, fqn + "_SendGoal"@ + "_Request"@, send.request)
            &&& has_message(after, fqn + "_SendGoal"@ + "_Response"@, send.response)
            &&& has_service(after, fqn + "_GetResult"@, get)
            &&& has_message(after, fqn + "_GetResult"@ + "_Request"@, get.request)
            &&& has_message(after, fqn + "_GetResult"@ + "_Response"@, get.response)
            &&& has_message(after, fqn + "_FeedbackMessage"@, feedback_message(fqn))
        }),
{
    reveal_strlit("_Goal");
    reveal_strlit("_Result");
    reveal_strlit("_Feedback");
    reveal_strlit("_SendGoal");
    reveal_strlit("_GetResult");
    reveal_strlit("_Request");
    reveal_strlit("_Response");
    reveal_strlit("_FeedbackMessage");
    let n = fqn.len() as int;
    let sent = fqn + "_SendGoal"@ + "_Response"@;
    let got = fqn + "_GetResult"@ + "_Request"@;
    assert(sent[n + 1] == 'S');
    assert(got[n + 1] == 'G');
    longer_name_keeps_kind(fqn, "_Goal"@, "msg"@);
    longer_name_keeps_kind(fqn, "_Result"@, "msg"@);
    longer_name_keeps_kind(fqn, "_Feedback"@, "msg"@);
    longer_name_keeps_kind(fqn, "_FeedbackMessage"@, "msg"@);
    longer_name_keeps_kind(fqn, "_SendGoal"@, "srv"@);
    longer_name_keeps_kind(fqn, "_GetResult"@, "srv"@);
    assert(sent =~= fqn + ("_SendGoal"@ + "_Response"@));
    assert(got =~= fqn + ("_GetResult"@ + "_Request"@));
    assert(fqn + "_SendGoal"@ + "_Request"@ =~= fqn + ("_SendGoal"@ + "_Request"@));
    assert(fqn + "_GetResult"@ + "_Response"@ =~= fqn + ("_GetResult"@ + "_Response"@));
    longer_name_keeps_kind(fqn, "_SendGoal"@ + "_Request"@, "msg"@);
    longer_name_keeps_kind(fqn, "_SendGoal"@ + "_Response"@, "msg"@);
    longer_name_keeps_kind(fqn, "_GetResult"@ + "_Request"@, "msg"@);
    longer_name_keeps_kind(fqn, "_GetResult"@ + "_Response"@, "msg"@);
    let a = action_model(fqn, package_of(fqn).unwrap(), body)->Ok_0;
    assert(with_action(reg, fqn, body)->Ok_0 == acting(reg, fqn, a));
}

/// Whether a message is found under a name.
pub open spec fn has_message(reg: RegistryModel, name: Seq<char>, m: MessageModel) -> bool {
    let norm = with_kind(name, "msg"@);
    reg.messages.dom().contains(norm) && reg.messages[norm] == m
}

/// Whether a service is found under a name.
pub open spec fn has_service(reg: RegistryModel, name: Seq<char>, s: ServiceModel) -> bool {
    let norm = with_kind(name, "srv"@);
    reg.services.dom().contains(norm) && reg.services[norm] == s
}

/// A message whose fields name known messages can be inserted without leaving one open.
pub proof fn inserting_keeps_closed(reg: RegistryModel, after: RegistryModel, k: Seq<char>, m:
    MessageModel)
    requires
        closed(reg),
        after.messages == reg.messages.insert(k, m),
        resolved_in(after.messages, m),
    ensures
        closed(after),
{
    assert forall|x: Seq<char>| #[trigger] after.messages.dom().contains(x) implies resolved_in(
        after.messages,
        after.messages[x],
    ) by {
        if x != k {
            resolved_in_more(reg.messages, after.messages, reg.messages[x]);
        }
    }
}

/// What names known messages does so with more messages.
pub proof fn resolved_in_more(
    messages: Map<Seq<char>, MessageModel>,
    more: Map<Seq<char>, MessageModel>,
    m: MessageModel,
)
    requires
        resolved_in(messages, m),
        messages.dom().subset_of(more.dom()),
    ensures
        resolved_in(more, m),
{
    assert forall|i: int| 0 <= i < m.fields.len() implies known_in(
        more,
        (#[trigger] m.fields[i]).ty.base,
    ) by {
        assert(known_in(messages, m.fields[i].ty.base));
    }
}

/// A service whose fields name known messages leaves none open.
pub proof fn serving_keeps_closed(reg: RegistryModel, fqn: Seq<char>, s: ServiceModel)
    requires
        closed(reg),
        resolved_in(reg.messages, s.request),
        resolved_in(reg.messages, s.response),
    ensures
        closed(serving(reg, fqn, s)),
{
    let one = RegistryModel {
        messages: reg.messages.insert(fqn + "_Request"@, s.request),
        ..reg
    };
    resolved_in_more(reg.messages, one.messages, s.request);
    resolved_in_more(reg.messages, one.messages, s.response);
    inserting_keeps_closed(reg, one, fqn + "_Request"@, s.request);
    let two = serving(reg, fqn, s);
    resolved_in_more(one.messages, two.messages, s.response);
    inserting_keeps_closed(one, two, fqn + "_Response"@, s.response);
}

/// An action whose fields name known messages leaves none open, where the messages that
/// ROS 2 puts beside its goal, result and feedback are known.
pub proof fn acting_keeps_closed(reg: RegistryModel, fqn: Seq<char>, a: ActionModel)
    requires
        closed(reg),
        package_of(fqn) is Some,
        resolved_in(reg.messages, a.goal),
        resolved_in(reg.messages, a.result),
        resolved_in(reg.messages, a.feedback),
        known_in(reg.messages, BaseModel::Message("unique_identifier_msgs/msg/UUID"@)),
        known_in(reg.messages, BaseModel::Message("builtin_interfaces/msg/Time"@)),
    ensures
        closed(acting(reg, fqn, a)),
{
    let (g, r, f) = (fqn + "_Goal"@, fqn + "_Result"@, fqn + "_Feedback"@);
    let one = RegistryModel { messages: reg.messages.insert(g, a.goal), ..reg };
    let two = RegistryModel { messages: one.messages.insert(r, a.result), ..one };
    let plain = RegistryModel {
        messages: two.messages.insert(f, a.feedback),
        actions: reg.actions.insert(fqn, a),
        ..reg
    };
    resolved_in_more(reg.messages, one.messages, a.goal);
    inserting_keeps_closed(reg, one, g, a.goal);
    resolved_in_more(reg.messages, two.messages, a.result);
    inserting_keeps_closed(one, two, r, a.result);
    resolved_in_more(reg.messages, plain.messages, a.feedback);
    inserting_keeps_closed(two, plain, f, a.feedback);
    reveal_strlit("_Goal");
    reveal_strlit("_Result");
    reveal_strlit("_Feedback");
    longer_name_keeps_kind(fqn, "_Goal"@, "msg"@);
    longer_name_keeps_kind(fqn, "_Result"@, "msg"@);
    longer_name_keeps_kind(fqn, "_Feedback"@, "msg"@);
    let send = send_goal_service(fqn);
    let get = get_result_service(fqn);
    serving_keeps_closed(plain, fqn + "_SendGoal"@, send);
    let sending = serving(plain, fqn + "_SendGoal"@, send);
    resolved_in_more(plain.messages, sending.messages, get.request);
    resolved_in_more(plain.messages, sending.messages, get.response);
    serving_keeps_closed(sending, fqn + "_GetResult"@, get);
    let getting = serving(sending, fqn + "_GetResult"@, get);
    let after = acting(reg, fqn, a);
    let m = feedback_message(fqn);
    assert(resolved_in(plain.messages, m));
    resolved_in_more(plain.messages, after.messages, m);
    inserting_keeps_closed(getting, after, fqn + "_FeedbackMessage"@, m);
}

/// With a service that was added, it and its request and response are found, the latter as
/// messages; other services are found as before.
pub proof fn added_service_is_found(
    reg: RegistryModel,
    fqn: Seq<char>,
    body: Seq<char>,
    other: Seq<char>,
)
    requires
        with_service(reg, fqn, body) is Ok,
    ensures
        ({
            let after = with_service(reg, fqn, body)->Ok_0;
            let s = after.services[fqn];
            &&& has_service(after, fqn, s)
            &&& service_model(fqn, package_of(fqn).unwrap(), body) == Ok::<
                ServiceModel,
                ParseFault,
            >(s)
            &&& has_message(after, fqn + "_Request"@, s.request)
            &&& has_message(after, fqn + "_Response"@, s.response)
            &&& other != fqn ==> (after.services.dom().contains(other)
                <==> reg.services.dom().contains(other)) && (reg.services.dom().contains(other)
                ==> after.services[other] == reg.services[other])
            &&& after.actions == reg.actions
        }),
{
    reveal_strlit("_Request");
    reveal_strlit("_Response");
    longer_name_keeps_kind(fqn, "_Request"@, "msg"@);
    longer_name_keeps_kind(fqn, "_Response"@, "msg"@);
    assert((fqn + "_Request"@).len() != (fqn + "_Response"@).len());
}

/// A type is found without its kind: `p/Type` stands for `p/kind/Type`.
pub proof fn kind_may_be_left_out(package: Seq<char>, kind: Seq<char>, base: Seq<char>)
    requires
        !package.contains('/'),
        !kind.contains('/'),
        !base.contains('/'),
    ensures
        with_kind(package + "/"@ + base, kind) == package + "/"@ + kind + "/"@ + base,
        with_kind(package + "/"@ + kind + "/"@ + base, kind) == package + "/"@ + kind + "/"@ + base,
        package_of(package + "/"@ + kind + "/"@ + base) == Some(package),
        package_of(package + "/"@ + base) is None,
{
    reveal_strlit("/");
    let short = package + "/"@ + base;
    let full = package + "/"@ + kind + "/"@ + base;
    let rest = kind + seq!['/'] + base;
    assert(short =~= package + seq!['/'] + base);
    assert(full =~= package + seq!['/'] + rest);
    crate::text::split_at_separator(package, base, '/');
    crate::text::split_at_separator(package, rest, '/');
    crate::text::split_at_separator(kind, base, '/');
    crate::text::find_is_first(package, '/');
    crate::text::find_is_first(kind, '/');
    crate::text::find_is_first(base, '/');
    assert(split(package, '/') =~= seq![package]);
    assert(split(kind, '/') =~= seq![kind]);
    assert(split(base, '/') =~= seq![base]);
    assert(split(short, '/') =~= seq![package, base]);
    assert(split(full, '/') =~= seq![package, kind, base]);
}

/// A file in a package's directory of a kind defines the type of its name, under the
/// package, the kind and that name.
pub proof fn file_defines_the_type_of_its_name(
    reg: RegistryModel,
    pkg: Seq<char>,
    kind: InterfaceKind,
    stem: Seq<char>,
    body: Seq<char>,
)
    requires
        !pkg.contains('/'),
        !stem.contains('/'),
        stem.len() > 0,
        with_file(reg, pkg, kind, stem, body) is Ok,
    ensures
        ({
            let after = with_file(reg, pkg, kind, stem, body)->Ok_0;
            match kind {
                InterfaceKind::Msg => after.messages.dom().contains(pkg + "/msg/"@ + stem),
                InterfaceKind::Srv => after.services.dom().contains(pkg + "/srv/"@ + stem),
                InterfaceKind::Action => after.actions.dom().contains(pkg + "/action/"@ + stem),
            }
        }),
{
    lemma_name_of_file(pkg, stem);
}

proof fn lemma_name_of_file(pkg: Seq<char>, stem: Seq<char>)
    ensures
        pkg + "/"@ + "msg"@ + "/"@ + stem == pkg + "/msg/"@ + stem,
        pkg + "/"@ + "srv"@ + "/"@ + stem == pkg + "/srv/"@ + stem,
        pkg + "/"@ + "action"@ + "/"@ + stem == pkg + "/action/"@ + stem,
{
    reveal_strlit("/");
    reveal_strlit("msg");
    reveal_strlit("srv");
    reveal_strlit("action");
    reveal_strlit("/msg/");
    reveal_strlit("/srv/");
    reveal_strlit("/action/");
    assert(pkg + "/"@ + "msg"@ + "/"@ + stem =~= pkg + "/msg/"@ + stem);
    assert(pkg + "/"@ + "srv"@ + "/"@ + stem =~= pkg + "/srv/"@ + stem);
    assert(pkg + "/"@ + "action"@ + "/"@ + stem =~= pkg + "/action/"@ + stem);
}

/// A file is named by its type, a dot and the kind.
pub proof fn file_is_named_after_its_type(stem: Seq<char>)
    requires
        stem.len() > 0,
    ensures
        defined_by(stem + ".msg"@, InterfaceKind::Msg) == Some(stem),
        defined_by(stem + ".srv"@, InterfaceKind::Srv) == Some(stem),
        defined_by(stem + ".action"@, InterfaceKind::Action) == Some(stem),
{
    reveal_strlit("msg");
    reveal_strlit("srv");
    reveal_strlit("action");
    reveal_strlit(".msg");
    reveal_strlit(".srv");
    reveal_strlit(".action");
    assert(stem + ".msg"@ =~= stem + seq!['.'] + "msg"@);
    assert(stem + ".srv"@ =~= stem + seq!['.'] + "srv"@);
    assert(stem + ".action"@ =~= stem + seq!['.'] + "action"@);
    lemma_stem_is_found(stem, "msg"@);
    lemma_stem_is_found(stem, "srv"@);
    lemma_stem_is_found(stem, "action"@);
}

proof fn lemma_stem_is_found(stem: Seq<char>, label: Seq<char>)
    requires
        forall|i: int| 0 <= i < label.len() ==> #[trigger] label[i] != '.',
    ensures
        ({
            let file = stem + seq!['.'] + label;
            let i = rfind(file, '.');
            i == stem.len() && file.take(i) == stem && file.skip(i + 1) == label
        }),
{
    let file = stem + seq!['.'] + label;
    crate::type_laws::lemma_rfind(stem, '.', label);
    assert(file.skip(stem.len() as int + 1) =~= label);
    assert(file.take(stem.len() as int) =~= stem);
}

/// What names an unknown message is not added; what is added names known ones only, so that a
/// registry stays closed; no other message changes by that.
pub proof fn only_what_is_known_is_added(
    reg: RegistryModel,
    fqn: Seq<char>,
    body: Seq<char>,
    other: Seq<char>,
)
    requires
        closed(reg),
        other != fqn,
    ensures
        ({
            let after = with_known_message(reg, fqn, body);
            &&& closed(after)
            &&& after.messages.dom().contains(other) == reg.messages.dom().contains(other)
            &&& after.messages[other] == reg.messages[other]
            &&& after.services == reg.services && after.actions == reg.actions
            &&& package_of(fqn) matches Some(pkg) ==> (message_model(fqn, pkg, body) matches Ok(m)
                ==> (resolved_in(reg.messages, m) ==> after.messages.dom().contains(fqn)
                && after.messages[fqn] == m) && (!resolved_in(reg.messages, m) ==> after == reg))
        }),
{
    if let Ok(after) = with_message(reg, fqn, body) {
        if resolved_in(reg.messages, after.messages[fqn]) {
            resolved_in_more(reg.messages, after.messages, after.messages[fqn]);
            inserting_keeps_closed(reg, after, fqn, after.messages[fqn]);
        }
    }
}

} // verus!
