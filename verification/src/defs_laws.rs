//! The bundled definitions are registered: none is skipped when they are loaded.
use vstd::prelude::*;
use crate::defs::{
    holds_bundled, with_actions, with_bundled, with_messages, with_services, ACTIONS, MESSAGES, SERVICES,
};
use crate::defs_loadable::bundled_message_is_ready;
use crate::interface::MessageModel;
use crate::loadable::{
    lemma_loadable, lemma_three_names, loadable, name_end, registered, same, three_names,
};
use crate::parser::{action_model, message_model, service_model};
use crate::parser_laws::{
    action_has_the_messages_of_its_parts, service_has_the_messages_of_its_parts,
};
use crate::registry::{
    acting, package_of, serving, with_action, with_known_action, with_known_message,
    with_known_service, with_message, with_service, RegistryFault, RegistryModel,
};

verus! {

/// Whether the first `n` bundled messages are there, under full names.
spec fn first_messages(messages: Map<Seq<char>, MessageModel>, n: int) -> bool {
    forall|i: int|
        0 <= i < n ==> {
            let name = (#[trigger] MESSAGES@[i]).0@;
            three_names(name) && messages.dom().contains(name)
        }
}

/// Where the bundled messages before it are there, the next one is added.
proof fn lemma_next_message(reg: RegistryModel, n: nat)
    requires
        n < MESSAGES@.len(),
        first_messages(with_messages(reg, n).messages, n as int),
    ensures
        three_names(MESSAGES@[n as int].0@),
        with_message(with_messages(reg, n), MESSAGES@[n as int].0@, MESSAGES@[n as int].1@) == Ok::<
            RegistryModel,
            RegistryFault,
        >(with_messages(reg, n + 1)),
        with_messages(reg, n + 1).messages.dom() == with_messages(reg, n).messages.dom().insert(
            MESSAGES@[n as int].0@,
        ),
{
    let before = with_messages(reg, n);
    let (fqn, body) = (MESSAGES@[n as int].0@, MESSAGES@[n as int].1@);
    let refs = bundled_message_is_ready(n as int);
    assert(registered(before.messages, refs)) by {
        assert forall|j: int| 0 <= j < refs.len() implies {
            let name = MESSAGES@[#[trigger] refs[j]].0@;
            three_names(name) && before.messages.dom().contains(name)
        } by {
            assert(0 <= refs[j] < n);
        }
    }
    lemma_loadable(before.messages, fqn, body, fqn, refs);
    let m = message_model(fqn, package_of(fqn).unwrap(), body)->Ok_0;
    assert(before.messages.insert(fqn, m)[fqn] == m);
    assert(with_known_message(before, fqn, body) == with_messages(reg, n + 1));
}

proof fn lemma_one_more(
    before: Map<Seq<char>, MessageModel>,
    after: Map<Seq<char>, MessageModel>,
    n: int,
)
    requires
        first_messages(before, n),
        three_names(MESSAGES@[n].0@),
        after.dom() == before.dom().insert(MESSAGES@[n].0@),
    ensures
        first_messages(after, n + 1),
{
}

/// The bundled messages are registered one by one.
proof fn lemma_messages(reg: RegistryModel, n: nat)
    requires
        n <= MESSAGES@.len(),
    ensures
        first_messages(with_messages(reg, n).messages, n as int),
    decreases n,
{
    if n > 0 {
        let k = (n - 1) as nat;
        lemma_messages(reg, k);
        lemma_next_message(reg, k);
        lemma_one_more(with_messages(reg, k).messages, with_messages(reg, n).messages, k as int);
    }
}

/// Whether a text has a newline at its end, or nothing in it.
spec fn whole_lines(a: Seq<char>) -> bool {
    a.len() == 0 || a.last() == '\n'
}

/// Whether a service is defined by two loadable parts that name no message.
spec fn plain_service(fqn: Seq<char>, body: Seq<char>, a: Seq<char>, b: Seq<char>) -> bool {
    &&& three_names(fqn)
    &&& whole_lines(a)
    &&& loadable(a, 0, fqn, Seq::empty())
    &&& loadable(b, 0, fqn, Seq::empty())
    &&& body == a + "---\n"@ + b
}

/// Such a service is registered, and every message stays.
proof fn lemma_plain_service(
    reg: RegistryModel,
    fqn: Seq<char>,
    body: Seq<char>,
    a: Seq<char>,
    b: Seq<char>,
)
    requires
        plain_service(fqn, body, a, b),
    ensures
        ({
            let after = with_known_service(reg, fqn, body);
            &&& with_service(reg, fqn, body) == Ok::<RegistryModel, RegistryFault>(after)
            &&& after.services.dom() == reg.services.dom().insert(fqn)
            &&& reg.messages.dom().subset_of(after.messages.dom())
        }),
{
    let pkg = fqn.take(name_end(fqn, 0));
    lemma_loadable(reg.messages, fqn + "_Request"@, a, fqn, Seq::empty());
    lemma_loadable(reg.messages, fqn + "_Response"@, b, fqn, Seq::empty());
    service_has_the_messages_of_its_parts(fqn, pkg, a, b);
    let s = service_model(fqn, pkg, body)->Ok_0;
    assert(serving(reg, fqn, s).services[fqn] == s);
    assert(with_known_service(reg, fqn, body) == serving(reg, fqn, s));
}

proof fn lemma_empty_service() -> (parts: (Seq<char>, Seq<char>))
    ensures
        plain_service(SERVICES@[0].0@, SERVICES@[0].1@, parts.0, parts.1),
{
    reveal_strlit("std_srvs/srv/Empty");
    reveal_with_fuel(name_end, 10);
    let e = Seq::<char>::empty();
    assert(e + "---\n"@ + e =~= "---\n"@);
    (e, e)
}

proof fn lemma_set_bool() -> (parts: (Seq<char>, Seq<char>))
    ensures
        plain_service(SERVICES@[1].0@, SERVICES@[1].1@, parts.0, parts.1),
{
    reveal_strlit("std_srvs/srv/SetBool");
    reveal_strlit("bool data\n---\nbool success\nstring message\n");
    reveal_strlit("bool data\n");
    reveal_strlit("---\n");
    reveal_strlit("bool success\nstring message\n");
    reveal_with_fuel(name_end, 10);
    reveal_with_fuel(same, 8);
    reveal_with_fuel(loadable, 4);
    let (a, b) = ("bool data\n"@, "bool success\nstring message\n"@);
    assert(SERVICES@[1].1@ =~= a + "---\n"@ + b);
    (a, b)
}

proof fn lemma_trigger() -> (parts: (Seq<char>, Seq<char>))
    ensures
        plain_service(SERVICES@[2].0@, SERVICES@[2].1@, parts.0, parts.1),
{
    reveal_strlit("std_srvs/srv/Trigger");
    reveal_strlit("---\nbool success\nstring message\n");
    reveal_strlit("---\n");
    reveal_strlit("bool success\nstring message\n");
    reveal_with_fuel(name_end, 10);
    reveal_with_fuel(same, 8);
    reveal_with_fuel(loadable, 4);
    let (a, b) = (Seq::<char>::empty(), "bool success\nstring message\n"@);
    assert(SERVICES@[2].1@ =~= a + "---\n"@ + b);
    (a, b)
}

proof fn lemma_add_two_ints() -> (parts: (Seq<char>, Seq<char>))
    ensures
        plain_service(SERVICES@[3].0@, SERVICES@[3].1@, parts.0, parts.1),
{
    reveal_strlit("example_interfaces/srv/AddTwoInts");
    reveal_strlit("int64 a\nint64 b\n---\nint64 sum\n");
    reveal_strlit("int64 a\nint64 b\n");
    reveal_strlit("---\n");
    reveal_strlit("int64 sum\n");
    reveal_with_fuel(name_end, 20);
    reveal_with_fuel(same, 7);
    reveal_with_fuel(loadable, 4);
    let (a, b) = ("int64 a\nint64 b\n"@, "int64 sum\n"@);
    assert(SERVICES@[3].1@ =~= a + "---\n"@ + b);
    (a, b)
}

/// The parts of a bundled service.
proof fn lemma_service_parts(n: int) -> (parts: (Seq<char>, Seq<char>))
    requires
        0 <= n < SERVICES@.len(),
    ensures
        plain_service(SERVICES@[n].0@, SERVICES@[n].1@, parts.0, parts.1),
{
    if n == 0 {
        lemma_empty_service()
    } else if n == 1 {
        lemma_set_bool()
    } else if n == 2 {
        lemma_trigger()
    } else {
        lemma_add_two_ints()
    }
}

/// The bundled services are registered one by one, and every message stays.
proof fn lemma_services(reg: RegistryModel, n: nat)
    requires
        n <= SERVICES@.len(),
    ensures
        reg.messages.dom().subset_of(with_services(reg, n).messages.dom()),
        forall|i: int|
            0 <= i < n ==> with_services(reg, n).services.dom().contains(
                (#[trigger] SERVICES@[i]).0@,
            ),
    decreases n,
{
    if n > 0 {
        let before = with_services(reg, (n - 1) as nat);
        lemma_services(reg, (n - 1) as nat);
        let (fqn, body) = (SERVICES@[n - 1].0@, SERVICES@[n - 1].1@);
        let (a, b) = lemma_service_parts(n - 1);
        lemma_plain_service(before, fqn, body, a, b);
        assert(with_known_service(before, fqn, body) == with_services(reg, n));
    }
}

/// The bundled action is registered where the messages are that the types round it name.
#[verifier::spinoff_prover]
proof fn lemma_fibonacci(reg: RegistryModel)
    requires
        first_messages(reg.messages, MESSAGES@.len() as int),
    ensures
        ({
            let after = with_known_action(reg, ACTIONS@[0].0@, ACTIONS@[0].1@);
            &&& with_action(reg, ACTIONS@[0].0@, ACTIONS@[0].1@) == Ok::<
                RegistryModel,
                RegistryFault,
            >(after)
            &&& after.actions.dom().contains(ACTIONS@[0].0@)
            &&& reg.messages.dom().subset_of(after.messages.dom())
            &&& reg.services.dom().subset_of(after.services.dom())
        }),
{
    let (fqn, body) = (ACTIONS@[0].0@, ACTIONS@[0].1@);
    let (a, b) = ("int32 order\n"@, "int32[] sequence\n"@);
    let pkg = fqn.take(name_end(fqn, 0));
    lemma_fibonacci_parts();
    lemma_loadable(reg.messages, fqn + "_Goal"@, a, fqn, Seq::empty());
    lemma_loadable(reg.messages, fqn + "_Result"@, b, fqn, Seq::empty());
    lemma_loadable(reg.messages, fqn + "_Feedback"@, b, fqn, Seq::empty());
    action_has_the_messages_of_its_parts(fqn, pkg, a, b, b);
    let model = action_model(fqn, pkg, body)->Ok_0;
    let (uuid, time) = (MESSAGES@[59].0@, MESSAGES@[0].0@);
    assert(uuid == "unique_identifier_msgs/msg/UUID"@);
    assert(time == "builtin_interfaces/msg/Time"@);
    lemma_three_names(uuid);
    lemma_three_names(time);
    assert(with_known_action(reg, fqn, body) == acting(reg, fqn, model));
}

proof fn lemma_fibonacci_parts()
    ensures
        ({
            let (fqn, body) = (ACTIONS@[0].0@, ACTIONS@[0].1@);
            let (a, b) = ("int32 order\n"@, "int32[] sequence\n"@);
            &&& three_names(fqn)
            &&& whole_lines(a)
            &&& whole_lines(b)
            &&& loadable(a, 0, fqn, Seq::empty())
            &&& loadable(b, 0, fqn, Seq::empty())
            &&& body == a + "---\n"@ + b + "---\n"@ + b
        }),
{
    reveal_strlit("example_interfaces/action/Fibonacci");
    reveal_strlit("int32 order\n---\nint32[] sequence\n---\nint32[] sequence\n");
    reveal_strlit("int32 order\n");
    reveal_strlit("---\n");
    reveal_strlit("int32[] sequence\n");
    reveal_with_fuel(name_end, 20);
    reveal_with_fuel(same, 7);
    reveal_with_fuel(loadable, 3);
    let (a, b) = ("int32 order\n"@, "int32[] sequence\n"@);
    assert(ACTIONS@[0].1@ =~= a + "---\n"@ + b + "---\n"@ + b);
}

proof fn lemma_actions(reg: RegistryModel)
    ensures
        with_actions(reg, 0) == reg,
        with_actions(reg, 1) == with_known_action(reg, ACTIONS@[0].0@, ACTIONS@[0].1@),
{
    reveal_with_fuel(with_actions, 2);
}

/// Every bundled definition is registered: loading the bundled definitions, into an
/// empty registry or any other, skips none of them.
pub proof fn bundled_definitions_are_registered(reg: RegistryModel)
    ensures
        holds_bundled(with_bundled(reg)),
{
    let messages = with_messages(reg, MESSAGES@.len());
    let services = with_services(messages, SERVICES@.len());
    lemma_messages(reg, MESSAGES@.len());
    lemma_services(messages, SERVICES@.len());
    assert(first_messages(services.messages, MESSAGES@.len() as int));
    lemma_fibonacci(services);
    lemma_actions(services);
}

/// Loading the bundled definitions is adding each of them in turn: every one can be
/// parsed, and at its turn its name comes to stand for what its body defines.
pub proof fn bundled_definitions_are_added_in_turn(reg: RegistryModel)
    ensures
        forall|i: nat|
            i < MESSAGES@.len() ==> with_message(
                #[trigger] with_messages(reg, i),
                MESSAGES@[i as int].0@,
                MESSAGES@[i as int].1@,
            ) == Ok::<RegistryModel, RegistryFault>(with_messages(reg, i + 1)),
        ({
            let messages = with_messages(reg, MESSAGES@.len());
            forall|i: nat|
                i < SERVICES@.len() ==> with_service(
                    #[trigger] with_services(messages, i),
                    SERVICES@[i as int].0@,
                    SERVICES@[i as int].1@,
                ) == Ok::<RegistryModel, RegistryFault>(with_services(messages, i + 1))
        }),
        ({
            let services = with_services(
                with_messages(reg, MESSAGES@.len()),
                SERVICES@.len(),
            );
            forall|i: nat|
                i < ACTIONS@.len() ==> with_action(
                    #[trigger] with_actions(services, i),
                    ACTIONS@[i as int].0@,
                    ACTIONS@[i as int].1@,
                ) == Ok::<RegistryModel, RegistryFault>(with_actions(services, i + 1))
        }),
{
    let messages = with_messages(reg, MESSAGES@.len());
    let services = with_services(messages, SERVICES@.len());
    assert forall|i: nat| i < MESSAGES@.len() implies with_message(
        #[trigger] with_messages(reg, i),
        MESSAGES@[i as int].0@,
        MESSAGES@[i as int].1@,
    ) == Ok::<RegistryModel, RegistryFault>(with_messages(reg, i + 1)) by {
        lemma_messages(reg, i);
        lemma_next_message(reg, i);
    }
    assert forall|i: nat| i < SERVICES@.len() implies with_service(
        #[trigger] with_services(messages, i),
        SERVICES@[i as int].0@,
        SERVICES@[i as int].1@,
    ) == Ok::<RegistryModel, RegistryFault>(with_services(messages, i + 1)) by {
        let (fqn, body) = (SERVICES@[i as int].0@, SERVICES@[i as int].1@);
        let (a, b) = lemma_service_parts(i as int);
        lemma_plain_service(with_services(messages, i), fqn, body, a, b);
    }
    lemma_messages(reg, MESSAGES@.len());
    lemma_services(messages, SERVICES@.len());
    assert(first_messages(services.messages, MESSAGES@.len() as int));
    lemma_fibonacci(services);
    lemma_actions(services);
}

} // verus!
