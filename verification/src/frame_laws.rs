//! Laws of what is sent to clients: each operation says what it is about, and a text that
//! is cut is told whole by its pieces.
use vstd::prelude::*;
use vstd::utf8::encode_utf8;
use crate::actions::{
    action_feedback_op, action_result_op, cancel_goal_op, goal_end_op, send_goal_op,
};
use crate::compression::{image_pixels, png_of, Compression};
use crate::document::json_text;
use crate::config::Config;
use crate::dispatch::step;
use crate::effect::EffectModel;
use crate::fragment::{
    below, chunks, chunks_are_small, chunks_are_the_text, flat, fragment_op, fresh, lemma_below,
    lemma_joined, pushed, Outcome, PendingModel,
};
use crate::incoming::{Fragment, IncomingMessage};
use crate::json::{integer_number, Json, JsonValue, Number};
use crate::outgoing::{StatusLevel, StatusModel};
use crate::services::{call_service_op, service_response_op};
use crate::session::{
    fragment_id, png_op, publish_op, sample_frames, status_op, text_frames_of, FrameModel,
    SessionModel,
};
use crate::subscription::SubParams;

verus! {

/// Whether an operation has a member with a value.
pub open spec fn says(v: Json, key: Seq<char>, x: Json) -> bool {
    v matches Json::Object(o) && o.dom().contains(key) && o[key] == x
}

/// An id as it stands in an operation: a text, or null where there is none.
pub open spec fn as_id(id: Option<Seq<char>>) -> Json {
    match id {
        Some(x) => Json::String(x),
        None => Json::Null,
    }
}

proof fn lemma_keys()
    ensures
        "op"@.len() == 2,
        "id"@.len() == 2,
        "op"@ != "id"@,
        "msg"@.len() == 3,
        "num"@.len() == 3,
        "msg"@ != "num"@,
        "args"@.len() == 4,
        "data"@.len() == 4,
        "args"@ != "data"@,
        "topic"@.len() == 5,
        "level"@.len() == 5,
        "total"@.len() == 5,
        "topic"@ != "level"@,
        "values"@.len() == 6,
        "result"@.len() == 6,
        "action"@.len() == 6,
        "status"@.len() == 6,
        "values"@ != "result"@,
        "values"@ != "action"@,
        "values"@ != "status"@,
        "result"@ != "action"@,
        "result"@ != "status"@,
        "action"@ != "status"@,
        "service"@.len() == 7,
        "feedback"@.len() == 8,
        "action_type"@.len() == 11,
{
    reveal_strlit("op");
    reveal_strlit("id");
    reveal_strlit("msg");
    reveal_strlit("num");
    reveal_strlit("args");
    reveal_strlit("data");
    reveal_strlit("topic");
    reveal_strlit("level");
    reveal_strlit("total");
    reveal_strlit("values");
    reveal_strlit("result");
    reveal_strlit("action");
    reveal_strlit("status");
    reveal_strlit("service");
    reveal_strlit("feedback");
    reveal_strlit("action_type");
    assert("op"@[0] != "id"@[0]);
    assert("msg"@[0] != "num"@[0]);
    assert("args"@[0] != "data"@[0]);
    assert("topic"@[0] != "level"@[0]);
    assert("values"@[0] == 'v' && "result"@[0] == 'r' && "action"@[0] == 'a' && "status"@[0] == 's');
}

/// A message goes to a subscriber with its topic.
pub proof fn publish_operation_says_topic_and_message(topic: Seq<char>, msg: Json)
    ensures
        says(publish_op(topic, msg), "op"@, Json::String("publish"@)),
        says(publish_op(topic, msg), "topic"@, Json::String(topic)),
        says(publish_op(topic, msg), "msg"@, msg),
{
    lemma_keys();
}

/// A status says its level and its message, and the id of what it is about.
pub proof fn status_operation_says_level_and_message(s: StatusModel)
    ensures
        says(status_op(s), "op"@, Json::String("status"@)),
        says(
            status_op(s),
            "level"@,
            Json::String(
                match s.level {
                    StatusLevel::Off => "none"@,
                    StatusLevel::Error => "error"@,
                    StatusLevel::Warning => "warning"@,
                    StatusLevel::Info => "info"@,
                },
            ),
        ),
        says(status_op(s), "msg"@, Json::String(s.msg)),
        says(status_op(s), "id"@, as_id(s.id)),
{
    lemma_keys();
}

/// The answer to a service call says the service, the values and whether it failed, and
/// has the id of the call; the request by which it gets to the hosting client says the
/// service and the arguments.
pub proof fn service_operations_say_what_was_asked(
    service: Seq<char>,
    values: Json,
    result: bool,
    id: Option<Seq<char>>,
    request: Seq<char>,
)
    ensures
        ({
            let v = service_response_op(service, values, result, id);
            &&& says(v, "op"@, Json::String("service_response"@))
            &&& says(v, "service"@, Json::String(service))
            &&& says(v, "values"@, values)
            &&& says(v, "result"@, Json::Bool(result))
            &&& says(v, "id"@, as_id(id))
        }),
        ({
            let v = call_service_op(service, request, values);
            &&& says(v, "op"@, Json::String("call_service"@))
            &&& says(v, "service"@, Json::String(service))
            &&& says(v, "id"@, Json::String(request))
            &&& says(v, "args"@, values)
        }),
{
    lemma_keys();
}

/// The operations by which a goal, its feedback, its result and its cancellation travel
/// say the action, what is carried and the goal.
pub proof fn action_operations_say_what_was_asked(
    action: Seq<char>,
    action_type: Seq<char>,
    values: Json,
    code: i8,
    result: bool,
    id: Option<Seq<char>>,
    goal: Seq<char>,
)
    ensures
        ({
            let v = action_result_op(action, values, code as int, result, id);
            &&& says(v, "op"@, Json::String("action_result"@))
            &&& says(v, "action"@, Json::String(action))
            &&& says(v, "values"@, values)
            &&& says(v, "status"@, Json::Number(integer_number(code as int)))
            &&& says(v, "result"@, Json::Bool(result))
            &&& says(v, "id"@, as_id(id))
        }),
        ({
            let v = action_feedback_op(action, values, id);
            &&& says(v, "op"@, Json::String("action_feedback"@))
            &&& says(v, "action"@, Json::String(action))
            &&& says(v, "values"@, values)
            &&& says(v, "id"@, as_id(id))
        }),
        ({
            let v = send_goal_op(action, action_type, goal, values);
            &&& says(v, "op"@, Json::String("send_action_goal"@))
            &&& says(v, "action"@, Json::String(action))
            &&& says(v, "action_type"@, Json::String(action_type))
            &&& says(v, "id"@, Json::String(goal))
            &&& says(v, "args"@, values)
            &&& says(v, "feedback"@, Json::Bool(true))
        }),
        ({
            let v = cancel_goal_op(action, goal);
            &&& says(v, "op"@, Json::String("cancel_action_goal"@))
            &&& says(v, "action"@, Json::String(action))
            &&& says(v, "id"@, Json::String(goal))
        }),
{
    lemma_keys();
}

/// The issuer of a goal is told how it ended, under the action's name and the id that it
/// gave: with the values and the status of the server, or with a failure and why.
pub proof fn end_of_a_goal_is_told(
    action: Seq<char>,
    id: Option<Seq<char>>,
    outcome: Option<Result<(JsonValue, i8), String>>,
)
    ensures
        ({
            let v = goal_end_op(action, id, outcome);
            &&& says(v, "op"@, Json::String("action_result"@))
            &&& says(v, "action"@, Json::String(action))
            &&& says(v, "id"@, as_id(id))
            &&& match outcome {
                Some(Ok((values, code))) => {
                    &&& says(v, "values"@, values@)
                    &&& says(v, "status"@, Json::Number(integer_number(code as int)))
                    &&& says(v, "result"@, Json::Bool(true))
                },
                Some(Err(e)) => {
                    &&& says(v, "values"@, Json::String(e@))
                    &&& says(v, "result"@, Json::Bool(false))
                },
                None => says(v, "result"@, Json::Bool(false)),
            }
        }),
{
    lemma_keys();
}

/// A piece of a text says its number and how many there are, and which text it is of.
pub proof fn fragment_operation_says_its_place(
    id: Seq<char>,
    data: Seq<char>,
    num: u64,
    total: u64,
)
    ensures
        ({
            let v = Json::Object(fragment_op(id, data, num as nat, total as nat));
            &&& says(v, "op"@, Json::String("fragment"@))
            &&& says(v, "id"@, Json::String(id))
            &&& says(v, "data"@, Json::String(data))
            &&& says(v, "num"@, Json::Number(Number::PosInt(num)))
            &&& says(v, "total"@, Json::Number(Number::PosInt(total)))
        }),
{
    lemma_keys();
    reveal_strlit("level");
    reveal_strlit("total");
}

/// The frames that tell a text in pieces: one for each, in order.
pub open spec fn tells_in_pieces(
    frames: Seq<FrameModel>,
    parts: Seq<Seq<char>>,
    id: Seq<char>,
) -> bool {
    &&& frames.len() == parts.len()
    &&& forall|i: int|
        0 <= i < parts.len() ==> #[trigger] frames[i] == FrameModel::Text(
            json_text(Json::Object(fragment_op(id, parts[i], i as nat, parts.len()))),
        )
}

/// A text is sent as it is where no size is asked for, or where it is no longer than the
/// size that is asked for and the one that the server sends at most. Else it is sent in
/// pieces, which are the text when put together, and none of which is longer than either
/// size.
pub proof fn text_is_sent_whole_or_in_pieces(
    client: u64,
    seed: u64,
    max: usize,
    text: Seq<char>,
    size: Option<usize>,
)
    ensures
        ({
            let frames = text_frames_of(client, seed, max, text, size);
            let whole = size is None || size == Some(0usize) || max == 0 || (text.len()
                <= size.unwrap() && text.len() <= max);
            &&& whole ==> frames == seq![FrameModel::Text(text)]
            &&& !whole ==> exists|parts: Seq<Seq<char>>| #[trigger]
                tells_in_pieces(frames, parts, fragment_id(client, seed)) && flat(parts) == text
                    && parts.len() > 1 && forall|i: int|
                    0 <= i < parts.len() ==> 0 < (#[trigger] parts[i]).len() <= size.unwrap()
                        && parts[i].len() <= max
        }),
{
    let frames = text_frames_of(client, seed, max, text, size);
    if size is Some && size.unwrap() > 0 && max > 0 {
        let c = if size.unwrap() <= max {
            size.unwrap()
        } else {
            max
        };
        if text.len() > c {
            let parts = chunks(text, c as nat);
            chunks_are_the_text(text, c as nat);
            assert forall|i: int| 0 <= i < parts.len() implies 0 < (#[trigger] parts[i]).len()
                <= size.unwrap() && parts[i].len() <= max by {
                chunks_are_small(text, c as nat, i);
            }
            assert(parts.len() > 1) by {
                assert(chunks(text.skip(c as int), c as nat).len() > 0);
            }
            assert(tells_in_pieces(frames, parts, fragment_id(client, seed)));
        }
    }
}

/// A compressed message is one text that holds the image of the text that would have been
/// sent, and has that text's bytes in its pixels, in order.
pub proof fn compressed_message_holds_the_text(
    s: SessionModel,
    max: usize,
    topic: Seq<char>,
    msg: Json,
    p: SubParams,
)
    requires
        p.compression == Compression::Png,
        p.fragment_size is None,
    ensures
        ({
            let bytes = encode_utf8(json_text(publish_op(topic, msg)));
            let frames = sample_frames(s, max, topic, msg, p);
            &&& image_pixels(bytes).take(bytes.len() as int) == bytes
            &&& match png_of(bytes) {
                Ok(data) => {
                    &&& frames.len() == 1
                    &&& exists|v: Json|
                        frames[0] == FrameModel::Text(#[trigger] json_text(v)) && says(
                            v,
                            "op"@,
                            Json::String("png"@),
                        ) && says(v, "data"@, Json::String(data))
                },
                Err(_) => frames.len() == 0,
            }
        }),
{
    lemma_keys();
    let bytes = encode_utf8(json_text(publish_op(topic, msg)));
    assert(image_pixels(bytes).take(bytes.len() as int) =~= bytes);
    if let Ok(data) = png_of(bytes) {
        let v = png_op(data);
        assert(says(v, "op"@, Json::String("png"@)) && says(v, "data"@, Json::String(data)));
        assert(sample_frames(s, max, topic, msg, p)[0] == FrameModel::Text(json_text(v)));
    }
}

/// Pieces of one text are told apart from those of another: a piece that is out of range,
/// that says another number of pieces than those before it, or that has come already, is
/// refused, and changes none of the groups that are not too old.
pub proof fn odd_pieces_are_refused(
    pending: Map<Seq<char>, PendingModel>,
    timeout: nat,
    id: Seq<char>,
    num: nat,
    total: nat,
    data: Seq<char>,
    now: nat,
    other: Seq<char>,
)
    ensures
        ({
            let (after, outcome) = pushed(pending, timeout, id, num, total, data, now);
            let odd = total == 0 || num >= total || (pending.dom().contains(id) && (
            pending[id].total != total || pending[id].parts.dom().contains(num)));
            &&& odd <==> outcome is Invalid
            &&& odd && pending.dom().contains(id) ==> after.dom().contains(id) && after[id]
                == pending[id]
            &&& other != id && pending.dom().contains(other) && fresh(pending[other], now, timeout)
                ==> after.dom().contains(other) && after[other] == pending[other]
            &&& other != id && after.dom().contains(other) ==> pending.dom().contains(other)
        }),
{
}

/// A text that is too old by whole seconds is given up: a group is kept as long as fewer
/// seconds than the timeout have passed since its last piece.
pub proof fn groups_age_in_seconds(p: PendingModel, now: nat, timeout: nat)
    requires
        now >= p.last_touched,
    ensures
        fresh(p, now, timeout) <==> now - p.last_touched < timeout * 1_000_000_000,
{
}

/// A piece that is refused is refused for a reason: that its number is out of range, that the
/// number of pieces has changed, or that it has come already.
pub proof fn odd_pieces_have_a_reason(
    pending: Map<Seq<char>, PendingModel>,
    timeout: nat,
    id: Seq<char>,
    num: nat,
    total: nat,
    data: Seq<char>,
    now: nat,
)
    ensures
        ({
            let outcome = pushed(pending, timeout, id, num, total, data, now).1;
            let known = pending.dom().contains(id);
            &&& num >= total ==> outcome == Outcome::Invalid("fragment index out of range"@)
            &&& num < total && known && pending[id].total != total ==> outcome == Outcome::Invalid(
                "inconsistent fragment total"@,
            )
            &&& num < total && known && pending[id].total == total
                && pending[id].parts.dom().contains(num) ==> outcome == Outcome::Invalid(
                "duplicate fragment"@,
            )
        }),
{
}

/// The piece that completes a text has the whole text handled: all pieces in the order of
/// their numbers. The pieces are gone then.
pub proof fn last_piece_has_the_text_handled(
    s: SessionModel,
    cfg: Config,
    types: Map<Seq<char>, Seq<char>>,
    m: Fragment,
    found: Option<Seq<char>>,
    now: (i32, u32),
    clock: u64,
    parts: Seq<Seq<char>>,
)
    requires
        parts.len() == m.total,
        m.num < m.total,
        parts[m.num as int] == m.data@,
        s.groups.dom().contains(m.id@),
        s.groups[m.id@].total == m.total,
        s.groups[m.id@].parts.dom() == below(m.total as nat).remove(m.num as nat),
        forall|k: nat| k < m.total && k != m.num ==> s.groups[m.id@].parts[k] == #[trigger]
            parts[k as int],
    ensures
        ({
            let (t, e) = step(s, cfg, types, IncomingMessage::Fragment(m), found, now, clock);
            &&& e == EffectModel::Handle(flat(parts))
            &&& !t.groups.dom().contains(m.id@)
            &&& t == (SessionModel { groups: t.groups, ..s })
        }),
{
    let all = s.groups[m.id@].parts.insert(m.num as nat, m.data@);
    lemma_below(m.total as nat);
    assert(all.dom() =~= below(m.total as nat));
    assert forall|k: nat| k < m.total implies all[k] == #[trigger] parts[k as int] by {}
    lemma_joined(parts, all, m.total as nat);
    assert(parts.take(m.total as int) =~= parts);
}

/// A piece that does not complete its text is kept with the others.
pub proof fn other_pieces_are_kept(
    s: SessionModel,
    cfg: Config,
    types: Map<Seq<char>, Seq<char>>,
    m: Fragment,
    found: Option<Seq<char>>,
    now: (i32, u32),
    clock: u64,
)
    requires
        m.num < m.total,
        s.groups.dom().contains(m.id@),
        s.groups[m.id@].total == m.total,
        !s.groups[m.id@].parts.dom().contains(m.num as nat),
        s.groups[m.id@].parts.dom().insert(m.num as nat).len() < m.total,
    ensures
        ({
            let (t, e) = step(s, cfg, types, IncomingMessage::Fragment(m), found, now, clock);
            &&& e is Nothing
            &&& t.groups.dom().contains(m.id@)
            &&& t.groups[m.id@].total == m.total
            &&& t.groups[m.id@].parts == s.groups[m.id@].parts.insert(m.num as nat, m.data@)
            &&& t.groups[m.id@].last_touched == clock
        }),
{
    assert(s.groups[m.id@].parts.insert(m.num as nat, m.data@).dom() =~= s.groups[
        m.id@
    ].parts.dom().insert(m.num as nat));
}

} // verus!
