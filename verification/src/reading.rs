//! What inspection promises, stated on the members of a message.

use crate::acp;
use crate::acp::NEWLINE;
use crate::json;
use crate::relay;
use vstd::prelude::*;

verus! {

/// Whether an object has a member with this value (the first with its key).
pub open spec fn has(t: json::JsonTree, key: Seq<char>, value: json::JsonTree) -> bool {
    &&& t is Object
    &&& exists|i: int|
        0 <= i < t->Object_0.len() && (#[trigger] t->Object_0[i]).0 == key && t->Object_0[i].1
            == value && forall|j: int| 0 <= j < i ==> (#[trigger] t->Object_0[j]).0 != key
}

/// Whether a document has no such member; what is no object has none.
pub open spec fn lacks(t: json::JsonTree, key: Seq<char>) -> bool {
    t is Object ==> forall|i: int|
        0 <= i < t->Object_0.len() ==> (#[trigger] t->Object_0[i]).0 != key
}

proof fn lemma_entry_found(entries: Seq<(Seq<char>, json::JsonTree)>, i: int)
    requires
        0 <= i < entries.len(),
        forall|j: int| 0 <= j < i ==> (#[trigger] entries[j]).0 != entries[i].0,
    ensures
        json::entry(entries, entries[i].0) == Some(entries[i].1),
    decreases i,
{
    if i > 0 {
        let rest = entries.drop_first();
        assert(entries[0].0 != entries[i].0);
        assert forall|j: int| 0 <= j < i - 1 implies (#[trigger] rest[j]).0 != rest[i - 1].0 by {
            assert(rest[j] == entries[j + 1]);
        }
        assert(rest[i - 1] == entries[i]);
        lemma_entry_found(rest, i - 1);
    }
}

proof fn lemma_entry_missing(entries: Seq<(Seq<char>, json::JsonTree)>, key: Seq<char>)
    requires
        forall|j: int| 0 <= j < entries.len() ==> (#[trigger] entries[j]).0 != key,
    ensures
        json::entry(entries, key) is None,
    decreases entries.len(),
{
    if entries.len() > 0 {
        let rest = entries.drop_first();
        assert(entries[0].0 != key);
        assert forall|j: int| 0 <= j < rest.len() implies (#[trigger] rest[j]).0 != key by {
            assert(rest[j] == entries[j + 1]);
        }
        lemma_entry_missing(rest, key);
    }
}

/// Looking a member up finds the value that stands at its key, and nothing
/// where the key does not stand.
pub proof fn law_members_are_found(t: json::JsonTree, key: Seq<char>, value: json::JsonTree)
    ensures
        has(t, key, value) ==> t.member(key) == Some(value),
        lacks(t, key) ==> t.member(key) is None,
{
    if has(t, key, value) {
        let i = choose|i: int|
            0 <= i < t->Object_0.len() && (#[trigger] t->Object_0[i]).0 == key && t->Object_0[i].1
                == value && forall|j: int| 0 <= j < i ==> (#[trigger] t->Object_0[j]).0 != key;
        lemma_entry_found(t->Object_0, i);
    }
    if lacks(t, key) && t is Object {
        lemma_entry_missing(t->Object_0, key);
    }
}

/// Only a string has a text, and it is the string itself; only a truth value
/// is one.
pub proof fn law_members_keep_their_kind(t: json::JsonTree, key: Seq<char>, s: Seq<char>, b: bool)
    ensures
        has(t, key, json::JsonTree::Str(s)) ==> json::member_text(t, key) == Some(s),
        has(t, key, json::JsonTree::Bool(b)) ==> json::member_bool(t, key) == Some(b),
        lacks(t, key) ==> json::member_text(t, key) is None && json::member_bool(t, key) is None,
        forall|v: json::JsonTree| #[trigger]
            has(t, key, v) ==> {
                &&& !(v is Str) ==> json::member_text(t, key) is None
                &&& !(v is Bool) ==> json::member_bool(t, key) is None
            },
{
    law_members_are_found(t, key, json::JsonTree::Str(s));
    law_members_are_found(t, key, json::JsonTree::Bool(b));
    assert forall|v: json::JsonTree| #[trigger] has(t, key, v) implies {
        &&& !(v is Str) ==> json::member_text(t, key) is None
        &&& !(v is Bool) ==> json::member_bool(t, key) is None
    } by {
        law_members_are_found(t, key, v);
    }
}

/// The id that a value stands for, if it can be one.
pub open spec fn is_id(v: json::JsonTree, key: acp::RpcKey) -> bool {
    match key {
        acp::RpcKey::Num(n) => v == json::JsonTree::Number(Some(n)),
        acp::RpcKey::Str(s) => v == json::JsonTree::Str(s),
    }
}

/// The id of a message is its member `id`, where that is an integer or a
/// string; otherwise it has none.
pub proof fn law_id_is_read(t: json::JsonTree, v: json::JsonTree, key: acp::RpcKey)
    ensures
        has(t, "id"@, v) && is_id(v, key) ==> acp::inspected(t).id == Some(key),
        has(t, "id"@, v) && (v is Null || v is Bool || v is Array || v is Object || v
            == json::JsonTree::Number(None)) ==> acp::inspected(t).id is None,
        lacks(t, "id"@) ==> acp::inspected(t).id is None,
{
    law_members_are_found(t, "id"@, v);
}

/// A message is a prompt if its method is `session/prompt`, and has a method
/// if that member is there at all.
pub proof fn law_method_is_read(t: json::JsonTree, v: json::JsonTree)
    ensures
        has(t, "method"@, v) ==> {
            &&& acp::inspected(t).has_method
            &&& acp::inspected(t).is_prompt_request == (v == json::JsonTree::Str(
                "session/prompt"@,
            ))
        },
        lacks(t, "method"@) ==> !acp::inspected(t).has_method && !acp::inspected(
            t,
        ).is_prompt_request,
{
    law_members_are_found(t, "method"@, v);
}

/// The stop reason is whatever text `result.stopReason` holds.
pub proof fn law_any_stop_reason_is_read(t: json::JsonTree, r: json::JsonTree, x: Seq<char>)
    requires
        has(t, "result"@, r),
        has(r, "stopReason"@, json::JsonTree::Str(x)),
    ensures
        acp::inspected(t).stop_reason == Some(x),
{
    law_members_are_found(t, "result"@, r);
    law_members_are_found(r, "stopReason"@, json::JsonTree::Str(x));
}

/// There is no stop reason without a text at `result.stopReason`.
pub proof fn law_no_stop_reason_is_invented(
    t: json::JsonTree,
    r: json::JsonTree,
    v: json::JsonTree,
)
    requires
        ({
            ||| lacks(t, "result"@)
            ||| has(t, "result"@, r) && lacks(r, "stopReason"@)
            ||| has(t, "result"@, r) && has(r, "stopReason"@, v) && !(v is Str)
        }),
    ensures
        acp::inspected(t).stop_reason is None,
{
    law_members_are_found(t, "result"@, r);
    law_members_are_found(r, "stopReason"@, v);
}

/// Two messages that differ in what their stop reason says, and in nothing
/// else that is read, both have a stop reason.
pub proof fn law_stop_reasons_are_alike(
    t: json::JsonTree,
    u: json::JsonTree,
    r: json::JsonTree,
    s: json::JsonTree,
    x: Seq<char>,
    y: Seq<char>,
)
    requires
        has(t, "result"@, r),
        has(r, "stopReason"@, json::JsonTree::Str(x)),
        has(u, "result"@, s),
        has(s, "stopReason"@, json::JsonTree::Str(y)),
    ensures
        acp::inspected(t).stop_reason is Some,
        acp::inspected(u).stop_reason is Some,
{
    law_any_stop_reason_is_read(t, r, x);
    law_any_stop_reason_is_read(u, s, y);
}

/// The session of a message is the text at `params.sessionId`.
pub proof fn law_session_is_read_from_params(
    t: json::JsonTree,
    p: json::JsonTree,
    v: json::JsonTree,
    s: Seq<char>,
)
    requires
        has(t, "params"@, p),
        has(p, "sessionId"@, v),
    ensures
        v == json::JsonTree::Str(s) ==> acp::inspected(t).session_id == Some(s),
        !(v is Str) ==> acp::inspected(t).session_id is None,
{
    law_members_are_found(t, "params"@, p);
    law_members_are_found(p, "sessionId"@, v);
}

/// Where `params` has no `sessionId`, the session is the text at
/// `result.sessionId`, if there is one.
pub proof fn law_session_is_read_from_result(
    t: json::JsonTree,
    p: json::JsonTree,
    r: json::JsonTree,
    v: json::JsonTree,
    s: Seq<char>,
)
    requires
        lacks(t, "params"@) || (has(t, "params"@, p) && lacks(p, "sessionId"@)),
    ensures
        has(t, "result"@, r) && has(r, "sessionId"@, v) ==> {
            &&& v == json::JsonTree::Str(s) ==> acp::inspected(t).session_id == Some(s)
            &&& !(v is Str) ==> acp::inspected(t).session_id is None
        },
        lacks(t, "result"@) ==> acp::inspected(t).session_id is None,
        has(t, "result"@, r) && lacks(r, "sessionId"@) ==> acp::inspected(t).session_id is None,
{
    law_members_are_found(t, "params"@, p);
    law_members_are_found(p, "sessionId"@, v);
    law_members_are_found(t, "result"@, r);
    law_members_are_found(r, "sessionId"@, v);
}

/// What is no object teaches nothing.
pub proof fn law_only_objects_teach(t: json::JsonTree)
    requires
        !(t is Object),
    ensures
        acp::inspected(t).session_id is None,
        acp::inspected(t).id is None,
        !acp::inspected(t).is_prompt_request,
        !acp::inspected(t).has_method,
        acp::inspected(t).stop_reason is None,
{
}

/// The inspection of a frame is that of the document its bytes spell out, and
/// bytes that spell out none teach nothing.
pub proof fn law_frames_are_read_as_documents(frame: Seq<u8>)
    requires
        frame.len() == 0 || frame.last() != NEWLINE,
    ensures
        forall|t: json::JsonTree| #[trigger]
            json::document(frame) == Some(t) ==> acp::inspection(frame) == acp::inspected(t)
                && acp::inspection(frame.push(NEWLINE)) == acp::inspected(t),
        json::document(frame) is None ==> {
            &&& acp::inspection(frame).session_id is None
            &&& acp::inspection(frame).id is None
            &&& !acp::inspection(frame).is_prompt_request
            &&& !acp::inspection(frame).has_method
            &&& acp::inspection(frame).stop_reason is None
        },
{
    acp::law_newline_makes_no_difference(frame);
}

/// Any stop reason closes the turn: the response with the id of an open prompt
/// and a text at `result.stopReason`, whatever it says, leaves that prompt
/// closed and every other as it was.
pub proof fn law_any_stop_reason_closes_the_turn(
    m: relay::RelayModel,
    t: json::JsonTree,
    v: json::JsonTree,
    id: acp::RpcKey,
    r: json::JsonTree,
    x: Seq<char>,
    frame: Seq<u8>,
    now: u64,
)
    requires
        has(t, "id"@, v),
        is_id(v, id),
        has(t, "result"@, r),
        has(r, "stopReason"@, json::JsonTree::Str(x)),
        m.turns.contains_key(id),
    ensures
        ({
            let flow = relay::routed(m, acp::inspected(t), frame, now);
            &&& flow.closed
            &&& !flow.relay.turns.contains_key(id)
            &&& forall|other: acp::RpcKey|
                other != id && m.turns.contains_key(other) ==> flow.relay.turns.contains_key(other)
                    && #[trigger] flow.relay.turns[other] == m.turns[other]
        }),
{
    law_id_is_read(t, v, id);
    law_any_stop_reason_is_read(t, r, x);
}

/// A message that is read as a prompt opens the turn of its id, in the session
/// that it names at `params.sessionId`.
pub proof fn law_prompt_message_opens_its_turn(
    m: relay::RelayModel,
    t: json::JsonTree,
    v: json::JsonTree,
    id: acp::RpcKey,
    p: json::JsonTree,
    s: Seq<char>,
)
    requires
        has(t, "id"@, v),
        is_id(v, id),
        has(t, "method"@, json::JsonTree::Str("session/prompt"@)),
        has(t, "params"@, p),
        has(p, "sessionId"@, json::JsonTree::Str(s)),
    ensures
        relay::admitted(m, acp::inspected(t)).turns.contains_key(id),
        relay::admitted(m, acp::inspected(t)).turns[id] == s,
{
    law_id_is_read(t, v, id);
    law_method_is_read(t, json::JsonTree::Str("session/prompt"@));
    law_session_is_read_from_params(t, p, json::JsonTree::Str(s), s);
}

/// A message of the agent with a method and an id is a request that the client
/// owes an answer to, and the client's message with that id and no method is
/// the answer.
pub proof fn law_requests_are_answered_by_id(
    m: relay::RelayModel,
    t: json::JsonTree,
    u: json::JsonTree,
    v: json::JsonTree,
    w: json::JsonTree,
    id: acp::RpcKey,
    frame: Seq<u8>,
    now: u64,
)
    requires
        has(t, "id"@, v),
        is_id(v, id),
        has(t, "method"@, w),
        has(u, "id"@, v),
        lacks(u, "method"@),
    ensures
        ({
            let open = relay::routed(m, acp::inspected(t), frame, now).relay;
            &&& open.callbacks.contains_key(id)
            &&& open.callbacks[id].1 == now
            &&& !relay::admitted(open, acp::inspected(u)).callbacks.contains_key(id)
        }),
{
    law_id_is_read(t, v, id);
    law_id_is_read(u, v, id);
    law_method_is_read(t, w);
    law_method_is_read(u, w);
}

} // verus!
