//! Semantics-blind inspection of ACP frames.
//!
//! A frame is one newline-delimited JSON-RPC message. The relay forwards the
//! bytes of every frame as they came; this module only looks at them, and
//! extracts no more than routing and turn bracketing need.

use crate::json;
use crate::json::Json;
use crate::text;
use crate::text::same_text;
use vstd::prelude::*;
use vstd::slice::{slice_subrange, slice_to_vec};

verus! {

/// A JSON-RPC id as a mathematical value.
pub enum RpcKey {
    Num(i64),
    Str(Seq<char>),
}

/// A JSON-RPC id: a number or a string.
#[derive(Debug, PartialEq, Eq, Hash)]
pub enum RpcId {
    Num(i64),
    Str(String),
}

impl View for RpcId {
    type V = RpcKey;

    open spec fn view(&self) -> RpcKey {
        match self {
            RpcId::Num(n) => RpcKey::Num(*n),
            RpcId::Str(s) => RpcKey::Str(s@),
        }
    }
}

impl Clone for RpcId {
    fn clone(&self) -> (r: Self)
        ensures
            r == *self,
    {
        match self {
            RpcId::Num(n) => RpcId::Num(*n),
            RpcId::Str(s) => RpcId::Str(s.clone()),
        }
    }
}

/// The id that a JSON value stands for: an integer that fits, or a string.
pub open spec fn rpc_key(t: json::JsonTree) -> Option<RpcKey> {
    match t {
        json::JsonTree::Number(Some(n)) => Some(RpcKey::Num(n)),
        json::JsonTree::Str(s) => Some(RpcKey::Str(s)),
        _ => None,
    }
}

impl RpcId {
    /// Reads an id off a JSON value.
    pub fn from_value(v: &Json) -> (r: Option<RpcId>)
        ensures
            match r {
                Some(id) => rpc_key(v.tree()) == Some(id@),
                None => rpc_key(v.tree()) is None,
            },
    {
        match v {
            Json::Number(Some(n)) => Some(RpcId::Num(*n)),
            Json::Str(s) => Some(RpcId::Str(s.clone())),
            _ => None,
        }
    }

    /// Whether two ids are the same.
    pub fn same(&self, other: &RpcId) -> (r: bool)
        ensures
            r == (self@ == other@),
    {
        match (self, other) {
            (RpcId::Num(a), RpcId::Num(b)) => *a == *b,
            (RpcId::Str(a), RpcId::Str(b)) => same_text(a.as_str(), b.as_str()),
            _ => false,
        }
    }
}

/// What one frame tells the relay, as mathematical values.
pub struct FrameModel {
    pub session_id: Option<Seq<char>>,
    pub id: Option<RpcKey>,
    pub is_prompt_request: bool,
    pub has_method: bool,
    pub stop_reason: Option<Seq<char>>,
}

/// What one inspected frame tells the relay. A frame that cannot be read
/// teaches nothing and is relayed all the same.
#[derive(Debug, Clone)]
pub struct FrameInfo {
    /// The session the frame is routed by (`params.sessionId` or
    /// `result.sessionId`).
    pub session_id: Option<String>,
    /// The JSON-RPC id, if the frame carries one.
    pub id: Option<RpcId>,
    /// Whether the frame is a `session/prompt` request, which opens a turn.
    pub is_prompt_request: bool,
    /// Whether the frame has a `method`: a request or notification has one, a
    /// response has none.
    pub has_method: bool,
    /// The `result.stopReason` of a response, which closes a turn.
    pub stop_reason: Option<String>,
}

impl View for FrameInfo {
    type V = FrameModel;

    open spec fn view(&self) -> FrameModel {
        FrameModel {
            session_id: text::opt_text(self.session_id),
            id: match self.id {
                Some(id) => Some(id@),
                None => None,
            },
            is_prompt_request: self.is_prompt_request,
            has_method: self.has_method,
            stop_reason: text::opt_text(self.stop_reason),
        }
    }
}

/// The inspection of a frame that teaches nothing.
pub open spec fn blank_frame() -> FrameModel {
    FrameModel {
        session_id: None,
        id: None,
        is_prompt_request: false,
        has_method: false,
        stop_reason: None,
    }
}

impl Default for FrameInfo {
    fn default() -> (r: FrameInfo)
        ensures
            r@ == blank_frame(),
    {
        FrameInfo {
            session_id: None,
            id: None,
            is_prompt_request: false,
            has_method: false,
            stop_reason: None,
        }
    }
}

/// `outer.inner` of a document, where both are there.
pub open spec fn nested(t: json::JsonTree, outer: Seq<char>, inner: Seq<char>) -> Option<
    json::JsonTree,
> {
    match t.member(outer) {
        Some(m) => m.member(inner),
        None => None,
    }
}

/// The session id of a message: `params.sessionId` where that is there,
/// `result.sessionId` otherwise, if it is a string.
pub open spec fn session_of(t: json::JsonTree) -> Option<Seq<char>> {
    match nested(t, "params"@, "sessionId"@) {
        Some(s) => s.text(),
        None => match nested(t, "result"@, "sessionId"@) {
            Some(s) => s.text(),
            None => None,
        },
    }
}

/// What a JSON document tells the relay.
pub open spec fn inspected(t: json::JsonTree) -> FrameModel {
    if t is Object {
        FrameModel {
            session_id: session_of(t),
            id: match t.member("id"@) {
                Some(id) => rpc_key(id),
                None => None,
            },
            is_prompt_request: json::member_text(t, "method"@) == Some("session/prompt"@),
            has_method: t.member("method"@) is Some,
            stop_reason: match nested(t, "result"@, "stopReason"@) {
                Some(s) => s.text(),
                None => None,
            },
        }
    } else {
        blank_frame()
    }
}

/// A frame without the newlines at its end.
pub open spec fn bare(frame: Seq<u8>) -> Seq<u8>
    decreases frame.len(),
{
    if frame.len() > 0 && frame.last() == NEWLINE {
        bare(frame.drop_last())
    } else {
        frame
    }
}

/// What the bytes of a frame tell the relay, whatever newlines end it.
pub open spec fn inspection(frame: Seq<u8>) -> FrameModel {
    match json::document(bare(frame)) {
        Some(t) => inspected(t),
        None => blank_frame(),
    }
}

fn text_at(v: Option<&Json>) -> (r: Option<String>)
    ensures
        text::opt_text(r) == (match v {
            Some(j) => j.tree().text(),
            None => None,
        }),
{
    match v {
        Some(j) => match j.as_str() {
            Some(s) => Some(s.clone()),
            None => None,
        },
        None => None,
    }
}

fn nested_member<'a>(v: &'a Json, outer: &str, inner: &str) -> (r: Option<&'a Json>)
    ensures
        match r {
            Some(j) => nested(v.tree(), outer@, inner@) == Some(j.tree()),
            None => nested(v.tree(), outer@, inner@) is None,
        },
{
    match v.get(outer) {
        Some(m) => m.get(inner),
        None => None,
    }
}

/// Inspects a parsed message.
pub fn inspect_document(v: &Json) -> (r: FrameInfo)
    ensures
        r@ == inspected(v.tree()),
{
    if !v.is_object() {
        return FrameInfo::default();
    }
    let id: Option<RpcId> = match v.get("id") {
        Some(id) => RpcId::from_value(id),
        None => None,
    };
    let session_id: Option<String> = match nested_member(v, "params", "sessionId") {
        Some(s) => text_at(Some(s)),
        None => text_at(nested_member(v, "result", "sessionId")),
    };
    let is_prompt_request: bool = match v.get_text("method") {
        Some(m) => same_text(m.as_str(), "session/prompt"),
        None => false,
    };
    let has_method: bool = v.get("method").is_some();
    let stop_reason: Option<String> = text_at(nested_member(v, "result", "stopReason"));
    FrameInfo { session_id, id, is_prompt_request, has_method, stop_reason }
}

/// Inspects the raw bytes of one frame, with or without its trailing newline.
pub fn inspect(frame: &[u8]) -> (r: FrameInfo)
    ensures
        r@ == inspection(frame@),
{
    let mut k: usize = frame.len();
    assert(frame@.take(k as int) =~= frame@);
    while k > 0 && frame[k - 1] == NEWLINE
        invariant
            k <= frame@.len(),
            bare(frame@.take(k as int)) == bare(frame@),
        decreases k,
    {
        assert(frame@.take(k as int).drop_last() =~= frame@.take(k - 1));
        k = k - 1;
    }
    assert(frame@.subrange(0, k as int) =~= frame@.take(k as int));
    match Json::parse(slice_subrange(frame, 0, k)) {
        Some(v) => inspect_document(&v),
        None => FrameInfo::default(),
    }
}

/// A frame may come with or without its trailing newline: the inspection is
/// the same.
pub proof fn law_newline_makes_no_difference(frame: Seq<u8>)
    ensures
        inspection(frame.push(NEWLINE)) == inspection(frame),
{
    assert(frame.push(NEWLINE).drop_last() =~= frame);
}

/// The byte that ends a frame.
pub const NEWLINE: u8 = 10;

/// A byte stream cut into its complete frames and the partial frame after them.
pub struct Framed {
    pub frames: Seq<Seq<u8>>,
    pub partial: Seq<u8>,
}

/// Cuts a stream after every newline.
pub open spec fn framed(s: Seq<u8>) -> Framed
    decreases s.len(),
{
    if s.len() == 0 {
        Framed { frames: Seq::empty(), partial: Seq::empty() }
    } else {
        let before = framed(s.drop_last());
        if s.last() == NEWLINE {
            Framed {
                frames: before.frames.push(before.partial.push(s.last())),
                partial: Seq::empty(),
            }
        } else {
            Framed { frames: before.frames, partial: before.partial.push(s.last()) }
        }
    }
}

/// The bytes of several slices.
pub open spec fn slices(v: Seq<&[u8]>) -> Seq<Seq<u8>> {
    Seq::new(v.len(), |i: int| v[i]@)
}

/// Splits a buffer into its complete frames, each with its newline, and tells
/// how many bytes they take up. A trailing partial frame is left for the next
/// read.
pub fn split_frames(buf: &[u8]) -> (r: (Vec<&[u8]>, usize))
    ensures
        slices(r.0@) == framed(buf@).frames,
        r.1 <= buf@.len(),
        buf@.skip(r.1 as int) == framed(buf@).partial,
{
    let mut frames: Vec<&[u8]> = Vec::new();
    let mut start: usize = 0;
    let mut i: usize = 0;
    assert(slices(frames@) =~= framed(buf@.take(0)).frames);
    assert(buf@.subrange(0, 0) =~= framed(buf@.take(0)).partial);
    while i < buf.len()
        invariant
            start <= i <= buf@.len(),
            slices(frames@) == framed(buf@.take(i as int)).frames,
            buf@.subrange(start as int, i as int) == framed(buf@.take(i as int)).partial,
        decreases buf@.len() - i,
    {
        let b: u8 = buf[i];
        proof {
            let next = buf@.take(i + 1);
            assert(next.drop_last() =~= buf@.take(i as int));
            assert(next.last() == b);
            assert(buf@.subrange(start as int, i + 1) =~= buf@.subrange(
                start as int,
                i as int,
            ).push(b));
        }
        if b == NEWLINE {
            let ghost before = frames@;
            frames.push(slice_subrange(buf, start, i + 1));
            start = i + 1;
            assert(slices(frames@) =~= slices(before).push(frames@.last()@));
            assert(buf@.subrange(start as int, i + 1) =~= Seq::<u8>::empty());
        }
        i = i + 1;
    }
    assert(buf@.take(i as int) =~= buf@);
    assert(buf@.skip(start as int) =~= buf@.subrange(start as int, i as int));
    (frames, start)
}

/// The bytes of several frames, one after the other.
pub open spec fn flat(frames: Seq<Seq<u8>>) -> Seq<u8>
    decreases frames.len(),
{
    if frames.len() == 0 {
        Seq::empty()
    } else {
        flat(frames.drop_last()) + frames.last()
    }
}

/// Framing is byte-faithful: the frames and the partial frame after them, put
/// together, are the stream.
pub proof fn law_framing_lossless(s: Seq<u8>)
    ensures
        flat(framed(s).frames) + framed(s).partial == s,
    decreases s.len(),
{
    if s.len() > 0 {
        let before = framed(s.drop_last());
        law_framing_lossless(s.drop_last());
        if s.last() == NEWLINE {
            let f = before.partial.push(s.last());
            assert(before.frames.push(f).drop_last() =~= before.frames);
        }
        assert(s =~= s.drop_last().push(s.last()));
        assert(flat(framed(s).frames) + framed(s).partial =~= s);
    } else {
        assert(flat(framed(s).frames) + framed(s).partial =~= s);
    }
}

/// No newline occurs.
pub open spec fn newline_free(s: Seq<u8>) -> bool {
    forall|i: int| 0 <= i < s.len() ==> s[i] != NEWLINE
}

/// A complete frame: one newline, at its end.
pub open spec fn is_frame(f: Seq<u8>) -> bool {
    f.len() > 0 && f.last() == NEWLINE && newline_free(f.drop_last())
}

/// Every frame cut out of a stream is one complete line, and what is left over
/// holds no newline.
pub proof fn law_frame_shape(s: Seq<u8>)
    ensures
        forall|i: int| 0 <= i < framed(s).frames.len() ==> is_frame(#[trigger] framed(s).frames[i]),
        newline_free(framed(s).partial),
    decreases s.len(),
{
    if s.len() > 0 {
        law_frame_shape(s.drop_last());
        let before = framed(s.drop_last());
        assert(before.partial.push(s.last()).drop_last() =~= before.partial);
    }
}

/// Framing does not depend on how a stream is cut into reads: carrying the
/// partial frame over to the next read gives the frames of the whole stream.
pub proof fn law_chunking(a: Seq<u8>, b: Seq<u8>)
    ensures
        framed(a + b).frames == framed(a).frames + framed(framed(a).partial + b).frames,
        framed(a + b).partial == framed(framed(a).partial + b).partial,
    decreases b.len(),
{
    let p = framed(a).partial;
    if b.len() == 0 {
        assert(a + b =~= a);
        assert(p + b =~= p);
        law_frame_shape(a);
        lemma_framed_partial(p);
        assert(framed(a).frames + Seq::<Seq<u8>>::empty() =~= framed(a).frames);
    } else {
        law_chunking(a, b.drop_last());
        assert((a + b).drop_last() =~= a + b.drop_last());
        assert((p + b).drop_last() =~= p + b.drop_last());
        assert(framed(a + b).frames =~= framed(a).frames + framed(p + b).frames);
    }
}

proof fn lemma_framed_partial(p: Seq<u8>)
    requires
        newline_free(p),
    ensures
        framed(p) == (Framed { frames: Seq::empty(), partial: p }),
    decreases p.len(),
{
    if p.len() > 0 {
        lemma_framed_partial(p.drop_last());
        assert(p.drop_last().push(p.last()) =~= p);
    } else {
        assert(p =~= Seq::empty());
    }
}

/// The bytes of several owned frames.
pub open spec fn frame_bytes(v: Seq<Vec<u8>>) -> Seq<Seq<u8>> {
    Seq::new(v.len(), |i: int| v[i]@)
}

/// Appends what was read to a buffer and takes the complete frames out of it.
/// The partial frame after them stays for the next read.
pub fn take_frames(buf: &mut Vec<u8>, chunk: &[u8]) -> (r: Vec<Vec<u8>>)
    ensures
        frame_bytes(r@) == framed(old(buf)@ + chunk@).frames,
        final(buf)@ == framed(old(buf)@ + chunk@).partial,
{
    buf.extend_from_slice(chunk);
    let ghost stream = old(buf)@ + chunk@;
    assert(buf@ =~= stream);
    let mut out: Vec<Vec<u8>> = Vec::new();
    let (frames, consumed) = split_frames(buf.as_slice());
    let mut i: usize = 0;
    while i < frames.len()
        invariant
            i <= frames@.len(),
            out@.len() == i,
            forall|j: int| 0 <= j < i ==> (#[trigger] out@[j])@ == frames@[j]@,
        decreases frames@.len() - i,
    {
        out.push(slice_to_vec(frames[i]));
        i = i + 1;
    }
    let rest: Vec<u8> = slice_to_vec(slice_subrange(buf.as_slice(), consumed, buf.len()));
    proof {
        assert(frame_bytes(out@) =~= slices(frames@));
        assert(rest@ =~= stream.skip(consumed as int));
    }
    *buf = rest;
    out
}

} // verus!
