//! The handshake state machine: each inbound command, or each outcome of
//! outside work, is turned into changes of the stores and a list of
//! actions for the caller to perform (messages, status lines, handles to
//! release, endpoints to bring up).
use crate::context::{ContextForward, ContextView, ForwardContextMap, ForwardType};
use crate::info::{confirmed, stored, HdcForwardInfoMap};
use crate::context::fresh_context;
use crate::protocol::{
    build_check_body, check_body, filter_command, frame, frame_payload, framed, get_cid, payload_body,
    MAX_SIZE_IOBUF,
    request_target, requested_target, text_bytes, text_of, HdcCommand, TaskMessage,
};
use crate::protocol::cid_of;
use crate::rule::{
    node_ok,
    check_node_info, detech_forward_type, forward_parse_cmd, parse_rule, resolved_target,
    scheme_type,
};
use crate::text::{decimal, is_u32_text, parse_u32, split_on, u32_to_text};
use vstd::utf8::{decode_utf8, encode_utf8, valid_utf8};
use crate::task::{session_channels, ForwardTaskMap, ForwardView};
use vstd::prelude::*;
use vstd::string::*;

verus! {

/// Level of a status line shown to the client.
#[derive(Clone, Copy, Debug, PartialEq, Eq, Structural)]
pub enum MessageLevel {
    Success,
    Fail,
}

/// Work that the caller performs for the state machine.
#[derive(Clone, Debug)]
pub enum ForwardAction {
    /// Hand a message to the session transport.
    Put { session_id: u32, message: TaskMessage },
    /// Show a status line to the client of a channel.
    Echo { session_id: u32, channel_id: u32, text: String, level: MessageLevel },
    /// Release a channel once all work for it is done.
    TaskFinish { session_id: u32, channel_id: u32 },
    /// Shut down and drop the registered writer of a stream.
    EndWriter(u32),
    /// Cancel the accept loop registered for a rule (session, channel).
    EndListener(u32, u32),
    /// Close a descriptor.
    CloseFd(i32),
    /// Close a Unix-domain socket descriptor.
    CloseSocket(i32),
    /// Bring up the local endpoint of a stream.
    Setup(ContextForward),
    /// Start relaying what the local endpoint of a stream reads.
    StartRead(ContextForward),
    /// Write bytes to the local endpoint of a stream.
    Write { context: ContextForward, data: Vec<u8> },
    /// Close the client link of a channel whose rule was confirmed.
    EndChannel(u32),
}

/// What a `ForwardAction` holds, with strings and bytes as sequences.
pub enum ActionView {
    Put { session_id: u32, channel_id: u32, command: HdcCommand, payload: Seq<u8> },
    Echo { session_id: u32, channel_id: u32, text: Seq<char>, level: MessageLevel },
    TaskFinish { session_id: u32, channel_id: u32 },
    EndWriter(u32),
    EndListener(u32, u32),
    CloseFd(i32),
    CloseSocket(i32),
    Setup(ContextView),
    StartRead(ContextView),
    Write { context: ContextView, data: Seq<u8> },
    EndChannel(u32),
}

impl View for ForwardAction {
    type V = ActionView;

    open spec fn view(&self) -> ActionView {
        match self {
            ForwardAction::Put { session_id, message } => ActionView::Put {
                session_id: *session_id,
                channel_id: message.channel_id,
                command: message.command,
                payload: message.payload@,
            },
            ForwardAction::Echo { session_id, channel_id, text, level } => ActionView::Echo {
                session_id: *session_id,
                channel_id: *channel_id,
                text: text@,
                level: *level,
            },
            ForwardAction::TaskFinish { session_id, channel_id } => ActionView::TaskFinish {
                session_id: *session_id,
                channel_id: *channel_id,
            },
            ForwardAction::EndWriter(id) => ActionView::EndWriter(*id),
            ForwardAction::EndListener(s, c) => ActionView::EndListener(*s, *c),
            ForwardAction::CloseFd(fd) => ActionView::CloseFd(*fd),
            ForwardAction::CloseSocket(fd) => ActionView::CloseSocket(*fd),
            ForwardAction::Setup(c) => ActionView::Setup(c@),
            ForwardAction::StartRead(c) => ActionView::StartRead(c@),
            ForwardAction::Write { context, data } => ActionView::Write {
                context: context@,
                data: data@,
            },
            ForwardAction::EndChannel(id) => ActionView::EndChannel(*id),
        }
    }
}

/// The actions of a list, as views.
pub open spec fn actions_view(v: Seq<ForwardAction>) -> Seq<ActionView> {
    Seq::new(v.len(), |i: int| v[i]@)
}

/// A message of stream `cid` for the peer.
pub open spec fn put_view(c: ContextView, command: HdcCommand, data: Seq<u8>) -> ActionView {
    ActionView::Put {
        session_id: c.session_id,
        channel_id: c.channel_id,
        command,
        payload: framed(c.id, data),
    }
}

/// `CloseFd(fd)` for an open descriptor, nothing for `-1`.
pub open spec fn close_if_open(fd: i32) -> Seq<ActionView> {
    if fd >= 0 {
        seq![ActionView::CloseFd(fd)]
    } else {
        Seq::empty()
    }
}

/// The handles that a stream owns, to release when it is freed. A probe
/// owns none.
pub open spec fn release_actions(c: ContextView) -> Seq<ActionView> {
    if c.check_order {
        Seq::empty()
    } else {
        match c.forward_type {
            ForwardType::Tcp => seq![ActionView::EndWriter(c.id)],
            ForwardType::Jdwp | ForwardType::Ark => seq![ActionView::EndWriter(c.id)]
                + close_if_open(c.fd) + close_if_open(c.target_fd),
            ForwardType::Abstract | ForwardType::FileSystem | ForwardType::Reserved => if c.fd
                >= 0 {
                seq![ActionView::CloseSocket(c.fd)]
            } else {
                Seq::empty()
            },
            ForwardType::Device => Seq::empty(),
        }
    }
}

/// What freeing stream `cid` of the store `m` does: a `FreeContext`
/// message first when the peer is to be told, then the releases. Nothing
/// for an id that is not live.
pub open spec fn free_actions(m: Map<u32, ContextView>, cid: u32, notify_remote: bool) -> Seq<
    ActionView,
> {
    if !m.contains_key(cid) {
        Seq::empty()
    } else {
        let c = m[cid];
        (if notify_remote {
            seq![put_view(c, HdcCommand::ForwardFreeContext, Seq::empty())]
        } else {
            Seq::empty()
        }) + release_actions(c)
    }
}

/// The rules of `m` that do not belong to session `session_id`.
pub open spec fn without_session(m: Map<(u32, u32), ForwardView>, session_id: u32) -> Map<
    (u32, u32),
    ForwardView,
> {
    Map::new(|k: (u32, u32)| m.contains_key(k) && k.0 != session_id, |k: (u32, u32)| m[k])
}

/// Whether stream `cid` of `m` is live and belongs to (`session_id`,
/// `channel_id`).
pub open spec fn owned_by(m: Map<u32, ContextView>, cid: u32, session_id: u32, channel_id: u32) -> bool {
    m.contains_key(cid) && m[cid].session_id == session_id && m[cid].channel_id == channel_id
}

/// Whether a rule whose last stream is of kind `t` has an accept loop to
/// cancel.
pub open spec fn has_listener(t: ForwardType) -> bool {
    t == ForwardType::Tcp || t == ForwardType::Jdwp || t == ForwardType::Ark
}

/// The status line that reports why a rule failed.
pub open spec fn error_text(last_error: Seq<char>) -> Seq<char> {
    if last_error.len() == 0 {
        "Forward parament failed"@
    } else {
        last_error
    }
}

/// `m` with `c` recorded as the latest stream of its rule, if the rule
/// exists.
pub open spec fn with_last(m: Map<(u32, u32), ForwardView>, c: ContextView) -> Map<
    (u32, u32),
    ForwardView,
> {
    let k = (c.session_id, c.channel_id);
    if m.contains_key(k) {
        m.insert(k, ForwardView { context_forward: c, ..m[k] })
    } else {
        m
    }
}

/// What `setup_point` makes of a record: whether its endpoint can be
/// brought up here, and the record afterwards, with its kind classified.
pub open spec fn setup_outcome(c: ContextView, host: bool, tcp_only: bool) -> (bool, ContextView) {
    if !(c.local_args.len() >= 2 && scheme_type(c.local_args[0]) is Some) {
        (false, c)
    } else {
        let t = scheme_type(c.local_args[0])->0;
        let d = ContextView {
            forward_type: t,
            local_args: c.local_args.update(1, resolved_target(t, c.local_args[1])),
            ..c
        };
        if tcp_only && t != ForwardType::Tcp {
            (false, ContextView { last_error: "Not support forward-type"@, ..d })
        } else if host && (t == ForwardType::Jdwp || t == ForwardType::Ark) {
            (false, d)
        } else if t == ForwardType::Tcp && !is_u32_text(d.local_args[1]) {
            (false, d)
        } else {
            (true, d)
        }
    }
}

/// Whether the kind was recognised, so that `setup_point` stored the record.
pub open spec fn setup_classified(c: ContextView) -> bool {
    c.local_args.len() >= 2 && scheme_type(c.local_args[0]) is Some
}

/// The text that confirms a rule to the client side: direction tag, rule
/// text, closing zero.
pub open spec fn success_text(c: ContextView, server_or_daemon: bool) -> Seq<u8> {
    encode_utf8((if server_or_daemon {
        "1|"@
    } else {
        "0|"@
    }) + c.task_command) + seq![0u8]
}

/// Kinds whose read loop starts when the peer confirms its endpoint.
pub open spec fn reads_on_active_master(t: ForwardType) -> bool {
    t == ForwardType::Abstract || t == ForwardType::FileSystem || t == ForwardType::Reserved
        || t == ForwardType::Device
}

/// The record a `Check` or `ActiveSlave` request creates.
pub open spec fn slave_record(
    session_id: u32,
    channel_id: u32,
    id: u32,
    check_order: bool,
    target: Seq<char>,
) -> ContextView {
    ContextView {
        check_order,
        task_command: target,
        local_args: split_on(target, ':'),
        ..fresh_context(session_id, channel_id, false, id)
    }
}

/// Whether a `Check` or `ActiveSlave` payload is well formed: a stream id,
/// then UTF-8 text of at least eight characters.
pub open spec fn request_ok(payload: Seq<u8>) -> bool {
    payload.len() >= 4 && valid_utf8(payload.subrange(4, payload.len() as int)) && decode_utf8(
        payload.subrange(4, payload.len() as int),
    ).len() >= 8
}

/// The endpoint spec that a well-formed request carries.
pub open spec fn request_spec(payload: Seq<u8>) -> Seq<char> {
    requested_target(decode_utf8(payload.subrange(4, payload.len() as int)))
}

/// Freeing a stream twice does nothing the second time, and the first time
/// releases only what the freed stream's own record holds: its writer,
/// its descriptors, and no listener.
pub proof fn lemma_free_twice(m: Map<u32, ContextView>, cid: u32, first: bool, second: bool)
    requires
        forall|k: u32| #[trigger] m.contains_key(k) ==> m[k].id == k,
    ensures
        m.remove(cid).remove(cid) == m.remove(cid),
        free_actions(m.remove(cid), cid, second) == Seq::<ActionView>::empty(),
        forall|i: int|
            0 <= i < free_actions(m, cid, first).len() ==> match #[trigger] free_actions(
                m,
                cid,
                first,
            )[i] {
                ActionView::EndWriter(id) => id == cid,
                ActionView::CloseFd(fd) => fd == m[cid].fd || fd == m[cid].target_fd,
                ActionView::CloseSocket(fd) => fd == m[cid].fd,
                ActionView::Put { command, payload, .. } => command == HdcCommand::ForwardFreeContext
                    && payload == framed(cid, Seq::empty()),
                _ => false,
            },
{
    assert(m.remove(cid).remove(cid) =~= m.remove(cid));
    assert(!m.remove(cid).contains_key(cid));
}

/// A probe owns nothing, so freeing it releases nothing.
pub proof fn lemma_probe_owns_nothing(c: ContextView)
    requires
        c.check_order,
    ensures
        release_actions(c) == Seq::<ActionView>::empty(),
{
}

/// Clearing a session leaves no rule of that session and every rule of
/// the other sessions as it was.
pub proof fn lemma_clear_session(m: Map<(u32, u32), ForwardView>, session_id: u32)
    ensures
        forall|k: (u32, u32)| #[trigger]
            without_session(m, session_id).contains_key(k) ==> k.0 != session_id,
        forall|k: (u32, u32)|
            m.contains_key(k) && k.0 != session_id ==> #[trigger] without_session(
                m,
                session_id,
            ).contains_key(k) && without_session(m, session_id)[k] == m[k],
{
}

/// What tearing down the rule of (`session_id`, `channel_id`) does to the
/// stream store `m`, given the rules `rules`: the store afterwards and the
/// actions.
pub open spec fn free_rule_step(
    m: Map<u32, ContextView>,
    rules: Map<(u32, u32), ForwardView>,
    session_id: u32,
    channel_id: u32,
) -> (Map<u32, ContextView>, Seq<ActionView>) {
    if !rules.contains_key((session_id, channel_id)) {
        (m, Seq::empty())
    } else {
        let last = rules[(session_id, channel_id)].context_forward;
        let live = owned_by(m, last.id, session_id, channel_id);
        (
            if live {
                m.remove(last.id)
            } else {
                m
            },
            (if live {
                free_actions(m, last.id, false)
            } else {
                Seq::empty()
            }) + (if has_listener(last.forward_type) {
                seq![ActionView::EndListener(session_id, channel_id)]
            } else {
                Seq::empty()
            }),
        )
    }
}

/// Tearing down the rules of `session_id` on the channels `chans`, one
/// after the other: the stream store afterwards and all the actions, in
/// order.
pub open spec fn stop_fold(
    m: Map<u32, ContextView>,
    rules: Map<(u32, u32), ForwardView>,
    session_id: u32,
    chans: Seq<u32>,
) -> (Map<u32, ContextView>, Seq<ActionView>)
    decreases chans.len(),
{
    if chans.len() == 0 {
        (m, Seq::empty())
    } else {
        let prev = stop_fold(m, rules, session_id, chans.drop_last());
        let step = free_rule_step(prev.0, rules, session_id, chans.last());
        (step.0, prev.1 + step.1)
    }
}

/// Tearing down a session's rules keeps, unchanged, every stream of another
/// session, and adds none.
pub proof fn lemma_stop_fold_keeps(
    m: Map<u32, ContextView>,
    rules: Map<(u32, u32), ForwardView>,
    session_id: u32,
    chans: Seq<u32>,
)
    ensures
        forall|id: u32| #[trigger]
            stop_fold(m, rules, session_id, chans).0.contains_key(id) ==> m.contains_key(id)
                && stop_fold(m, rules, session_id, chans).0[id] == m[id],
        forall|id: u32|
            m.contains_key(id) && m[id].session_id != session_id ==> #[trigger] stop_fold(
                m,
                rules,
                session_id,
                chans,
            ).0.contains_key(id),
    decreases chans.len(),
{
    if chans.len() > 0 {
        lemma_stop_fold_keeps(m, rules, session_id, chans.drop_last());
        let prev = stop_fold(m, rules, session_id, chans.drop_last());
        let c = chans.last();
        let f = stop_fold(m, rules, session_id, chans);
        assert(f.0 == free_rule_step(prev.0, rules, session_id, c).0);
        if rules.contains_key((session_id, c)) {
            let last = rules[(session_id, c)].context_forward;
            if owned_by(prev.0, last.id, session_id, c) {
                assert(f.0 == prev.0.remove(last.id));
                assert forall|id: u32| m.contains_key(id) && m[id].session_id != session_id implies #[trigger] f.0.contains_key(id) by {
                    assert(prev.0.contains_key(id));
                    assert(prev.0[id] == m[id]);
                }
            } else {
                assert(f.0 == prev.0);
            }
        } else {
            assert(f.0 == prev.0);
        }
    }
}

/// Whether action `a` only concerns session `session_id`: a listener of one
/// of its rules, or a handle of one of its streams in `m`.
pub open spec fn session_action(a: ActionView, m: Map<u32, ContextView>, session_id: u32) -> bool {
    match a {
        ActionView::EndListener(s, _) => s == session_id,
        ActionView::EndWriter(id) => m.contains_key(id) && m[id].session_id == session_id,
        ActionView::CloseFd(fd) => exists|id: u32|
            #[trigger] m.contains_key(id) && m[id].session_id == session_id && (fd == m[id].fd || fd
                == m[id].target_fd),
        ActionView::CloseSocket(fd) => exists|id: u32|
            #[trigger] m.contains_key(id) && m[id].session_id == session_id && fd == m[id].fd,
        _ => false,
    }
}

proof fn lemma_release_session(m: Map<u32, ContextView>, id: u32, session_id: u32)
    requires
        m.contains_key(id),
        m[id].id == id,
        m[id].session_id == session_id,
    ensures
        forall|i: int|
            0 <= i < release_actions(m[id]).len() ==> session_action(
                #[trigger] release_actions(m[id])[i],
                m,
                session_id,
            ),
{
    let c = m[id];
    assert(m.contains_key(id));
    if !c.check_order && (c.forward_type == ForwardType::Jdwp || c.forward_type == ForwardType::Ark) {
        assert forall|i: int| 0 <= i < release_actions(c).len() implies session_action(
            #[trigger] release_actions(c)[i],
            m,
            session_id,
        ) by {
            match release_actions(c)[i] {
                ActionView::CloseFd(fd) => {
                    assert(m.contains_key(id) && m[id].session_id == session_id && (fd == m[id].fd
                        || fd == m[id].target_fd));
                },
                _ => {},
            }
        }
    }
}

/// Tearing down the rules of a session releases only listeners and handles
/// of that session.
pub proof fn lemma_stop_fold_session(
    m: Map<u32, ContextView>,
    rules: Map<(u32, u32), ForwardView>,
    session_id: u32,
    chans: Seq<u32>,
)
    requires
        forall|k: u32| #[trigger] m.contains_key(k) ==> m[k].id == k,
    ensures
        forall|i: int|
            0 <= i < stop_fold(m, rules, session_id, chans).1.len() ==> session_action(
                #[trigger] stop_fold(m, rules, session_id, chans).1[i],
                m,
                session_id,
            ),
    decreases chans.len(),
{
    if chans.len() > 0 {
        lemma_stop_fold_session(m, rules, session_id, chans.drop_last());
        lemma_stop_fold_keeps(m, rules, session_id, chans.drop_last());
        let prev = stop_fold(m, rules, session_id, chans.drop_last());
        let c = chans.last();
        let step = free_rule_step(prev.0, rules, session_id, c);
        let f = stop_fold(m, rules, session_id, chans);
        assert(f.1 == prev.1 + step.1);
        if rules.contains_key((session_id, c)) {
            let last = rules[(session_id, c)].context_forward;
            if owned_by(prev.0, last.id, session_id, c) {
                assert(prev.0[last.id] == m[last.id]);
                lemma_release_session(m, last.id, session_id);
            }
        }
        assert forall|i: int| 0 <= i < f.1.len() implies session_action(
            #[trigger] f.1[i],
            m,
            session_id,
        ) by {
            if i < prev.1.len() {
                assert(f.1[i] == prev.1[i]);
            } else {
                assert(f.1[i] == step.1[i - prev.1.len()]);
            }
        }
    }
}

/// The rule and stream stores, and what kind of peer holds them.
pub struct Forwarder {
    pub contexts: ForwardContextMap,
    pub tasks: ForwardTaskMap,
    pub infos: HdcForwardInfoMap,
    /// Set on the host side, which serves clients: debug pipes cannot be
    /// served there, and confirmed rules are recorded there.
    pub host: bool,
    /// Set where only TCP endpoints can be served.
    pub tcp_only: bool,
}

fn put_action(c: &ContextForward, command: HdcCommand, data: &[u8]) -> (r: ForwardAction)
    ensures
        r@ == put_view(c@, command, data@),
{
    ForwardAction::Put {
        session_id: c.session_id,
        message: TaskMessage { channel_id: c.channel_id, command, payload: frame(c.id, data) },
    }
}

fn push_action(v: &mut Vec<ForwardAction>, a: ForwardAction)
    ensures
        actions_view(final(v)@) == actions_view(old(v)@).push(a@),
{
    let ghost a_view = a@;
    v.push(a);
    assert(actions_view(v@) =~= actions_view(old(v)@).push(a_view));
}

fn append_actions(v: &mut Vec<ForwardAction>, mut w: Vec<ForwardAction>)
    ensures
        actions_view(final(v)@) == actions_view(old(v)@) + actions_view(w@),
{
    let ghost wv = actions_view(w@);
    v.append(&mut w);
    assert(actions_view(v@) =~= actions_view(old(v)@) + wv);
}

fn release(c: &ContextForward) -> (r: Vec<ForwardAction>)
    ensures
        actions_view(r@) == release_actions(c@),
{
    let mut r: Vec<ForwardAction> = Vec::new();
    if c.check_order {
        assert(actions_view(r@) =~= release_actions(c@));
        return r;
    }
    match c.forward_type {
        ForwardType::Tcp => {
            push_action(&mut r, ForwardAction::EndWriter(c.id));
        },
        ForwardType::Jdwp | ForwardType::Ark => {
            push_action(&mut r, ForwardAction::EndWriter(c.id));
            if c.fd >= 0 {
                push_action(&mut r, ForwardAction::CloseFd(c.fd));
            }
            if c.target_fd >= 0 {
                push_action(&mut r, ForwardAction::CloseFd(c.target_fd));
            }
        },
        ForwardType::Abstract | ForwardType::FileSystem | ForwardType::Reserved => {
            if c.fd >= 0 {
                push_action(&mut r, ForwardAction::CloseSocket(c.fd));
            }
        },
        ForwardType::Device => {},
    }
    assert(actions_view(r@) =~= release_actions(c@));
    r
}

/// What `begin_forward` does, from the stores `pre` to `post`, with result
/// `ok` and actions `acts`.
pub open spec fn begin_forward_post(
    pre: Forwarder,
    post: Forwarder,
    session_id: u32,
    channel_id: u32,
    payload: Seq<u8>,
    ok: bool,
    acts: Seq<ActionView>,
) -> bool {
    &&& (!pre.tasks.view().contains_key((session_id, channel_id)) || !valid_utf8(payload)
        || pre.contexts.spec_len() >= u32::MAX ==> !ok && acts.len() == 0
        && post.contexts.view() =~= pre.contexts.view()
        && post.tasks.view() =~= pre.tasks.view())
    &&& (pre.tasks.view().contains_key((session_id, channel_id)) && valid_utf8(payload)
        && pre.contexts.spec_len() < u32::MAX ==> {
        let k = (session_id, channel_id);
        let last = post.tasks.view()[k].context_forward;
        let c0 = ContextView {
            task_command: decode_utf8(payload),
            ..fresh_context(session_id, channel_id, true, last.id)
        };
        let p = parse_rule(c0);
        let s = setup_outcome(p.1, pre.host, pre.tcp_only);
        &&& post.tasks.view().contains_key(k)
        &&& !pre.contexts.view().contains_key(last.id)
        &&& ok == (p.0 && s.0)
        &&& last == if p.0 { s.1 } else { p.1 }
        &&& ok ==> acts =~= seq![ActionView::Setup(s.1)]
            && post.contexts.view() =~= pre.contexts.view().insert(last.id, last)
            && post.tasks.view()[k].local_args == last.local_args
            && post.tasks.view()[k].remote_args == last.remote_args
            && post.tasks.view()[k].task_command == last.task_command
        &&& !ok ==> acts.len() == 0 && post.contexts.view() =~= pre.contexts.view()
    })
}

/// What `slave_connect` does, from the stores `pre` to `post`, with result
/// `ok` and actions `acts`.
pub open spec fn slave_connect_post(
    pre: Forwarder,
    post: Forwarder,
    session_id: u32,
    channel_id: u32,
    payload: Seq<u8>,
    check_order: bool,
    ok: bool,
    acts: Seq<ActionView>,
) -> bool {
    &&& (!request_ok(payload) || !node_ok(request_spec(payload))
        || pre.contexts.view().contains_key(cid_of(payload)) ==> !ok && acts.len() == 0
        && post.contexts.view() =~= pre.contexts.view()
        && post.tasks.view() =~= pre.tasks.view())
    &&& (request_ok(payload) && node_ok(request_spec(payload))
        && !pre.contexts.view().contains_key(cid_of(payload)) ==> {
        let id = cid_of(payload);
        let c0 = slave_record(session_id, channel_id, id, check_order, request_spec(payload));
        let (set_ok, d) = setup_outcome(c0, pre.host, pre.tcp_only);
        if check_order {
            &&& ok
            &&& acts =~= seq![put_view(c0, HdcCommand::ForwardCheckResult, seq![0u8])]
            &&& post.contexts.view() =~= pre.contexts.view()
            &&& post.tasks.view() =~= pre.tasks.view()
        } else {
            &&& ok == set_ok
            &&& set_ok ==> acts =~= seq![ActionView::Setup(d)]
                && post.contexts.view() =~= pre.contexts.view().insert(id, d)
            &&& !set_ok ==> acts =~= free_actions(
                pre.contexts.view().insert(id, d),
                id,
                true,
            ) && post.contexts.view() =~= pre.contexts.view()
            &&& post.tasks.view() =~= if setup_classified(c0) {
                with_last(pre.tasks.view(), d)
            } else {
                pre.tasks.view()
            }
        }
    })
}

/// What `check_command` does for stream `ctx` and body `body`, from the
/// stores `pre` to `post`, with result `ok` and actions `acts`.
pub open spec fn check_command_post(
    pre: Forwarder,
    post: Forwarder,
    ctx: ContextView,
    body: Seq<u8>,
    server_or_daemon: bool,
    ok: bool,
    acts: Seq<ActionView>,
) -> bool {
    &&& (ok == (body.len() > 0))
    &&& (ok ==> post.contexts == pre.contexts)
    &&& (ok ==> acts[0] == (ActionView::Echo {
        session_id: ctx.session_id,
        channel_id: ctx.channel_id,
        text: "Forwardport result:OK"@,
        level: MessageLevel::Success,
    }))
    &&& (ok && !pre.host ==> post.infos == pre.infos && acts
        =~= seq![
        acts[0],
        ActionView::Put {
            session_id: ctx.session_id,
            channel_id: ctx.channel_id,
            command: HdcCommand::ForwardSuccess,
            payload: success_text(ctx, server_or_daemon),
        },
    ])
    &&& (ok && pre.host ==> acts =~= seq![
        acts[0],
        ActionView::EndChannel(ctx.channel_id),
    ] && if valid_utf8(success_text(ctx, server_or_daemon)) {
        stored(
            pre.infos.entries(),
            post.infos.entries(),
            confirmed(ctx.session_id, ctx.channel_id, success_text(ctx, server_or_daemon)),
        )
    } else {
        post.infos.entries() =~= pre.infos.entries()
    })
    &&& (!ok ==> post.infos == pre.infos && post.contexts.view() =~= pre.contexts.view().remove(ctx.id) && acts =~= seq![
        ActionView::Echo {
            session_id: ctx.session_id,
            channel_id: ctx.channel_id,
            text: "Forwardport result: Failed"@,
            level: MessageLevel::Fail,
        },
    ] + free_actions(pre.contexts.view(), ctx.id, false))
}

/// What `forward_command_dispatch` does, from the stores `pre` to `post`,
/// with result `ok` and actions `acts`.
pub open spec fn forward_dispatch_post(
    pre: Forwarder,
    post: Forwarder,
    session_id: u32,
    channel_id: u32,
    command: HdcCommand,
    payload: Seq<u8>,
    ok: bool,
    acts: Seq<ActionView>,
) -> bool {
    &&& (!pre.tasks.view().contains_key((session_id, channel_id)) || payload.len() < 4
        || !pre.contexts.view().contains_key(cid_of(payload)) ==> !ok
        && acts.len() == 0 && post.contexts == pre.contexts)
    &&& (pre.tasks.view().contains_key((session_id, channel_id)) && payload.len() >= 4
        && pre.contexts.view().contains_key(cid_of(payload)) ==> {
        let cid = cid_of(payload);
        let c = pre.contexts.view()[cid];
        let body = payload.subrange(4, payload.len() as int);
        &&& command == HdcCommand::ForwardData ==> ok == !(c.forward_type
            == ForwardType::Device && c.dev_path.len() == 0) && (ok ==> acts
            =~= seq![ActionView::Write { context: c, data: body }]) && (!ok ==> acts.len() == 0)
            && post.contexts == pre.contexts
        &&& command == HdcCommand::ForwardFreeContext ==> ok && acts
            =~= free_actions(pre.contexts.view(), cid, false)
            && post.contexts.view() =~= pre.contexts.view().remove(cid)
        &&& command == HdcCommand::ForwardActiveMaster ==> ok && post.contexts
            == pre.contexts && (reads_on_active_master(c.forward_type)
            ==> acts =~= seq![ActionView::StartRead(c)]) && (
            !reads_on_active_master(c.forward_type) ==> acts.len() == 0)
        &&& command == HdcCommand::ForwardCheckResult ==> check_command_post(
            pre,
            post,
            c,
            body,
            pre.tasks.view()[(session_id, channel_id)].server_or_daemon,
            ok,
            acts,
        )
        &&& command != HdcCommand::ForwardData && command != HdcCommand::ForwardFreeContext
            && command != HdcCommand::ForwardActiveMaster && command
            != HdcCommand::ForwardCheckResult ==> !ok && acts.len() == 0
            && post.contexts == pre.contexts
    })
}

/// The status line that reports the failure of the rule of (`session_id`,
/// `channel_id`), if it exists.
pub open spec fn error_report(tasks: Map<(u32, u32), ForwardView>, session_id: u32, channel_id: u32) -> Seq<ActionView> {
    if tasks.contains_key((session_id, channel_id)) {
        seq![
            ActionView::Echo {
                session_id,
                channel_id,
                text: error_text(tasks[(session_id, channel_id)].context_forward.last_error),
                level: MessageLevel::Fail,
            },
        ]
    } else {
        Seq::empty()
    }
}

impl Forwarder {
    pub open spec fn wf(&self) -> bool {
        self.contexts.wf() && self.tasks.wf() && self.infos.wf()
    }

    /// Empty stores.
    pub fn new(host: bool, tcp_only: bool) -> (r: Forwarder)
        ensures
            r.wf(),
            r.contexts.view() == Map::<u32, ContextView>::empty(),
            r.tasks.view() == Map::<(u32, u32), ForwardView>::empty(),
            r.tasks.entries() == Seq::<ForwardView>::empty(),
            r.host == host,
            r.tcp_only == tcp_only,
    {
        Forwarder {
            contexts: ForwardContextMap::new(),
            tasks: ForwardTaskMap::new(),
            infos: HdcForwardInfoMap::new(),
            host,
            tcp_only,
        }
    }

    /// Frees stream `cid`: tells the peer first when `notify_remote`, then
    /// releases what the stream owns and drops its record. A stream that is
    /// not live is left alone, so freeing twice does nothing the second
    /// time.
    pub fn free_context(&mut self, cid: u32, notify_remote: bool) -> (r: Vec<ForwardAction>)
        ensures
            final(self).contexts.view() == old(self).contexts.view().remove(cid),
            actions_view(r@) == free_actions(old(self).contexts.view(), cid, notify_remote),
            final(self).tasks == old(self).tasks,
            final(self).infos == old(self).infos,
            final(self).host == old(self).host,
            final(self).tcp_only == old(self).tcp_only,
    {
        let mut r: Vec<ForwardAction> = Vec::new();
        let ctx = match self.contexts.get(cid) {
            Some(c) => c,
            None => {
                self.contexts.remove(cid);
                assert(actions_view(r@) =~= Seq::<ActionView>::empty());
                return r;
            },
        };
        if notify_remote {
            push_action(&mut r, put_action(&ctx, HdcCommand::ForwardFreeContext, &[]));
        }
        append_actions(&mut r, release(&ctx));
        self.contexts.remove(cid);
        assert(actions_view(r@) =~= free_actions(old(self).contexts.view(), cid, notify_remote));
        r
    }

    /// Announces to the peer that the endpoint of stream `cid` is ready.
    /// A probe instead reports a successful check and is freed at once.
    pub fn send_active_master(&mut self, cid: u32) -> (r: (bool, Vec<ForwardAction>))
        ensures
            final(self).tasks == old(self).tasks,
            final(self).infos == old(self).infos,
            final(self).host == old(self).host,
            final(self).tcp_only == old(self).tcp_only,
            !old(self).contexts.view().contains_key(cid) ==> !r.0 && r.1@.len() == 0
                && final(self).contexts.view() == old(self).contexts.view(),
            old(self).contexts.view().contains_key(cid) ==> r.0 && {
                let c = old(self).contexts.view()[cid];
                if c.check_order {
                    &&& actions_view(r.1@) == seq![put_view(c, HdcCommand::ForwardCheckResult, seq![0u8])]
                        + free_actions(old(self).contexts.view(), cid, false)
                    &&& final(self).contexts.view() == old(self).contexts.view().remove(cid)
                } else {
                    &&& actions_view(r.1@) == seq![put_view(c, HdcCommand::ForwardActiveMaster, Seq::empty())]
                    &&& final(self).contexts.view() == old(self).contexts.view()
                }
            },
    {
        let mut r: Vec<ForwardAction> = Vec::new();
        let ctx = match self.contexts.get(cid) {
            Some(c) => c,
            None => {
                return (false, r);
            },
        };
        if ctx.check_order {
            let flag: [u8; 1] = [0u8];
            assert(flag@ =~= seq![0u8]);
            push_action(&mut r, put_action(&ctx, HdcCommand::ForwardCheckResult, &flag));
            let freed = self.free_context(cid, false);
            append_actions(&mut r, freed);
        } else {
            push_action(&mut r, put_action(&ctx, HdcCommand::ForwardActiveMaster, &[]));
        }
        (true, r)
    }

    /// Records `ctx` as the latest stream of its rule, if the rule exists.
    pub fn update_context_to_task(&mut self, ctx: &ContextForward)
        requires
            old(self).wf(),
        ensures
            final(self).wf(),
            final(self).contexts == old(self).contexts,
            final(self).infos == old(self).infos,
            final(self).host == old(self).host,
            final(self).tcp_only == old(self).tcp_only,
            final(self).tasks.view() == with_last(old(self).tasks.view(), ctx@),
    {
        match self.tasks.get(ctx.session_id, ctx.channel_id) {
            Some(task) => {
                let mut task = task;
                task.context_forward = ctx.snapshot();
                self.tasks.update(ctx.session_id, ctx.channel_id, task);
            },
            None => {},
        }
    }

    /// Tears down the rule of (`session_id`, `channel_id`): frees its latest
    /// stream if that stream is still live and its own, cancels the rule's
    /// accept loop, and drops the rule.
    pub fn free_channel_task(&mut self, session_id: u32, channel_id: u32) -> (r: Vec<ForwardAction>)
        requires
            old(self).wf(),
        ensures
            final(self).wf(),
            final(self).infos == old(self).infos,
            final(self).host == old(self).host,
            final(self).tcp_only == old(self).tcp_only,
            final(self).tasks.view() == old(self).tasks.view().remove((session_id, channel_id)),
            (final(self).contexts.view(), actions_view(r@)) == free_rule_step(
                old(self).contexts.view(),
                old(self).tasks.view(),
                session_id,
                channel_id,
            ),
            !old(self).tasks.view().contains_key((session_id, channel_id)) ==> r@.len() == 0
                && final(self).contexts.view() == old(self).contexts.view(),
            old(self).tasks.view().contains_key((session_id, channel_id)) ==> {
                let last = old(self).tasks.view()[(session_id, channel_id)].context_forward;
                let live = owned_by(old(self).contexts.view(), last.id, session_id, channel_id);
                &&& final(self).contexts.view() == if live {
                    old(self).contexts.view().remove(last.id)
                } else {
                    old(self).contexts.view()
                }
                &&& actions_view(r@) == (if live {
                    free_actions(old(self).contexts.view(), last.id, false)
                } else {
                    Seq::empty()
                }) + (if has_listener(last.forward_type) {
                    seq![ActionView::EndListener(session_id, channel_id)]
                } else {
                    Seq::empty()
                })
            },
    {
        let mut r: Vec<ForwardAction> = Vec::new();
        let task = match self.tasks.get(session_id, channel_id) {
            Some(t) => t,
            None => {
                self.tasks.remove(session_id, channel_id);
                return r;
            },
        };
        let cid = task.context_forward.id;
        let live = match self.contexts.get(cid) {
            Some(c) => c.session_id == session_id && c.channel_id == channel_id,
            None => false,
        };
        if live {
            let freed = self.free_context(cid, false);
            append_actions(&mut r, freed);
        }
        let t = task.context_forward.forward_type;
        if t == ForwardType::Tcp || t == ForwardType::Jdwp || t == ForwardType::Ark {
            push_action(&mut r, ForwardAction::EndListener(session_id, channel_id));
        }
        self.tasks.remove(session_id, channel_id);
        proof {
            let last = old(self).tasks.view()[(session_id, channel_id)].context_forward;
            if live {
                assert(actions_view(r@) =~= free_actions(old(self).contexts.view(), last.id, false)
                    + (if has_listener(last.forward_type) {
                    seq![ActionView::EndListener(session_id, channel_id)]
                } else {
                    Seq::empty()
                }));
            } else {
                assert(actions_view(r@) =~= Seq::<ActionView>::empty() + (if has_listener(
                    last.forward_type,
                ) {
                    seq![ActionView::EndListener(session_id, channel_id)]
                } else {
                    Seq::empty()
                }));
            }
        }
        r
    }

    /// Tears down every rule of session `session_id`, as when the session
    /// ends; rules of other sessions stay as they are.
    pub fn stop_task(&mut self, session_id: u32) -> (r: Vec<ForwardAction>)
        requires
            old(self).wf(),
        ensures
            final(self).wf(),
            final(self).tasks.view() == without_session(old(self).tasks.view(), session_id),
            final(self).infos == old(self).infos,
            final(self).host == old(self).host,
            final(self).tcp_only == old(self).tcp_only,
            ({
                let f = stop_fold(
                    old(self).contexts.view(),
                    old(self).tasks.view(),
                    session_id,
                    session_channels(old(self).tasks.entries(), session_id),
                );
                final(self).contexts.view() == f.0 && actions_view(r@) == f.1
            }),
            forall|id: u32|
                old(self).contexts.view().contains_key(id) && old(self).contexts.view()[id].session_id
                    != session_id ==> #[trigger] final(self).contexts.view().contains_key(id)
                    && final(self).contexts.view()[id] == old(self).contexts.view()[id],
            forall|id: u32| #[trigger]
                final(self).contexts.view().contains_key(id) ==> old(self).contexts.view().contains_key(id)
                    && final(self).contexts.view()[id] == old(self).contexts.view()[id],
            forall|i: int|
                0 <= i < r@.len() ==> session_action(
                    #[trigger] actions_view(r@)[i],
                    old(self).contexts.view(),
                    session_id,
                ),
    {
        let channels = self.tasks.channels_of(session_id);
        let ghost c0 = old(self).contexts.view();
        let ghost m0 = old(self).tasks.view();
        let mut r: Vec<ForwardAction> = Vec::new();
        let mut i: usize = 0;
        while i < channels.len()
            invariant
                self.wf(),
                self.host == old(self).host,
                self.tcp_only == old(self).tcp_only,
                self.infos == old(self).infos,
                m0 == old(self).tasks.view(),
                c0 == old(self).contexts.view(),
                channels@ == session_channels(old(self).tasks.entries(), session_id),
                (self.contexts.view(), actions_view(r@)) == stop_fold(
                    c0,
                    m0,
                    session_id,
                    channels@.subrange(0, i as int),
                ),
                i <= channels@.len(),
                channels@.no_duplicates(),
                forall|c: u32| #[trigger] channels@.contains(c) <==> m0.contains_key((session_id, c)),
                self.tasks.view() == Map::new(
                    |k: (u32, u32)| m0.contains_key(k) && !(k.0 == session_id
                        && channels@.subrange(0, i as int).contains(k.1)),
                    |k: (u32, u32)| m0[k],
                ),
            decreases channels@.len() - i,
        {
            let c = channels[i];
            let ghost before = self.tasks.view();
            proof {
                assert(!channels@.subrange(0, i as int).contains(c)) by {
                    if channels@.subrange(0, i as int).contains(c) {
                        let t = choose|t: int| 0 <= t < i && #[trigger] channels@.subrange(0, i as int)[t] == c;
                        assert(channels@[t] == channels@[i as int]);
                    }
                }
                assert(before.contains_key((session_id, c)) == m0.contains_key((session_id, c)));
                assert(free_rule_step(self.contexts.view(), before, session_id, c) == free_rule_step(
                    self.contexts.view(),
                    m0,
                    session_id,
                    c,
                ));
                assert(channels@.subrange(0, i + 1).drop_last() =~= channels@.subrange(0, i as int));
            }
            let freed = self.free_channel_task(session_id, c);
            append_actions(&mut r, freed);
            i = i + 1;
            assert forall|k: (u32, u32)| #[trigger] channels@.subrange(0, i as int).contains(k.1) <==> (
            channels@.subrange(0, i - 1).contains(k.1) || k.1 == c) by {
                if k.1 == c {
                    assert(channels@.subrange(0, i as int)[i - 1] == c);
                }
                if channels@.subrange(0, i - 1).contains(k.1) {
                    let t = choose|t: int| 0 <= t < i - 1 && #[trigger] channels@.subrange(0, i - 1)[t] == k.1;
                    assert(channels@.subrange(0, i as int)[t] == k.1);
                }
                if channels@.subrange(0, i as int).contains(k.1) && k.1 != c {
                    let t = choose|t: int| 0 <= t < i && #[trigger] channels@.subrange(0, i as int)[t] == k.1;
                    assert(channels@.subrange(0, i - 1)[t] == k.1);
                }
            }
            assert(self.tasks.view() =~= Map::new(
                |k: (u32, u32)| m0.contains_key(k) && !(k.0 == session_id
                    && channels@.subrange(0, i as int).contains(k.1)),
                |k: (u32, u32)| m0[k],
            ));
        }
        assert forall|k: (u32, u32)| #[trigger] m0.contains_key(k) && k.0 == session_id implies channels@.subrange(0, channels@.len() as int).contains(k.1) by {
            assert(channels@.subrange(0, channels@.len() as int) =~= channels@);
            assert(channels@.contains(k.1));
        }
        assert(self.tasks.view() =~= without_session(m0, session_id));
        assert(channels@.subrange(0, channels@.len() as int) =~= channels@);
        proof {
            lemma_stop_fold_keeps(c0, m0, session_id, channels@);
            lemma_stop_fold_session(c0, m0, session_id, channels@);
            assert(actions_view(r@) == stop_fold(c0, m0, session_id, channels@).1);
        }
        r
    }

    /// Classifies the local endpoint of `ctx` and decides whether it can be
    /// brought up here; when it can, asks for it with a `Setup` action. A
    /// classified record is stored, and recorded as its rule's latest.
    pub fn setup_point(&mut self, ctx: &mut ContextForward) -> (r: (bool, Vec<ForwardAction>))
        requires
            old(self).wf(),
        ensures
            final(self).wf(),
            final(self).infos == old(self).infos,
            final(self).host == old(self).host,
            final(self).tcp_only == old(self).tcp_only,
            ({
                let (ok, d) = setup_outcome(old(ctx)@, old(self).host, old(self).tcp_only);
                &&& r.0 == ok
                &&& final(ctx)@ == d
                &&& ok ==> actions_view(r.1@) == seq![ActionView::Setup(d)]
                &&& !ok ==> r.1@.len() == 0
                &&& setup_classified(old(ctx)@) ==> final(self).contexts.view() == old(
                    self,
                ).contexts.view().insert(d.id, d) && final(self).tasks.view() == with_last(
                    old(self).tasks.view(),
                    d,
                )
                &&& !setup_classified(old(ctx)@) ==> final(self).contexts.view() == old(
                    self,
                ).contexts.view() && final(self).tasks.view() == old(self).tasks.view()
            }),
    {
        let mut r: Vec<ForwardAction> = Vec::new();
        if !detech_forward_type(ctx) {
            return (false, r);
        }
        let t = ctx.forward_type;
        let mut ok = true;
        if self.tcp_only && t != ForwardType::Tcp {
            ctx.last_error = String::from_str("Not support forward-type");
            ok = false;
        } else if self.host && (t == ForwardType::Jdwp || t == ForwardType::Ark) {
            ok = false;
        } else if t == ForwardType::Tcp {
            assert(ctx.local_args.deep_view().len() == ctx.local_args@.len());
            assert(ctx.local_args.deep_view()[1] == ctx.local_args@[1]@);
            if parse_u32(ctx.local_args[1].as_str()).is_none() {
                ok = false;
            }
        }
        self.contexts.update(ctx.id, ctx.snapshot());
        self.update_context_to_task(ctx);
        if ok {
            push_action(&mut r, ForwardAction::Setup(ctx.snapshot()));
        }
        (ok, r)
    }

    /// Handles `Init`: the client's rule text arrives for the rule of
    /// (`session_id`, `channel_id`). A master stream is allocated, the text
    /// parsed and the endpoint decided; on any failure the stream is dropped
    /// and recorded, with its error, as the rule's latest.
    pub fn begin_forward(&mut self, session_id: u32, channel_id: u32, payload: &[u8]) -> (r: (
        bool,
        Vec<ForwardAction>,
    ))
        requires
            old(self).wf(),
        ensures
            final(self).wf(),
            final(self).infos == old(self).infos,
            final(self).host == old(self).host,
            final(self).tcp_only == old(self).tcp_only,
            begin_forward_post(*old(self), *final(self), session_id, channel_id, payload@, r.0, actions_view(r.1@)),
    {
        let mut none: Vec<ForwardAction> = Vec::new();
        let task = match self.tasks.get(session_id, channel_id) {
            Some(t) => t,
            None => {
                return (false, none);
            },
        };
        let command = match text_of(payload) {
            Some(c) => c,
            None => {
                return (false, none);
            },
        };
        let mut ctx = match self.contexts.malloc_context(session_id, channel_id, true) {
            Some(c) => c,
            None => {
                return (false, none);
            },
        };
        let ghost before = old(self).contexts.view();
        ctx.task_command = command;
        let mut task = task;
        if !forward_parse_cmd(&mut ctx) {
            self.contexts.remove(ctx.id);
            assert(self.contexts.view() =~= before);
            task.context_forward = ctx;
            self.tasks.update(session_id, channel_id, task);
            return (false, none);
        }
        let (ok, acts) = self.setup_point(&mut ctx);
        if !ok {
            self.contexts.remove(ctx.id);
            assert(self.contexts.view() =~= before);
            task.context_forward = ctx;
            self.tasks.update(session_id, channel_id, task);
            return (false, none);
        }
        task.local_args = crate::context::copy_strings(&ctx.local_args);
        task.remote_args = crate::context::copy_strings(&ctx.remote_args);
        task.task_command = ctx.task_command.clone();
        task.context_forward = ctx;
        self.tasks.update(session_id, channel_id, task);
        (true, acts)
    }

    /// After the master endpoint of stream `cid` was brought up (`ok`) or
    /// failed with `error`: on success wakes the peer and asks it to check
    /// the remote endpoint; on failure records the error on the rule, frees
    /// the stream, reports the error and finishes the channel.
    pub fn setup_finished(
        &mut self,
        session_id: u32,
        channel_id: u32,
        cid: u32,
        ok: bool,
        error: &String,
    ) -> (r: (bool, Vec<ForwardAction>))
        requires
            old(self).wf(),
        ensures
            final(self).wf(),
            final(self).host == old(self).host,
            final(self).tcp_only == old(self).tcp_only,
            !old(self).contexts.view().contains_key(cid) ==> !r.0 && r.1@.len() == 0
                && final(self).contexts.view() == old(self).contexts.view()
                && final(self).tasks.view() == old(self).tasks.view(),
            old(self).contexts.view().contains_key(cid) && ok ==> {
                let c = old(self).contexts.view()[cid];
                &&& r.0
                &&& final(self).contexts.view() == old(self).contexts.view()
                &&& final(self).tasks.view() == old(self).tasks.view()
                &&& actions_view(r.1@) == seq![
                    ActionView::Put {
                        session_id,
                        channel_id,
                        command: HdcCommand::KernelWakeupSlavetask,
                        payload: Seq::empty(),
                    },
                    put_view(c, HdcCommand::ForwardCheck, check_body(encode_utf8(c.remote_parameters))),
                ]
            },
            old(self).contexts.view().contains_key(cid) && !ok ==> {
                let c = old(self).contexts.view()[cid];
                let failed = ContextView {
                    last_error: if error@.len() > 0 { error@ } else { c.last_error },
                    ..c
                };
                &&& !r.0
                &&& final(self).contexts.view() == old(self).contexts.view().remove(cid)
                &&& final(self).tasks.view() == with_last(old(self).tasks.view(), failed)
                &&& actions_view(r.1@).subrange(0, release_actions(failed).len() as int)
                    == release_actions(failed)
                &&& actions_view(r.1@).last() == ActionView::TaskFinish { session_id, channel_id }
            },
    {
        let mut r: Vec<ForwardAction> = Vec::new();
        let mut ctx = match self.contexts.get(cid) {
            Some(c) => c,
            None => {
                return (false, r);
            },
        };
        if ok {
            push_action(
                &mut r,
                ForwardAction::Put {
                    session_id,
                    message: TaskMessage {
                        channel_id,
                        command: HdcCommand::KernelWakeupSlavetask,
                        payload: Vec::new(),
                    },
                },
            );
            let body = build_check_body(&ctx.remote_parameters);
            push_action(&mut r, put_action(&ctx, HdcCommand::ForwardCheck, body.as_slice()));
            assert(actions_view(r@) =~= seq![
                ActionView::Put {
                    session_id,
                    channel_id,
                    command: HdcCommand::KernelWakeupSlavetask,
                    payload: Seq::empty(),
                },
                put_view(ctx@, HdcCommand::ForwardCheck, check_body(encode_utf8(ctx@.remote_parameters))),
            ]);
            return (true, r);
        }
        if error.as_str().unicode_len() > 0 {
            ctx.last_error = error.clone();
        }
        self.update_context_to_task(&ctx);
        self.contexts.update(cid, ctx.snapshot());
        let freed = self.free_context(cid, false);
        append_actions(&mut r, freed);
        let ghost rel = actions_view(r@);
        assert(rel =~= release_actions(ctx@));
        let report = self.print_error_info(session_id, channel_id);
        append_actions(&mut r, report);
        push_action(&mut r, ForwardAction::TaskFinish { session_id, channel_id });
        assert(self.contexts.view() =~= old(self).contexts.view().remove(cid));
        assert(actions_view(r@).subrange(0, rel.len() as int) =~= rel);
        (false, r)
    }

    /// Handles `Check` (`check_order`, a probe) and `ActiveSlave`: the peer
    /// asks this side to validate, or to bring up, the endpoint that the
    /// payload names, for the stream id the payload starts with. A probe
    /// answers at once and is freed without ever binding an endpoint.
    pub fn slave_connect(&mut self, session_id: u32, channel_id: u32, payload: &[u8], check_order: bool)
        -> (r: (bool, Vec<ForwardAction>))
        requires
            old(self).wf(),
        ensures
            final(self).wf(),
            final(self).infos == old(self).infos,
            final(self).host == old(self).host,
            final(self).tcp_only == old(self).tcp_only,
            slave_connect_post(*old(self), *final(self), session_id, channel_id, payload@, check_order, r.0, actions_view(r.1@)),
    {
        let mut none: Vec<ForwardAction> = Vec::new();
        if payload.len() < 4 {
            return (false, none);
        }
        let (content, id) = match filter_command(payload) {
            Ok(pair) => pair,
            Err(_) => {
                return (false, none);
            },
        };
        if content.as_str().unicode_len() < 8 {
            return (false, none);
        }
        let target = request_target(&content);
        let mut ctx = ContextForward::new(session_id, channel_id, false, id);
        ctx.check_order = check_order;
        ctx.task_command = target.clone();
        let ghost empty_args = ctx.local_args.deep_view();
        if !check_node_info(&target, &mut ctx.local_args) {
            return (false, none);
        }
        assert(empty_args + split_on(target@, ':') =~= split_on(target@, ':'));
        if self.contexts.contains(id) {
            return (false, none);
        }
        let ghost before = old(self).contexts.view();
        self.contexts.update(id, ctx.snapshot());
        if check_order {
            let (_, acts) = self.send_active_master(id);
            assert(self.contexts.view() =~= before);
            assert(actions_view(acts@) =~= seq![put_view(ctx@, HdcCommand::ForwardCheckResult, seq![0u8])]);
            return (true, acts);
        }
        let (ok, acts) = self.setup_point(&mut ctx);
        if !ok {
            let freed = self.free_context(id, true);
            assert(self.contexts.view() =~= before);
            return (false, freed);
        }
        (true, acts)
    }

    /// Handles `CheckResult` for stream `ctx` of the initiating side. A
    /// non-empty `body` confirms the rule: the client is told, and the
    /// tagged rule text is recorded (host) or sent on. An empty one fails
    /// the rule and frees the stream.
    pub fn check_command(&mut self, ctx: &ContextForward, body: &[u8], server_or_daemon: bool) -> (r: (
        bool,
        Vec<ForwardAction>,
    ))
        requires
            old(self).wf(),
        ensures
            final(self).wf(),
            final(self).tasks == old(self).tasks,
            final(self).host == old(self).host,
            final(self).tcp_only == old(self).tcp_only,
            check_command_post(*old(self), *final(self), ctx@, body@, server_or_daemon, r.0, actions_view(r.1@)),
    {
        let mut r: Vec<ForwardAction> = Vec::new();
        if body.len() == 0 {
            push_action(
                &mut r,
                ForwardAction::Echo {
                    session_id: ctx.session_id,
                    channel_id: ctx.channel_id,
                    text: String::from_str("Forwardport result: Failed"),
                    level: MessageLevel::Fail,
                },
            );
            let freed = self.free_context(ctx.id, false);
            append_actions(&mut r, freed);
            return (false, r);
        }
        push_action(
            &mut r,
            ForwardAction::Echo {
                session_id: ctx.session_id,
                channel_id: ctx.channel_id,
                text: String::from_str("Forwardport result:OK"),
                level: MessageLevel::Success,
            },
        );
        let mut map_info = String::from_str(if server_or_daemon {
            "1|"
        } else {
            "0|"
        });
        map_info.append(ctx.task_command.as_str());
        assert(map_info@ == (if server_or_daemon {
            "1|"@
        } else {
            "0|"@
        }) + ctx.task_command@);
        let mut info = text_bytes(&map_info);
        info.push(0u8);
        assert(info@ =~= success_text(ctx@, server_or_daemon));
        if self.host {
            self.infos.on_forward_success(ctx.session_id, ctx.channel_id, info.as_slice());
            push_action(&mut r, ForwardAction::EndChannel(ctx.channel_id));
        } else {
            push_action(
                &mut r,
                ForwardAction::Put {
                    session_id: ctx.session_id,
                    message: TaskMessage {
                        channel_id: ctx.channel_id,
                        command: HdcCommand::ForwardSuccess,
                        payload: info,
                    },
                },
            );
        }
        assert(check_command_post(
            *old(self),
            *self,
            ctx@,
            body@,
            server_or_daemon,
            true,
            actions_view(r@),
        ));
        (true, r)
    }

    /// Handles `Data`: what the peer relayed for stream `ctx` goes to its
    /// local endpoint. A device stream whose path is not known yet fails.
    pub fn write_forward_bufer(&self, ctx: &ContextForward, content: Vec<u8>) -> (r: (
        bool,
        Vec<ForwardAction>,
    ))
        ensures
            r.0 == !(ctx.forward_type == ForwardType::Device && ctx.dev_path@.len() == 0),
            r.0 ==> actions_view(r.1@) == seq![ActionView::Write { context: ctx@, data: content@ }],
            !r.0 ==> r.1@.len() == 0,
    {
        let mut r: Vec<ForwardAction> = Vec::new();
        if ctx.forward_type == ForwardType::Device && ctx.dev_path.as_str().unicode_len() == 0 {
            return (false, r);
        }
        push_action(&mut r, ForwardAction::Write { context: ctx.snapshot(), data: content });
        (true, r)
    }

    /// Handles `ActiveMaster`: the peer's endpoint is ready, so streams
    /// whose reads are not already running start relaying.
    pub fn read_data_to_forward(&self, ctx: &ContextForward) -> (r: Vec<ForwardAction>)
        ensures
            reads_on_active_master(ctx.forward_type) ==> actions_view(r@) == seq![
                ActionView::StartRead(ctx@),
            ],
            !reads_on_active_master(ctx.forward_type) ==> r@.len() == 0,
    {
        let mut r: Vec<ForwardAction> = Vec::new();
        let t = ctx.forward_type;
        if t == ForwardType::Abstract || t == ForwardType::FileSystem || t == ForwardType::Reserved
            || t == ForwardType::Device {
            push_action(&mut r, ForwardAction::StartRead(ctx.snapshot()));
        }
        r
    }

    /// Handles the commands addressed to a live stream of a known rule:
    /// `CheckResult`, `Data`, `FreeContext` and `ActiveMaster`. Anything else,
    /// an unknown rule, a payload without a stream id or a stream that is not
    /// live fails.
    pub fn forward_command_dispatch(
        &mut self,
        session_id: u32,
        channel_id: u32,
        command: HdcCommand,
        payload: &[u8],
    ) -> (r: (bool, Vec<ForwardAction>))
        requires
            old(self).wf(),
        ensures
            final(self).wf(),
            final(self).tasks == old(self).tasks,
            final(self).host == old(self).host,
            final(self).tcp_only == old(self).tcp_only,
            forward_dispatch_post(*old(self), *final(self), session_id, channel_id, command, payload@, r.0, actions_view(r.1@)),
    {
        let none: Vec<ForwardAction> = Vec::new();
        let task = match self.tasks.get(session_id, channel_id) {
            Some(t) => t,
            None => {
                return (false, none);
            },
        };
        if payload.len() < 4 {
            return (false, none);
        }
        let cid = get_cid(payload);
        let ctx = match self.contexts.get(cid) {
            Some(c) => c,
            None => {
                return (false, none);
            },
        };
        let body = payload_body(payload);
        match command {
            HdcCommand::ForwardCheckResult => self.check_command(&ctx, body.as_slice(), task.server_or_daemon),
            HdcCommand::ForwardData => self.write_forward_bufer(&ctx, body),
            HdcCommand::ForwardFreeContext => (true, self.free_context(cid, false)),
            HdcCommand::ForwardActiveMaster => (true, self.read_data_to_forward(&ctx)),
            _ => (false, none),
        }
    }

    /// Entry point for every inbound forward command. On failure the rule's
    /// error is reported and its channel finished.
    pub fn command_dispatch(
        &mut self,
        session_id: u32,
        channel_id: u32,
        command: HdcCommand,
        payload: &[u8],
    ) -> (r: (bool, Vec<ForwardAction>))
        requires
            old(self).wf(),
        ensures
            final(self).wf(),
            final(self).host == old(self).host,
            final(self).tcp_only == old(self).tcp_only,
            ({
                let acts = actions_view(r.1@);
                let tail = if r.0 {
                    Seq::<ActionView>::empty()
                } else {
                    error_report(final(self).tasks.view(), session_id, channel_id).push(
                        ActionView::TaskFinish { session_id, channel_id },
                    )
                };
                let inner = acts.subrange(0, acts.len() - tail.len());
                &&& acts.len() >= tail.len()
                &&& acts == inner + tail
                &&& command == HdcCommand::ForwardInit ==> begin_forward_post(
                    *old(self),
                    *final(self),
                    session_id,
                    channel_id,
                    payload@,
                    r.0,
                    inner,
                )
                &&& command == HdcCommand::ForwardCheck ==> slave_connect_post(
                    *old(self),
                    *final(self),
                    session_id,
                    channel_id,
                    payload@,
                    true,
                    r.0,
                    inner,
                )
                &&& command == HdcCommand::ForwardActiveSlave ==> slave_connect_post(
                    *old(self),
                    *final(self),
                    session_id,
                    channel_id,
                    payload@,
                    false,
                    r.0,
                    inner,
                )
                &&& command != HdcCommand::ForwardInit && command != HdcCommand::ForwardCheck
                    && command != HdcCommand::ForwardActiveSlave ==> forward_dispatch_post(
                    *old(self),
                    *final(self),
                    session_id,
                    channel_id,
                    command,
                    payload@,
                    r.0,
                    inner,
                )
            }),
    {
        let (ok, mut acts) = match command {
            HdcCommand::ForwardInit => self.begin_forward(session_id, channel_id, payload),
            HdcCommand::ForwardCheck => self.slave_connect(session_id, channel_id, payload, true),
            HdcCommand::ForwardActiveSlave => self.slave_connect(session_id, channel_id, payload, false),
            _ => self.forward_command_dispatch(session_id, channel_id, command, payload),
        };
        let ghost inner = actions_view(acts@);
        if !ok {
            let report = self.print_error_info(session_id, channel_id);
            append_actions(&mut acts, report);
            push_action(&mut acts, ForwardAction::TaskFinish { session_id, channel_id });
        }
        proof {
            let tail = if ok {
                Seq::<ActionView>::empty()
            } else {
                error_report(self.tasks.view(), session_id, channel_id).push(
                    ActionView::TaskFinish { session_id, channel_id },
                )
            };
            assert(actions_view(acts@) =~= inner + tail);
            assert(actions_view(acts@).subrange(0, actions_view(acts@).len() - tail.len()) =~= inner);
        }
        (ok, acts)
    }

    /// Handles a connection accepted by the listener of a master rule: a
    /// fresh master stream of the listener's kind is stored, and the peer is
    /// asked to bring up its side (`ActiveSlave`).
    pub fn accept_connection(&mut self, listener: &ContextForward) -> (r: Option<(ContextForward, Vec<ForwardAction>)>)
        ensures
            final(self).tasks == old(self).tasks,
            final(self).infos == old(self).infos,
            final(self).host == old(self).host,
            final(self).tcp_only == old(self).tcp_only,
            r is None <==> old(self).contexts.spec_len() >= u32::MAX,
            r is None ==> final(self).contexts.view() == old(self).contexts.view(),
            r is Some ==> {
                let (c, acts) = r->0;
                &&& !old(self).contexts.view().contains_key(c.id)
                &&& c@ == ContextView {
                    remote_parameters: listener.remote_parameters@,
                    forward_type: listener.forward_type,
                    ..fresh_context(listener.session_id, listener.channel_id, true, c.id)
                }
                &&& final(self).contexts.view() == old(self).contexts.view().insert(c.id, c@)
                &&& actions_view(acts@) == seq![
                    put_view(c@, HdcCommand::ForwardActiveSlave, check_body(encode_utf8(c@.remote_parameters))),
                ]
            },
    {
        let mut ctx = match self.contexts.malloc_context(listener.session_id, listener.channel_id, true) {
            Some(c) => c,
            None => {
                return None;
            },
        };
        ctx.remote_parameters = listener.remote_parameters.clone();
        ctx.forward_type = listener.forward_type;
        self.contexts.update(ctx.id, ctx.snapshot());
        let acts = self.on_accept(ctx.id);
        Some((ctx, acts))
    }

    /// The `ActiveSlave` request for stream `cid`, naming its remote
    /// endpoint; nothing for a stream that is not live.
    pub fn on_accept(&self, cid: u32) -> (r: Vec<ForwardAction>)
        ensures
            !self.contexts.view().contains_key(cid) ==> r@.len() == 0,
            self.contexts.view().contains_key(cid) ==> {
                let c = self.contexts.view()[cid];
                actions_view(r@) == seq![
                    put_view(c, HdcCommand::ForwardActiveSlave, check_body(encode_utf8(c.remote_parameters))),
                ]
            },
    {
        let mut r: Vec<ForwardAction> = Vec::new();
        match self.contexts.get(cid) {
            Some(ctx) => {
                let body = build_check_body(&ctx.remote_parameters);
                push_action(&mut r, put_action(&ctx, HdcCommand::ForwardActiveSlave, body.as_slice()));
            },
            None => {},
        }
        r
    }

    /// After the debugged process `pid` could not be given its end of the
    /// pipe of stream `cid`: the client is told, its channel finished, and
    /// the stream freed, telling the peer.
    pub fn attach_failed(&mut self, cid: u32, pid: u32) -> (r: Vec<ForwardAction>)
        requires
            old(self).wf(),
        ensures
            final(self).wf(),
            final(self).tasks == old(self).tasks,
            final(self).infos == old(self).infos,
            final(self).host == old(self).host,
            final(self).tcp_only == old(self).tcp_only,
            final(self).contexts.view() == old(self).contexts.view().remove(cid),
            !old(self).contexts.view().contains_key(cid) ==> r@.len() == 0,
            old(self).contexts.view().contains_key(cid) ==> {
                let c = old(self).contexts.view()[cid];
                actions_view(r@) == seq![
                    ActionView::Echo {
                        session_id: c.session_id,
                        channel_id: c.channel_id,
                        text: "fport fail:pid not found:"@ + decimal(pid as nat),
                        level: MessageLevel::Fail,
                    },
                    ActionView::TaskFinish { session_id: c.session_id, channel_id: c.channel_id },
                ] + free_actions(old(self).contexts.view(), cid, true)
            },
    {
        let mut r: Vec<ForwardAction> = Vec::new();
        let ctx = match self.contexts.get(cid) {
            Some(c) => c,
            None => {
                self.contexts.remove(cid);
                return r;
            },
        };
        let mut text = String::from_str("fport fail:pid not found:");
        text.append(u32_to_text(pid).as_str());
        push_action(
            &mut r,
            ForwardAction::Echo {
                session_id: ctx.session_id,
                channel_id: ctx.channel_id,
                text,
                level: MessageLevel::Fail,
            },
        );
        push_action(
            &mut r,
            ForwardAction::TaskFinish { session_id: ctx.session_id, channel_id: ctx.channel_id },
        );
        let ghost head = actions_view(r@);
        let freed = self.free_context(cid, true);
        append_actions(&mut r, freed);
        assert(head =~= seq![
            ActionView::Echo {
                session_id: ctx@.session_id,
                channel_id: ctx@.channel_id,
                text: "fport fail:pid not found:"@ + decimal(pid as nat),
                level: MessageLevel::Fail,
            },
            ActionView::TaskFinish { session_id: ctx@.session_id, channel_id: ctx@.channel_id },
        ]);
        r
    }

    /// What the local endpoint of stream `cid` read: an empty read ends the
    /// stream, telling the peer; anything else is relayed as `Data`, unless
    /// it is larger than two transport buffers.
    pub fn relay_read(&mut self, cid: u32, data: &[u8]) -> (r: Vec<ForwardAction>)
        requires
            old(self).wf(),
        ensures
            final(self).wf(),
            final(self).tasks == old(self).tasks,
            final(self).infos == old(self).infos,
            final(self).host == old(self).host,
            final(self).tcp_only == old(self).tcp_only,
            !old(self).contexts.view().contains_key(cid) ==> r@.len() == 0
                && final(self).contexts.view() == old(self).contexts.view(),
            old(self).contexts.view().contains_key(cid) && data@.len() == 0 ==> actions_view(r@)
                == free_actions(old(self).contexts.view(), cid, true) && final(self).contexts.view()
                == old(self).contexts.view().remove(cid),
            old(self).contexts.view().contains_key(cid) && data@.len() > 0 ==> final(self).contexts.view() == old(self).contexts.view() && if data@.len() <= 2 * MAX_SIZE_IOBUF {
                actions_view(r@) == seq![
                    put_view(old(self).contexts.view()[cid], HdcCommand::ForwardData, data@),
                ]
            } else {
                r@.len() == 0
            },
    {
        let mut r: Vec<ForwardAction> = Vec::new();
        let ctx = match self.contexts.get(cid) {
            Some(c) => c,
            None => {
                return r;
            },
        };
        if data.len() == 0 {
            return self.free_context(cid, true);
        }
        match frame_payload(cid, data) {
            Some(payload) => {
                push_action(
                    &mut r,
                    ForwardAction::Put {
                        session_id: ctx.session_id,
                        message: TaskMessage {
                            channel_id: ctx.channel_id,
                            command: HdcCommand::ForwardData,
                            payload,
                        },
                    },
                );
            },
            None => {},
        }
        r
    }

    /// The listing of every rule.
    pub fn dump_task(&self) -> (r: String)
        ensures
            r@ == crate::task::dump_text(self.tasks.entries()),
    {
        self.tasks.dump_task()
    }

    /// The status line that reports why the rule of (`session_id`,
    /// `channel_id`) failed: its recorded error, or a generic one.
    pub fn print_error_info(&self, session_id: u32, channel_id: u32) -> (r: Vec<ForwardAction>)
        requires
            self.wf(),
        ensures
            actions_view(r@) == error_report(self.tasks.view(), session_id, channel_id),
    {
        let mut r: Vec<ForwardAction> = Vec::new();
        match self.tasks.get(session_id, channel_id) {
            Some(task) => {
                let text = if task.context_forward.last_error.as_str().unicode_len() == 0 {
                    String::from_str("Forward parament failed")
                } else {
                    task.context_forward.last_error.clone()
                };
                push_action(
                    &mut r,
                    ForwardAction::Echo { session_id, channel_id, text, level: MessageLevel::Fail },
                );
                assert(actions_view(r@) =~= seq![
                    ActionView::Echo {
                        session_id,
                        channel_id,
                        text: error_text(self.tasks.view()[(session_id, channel_id)].context_forward.last_error),
                        level: MessageLevel::Fail,
                    },
                ]);
            },
            None => {},
        }
        r
    }
}

} // verus!
