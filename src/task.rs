//! Forward rules, one per (session, channel), and the store that holds them.
use crate::context::{copy_strings, fresh_context, ContextForward, ContextView};
use crate::text::{contains_seq, contains_text, decimal, u32_to_text};
use vstd::prelude::*;
use vstd::string::*;

verus! {

/// One forward or reverse-forward command accepted from a client.
#[derive(Clone, Debug)]
pub struct HdcForward {
    pub session_id: u32,
    pub channel_id: u32,
    /// Set on the peer that serves clients (the host side).
    pub server_or_daemon: bool,
    pub local_args: Vec<String>,
    pub remote_args: Vec<String>,
    pub task_command: String,
    /// The stream most recently spawned by this rule.
    pub context_forward: ContextForward,
}

/// What an `HdcForward` holds, with each string as its characters.
pub struct ForwardView {
    pub session_id: u32,
    pub channel_id: u32,
    pub server_or_daemon: bool,
    pub local_args: Seq<Seq<char>>,
    pub remote_args: Seq<Seq<char>>,
    pub task_command: Seq<char>,
    pub context_forward: ContextView,
}

impl View for HdcForward {
    type V = ForwardView;

    open spec fn view(&self) -> ForwardView {
        ForwardView {
            session_id: self.session_id,
            channel_id: self.channel_id,
            server_or_daemon: self.server_or_daemon,
            local_args: self.local_args.deep_view(),
            remote_args: self.remote_args.deep_view(),
            task_command: self.task_command@,
            context_forward: self.context_forward@,
        }
    }
}

/// The key a rule is stored under.
pub open spec fn rule_key(f: ForwardView) -> (u32, u32) {
    (f.session_id, f.channel_id)
}

impl HdcForward {
    /// A rule with nothing parsed and no stream yet.
    pub fn new(session_id: u32, channel_id: u32, server_or_daemon: bool) -> (r: HdcForward)
        ensures
            r@ == (ForwardView {
                session_id,
                channel_id,
                server_or_daemon,
                local_args: Seq::empty(),
                remote_args: Seq::empty(),
                task_command: Seq::empty(),
                context_forward: fresh_context(session_id, channel_id, false, 0),
            }),
    {
        let r = HdcForward {
            session_id,
            channel_id,
            server_or_daemon,
            local_args: Vec::new(),
            remote_args: Vec::new(),
            task_command: String::new(),
            context_forward: ContextForward::new(session_id, channel_id, false, 0),
        };
        assert(r.local_args.deep_view() =~= Seq::<Seq<char>>::empty());
        assert(r.remote_args.deep_view() =~= Seq::<Seq<char>>::empty());
        r
    }

    /// A copy that holds the same values.
    pub fn snapshot(&self) -> (r: HdcForward)
        ensures
            r@ == self@,
    {
        HdcForward {
            session_id: self.session_id,
            channel_id: self.channel_id,
            server_or_daemon: self.server_or_daemon,
            local_args: copy_strings(&self.local_args),
            remote_args: copy_strings(&self.remote_args),
            task_command: self.task_command.clone(),
            context_forward: self.context_forward.snapshot(),
        }
    }
}

/// The store of forward rules.
pub struct ForwardTaskMap {
    tasks: Vec<HdcForward>,
}

impl ForwardTaskMap {
    /// The rules, in the order they were first stored.
    pub closed spec fn entries(&self) -> Seq<ForwardView> {
        Seq::new(self.tasks@.len(), |i: int| self.tasks@[i]@)
    }

    /// At most one rule per key.
    pub closed spec fn wf(&self) -> bool {
        forall|i: int, j: int|
            0 <= i < self.entries().len() && 0 <= j < self.entries().len() && i != j ==> rule_key(
                #[trigger] self.entries()[i],
            ) != rule_key(#[trigger] self.entries()[j])
    }

    /// The rules, by key.
    pub closed spec fn view(&self) -> Map<(u32, u32), ForwardView> {
        Map::new(
            |k: (u32, u32)| exists|i: int| 0 <= i < self.entries().len() && rule_key(#[trigger] self.entries()[i]) == k,
            |k: (u32, u32)| self.entries()[choose|i: int| 0 <= i < self.entries().len() && rule_key(#[trigger] self.entries()[i]) == k],
        )
    }

    proof fn lemma_view_at(&self, i: int)
        requires
            self.wf(),
            0 <= i < self.entries().len(),
        ensures
            self.view().contains_key(rule_key(self.entries()[i])),
            self.view()[rule_key(self.entries()[i])] == self.entries()[i],
    {
        let k = rule_key(self.entries()[i]);
        assert(self.view().contains_key(k));
        let j = choose|j: int| 0 <= j < self.entries().len() && rule_key(#[trigger] self.entries()[j]) == k;
        assert(j == i);
    }

    pub fn new() -> (r: ForwardTaskMap)
        ensures
            r.wf(),
            r.view() == Map::<(u32, u32), ForwardView>::empty(),
            r.entries() == Seq::<ForwardView>::empty(),
    {
        let r = ForwardTaskMap { tasks: Vec::new() };
        assert(r.view() =~= Map::<(u32, u32), ForwardView>::empty());
        assert(r.entries() =~= Seq::<ForwardView>::empty());
        r
    }

    fn find(&self, session_id: u32, channel_id: u32) -> (r: Option<usize>)
        requires
            self.wf(),
        ensures
            r is Some ==> r->0 < self.entries().len() && rule_key(self.entries()[r->0 as int]) == (
            session_id, channel_id),
            r is None ==> !self.view().contains_key((session_id, channel_id)),
            r is None ==> forall|i: int|
                0 <= i < self.entries().len() ==> rule_key(#[trigger] self.entries()[i]) != (
                session_id, channel_id),
    {
        let mut i: usize = 0;
        while i < self.tasks.len()
            invariant
                i <= self.tasks@.len(),
                forall|j: int| 0 <= j < i ==> rule_key(#[trigger] self.entries()[j]) != (session_id, channel_id),
            decreases self.tasks@.len() - i,
        {
            assert(self.entries()[i as int] == self.tasks@[i as int]@);
            if self.tasks[i].session_id == session_id && self.tasks[i].channel_id == channel_id {
                return Some(i);
            }
            i = i + 1;
        }
        None
    }

    /// A copy of the rule under (`session_id`, `channel_id`).
    pub fn get(&self, session_id: u32, channel_id: u32) -> (r: Option<HdcForward>)
        requires
            self.wf(),
        ensures
            r is Some <==> self.view().contains_key((session_id, channel_id)),
            r is Some ==> r->0@ == self.view()[(session_id, channel_id)],
            r is Some ==> r->0.session_id == session_id && r->0.channel_id == channel_id,
    {
        match self.find(session_id, channel_id) {
            Some(i) => {
                proof {
                    self.lemma_view_at(i as int);
                }
                Some(self.tasks[i].snapshot())
            },
            None => None,
        }
    }

    /// Stores `value` under its own key, replacing any rule there.
    pub fn update(&mut self, session_id: u32, channel_id: u32, value: HdcForward)
        requires
            old(self).wf(),
            value.session_id == session_id,
            value.channel_id == channel_id,
        ensures
            final(self).wf(),
            final(self).view() == old(self).view().insert((session_id, channel_id), value@),
            (exists|i: int|
                0 <= i < old(self).entries().len() && rule_key(#[trigger] old(self).entries()[i])
                    == (session_id, channel_id) && final(self).entries() == old(self).entries().update(
                    i,
                    value@,
                )) || ((forall|i: int|
                0 <= i < old(self).entries().len() ==> rule_key(#[trigger] old(self).entries()[i])
                    != (session_id, channel_id)) && final(self).entries() == old(self).entries().push(
                value@,
            )),
    {
        let ghost v = value@;
        let ghost k = (session_id, channel_id);
        let ghost old_self = *self;
        match self.find(session_id, channel_id) {
            Some(i) => {
                self.tasks.set(i, value);
                assert(self.entries() =~= old_self.entries().update(i as int, v));
                assert forall|a: int, b: int|
                    0 <= a < self.entries().len() && 0 <= b < self.entries().len() && a != b
                        implies rule_key(#[trigger] self.entries()[a]) != rule_key(
                    #[trigger] self.entries()[b],
                ) by {
                    assert(rule_key(self.entries()[a]) == rule_key(old_self.entries()[a]));
                    assert(rule_key(self.entries()[b]) == rule_key(old_self.entries()[b]));
                }
                assert forall|key: (u32, u32)| #[trigger]
                    self.view().contains_key(key) == old_self.view().insert(k, v).contains_key(key)
                by {
                    if self.view().contains_key(key) {
                        let j = choose|j: int| 0 <= j < self.entries().len() && rule_key(#[trigger] self.entries()[j]) == key;
                        if j != i {
                            old_self.lemma_view_at(j);
                        }
                    }
                    if old_self.view().contains_key(key) {
                        let j = choose|j: int| 0 <= j < old_self.entries().len() && rule_key(#[trigger] old_self.entries()[j]) == key;
                        self.lemma_view_at(j);
                    }
                    if key == k {
                        self.lemma_view_at(i as int);
                    }
                }
                assert forall|key: (u32, u32)| #[trigger] self.view().contains_key(key) implies
                    self.view()[key] == old_self.view().insert(k, v)[key] by {
                    let j = choose|j: int| 0 <= j < self.entries().len() && rule_key(#[trigger] self.entries()[j]) == key;
                    self.lemma_view_at(j);
                    if j != i {
                        old_self.lemma_view_at(j);
                    }
                }
                assert(self.view() =~= old_self.view().insert(k, v));
            },
            None => {
                self.tasks.push(value);
                let ghost n = old_self.entries().len();
                assert(self.entries() =~= old_self.entries().push(v));
                assert forall|a: int, b: int|
                    0 <= a < self.entries().len() && 0 <= b < self.entries().len() && a != b
                        implies rule_key(#[trigger] self.entries()[a]) != rule_key(
                    #[trigger] self.entries()[b],
                ) by {
                    if a == n {
                        assert(old_self.view().contains_key(rule_key(old_self.entries()[b])));
                    } else if b == n {
                        assert(old_self.view().contains_key(rule_key(old_self.entries()[a])));
                    }
                }
                assert forall|key: (u32, u32)| #[trigger]
                    self.view().contains_key(key) == old_self.view().insert(k, v).contains_key(key)
                by {
                    if self.view().contains_key(key) {
                        let j = choose|j: int| 0 <= j < self.entries().len() && rule_key(#[trigger] self.entries()[j]) == key;
                        if j != n {
                            old_self.lemma_view_at(j);
                        }
                    }
                    if old_self.view().contains_key(key) {
                        let j = choose|j: int| 0 <= j < old_self.entries().len() && rule_key(#[trigger] old_self.entries()[j]) == key;
                        self.lemma_view_at(j);
                    }
                    if key == k {
                        self.lemma_view_at(n as int);
                    }
                }
                assert forall|key: (u32, u32)| #[trigger] self.view().contains_key(key) implies
                    self.view()[key] == old_self.view().insert(k, v)[key] by {
                    let j = choose|j: int| 0 <= j < self.entries().len() && rule_key(#[trigger] self.entries()[j]) == key;
                    self.lemma_view_at(j);
                    if j != n {
                        old_self.lemma_view_at(j);
                    }
                }
                assert(self.view() =~= old_self.view().insert(k, v));
            },
        }
    }

    /// Drops the rule under (`session_id`, `channel_id`), if any.
    pub fn remove(&mut self, session_id: u32, channel_id: u32)
        requires
            old(self).wf(),
        ensures
            final(self).wf(),
            final(self).view() == old(self).view().remove((session_id, channel_id)),
            (exists|i: int|
                0 <= i < old(self).entries().len() && rule_key(#[trigger] old(self).entries()[i])
                    == (session_id, channel_id) && final(self).entries() == old(self).entries().remove(i))
                || ((forall|i: int|
                0 <= i < old(self).entries().len() ==> rule_key(#[trigger] old(self).entries()[i])
                    != (session_id, channel_id)) && final(self).entries() == old(self).entries()),
    {
        let ghost k = (session_id, channel_id);
        let ghost old_self = *self;
        match self.find(session_id, channel_id) {
            Some(i) => {
                self.tasks.remove(i);
                let ghost e = old_self.entries();
                assert(self.entries() =~= e.remove(i as int));
                assert forall|a: int, b: int|
                    0 <= a < self.entries().len() && 0 <= b < self.entries().len() && a != b
                        implies rule_key(#[trigger] self.entries()[a]) != rule_key(
                    #[trigger] self.entries()[b],
                ) by {
                    let a0 = if a < i { a } else { a + 1 };
                    let b0 = if b < i { b } else { b + 1 };
                    assert(self.entries()[a] == e[a0]);
                    assert(self.entries()[b] == e[b0]);
                }
                assert forall|key: (u32, u32)| #[trigger]
                    self.view().contains_key(key) == old_self.view().remove(k).contains_key(key)
                by {
                    if self.view().contains_key(key) {
                        let j = choose|j: int| 0 <= j < self.entries().len() && rule_key(#[trigger] self.entries()[j]) == key;
                        let j0 = if j < i { j } else { j + 1 };
                        assert(self.entries()[j] == e[j0]);
                        old_self.lemma_view_at(j0);
                    }
                    if old_self.view().contains_key(key) && key != k {
                        let j = choose|j: int| 0 <= j < e.len() && rule_key(#[trigger] e[j]) == key;
                        let j1 = if j < i { j } else { j - 1 };
                        assert(self.entries()[j1] == e[j]);
                        self.lemma_view_at(j1);
                    }
                }
                assert forall|key: (u32, u32)| #[trigger] self.view().contains_key(key) implies
                    self.view()[key] == old_self.view().remove(k)[key] by {
                    let j = choose|j: int| 0 <= j < self.entries().len() && rule_key(#[trigger] self.entries()[j]) == key;
                    let j0 = if j < i { j } else { j + 1 };
                    assert(self.entries()[j] == e[j0]);
                    self.lemma_view_at(j);
                    old_self.lemma_view_at(j0);
                }
                assert(self.view() =~= old_self.view().remove(k));
            },
            None => {
                assert(self.view() =~= old_self.view().remove(k));
            },
        }
    }

    /// The channels of the rules of `session_id`, each once.
    pub fn channels_of(&self, session_id: u32) -> (r: Vec<u32>)
        requires
            self.wf(),
        ensures
            r@.no_duplicates(),
            forall|c: u32| #[trigger] r@.contains(c) <==> self.view().contains_key((session_id, c)),
            r@ == session_channels(self.entries(), session_id),
    {
        let mut r: Vec<u32> = Vec::new();
        let mut i: usize = 0;
        while i < self.tasks.len()
            invariant
                self.wf(),
                i <= self.tasks@.len(),
                r@.no_duplicates(),
                r@ == session_channels(self.entries().subrange(0, i as int), session_id),
                forall|c: u32| #[trigger] r@.contains(c) <==> exists|j: int|
                    0 <= j < i && rule_key(#[trigger] self.entries()[j]) == (session_id, c),
            decreases self.tasks@.len() - i,
        {
            assert(self.entries()[i as int] == self.tasks@[i as int]@);
            assert(self.entries().subrange(0, i + 1).drop_last() =~= self.entries().subrange(0, i as int));
            if self.tasks[i].session_id == session_id {
                let c = self.tasks[i].channel_id;
                proof {
                    if r@.contains(c) {
                        let j = choose|j: int| 0 <= j < i && rule_key(#[trigger] self.entries()[j]) == (session_id, c);
                        assert(false);
                    }
                }
                let ghost r0 = r@;
                r.push(c);
                assert forall|c2: u32| #[trigger] r@.contains(c2) <==> exists|j: int|
                    0 <= j < i + 1 && rule_key(#[trigger] self.entries()[j]) == (session_id, c2) by {
                    if r@.contains(c2) && c2 != c {
                        assert(r0.contains(c2));
                    }
                    if c2 == c {
                        assert(r@[r0.len() as int] == c);
                    }
                    if exists|j: int| 0 <= j < i + 1 && rule_key(#[trigger] self.entries()[j]) == (session_id, c2) {
                        let j = choose|j: int| 0 <= j < i + 1 && rule_key(#[trigger] self.entries()[j]) == (session_id, c2);
                        if j < i {
                            assert(r0.contains(c2));
                            let t = choose|t: int| 0 <= t < r0.len() && r0[t] == c2;
                            assert(r@[t] == c2);
                        }
                    }
                }
            }
            i = i + 1;
        }
        assert(self.entries().subrange(0, self.entries().len() as int) =~= self.entries());
        assert forall|c: u32| #[trigger] r@.contains(c) <==> self.view().contains_key((session_id, c)) by {
            if self.view().contains_key((session_id, c)) {
                let j = choose|j: int| 0 <= j < self.entries().len() && rule_key(#[trigger] self.entries()[j]) == (session_id, c);
            }
        }
        r
    }

    /// A channel of `session_id` whose rule text occurs in `task_string`.
    pub fn get_channel_id(&self, session_id: u32, task_string: &String) -> (r: Option<u32>)
        requires
            self.wf(),
        ensures
            r is Some ==> self.view().contains_key((session_id, r->0)) && contains_seq(
                task_string@,
                self.view()[(session_id, r->0)].task_command,
            ),
            r is None ==> forall|c: u32| #[trigger]
                self.view().contains_key((session_id, c)) ==> !contains_seq(
                    task_string@,
                    self.view()[(session_id, c)].task_command,
                ),
    {
        let mut i: usize = 0;
        while i < self.tasks.len()
            invariant
                self.wf(),
                i <= self.tasks@.len(),
                forall|j: int| 0 <= j < i && (#[trigger] self.entries()[j]).session_id == session_id
                    ==> !contains_seq(task_string@, self.entries()[j].task_command),
            decreases self.tasks@.len() - i,
        {
            assert(self.entries()[i as int] == self.tasks@[i as int]@);
            if self.tasks[i].session_id == session_id && contains_text(
                task_string.as_str(),
                self.tasks[i].task_command.as_str(),
            ) {
                proof {
                    self.lemma_view_at(i as int);
                }
                return Some(self.tasks[i].channel_id);
            }
            i = i + 1;
        }
        assert forall|c: u32| #[trigger] self.view().contains_key((session_id, c)) implies !contains_seq(
            task_string@,
            self.view()[(session_id, c)].task_command,
        ) by {
            let j = choose|j: int| 0 <= j < self.entries().len() && rule_key(#[trigger] self.entries()[j]) == (session_id, c);
            self.lemma_view_at(j);
        }
        None
    }

    /// The listing of every rule, one line each, in store order.
    pub fn dump_task(&self) -> (r: String)
        ensures
            r@ == dump_text(self.entries()),
    {
        let mut r = String::new();
        let mut i: usize = 0;
        while i < self.tasks.len()
            invariant
                i <= self.tasks@.len(),
                r@ == dump_text(self.entries().subrange(0, i as int)),
            decreases self.tasks@.len() - i,
        {
            let ghost pre = self.entries().subrange(0, i as int);
            assert(self.entries().subrange(0, i + 1).drop_last() =~= pre);
            assert(self.entries()[i as int] == self.tasks@[i as int]@);
            let line = dump_line(&self.tasks[i]);
            r.append(line.as_str());
            i = i + 1;
        }
        assert(self.entries().subrange(0, self.entries().len() as int) =~= self.entries());
        r
    }
}

/// The channels of the rules of `session_id` in `e`, in order.
pub open spec fn session_channels(e: Seq<ForwardView>, session_id: u32) -> Seq<u32>
    decreases e.len(),
{
    if e.len() == 0 {
        Seq::empty()
    } else {
        let p = session_channels(e.drop_last(), session_id);
        if e.last().session_id == session_id {
            p.push(e.last().channel_id)
        } else {
            p
        }
    }
}

/// `args[i]:args[i+1]`, or `unknown` when there are not that many pieces.
pub open spec fn describe(args: Seq<Seq<char>>, i: int) -> Seq<char> {
    if 0 <= i && i + 2 <= args.len() {
        args[i] + ":"@ + args[i + 1]
    } else {
        "unknown"@
    }
}

/// The listing line of one rule: its direction, `fport` when no remote
/// spec was parsed and `rport` when one was, then both endpoints.
pub open spec fn dump_line_text(f: ForwardView) -> Seq<char> {
    let (kind, first, second) = if f.remote_args.len() == 0 {
        ("fport"@, describe(f.local_args, 0), describe(f.local_args, 2))
    } else {
        ("rport"@, describe(f.local_args, 0), describe(f.remote_args, 0))
    };
    "session_id:"@ + decimal(f.session_id as nat) + ",\tchannel_id:"@ + decimal(
        f.channel_id as nat,
    ) + ",\tcommand:"@ + kind + " "@ + first + " "@ + second + "\n"@
}

/// The listing of a sequence of rules.
pub open spec fn dump_text(s: Seq<ForwardView>) -> Seq<char>
    decreases s.len(),
{
    if s.len() == 0 {
        Seq::empty()
    } else {
        dump_text(s.drop_last()) + dump_line_text(s.last())
    }
}

fn describe_args(args: &Vec<String>, i: usize) -> (r: String)
    ensures
        r@ == describe(args.deep_view(), i as int),
{
    if args.len() >= 2 && i <= args.len() - 2 {
        assert(args.deep_view()[i as int] == args@[i as int]@);
        assert(args.deep_view()[i + 1] == args@[i + 1]@);
        let mut r = args[i].clone();
        r.append(":");
        r.append(args[i + 1].as_str());
        r
    } else {
        String::from_str("unknown")
    }
}

pub fn dump_line(f: &HdcForward) -> (r: String)
    ensures
        r@ == dump_line_text(f@),
{
    let (kind, first, second) = if f.remote_args.len() == 0 {
        (String::from_str("fport"), describe_args(&f.local_args, 0), describe_args(&f.local_args, 2))
    } else {
        (String::from_str("rport"), describe_args(&f.local_args, 0), describe_args(&f.remote_args, 0))
    };
    let mut r = String::from_str("session_id:");
    r.append(u32_to_text(f.session_id).as_str());
    r.append(",\tchannel_id:");
    r.append(u32_to_text(f.channel_id).as_str());
    r.append(",\tcommand:");
    r.append(kind.as_str());
    r.append(" ");
    r.append(first.as_str());
    r.append(" ");
    r.append(second.as_str());
    r.append("\n");
    r
}

} // verus!
