//! Forwarded-stream records and the store that owns them.
use std::collections::HashMap;
use vstd::prelude::*;
use vstd::set_lib::lemma_len_subset;
use vstd::std_specs::hash::group_hash_axioms;

verus! {

broadcast use group_hash_axioms;

/// The kind of local endpoint a forwarded stream attaches to.
#[derive(Clone, Copy, Debug, PartialEq, Eq, Structural)]
pub enum ForwardType {
    Tcp,
    Device,
    Abstract,
    FileSystem,
    Jdwp,
    Ark,
    Reserved,
}

/// One live or pending forwarded stream.
#[derive(Clone, Debug)]
pub struct ContextForward {
    pub session_id: u32,
    pub channel_id: u32,
    /// Set on a connection that only validates a rule and never relays.
    pub check_order: bool,
    /// Set on the peer that accepted the local connection.
    pub is_master: bool,
    pub id: u32,
    /// Owned descriptor, `-1` while none is open.
    pub fd: i32,
    /// Descriptor handed to a debugged process, `-1` while none is open.
    pub target_fd: i32,
    pub forward_type: ForwardType,
    pub local_args: Vec<String>,
    pub remote_args: Vec<String>,
    pub task_command: String,
    pub last_error: String,
    pub remote_parameters: String,
    pub dev_path: String,
}

/// What a `ContextForward` holds, with each string as its characters.
pub struct ContextView {
    pub session_id: u32,
    pub channel_id: u32,
    pub check_order: bool,
    pub is_master: bool,
    pub id: u32,
    pub fd: i32,
    pub target_fd: i32,
    pub forward_type: ForwardType,
    pub local_args: Seq<Seq<char>>,
    pub remote_args: Seq<Seq<char>>,
    pub task_command: Seq<char>,
    pub last_error: Seq<char>,
    pub remote_parameters: Seq<char>,
    pub dev_path: Seq<char>,
}

impl View for ContextForward {
    type V = ContextView;

    open spec fn view(&self) -> ContextView {
        ContextView {
            session_id: self.session_id,
            channel_id: self.channel_id,
            check_order: self.check_order,
            is_master: self.is_master,
            id: self.id,
            fd: self.fd,
            target_fd: self.target_fd,
            forward_type: self.forward_type,
            local_args: self.local_args.deep_view(),
            remote_args: self.remote_args.deep_view(),
            task_command: self.task_command@,
            last_error: self.last_error@,
            remote_parameters: self.remote_parameters@,
            dev_path: self.dev_path@,
        }
    }
}

/// The record of a stream just allocated: nothing parsed, nothing open.
pub open spec fn fresh_context(session_id: u32, channel_id: u32, is_master: bool, id: u32) -> ContextView {
    ContextView {
        session_id,
        channel_id,
        check_order: false,
        is_master,
        id,
        fd: -1i32,
        target_fd: -1i32,
        forward_type: ForwardType::Tcp,
        local_args: Seq::empty(),
        remote_args: Seq::empty(),
        task_command: Seq::empty(),
        last_error: Seq::empty(),
        remote_parameters: Seq::empty(),
        dev_path: Seq::empty(),
    }
}

/// A copy of a list of strings.
pub fn copy_strings(v: &Vec<String>) -> (r: Vec<String>)
    ensures
        r.deep_view() == v.deep_view(),
{
    let mut r: Vec<String> = Vec::new();
    let mut i: usize = 0;
    while i < v.len()
        invariant
            i <= v@.len(),
            r.deep_view() == v.deep_view().subrange(0, i as int),
        decreases v@.len() - i,
    {
        let s = v[i].clone();
        let ghost rd = r.deep_view();
        assert(s@ == v.deep_view()[i as int]);
        r.push(s);
        assert(r.deep_view() =~= rd.push(s@));
        i = i + 1;
        assert(r.deep_view() =~= v.deep_view().subrange(0, i as int));
    }
    assert(v.deep_view().subrange(0, v@.len() as int) =~= v.deep_view());
    r
}

impl ContextForward {
    /// A fresh record for stream `id` of the given session and channel.
    pub fn new(session_id: u32, channel_id: u32, is_master: bool, id: u32) -> (r: ContextForward)
        ensures
            r@ == fresh_context(session_id, channel_id, is_master, id),
    {
        let r = ContextForward {
            session_id,
            channel_id,
            check_order: false,
            is_master,
            id,
            fd: -1,
            target_fd: -1,
            forward_type: ForwardType::Tcp,
            local_args: Vec::new(),
            remote_args: Vec::new(),
            task_command: String::new(),
            last_error: String::new(),
            remote_parameters: String::new(),
            dev_path: String::new(),
        };
        assert(r.local_args.deep_view() =~= Seq::<Seq<char>>::empty());
        assert(r.remote_args.deep_view() =~= Seq::<Seq<char>>::empty());
        r
    }

    /// A copy that holds the same values.
    pub fn snapshot(&self) -> (r: ContextForward)
        ensures
            r@ == self@,
    {
        ContextForward {
            session_id: self.session_id,
            channel_id: self.channel_id,
            check_order: self.check_order,
            is_master: self.is_master,
            id: self.id,
            fd: self.fd,
            target_fd: self.target_fd,
            forward_type: self.forward_type,
            local_args: copy_strings(&self.local_args),
            remote_args: copy_strings(&self.remote_args),
            task_command: self.task_command.clone(),
            last_error: self.last_error.clone(),
            remote_parameters: self.remote_parameters.clone(),
            dev_path: self.dev_path.clone(),
        }
    }
}

/// The `k`-th identifier tried from `start` on, counting modulo 2^32.
pub open spec fn candidate_id(start: u32, k: int) -> u32 {
    (if start + k <= u32::MAX {
        start + k
    } else {
        start + k - 0x1_0000_0000
    }) as u32
}

/// Two allocations in a row give distinct ids, and the store then holds
/// both new records and every record it held before.
pub proof fn lemma_allocations_distinct(
    m0: Map<u32, ContextView>,
    id1: u32,
    c1: ContextView,
    m1: Map<u32, ContextView>,
    id2: u32,
    c2: ContextView,
    m2: Map<u32, ContextView>,
)
    requires
        !m0.contains_key(id1),
        m1 == m0.insert(id1, c1),
        !m1.contains_key(id2),
        m2 == m1.insert(id2, c2),
    ensures
        id1 != id2,
        m2.contains_key(id1) && m2[id1] == c1,
        m2.contains_key(id2) && m2[id2] == c2,
        forall|k: u32| #[trigger] m0.contains_key(k) ==> m2.contains_key(k) && m2[k] == m0[k],
{
}

/// The store of forwarded streams, keyed by stream id.
pub struct ForwardContextMap {
    contexts: HashMap<u32, ContextForward>,
    next_id: u32,
}

impl ForwardContextMap {
    /// The records held, by id.
    pub closed spec fn view(&self) -> Map<u32, ContextView> {
        Map::new(|k: u32| self.contexts@.contains_key(k), |k: u32| self.contexts@[k]@)
    }

    /// Every record is stored under its own id.
    pub open spec fn wf(&self) -> bool {
        forall|k: u32| #[trigger] self.view().contains_key(k) ==> self.view()[k].id == k
    }

    pub closed spec fn spec_len(&self) -> nat {
        self.contexts@.len()
    }

    /// An empty store.
    pub fn new() -> (r: ForwardContextMap)
        ensures
            r.view() == Map::<u32, ContextView>::empty(),
    {
        let r = ForwardContextMap { contexts: HashMap::new(), next_id: 1 };
        assert(r.view() =~= Map::<u32, ContextView>::empty());
        r
    }

    /// An empty store whose first allocation tries `first_id`.
    pub fn starting_at(first_id: u32) -> (r: ForwardContextMap)
        ensures
            r.view() == Map::<u32, ContextView>::empty(),
    {
        let r = ForwardContextMap { contexts: HashMap::new(), next_id: first_id };
        assert(r.view() =~= Map::<u32, ContextView>::empty());
        r
    }

    /// How many records are held.
    pub fn len(&self) -> (r: usize)
        ensures
            r == self.spec_len(),
            self.spec_len() == self.view().dom().len(),
    {
        assert(self.view().dom() =~= self.contexts@.dom());
        self.contexts.len()
    }

    /// Stores `value` under `cid`, replacing any record there.
    pub fn update(&mut self, cid: u32, value: ContextForward)
        requires
            value.id == cid,
        ensures
            final(self).view() == old(self).view().insert(cid, value@),
    {
        let ghost v = value@;
        self.contexts.insert(cid, value);
        assert(self.view() =~= old(self).view().insert(cid, v));
    }

    /// Drops the record of `cid`; dropping an absent id changes nothing.
    pub fn remove(&mut self, cid: u32)
        ensures
            final(self).view() == old(self).view().remove(cid),
    {
        let _ = self.contexts.remove(&cid);
        assert(self.view() =~= old(self).view().remove(cid));
    }

    /// A copy of the record of `cid`, never a live alias.
    pub fn get(&self, cid: u32) -> (r: Option<ContextForward>)
        ensures
            r is Some <==> self.view().contains_key(cid),
            r is Some ==> r->0@ == self.view()[cid],
    {
        match self.contexts.get(&cid) {
            Some(c) => Some(c.snapshot()),
            None => None,
        }
    }

    /// Whether a record for `cid` is held.
    pub fn contains(&self, cid: u32) -> (r: bool)
        ensures
            r == self.view().contains_key(cid),
    {
        self.contexts.contains_key(&cid)
    }

    /// Allocates and stores a fresh record under an id that no live record
    /// holds. `None` only when every 32-bit id but one is taken.
    pub fn malloc_context(&mut self, session_id: u32, channel_id: u32, is_master: bool) -> (r:
        Option<ContextForward>)
        ensures
            r is None <==> old(self).spec_len() >= u32::MAX,
            r is None ==> final(self).view() == old(self).view(),
            r is Some ==> {
                let c = r->0;
                &&& !old(self).view().contains_key(c.id)
                &&& c@ == fresh_context(session_id, channel_id, is_master, c.id)
                &&& final(self).view() == old(self).view().insert(c.id, c@)
            },
    {
        if self.contexts.len() >= 0xffff_ffff {
            return None;
        }
        let start = self.next_id;
        let mut cand = start;
        let mut k: u32 = 0;
        let ghost mut tried: Set<u32> = Set::empty();
        while self.contexts.contains_key(&cand)
            invariant
                self.contexts@.dom().finite(),
                self.contexts@.len() < u32::MAX,
                tried.finite(),
                tried.len() == k,
                tried.subset_of(self.contexts@.dom()),
                k <= self.contexts@.len(),
                cand == candidate_id(start, k as int),
                forall|x: u32|
                    #[trigger] tried.contains(x) ==> exists|j: int|
                        0 <= j < k && x == candidate_id(start, j),
            decreases self.contexts@.len() - k,
        {
            proof {
                if tried.contains(cand) {
                    let j = choose|j: int| 0 <= j < k && cand == candidate_id(start, j);
                    assert(false);
                }
                let t2 = tried.insert(cand);
                assert forall|x: u32| #[trigger] t2.contains(x) implies exists|j: int|
                    0 <= j < k + 1 && x == candidate_id(start, j) by {
                    if x != cand {
                        let j = choose|j: int| 0 <= j < k && x == candidate_id(start, j);
                        assert(0 <= j < k + 1 && x == candidate_id(start, j));
                    } else {
                        assert(x == candidate_id(start, k as int));
                    }
                }
                tried = t2;
                lemma_len_subset(tried, self.contexts@.dom());
            }
            k = k + 1;
            cand = if cand == 0xffff_ffff { 0 } else { cand + 1 };
        }
        self.next_id = if cand == 0xffff_ffff { 0 } else { cand + 1 };
        let c = ContextForward::new(session_id, channel_id, is_master, cand);
        let ghost cv = c@;
        self.contexts.insert(cand, c.snapshot());
        assert(self.view() =~= old(self).view().insert(cand, cv));
        Some(c)
    }
}

} // verus!
