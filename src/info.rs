//! Rules that the peer confirmed, as the host lists and removes them.
use crate::protocol::text_of;
use crate::text::{contains_seq, contains_text};
use vstd::prelude::*;
use vstd::string::*;
use vstd::utf8::{decode_utf8, valid_utf8};

verus! {

/// One confirmed rule.
#[derive(Clone, Debug)]
pub struct HdcForwardInfo {
    pub session_id: u32,
    pub channel_id: u32,
    /// Set for a reverse (device-to-host) rule.
    pub forward_direction: bool,
    /// Direction tag (`1|` or `0|`) followed by the rule text.
    pub task_string: String,
    pub connect_key: String,
}

pub struct InfoView {
    pub session_id: u32,
    pub channel_id: u32,
    pub forward_direction: bool,
    pub task_string: Seq<char>,
    pub connect_key: Seq<char>,
}

impl View for HdcForwardInfo {
    type V = InfoView;

    open spec fn view(&self) -> InfoView {
        InfoView {
            session_id: self.session_id,
            channel_id: self.channel_id,
            forward_direction: self.forward_direction,
            task_string: self.task_string@,
            connect_key: self.connect_key@,
        }
    }
}

impl HdcForwardInfo {
    pub fn new(
        session_id: u32,
        channel_id: u32,
        forward_direction: bool,
        task_string: String,
        connect_key: String,
    ) -> (r: HdcForwardInfo)
        ensures
            r@ == (InfoView {
                session_id,
                channel_id,
                forward_direction,
                task_string: task_string@,
                connect_key: connect_key@,
            }),
    {
        HdcForwardInfo { session_id, channel_id, forward_direction, task_string, connect_key }
    }

    /// A copy that holds the same values.
    pub fn snapshot(&self) -> (r: HdcForwardInfo)
        ensures
            r@ == self@,
    {
        HdcForwardInfo {
            session_id: self.session_id,
            channel_id: self.channel_id,
            forward_direction: self.forward_direction,
            task_string: self.task_string.clone(),
            connect_key: self.connect_key.clone(),
        }
    }
}

/// The text that `remove_forward` looks for: the direction tag, then the
/// rule text.
pub open spec fn tagged(task_string: Seq<char>, forward_direction: bool) -> Seq<char> {
    (if forward_direction {
        "1|"@
    } else {
        "0|"@
    }) + task_string
}

/// Whether a confirmed rule is the one that a removal names.
pub open spec fn removal_matches(i: InfoView, task_string: Seq<char>, forward_direction: bool) -> bool {
    contains_seq(i.task_string, tagged(task_string, forward_direction)) && i.forward_direction
        == forward_direction
}

/// `after` is `before` with `v` stored: in place of the rule with the same
/// text, or at the end when there is none.
pub open spec fn stored(before: Seq<InfoView>, after: Seq<InfoView>, v: InfoView) -> bool {
    (exists|i: int|
        0 <= i < before.len() && (#[trigger] before[i]).task_string == v.task_string && after
            == before.update(i, v)) || ((forall|i: int|
        0 <= i < before.len() ==> (#[trigger] before[i]).task_string != v.task_string) && after
        == before.push(v))
}

/// The confirmed rule that a success payload records.
pub open spec fn confirmed(session_id: u32, channel_id: u32, payload: Seq<u8>) -> InfoView {
    InfoView {
        session_id,
        channel_id,
        forward_direction: payload[0] == 49u8,
        task_string: decode_utf8(payload),
        connect_key: "unknow key"@,
    }
}

/// The confirmed rules, one per rule text.
pub struct HdcForwardInfoMap {
    infos: Vec<HdcForwardInfo>,
}

impl HdcForwardInfoMap {
    /// The confirmed rules, in the order they were first stored.
    pub closed spec fn entries(&self) -> Seq<InfoView> {
        Seq::new(self.infos@.len(), |i: int| self.infos@[i]@)
    }

    /// At most one confirmed rule per rule text.
    pub closed spec fn wf(&self) -> bool {
        forall|i: int, j: int|
            0 <= i < self.entries().len() && 0 <= j < self.entries().len() && i != j
                ==> (#[trigger] self.entries()[i]).task_string != (#[trigger] self.entries()[j]).task_string
    }

    pub fn new() -> (r: HdcForwardInfoMap)
        ensures
            r.wf(),
            r.entries() == Seq::<InfoView>::empty(),
    {
        let r = HdcForwardInfoMap { infos: Vec::new() };
        assert(r.entries() =~= Seq::<InfoView>::empty());
        r
    }

    /// Stores `info`, replacing the one with the same rule text if any.
    pub fn put(&mut self, info: HdcForwardInfo)
        requires
            old(self).wf(),
        ensures
            final(self).wf(),
            (exists|i: int|
                0 <= i < old(self).entries().len() && (#[trigger] old(self).entries()[i]).task_string
                    == info@.task_string) ==> (exists|i: int|
                0 <= i < old(self).entries().len() && (#[trigger] old(self).entries()[i]).task_string
                    == info@.task_string && final(self).entries() == old(self).entries().update(
                    i,
                    info@,
                )),
            (forall|i: int|
                0 <= i < old(self).entries().len() ==> (#[trigger] old(self).entries()[i]).task_string
                    != info@.task_string) ==> final(self).entries() == old(self).entries().push(info@),
    {
        let ghost v = info@;
        let ghost e = self.entries();
        let mut i: usize = 0;
        while i < self.infos.len()
            invariant
                self.entries() == e,
                e == old(self).entries(),
                old(self).wf(),
                v == info@,
                i <= self.infos@.len(),
                forall|j: int| 0 <= j < i ==> (#[trigger] e[j]).task_string != v.task_string,
            decreases self.infos@.len() - i,
        {
            assert(e[i as int] == self.infos@[i as int]@);
            if self.infos[i].task_string == info.task_string {
                let ghost before = self.infos@;
                self.infos.set(i, info);
                assert(self.infos@ == before.update(i as int, info));
                assert(self.entries().len() == e.len());
                assert forall|j: int| 0 <= j < e.len() implies self.entries()[j] == e.update(i as int, v)[j] by {
                    if j != i {
                        assert(self.infos@[j] == before[j]);
                    }
                }
                assert(self.entries() =~= e.update(i as int, v));
                assert forall|a: int, b: int|
                    0 <= a < self.entries().len() && 0 <= b < self.entries().len() && a != b
                        implies (#[trigger] self.entries()[a]).task_string != (
                    #[trigger] self.entries()[b]).task_string by {
                    assert(self.entries()[a].task_string == e[a].task_string);
                    assert(self.entries()[b].task_string == e[b].task_string);
                }
                return;
            }
            i = i + 1;
        }
        self.infos.push(info);
        assert(self.entries() =~= e.push(v));
    }

    /// Copies of every confirmed rule.
    pub fn get_all_forward_infos(&self) -> (r: Vec<HdcForwardInfo>)
        ensures
            r@.len() == self.entries().len(),
            forall|i: int| 0 <= i < r@.len() ==> (#[trigger] r@[i])@ == self.entries()[i],
    {
        let mut r: Vec<HdcForwardInfo> = Vec::new();
        let mut i: usize = 0;
        while i < self.infos.len()
            invariant
                i <= self.infos@.len(),
                r@.len() == i,
                forall|j: int| 0 <= j < i ==> (#[trigger] r@[j])@ == self.entries()[j],
            decreases self.infos@.len() - i,
        {
            r.push(self.infos[i].snapshot());
            i = i + 1;
        }
        r
    }

    /// Removes the first confirmed rule whose text holds the tagged
    /// `task_string` and whose direction is `forward_direction`; whether
    /// there was one.
    pub fn remove_forward(&mut self, task_string: &String, forward_direction: bool) -> (r: bool)
        requires
            old(self).wf(),
        ensures
            final(self).wf(),
            r <==> exists|i: int|
                0 <= i < old(self).entries().len() && removal_matches(
                    #[trigger] old(self).entries()[i],
                    task_string@,
                    forward_direction,
                ),
            r ==> exists|i: int|
                0 <= i < old(self).entries().len() && removal_matches(
                    #[trigger] old(self).entries()[i],
                    task_string@,
                    forward_direction,
                ) && final(self).entries() == old(self).entries().remove(i),
            !r ==> final(self).entries() == old(self).entries(),
    {
        let mut key = String::from_str(if forward_direction {
            "1|"
        } else {
            "0|"
        });
        key.append(task_string.as_str());
        assert(key@ == tagged(task_string@, forward_direction));
        let ghost e = self.entries();
        let mut i: usize = 0;
        while i < self.infos.len()
            invariant
                self.entries() == e,
                e == old(self).entries(),
                old(self).wf(),
                key@ == tagged(task_string@, forward_direction),
                i <= self.infos@.len(),
                forall|j: int| 0 <= j < i ==> !removal_matches(#[trigger] e[j], task_string@, forward_direction),
            decreases self.infos@.len() - i,
        {
            assert(e[i as int] == self.infos@[i as int]@);
            if contains_text(self.infos[i].task_string.as_str(), key.as_str())
                && self.infos[i].forward_direction == forward_direction {
                assert(removal_matches(e[i as int], task_string@, forward_direction));
                self.infos.remove(i);
                assert(self.entries() =~= e.remove(i as int));
                assert forall|a: int, b: int|
                    0 <= a < self.entries().len() && 0 <= b < self.entries().len() && a != b
                        implies (#[trigger] self.entries()[a]).task_string != (
                    #[trigger] self.entries()[b]).task_string by {
                    let a0 = if a < i { a } else { a + 1 };
                    let b0 = if b < i { b } else { b + 1 };
                    assert(self.entries()[a] == e[a0]);
                    assert(self.entries()[b] == e[b0]);
                }
                return true;
            }
            i = i + 1;
        }
        false
    }

    /// Records a rule that the peer confirmed: the payload is its tagged
    /// text, `1|` for a reverse rule. Nothing is stored for an empty or
    /// non-UTF-8 payload.
    pub fn on_forward_success(&mut self, session_id: u32, channel_id: u32, payload: &[u8]) -> (r: bool)
        requires
            old(self).wf(),
        ensures
            final(self).wf(),
            r == (payload@.len() > 0 && valid_utf8(payload@)),
            !r ==> final(self).entries() == old(self).entries(),
            r ==> stored(old(self).entries(), final(self).entries(), confirmed(session_id, channel_id, payload@)),
    {
        if payload.len() == 0 {
            return false;
        }
        let forward_direction = payload[0] == 49u8;
        match text_of(payload) {
            Some(task_string) => {
                let info = HdcForwardInfo::new(
                    session_id,
                    channel_id,
                    forward_direction,
                    task_string,
                    String::from_str("unknow key"),
                );
                self.put(info);
                true
            },
            None => false,
        }
    }
}

} // verus!
