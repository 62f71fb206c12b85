//! Per-session identity: the stable session id, display name, frequency,
//! modulation, optional unit binding, and the shared position handle.
use vstd::prelude::*;
use vstd::string::{StringSliceAdditionalSpecFns, StrSliceExecFns};
use crate::position::{Position, PositionHandle};
use crate::sguid::{create_sguid, sguid_wf};
use crate::util::copy_bytes;

verus! {

/// Binding of a session to an in-sim unit.
#[derive(Debug)]
pub struct UnitInfo {
    pub id: u32,
    pub name: Vec<u8>,
}

impl Clone for UnitInfo {
    fn clone(&self) -> (r: Self)
        ensures
            r.id == self.id,
            r.name@ == self.name@,
    {
        UnitInfo { id: self.id, name: copy_bytes(&self.name) }
    }
}

/// A radio client session identity. The session id is drawn once at
/// construction and never changes; the position lives behind a shared
/// handle so the host simulator can update it concurrently.
pub struct Client {
    sguid: Vec<u8>,
    name: Vec<u8>,
    freq: u64,
    m: Vec<u8>,
    pos: PositionHandle,
    unit: Option<UnitInfo>,
}

impl Client {
    /// The session id bytes.
    pub closed spec fn spec_sguid(&self) -> Seq<u8> {
        self.sguid@
    }

    /// The display name bytes.
    pub closed spec fn spec_name(&self) -> Seq<u8> {
        self.name@
    }

    /// The transmission frequency in hertz.
    pub closed spec fn spec_freq(&self) -> u64 {
        self.freq
    }

    /// The modulation as entered, compared against `FM` downstream.
    pub closed spec fn spec_m(&self) -> Seq<u8> {
        self.m@
    }

    /// The optional unit binding.
    pub closed spec fn spec_unit(&self) -> Option<UnitInfo> {
        self.unit
    }

    /// The shared position handle.
    pub closed spec fn spec_pos(&self) -> PositionHandle {
        self.pos
    }

    /// A well-formed session carries a 22-byte alphanumeric session id.
    pub open spec fn wf(&self) -> bool {
        sguid_wf(self.spec_sguid())
    }

    pub fn new(name: &str, freq: u64, m: &str) -> (r: Self)
        ensures
            r.wf(),
            r.spec_name() == name.spec_bytes(),
            r.spec_freq() == freq,
            r.spec_m() == m.spec_bytes(),
            r.spec_unit() is None,
    {
        Client {
            sguid: create_sguid(),
            name: name.as_bytes_vec(),
            freq,
            m: m.as_bytes_vec(),
            pos: PositionHandle::new(Position::default()),
            unit: None,
        }
    }

    pub fn sguid(&self) -> (r: &Vec<u8>)
        ensures
            r@ == self.spec_sguid(),
    {
        &self.sguid
    }

    pub fn name(&self) -> (r: &Vec<u8>)
        ensures
            r@ == self.spec_name(),
    {
        &self.name
    }

    pub fn m(&self) -> (r: &Vec<u8>)
        ensures
            r@ == self.spec_m(),
    {
        &self.m
    }

    pub fn freq(&self) -> (r: u64)
        ensures
            r == self.spec_freq(),
    {
        self.freq
    }

    /// A consistent snapshot of the shared position. The value is
    /// whatever the most recent `set_position` on any handle stored.
    pub fn position(&self) -> Position {
        self.pos.get()
    }

    /// A clone of the shared position handle; writes through it are
    /// seen by this session's own snapshots.
    pub fn position_handle(&self) -> (r: PositionHandle)
        ensures
            r == self.spec_pos(),
    {
        self.pos.clone()
    }

    pub fn unit(&self) -> (r: Option<&UnitInfo>)
        ensures
            match r {
                Some(u) => self.spec_unit() is Some && *u == self.spec_unit()->0,
                None => self.spec_unit() is None,
            },
    {
        self.unit.as_ref()
    }

    /// Replaces the shared position in one step.
    pub fn set_position(&mut self, pos: Position)
        ensures
            final(self).spec_sguid() == old(self).spec_sguid(),
            final(self).spec_name() == old(self).spec_name(),
            final(self).spec_freq() == old(self).spec_freq(),
            final(self).spec_m() == old(self).spec_m(),
            final(self).spec_unit() == old(self).spec_unit(),
            final(self).spec_pos() == old(self).spec_pos(),
    {
        self.pos.set(pos);
    }

    /// Binds the session to the in-sim unit `id` under `name`.
    pub fn set_unit(&mut self, id: u32, name: &str)
        ensures
            final(self).spec_unit() matches Some(u) && u.id == id && u.name@
                == name.spec_bytes(),
            final(self).spec_sguid() == old(self).spec_sguid(),
            final(self).spec_name() == old(self).spec_name(),
            final(self).spec_freq() == old(self).spec_freq(),
            final(self).spec_m() == old(self).spec_m(),
            final(self).spec_pos() == old(self).spec_pos(),
    {
        self.unit = Some(UnitInfo { id, name: name.as_bytes_vec() });
    }
}

impl Clone for Client {
    /// The clone shares the position cell and keeps every identity field.
    fn clone(&self) -> (r: Self)
        ensures
            r.spec_sguid() == self.spec_sguid(),
            r.spec_name() == self.spec_name(),
            r.spec_freq() == self.spec_freq(),
            r.spec_m() == self.spec_m(),
            r.spec_pos() == self.spec_pos(),
            match r.spec_unit() {
                Some(u) => self.spec_unit() is Some && u.id == self.spec_unit()->0.id
                    && u.name@ == self.spec_unit()->0.name@,
                None => self.spec_unit() is None,
            },
    {
        Client {
            sguid: copy_bytes(&self.sguid),
            name: copy_bytes(&self.name),
            freq: self.freq,
            m: copy_bytes(&self.m),
            pos: self.pos.clone(),
            unit: match &self.unit {
                Some(u) => Some(u.clone()),
                None => None,
            },
        }
    }
}

} // verus!
