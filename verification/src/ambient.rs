//! The ambient context of a step: what floats across one turn of a slot and is put back when the
//! turn ends.

use crate::ktype::ScopeId;
use crate::outcome::{FrameId, Obligation};
use vstd::pervasive::unreached;
use vstd::prelude::*;

verus! {

/// What a slot brings along: the scope it runs in, and its lexical position by its place in the
/// table of positions.
#[derive(Clone, Copy, PartialEq, Eq, Structural, Debug)]
pub struct NodePayload {
    pub scope: ScopeId,
    pub chain: usize,
}

/// What a parked slot carries across its wait.
#[derive(Clone, Copy, PartialEq, Eq, Structural, Debug)]
pub struct ParkState {
    /// The declared return that the slot's tail chain has taken on.
    pub obligation: Option<Obligation>,
    /// The frame of the block whose leading statements the slot waits for.
    pub block_frame: Option<FrameId>,
}

/// The ambient context.
#[derive(Clone, Copy, PartialEq, Eq, Structural, Debug)]
pub struct AmbientContext {
    pub active_frame: Option<FrameId>,
    pub run_frame: Option<FrameId>,
    pub active_payload: Option<NodePayload>,
    pub active_park: ParkState,
}

/// What a step displaced.
#[derive(Clone, Copy, PartialEq, Eq, Structural, Debug)]
pub struct SlotStepSave {
    pub prev_frame: Option<FrameId>,
    pub prev_payload: Option<NodePayload>,
    pub prev_park: ParkState,
}

/// Nothing carried across a wait.
pub open spec fn no_park() -> ParkState {
    ParkState { obligation: None, block_frame: None }
}

impl AmbientContext {
    /// A context between steps, before the run has a frame.
    pub fn new() -> (r: AmbientContext)
        ensures
            r == (AmbientContext {
                active_frame: None,
                run_frame: None,
                active_payload: None,
                active_park: no_park(),
            }),
    {
        AmbientContext {
            active_frame: None,
            run_frame: None,
            active_payload: None,
            active_park: ParkState { obligation: None, block_frame: None },
        }
    }

    /// Installs what a woken slot carried across its wait.
    pub fn deposit_park(&mut self, park: ParkState)
        ensures
            *final(self) == (AmbientContext { active_park: park, ..*old(self) }),
    {
        self.active_park = park;
    }

    /// The declared return that the slot's tail chain has taken on.
    pub fn current_obligation(&self) -> (r: Option<Obligation>)
        ensures
            r == self.active_park.obligation,
    {
        self.active_park.obligation
    }

    /// Takes the declared return out.
    pub fn take_obligation(&mut self) -> (r: Option<Obligation>)
        ensures
            r == old(self).active_park.obligation,
            *final(self) == (AmbientContext {
                active_park: ParkState { obligation: None, ..old(self).active_park },
                ..*old(self)
            }),
    {
        let r = self.active_park.obligation;
        self.active_park.obligation = None;
        r
    }

    /// Hands the frame of a block to the wait that is about to begin.
    pub fn deposit_block_frame(&mut self, frame: FrameId)
        requires
            old(self).active_park.block_frame is None,
        ensures
            *final(self) == (AmbientContext {
                active_park: ParkState { block_frame: Some(frame), ..old(self).active_park },
                ..*old(self)
            }),
    {
        self.active_park.block_frame = Some(frame);
    }

    /// Takes the frame of a block out.
    pub fn take_block_frame(&mut self) -> (r: Option<FrameId>)
        ensures
            r == old(self).active_park.block_frame,
            *final(self) == (AmbientContext {
                active_park: ParkState { block_frame: None, ..old(self).active_park },
                ..*old(self)
            }),
    {
        let r = self.active_park.block_frame;
        self.active_park.block_frame = None;
        r
    }

    /// What a slot that goes on or waits carries: the declared return stays with the step, the
    /// frame of a block leaves it.
    pub fn park_state(&mut self) -> (r: ParkState)
        ensures
            r == old(self).active_park,
            *final(self) == (AmbientContext {
                active_park: ParkState { block_frame: None, ..old(self).active_park },
                ..*old(self)
            }),
    {
        let obligation = self.current_obligation();
        let block_frame = self.take_block_frame();
        ParkState { obligation, block_frame }
    }

    /// Whether the run has its frame.
    pub fn has_run_frame(&self) -> (r: bool)
        ensures
            r == (self.run_frame is Some),
    {
        self.run_frame.is_some()
    }

    /// Sets the frame of the run.
    pub fn set_run_frame(&mut self, frame: FrameId)
        ensures
            *final(self) == (AmbientContext { run_frame: Some(frame), ..*old(self) }),
    {
        self.run_frame = Some(frame);
    }

    /// The frame that a submitted slot carries, and whether a frame is active: at the top level it
    /// is the frame of the run.
    pub fn submission_cart(&self) -> (r: (FrameId, bool))
        requires
            self.active_frame is Some || self.run_frame is Some,
        ensures
            r.1 == (self.active_frame is Some),
            match self.active_frame {
                Some(own) => r.0 == own,
                None => Some(r.0) == self.run_frame,
            },
    {
        match self.active_frame {
            Some(own) => (own, true),
            None => match self.run_frame {
                Some(run) => (run, false),
                None => unreached(),
            },
        }
    }

    /// The context inside a step.
    pub open spec fn inside(self, frame: FrameId, payload: NodePayload) -> AmbientContext {
        AmbientContext {
            active_frame: Some(frame),
            active_payload: Some(payload),
            active_park: no_park(),
            ..self
        }
    }

    /// What a step displaces.
    pub open spec fn displaced(self) -> SlotStepSave {
        SlotStepSave {
            prev_frame: self.active_frame,
            prev_payload: self.active_payload,
            prev_park: self.active_park,
        }
    }

    /// The context with what a step displaced put back.
    pub open spec fn restored(self, save: SlotStepSave) -> AmbientContext {
        AmbientContext {
            active_frame: save.prev_frame,
            active_payload: save.prev_payload,
            active_park: save.prev_park,
            ..self
        }
    }

    /// Enters a step: installs the slot's frame and payload, and starts with nothing carried.
    pub fn install_slot_step(&mut self, frame: FrameId, payload: NodePayload) -> (r: SlotStepSave)
        ensures
            r == old(self).displaced(),
            *final(self) == old(self).inside(frame, payload),
    {
        let save = SlotStepSave {
            prev_frame: self.active_frame,
            prev_payload: self.active_payload,
            prev_park: self.active_park,
        };
        self.active_frame = Some(frame);
        self.active_payload = Some(payload);
        self.active_park = ParkState { obligation: None, block_frame: None };
        save
    }

    /// Leaves a step: puts back what it displaced.
    pub fn restore_slot_step(&mut self, save: SlotStepSave)
        ensures
            *final(self) == old(self).restored(save),
    {
        self.active_frame = save.prev_frame;
        self.active_payload = save.prev_payload;
        self.active_park = save.prev_park;
    }

    /// The context with another active frame.
    pub open spec fn in_frame(self, frame: Option<FrameId>) -> AmbientContext {
        AmbientContext { active_frame: frame, ..self }
    }

    /// Makes a frame the active one and hands back the one before it.
    pub fn install_active_frame(&mut self, frame: FrameId) -> (r: Option<FrameId>)
        ensures
            r == old(self).active_frame,
            *final(self) == old(self).in_frame(Some(frame)),
    {
        let prev = self.active_frame;
        self.active_frame = Some(frame);
        prev
    }

    /// Puts the frame back that was active before.
    pub fn restore_active_frame(&mut self, prev: Option<FrameId>)
        ensures
            *final(self) == old(self).in_frame(prev),
    {
        self.active_frame = prev;
    }

    /// Runs one step of a slot: `body` gets the context inside the step, and what the step
    /// displaced is put back behind it.
    pub fn with_slot_step<R, F: FnOnce(AmbientContext) -> (AmbientContext, R)>(
        &mut self,
        frame: FrameId,
        payload: NodePayload,
        body: F,
    ) -> (r: R)
        requires
            body.requires((old(self).inside(frame, payload),)),
        ensures
            exists|during: AmbientContext|
                {
                    &&& #[trigger] body.ensures((old(self).inside(frame, payload),), (during, r))
                    &&& *final(self) == during.restored(old(self).displaced())
                },
    {
        let save = self.install_slot_step(frame, payload);
        let (during, r) = body(*self);
        *self = during;
        self.restore_slot_step(save);
        r
    }

    /// Runs `body` with `frame` as the active one, and puts the frame before it back.
    pub fn with_active_frame<R, F: FnOnce(AmbientContext) -> (AmbientContext, R)>(
        &mut self,
        frame: FrameId,
        body: F,
    ) -> (r: R)
        requires
            body.requires((old(self).in_frame(Some(frame)),)),
        ensures
            exists|during: AmbientContext|
                {
                    &&& #[trigger] body.ensures((old(self).in_frame(Some(frame)),), (during, r))
                    &&& *final(self) == during.in_frame(old(self).active_frame)
                },
    {
        let prev = self.install_active_frame(frame);
        let (during, r) = body(*self);
        *self = during;
        self.restore_active_frame(prev);
        r
    }
}

/// Whatever a step does to the context, leaving it puts back what was there before; only the frame
/// of the run, which no step displaces, keeps what the step made of it.
pub proof fn steps_leave_no_trace(before: AmbientContext, during: AmbientContext)
    ensures
        during.restored(before.displaced()) == (AmbientContext {
            run_frame: during.run_frame,
            ..before
        }),
{
}

} // verus!
