//! The worker-lane state: the draft being edited, the cloth being shown,
//! and the render in flight. Commands mirror the channel protocol of the
//! surrounding program; the driving loop around this state performs the
//! channel sends and polls, and hands each received command here.

use vstd::prelude::*;

use crate::cloth::Cloth;
use crate::drafting::Draft;
use crate::drafting::Quadstate;
use crate::drafting::link_line;
use crate::drafting::pin_line;
use crate::drafting::rigid_line;
use crate::fixed::Fx;
use crate::fixed::SCALE;
use crate::geom::COORD_MAX;
use crate::parse::DraftError;
use crate::render::RenderJob;
use crate::render::rendered_from;

verus! {

/// The tuning values a render request carries.
#[derive(Clone, Copy, Debug)]
pub struct RenderSettings {
    /// Sampling step in draft space.
    pub detail: Fx,
    /// Neighborhood half-edge.
    pub stiffness: u32,
    /// Lattice-to-world factor.
    pub scale: Fx,
    /// Downward acceleration per tick.
    pub gravity: Fx,
    /// Velocity damping per tick.
    pub drag: Fx,
    /// Spring strength.
    pub strength: Fx,
    /// Seam strength.
    pub seam_strength: Fx,
}

impl RenderSettings {
    /// The machine limits a render request must respect.
    pub open spec fn ok(self) -> bool {
        &&& 1 <= self.detail.raw <= COORD_MAX as int / 2
        &&& 0 <= self.scale.raw <= crate::cloth::SCALE_MAX as int
        &&& self.stiffness <= 100
    }

    /// Check the machine limits.
    pub fn check(&self) -> (r: bool)
        ensures
            r == self.ok(),
    {
        1 <= self.detail.raw && self.detail.raw <= COORD_MAX / 2 && 0 <= self.scale.raw
            && self.scale.raw <= crate::cloth::SCALE_MAX && self.stiffness <= 100
    }
}

/// What one poll of the render returned.
pub enum RenderPoll {
    /// No render is in flight.
    Idle,
    /// The render advanced; its progress so far, in `[0, 1]`.
    Progress(Fx),
    /// The render finished and the cloth was replaced.
    Done,
}

/// The worker-lane state.
pub struct Workspace {
    /// The draft being edited.
    pub draft: Draft,
    /// The cloth being simulated and shown.
    pub cloth: Cloth,
    /// The render in flight, if any.
    pub render: Option<RenderJob>,
}

impl Workspace {
    /// The session invariant.
    pub open spec fn wf(self) -> bool {
        &&& self.draft.wf()
        &&& self.cloth.wf()
        &&& match self.render {
            Some(j) => j.wf() && !(j.phase is Finished),
            None => true,
        }
    }

    /// An empty drafting session showing the inert cloth.
    pub fn new() -> (r: Workspace)
        ensures
            r.wf(),
            r.draft.lines@.len() == 0,
            r.cloth.segments@.len() == 0,
            r.render is None,
    {
        Workspace { draft: Draft::empty(), cloth: Cloth::generate_from_none(), render: None }
    }

    /// Replace the draft from document bytes: the new draft is exactly
    /// what the document scan yields. A load error leaves everything
    /// untouched; success drops any render in flight.
    pub fn load_draft(&mut self, text: &[u8]) -> (r: Result<(), DraftError>)
        requires
            old(self).wf(),
        ensures
            final (self).wf(),
            final (self).cloth == old(self).cloth,
            r is Ok <==> crate::parse::doc_lines(text@) is Some,
            r is Err ==> *final (self) == *old(self),
            r is Ok ==> final (self).render is None && Some(final (self).draft.lines@)
                == crate::parse::doc_lines(text@) && final (self).draft.current_link == 1,
    {
        match Draft::new(text) {
            Ok(d) => {
                self.draft = d;
                self.render = None;
                Ok(())
            },
            Err(e) => Err(e),
        }
    }

    /// Set the pinned and rigid flags of every highlighted line.
    pub fn pin(&mut self, pinned: bool, rigid: bool)
        requires
            old(self).wf(),
        ensures
            final (self).wf(),
            final (self).cloth == old(self).cloth,
            final (self).render == old(self).render,
            final (self).draft.lines@.len() == old(self).draft.lines@.len(),
            forall|i: int|
                0 <= i < old(self).draft.lines@.len() ==> final (self).draft.lines@[i] == rigid_line(
                    pin_line(old(self).draft.lines@[i], pinned),
                    rigid,
                ),
    {
        self.draft.pin(pinned);
        self.draft.rigid(rigid);
    }

    /// Set (or clear) the seam link id of every highlighted line.
    pub fn link(&mut self, to: Option<u32>)
        requires
            old(self).wf(),
        ensures
            final (self).wf(),
            final (self).cloth == old(self).cloth,
            final (self).render == old(self).render,
            final (self).draft.lines@.len() == old(self).draft.lines@.len(),
            forall|i: int|
                0 <= i < old(self).draft.lines@.len() ==> final (self).draft.lines@[i] == link_line(
                    old(self).draft.lines@[i],
                    to,
                ),
    {
        self.draft.link(to);
    }

    /// The selection's pinned and rigid summary, for the editing widgets.
    pub fn pin_status(&self) -> (r: (Quadstate, Quadstate))
        ensures
            (r.0 == Quadstate::No) == !crate::drafting::any_highlighted(self.draft.lines@),
            (r.0 == Quadstate::On) == (crate::drafting::any_highlighted(self.draft.lines@)
                && crate::drafting::all_highlighted_pinned(self.draft.lines@)),
            (r.1 == Quadstate::On) == (crate::drafting::any_highlighted(self.draft.lines@)
                && crate::drafting::all_highlighted_rigid(self.draft.lines@)),
    {
        (self.draft.get_pin_status(), self.draft.get_rigid_status())
    }

    /// Begin rendering the draft when the settings respect the machine
    /// limits; reports whether a render was started. The shown cloth is
    /// untouched either way.
    pub fn begin_render(&mut self, s: RenderSettings) -> (r: bool)
        requires
            old(self).wf(),
        ensures
            final (self).wf(),
            final (self).cloth == old(self).cloth,
            final (self).draft == old(self).draft,
            r == s.ok(),
            r ==> (final (self).render matches Some(j) && j.last_progress.raw == 0 && j.lines()
                == old(self).draft.lines@),
            !r ==> *final (self) == *old(self),
    {
        if !s.check() {
            return false;
        }
        let job = RenderJob::new(
            &self.draft,
            s.scale,
            s.stiffness,
            s.detail,
            s.gravity,
            s.drag,
            s.strength,
            s.seam_strength,
        );
        self.render = Some(job);
        true
    }

    /// Whether a render is in flight.
    pub fn render_in_flight(&self) -> (r: bool)
        ensures
            r == (self.render is Some),
    {
        self.render.is_some()
    }

    /// Abandon the render in flight: the previous cloth stays exactly as
    /// it was.
    pub fn cancel_render(&mut self)
        requires
            old(self).wf(),
        ensures
            final (self).wf(),
            final (self).cloth == old(self).cloth,
            final (self).draft == old(self).draft,
            final (self).render is None,
    {
        self.render = None;
    }

    /// Advance the render in flight by one slice of work. Progress grows
    /// monotonically and never passes one; until the render finishes the
    /// shown cloth stays exactly as it was, and when it finishes the cloth
    /// is replaced by one rendered from the draft the job was started on.
    pub fn poll_render(&mut self) -> (r: RenderPoll)
        requires
            old(self).wf(),
        ensures
            final (self).wf(),
            final (self).draft == old(self).draft,
            match r {
                RenderPoll::Idle => *final (self) == *old(self) && old(self).render is None,
                RenderPoll::Progress(p) => {
                    &&& old(self).render matches Some(j0)
                    &&& final (self).cloth == old(self).cloth
                    &&& final (self).render matches Some(j1) && j1.last_progress == p
                        && j1.lines() == j0.lines() && p.raw >= j0.last_progress.raw && p.raw
                        <= SCALE
                },
                RenderPoll::Done => {
                    &&& old(self).render matches Some(j0)
                    &&& final (self).render is None
                    &&& rendered_from(
                        final (self).cloth,
                        j0.lines(),
                        j0.spec_scale(),
                        j0.stiffness,
                        j0.spec_detail(),
                        j0.gravity,
                        j0.drag,
                        j0.strength,
                        j0.seam_strength,
                    )
                },
            },
    {
        let job = match self.render.take() {
            Some(j) => j,
            None => {
                return RenderPoll::Idle;
            },
        };
        let (j2, done) = job.advance();
        match done {
            Some(c) => {
                self.cloth = c;
                self.render = None;
                RenderPoll::Done
            },
            None => {
                let p = j2.last_progress;
                self.render = Some(j2);
                RenderPoll::Progress(p)
            },
        }
    }

    /// One integrator tick on the shown cloth: positions and velocities
    /// advance as the integrator specification says; the neighborhoods,
    /// sections, quads and tuning scalars stay exactly as they were.
    pub fn step_cloth(&mut self)
        requires
            old(self).wf(),
        ensures
            final (self).wf(),
            final (self).draft == old(self).draft,
            final (self).render == old(self).render,
            final (self).cloth.segments@.len() == old(self).cloth.segments@.len(),
            forall|o: int|
                0 <= o < old(self).cloth.segments@.len() ==> {
                    &&& (#[trigger] final (self).cloth.segments@[o]).frag == crate::step::step_frag(
                        old(self).cloth.frags(),
                        old(self).cloth.nbrs(),
                        old(self).cloth.secof(),
                        old(self).cloth.params(),
                        o,
                    )
                    &&& final (self).cloth.segments@[o].neighbor_index@ == old(
                        self,
                    ).cloth.segments@[o].neighbor_index@
                    &&& final (self).cloth.segments@[o].index == old(self).cloth.segments@[o].index
                },
            final (self).cloth.sections@ == old(self).cloth.sections@,
            final (self).cloth.section_of@ == old(self).cloth.section_of@,
            final (self).cloth.quads@ == old(self).cloth.quads@,
            final (self).cloth.scale == old(self).cloth.scale,
            final (self).cloth.gravity == old(self).cloth.gravity,
            final (self).cloth.drag == old(self).cloth.drag,
            final (self).cloth.strength == old(self).cloth.strength,
            final (self).cloth.seam_strength == old(self).cloth.seam_strength,
            final (self).cloth.stiffness == old(self).cloth.stiffness,
    {
        self.cloth.step();
    }
}

} // verus!
