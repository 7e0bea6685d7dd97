//! The steps of building the pdf of a song or of a book: the lilypond
//! snippets of a song one after the other, then lualatex until it stops
//! asking for another run, then ps2pdf. The caller runs each step and hands
//! back how it went; this machine says what comes next.
use vstd::prelude::*;
use crate::board::ELogType;
use crate::error::ModelError;

verus! {

/// Where a pdf build stands.
#[derive(Clone, Copy, Debug, PartialEq, Eq)]
pub enum PdfPhase {
    /// Running the lilypond snippet at this position.
    Lilypond(usize),
    /// Running lualatex for the n-th time.
    Lualatex(u32),
    /// Running ps2pdf.
    Ps2pdf,
    /// Over.
    Done,
}

/// What to do next.
#[derive(Clone, Copy, Debug, PartialEq, Eq)]
pub enum PdfAction {
    /// Report and run the lilypond snippet at this position.
    RunLilypond(usize),
    /// Report and run lualatex for the n-th time.
    RunLualatex(u32),
    /// Report and run ps2pdf (for a song, after copying its pdf).
    RunPs2pdf,
    /// Report the end: success or failure (for a song that succeeded,
    /// after recording its digest).
    Finish(bool),
}

/// How a step went.
#[derive(Clone, Copy, Debug, PartialEq, Eq)]
pub enum PdfEvent {
    LilypondDone(bool),
    /// lualatex ended (well or not), and its log asks for another run or not.
    LualatexDone(bool, bool),
    Ps2pdfDone(bool),
}

/// A pdf build.
pub struct PdfBuild {
    /// A song (else a book).
    pub is_song: bool,
    /// The number of lilypond snippets of the song.
    pub nb_ly: usize,
    /// Nothing failed so far.
    pub success: bool,
    pub phase: PdfPhase,
}

/// The phase and action once the snippets are over: lualatex if all went
/// well; otherwise a song goes on to ps2pdf.
pub open spec fn after_snippets(success: bool) -> (PdfPhase, PdfAction) {
    if success {
        (PdfPhase::Lualatex(1), PdfAction::RunLualatex(1))
    } else {
        (PdfPhase::Ps2pdf, PdfAction::RunPs2pdf)
    }
}

/// A step of a pdf build: from `old`, with the event `ev`, the build
/// becomes `new` and asks for `a` (see `PdfBuild::step`).
pub open spec fn step_spec(old: PdfBuild, ev: PdfEvent, new: PdfBuild, a: PdfAction) -> bool {
    &&& new.is_song == old.is_song
    &&& new.nb_ly == old.nb_ly
    &&& match (old.phase, ev) {
                (PdfPhase::Lilypond(i), PdfEvent::LilypondDone(ok)) => {
                    &&& new.success == (old.success && ok)
                    &&& if i + 1 < old.nb_ly {
                        &&& new.phase == PdfPhase::Lilypond((i + 1) as usize)
                        &&& a == PdfAction::RunLilypond((i + 1) as usize)
                    } else {
                        (new.phase, a) == after_snippets(old.success && ok)
                    }
                },
                (PdfPhase::Lualatex(c), PdfEvent::LualatexDone(ok, rerun)) => if !ok {
                    &&& !new.success
                    &&& if old.is_song {
                        new.phase == PdfPhase::Ps2pdf && a == PdfAction::RunPs2pdf
                    } else {
                        new.phase == PdfPhase::Done && a == PdfAction::Finish(false)
                    }
                } else if !rerun {
                    &&& new.success
                    &&& new.phase == PdfPhase::Ps2pdf
                    &&& a == PdfAction::RunPs2pdf
                } else {
                    &&& new.success == old.success
                    &&& new.phase == PdfPhase::Lualatex((c + 1) as u32)
                    &&& a == PdfAction::RunLualatex((c + 1) as u32)
                },
                (PdfPhase::Ps2pdf, PdfEvent::Ps2pdfDone(ok)) => {
                    &&& new.success == (old.success && ok)
                    &&& new.phase == PdfPhase::Done
                    &&& a == PdfAction::Finish(old.success && ok)
                },
                _ => false,
            }
}

impl PdfBuild {
    /// The build of a song with `nb_ly` lilypond snippets, and its first step.
    pub fn song(nb_ly: usize) -> (r: (PdfBuild, PdfAction))
        ensures
            r.0.is_song && r.0.nb_ly == nb_ly && r.0.success,
            nb_ly > 0 ==> r.0.phase == PdfPhase::Lilypond(0) && r.1 == PdfAction::RunLilypond(0),
            nb_ly == 0 ==> r.0.phase == PdfPhase::Lualatex(1) && r.1 == PdfAction::RunLualatex(1),
    {
        if nb_ly > 0 {
            (PdfBuild { is_song: true, nb_ly, success: true, phase: PdfPhase::Lilypond(0) }, PdfAction::RunLilypond(0))
        } else {
            (PdfBuild { is_song: true, nb_ly, success: true, phase: PdfPhase::Lualatex(1) }, PdfAction::RunLualatex(1))
        }
    }

    /// The build of a book, and its first step.
    pub fn book() -> (r: (PdfBuild, PdfAction))
        ensures
            !r.0.is_song && r.0.nb_ly == 0 && r.0.success,
            r.0.phase == PdfPhase::Lualatex(1) && r.1 == PdfAction::RunLualatex(1),
    {
        (PdfBuild { is_song: false, nb_ly: 0, success: true, phase: PdfPhase::Lualatex(1) }, PdfAction::RunLualatex(1))
    }

    /// The event fits the phase, and lualatex has not been run so often that
    /// its count would overflow.
    pub open spec fn accepts(&self, ev: PdfEvent) -> bool {
        match self.phase {
            PdfPhase::Lilypond(i) => ev is LilypondDone && i < self.nb_ly,
            PdfPhase::Lualatex(c) => ev matches PdfEvent::LualatexDone(ok, rerun) && (ok && rerun ==> c
                < i32::MAX),
            PdfPhase::Ps2pdf => ev is Ps2pdfDone,
            PdfPhase::Done => false,
        }
    }

    /// The next step, from how the last one went. A failed snippet fails
    /// the song, which skips lualatex; lualatex runs again as long as it
    /// ends well and asks for it; a failed lualatex fails the build (a song
    /// still goes through ps2pdf, a book ends there); a failed ps2pdf fails
    /// the build.
    pub fn step(&mut self, ev: PdfEvent) -> (r: PdfAction)
        requires
            old(self).accepts(ev),
        ensures
            final(self).is_song == old(self).is_song,
            final(self).nb_ly == old(self).nb_ly,
            step_spec(*old(self), ev, *final(self), r),
    {
        match (self.phase, ev) {
            (PdfPhase::Lilypond(i), PdfEvent::LilypondDone(ok)) => {
                self.success = self.success && ok;
                if i + 1 < self.nb_ly {
                    self.phase = PdfPhase::Lilypond(i + 1);
                    PdfAction::RunLilypond(i + 1)
                } else if self.success {
                    self.phase = PdfPhase::Lualatex(1);
                    PdfAction::RunLualatex(1)
                } else {
                    self.phase = PdfPhase::Ps2pdf;
                    PdfAction::RunPs2pdf
                }
            },
            (PdfPhase::Lualatex(c), PdfEvent::LualatexDone(ok, rerun)) => {
                if !ok {
                    self.success = false;
                    if self.is_song {
                        self.phase = PdfPhase::Ps2pdf;
                        PdfAction::RunPs2pdf
                    } else {
                        self.phase = PdfPhase::Done;
                        PdfAction::Finish(false)
                    }
                } else if !rerun {
                    self.success = true;
                    self.phase = PdfPhase::Ps2pdf;
                    PdfAction::RunPs2pdf
                } else {
                    self.phase = PdfPhase::Lualatex(c + 1);
                    PdfAction::RunLualatex(c + 1)
                }
            },
            (_, PdfEvent::Ps2pdfDone(ok)) => {
                self.success = self.success && ok;
                self.phase = PdfPhase::Done;
                PdfAction::Finish(self.success)
            },
            _ => {
                proof {
                    assert(false);
                }
                PdfAction::Finish(false)
            },
        }
    }
}

/// What follows a run of lualatex on a standalone song or book target.
#[derive(Clone, Copy, Debug, PartialEq, Eq)]
pub enum LatexNext {
    /// Run lualatex again, for the n-th time.
    Again(u32),
    /// The pdf is built.
    Done,
    /// The target failed.
    Failed,
}

/// After the `count`-th run of lualatex: a run that failed fails the
/// target; a run whose log asks for no other ends it; otherwise lualatex
/// runs again, unless it has already run three times.
pub open spec fn latex_next(count: u32, ok: bool, rerun: bool) -> LatexNext {
    if !ok {
        LatexNext::Failed
    } else if !rerun {
        LatexNext::Done
    } else if count < 3 {
        LatexNext::Again((count + 1) as u32)
    } else {
        LatexNext::Failed
    }
}

/// What follows the `count`-th run of lualatex, from how it ended and
/// whether its log asks for another run.
pub fn after_lualatex(count: u32, ok: bool, rerun: bool) -> (r: LatexNext)
    requires
        1 <= count <= 3,
    ensures
        r == latex_next(count, ok, rerun),
{
    if !ok {
        LatexNext::Failed
    } else if !rerun {
        LatexNext::Done
    } else if count < 3 {
        LatexNext::Again(count + 1)
    } else {
        LatexNext::Failed
    }
}

/// Lualatex runs at most three times on a target: from a run numbered 1 to
/// 3, the next run, if any, is numbered one more and at most 3.
pub proof fn lemma_lualatex_at_most_three(count: u32, ok: bool, rerun: bool)
    requires
        1 <= count <= 3,
    ensures
        latex_next(count, ok, rerun) matches LatexNext::Again(n) ==> n == count + 1 && n <= 3,
        latex_next(count, ok, rerun) is Done ==> ok && !rerun,
{
}

// ------------------------------------------------------------ the reports

/// What the caller of a pdf build does next, in order.
#[derive(Clone, Debug, PartialEq, Eq)]
pub enum PdfOrder {
    /// Send this report on the song or book.
    Report(ELogType),
    /// Run the lilypond snippet of the song's lilypond file at this position.
    RunLilypond(usize),
    /// Run lualatex for the n-th time.
    RunLualatex(u32),
    /// Run ps2pdf (for a song, after copying its pdf).
    RunPs2pdf,
    /// Record the digest of the song built (its `.checksum_ok`).
    WriteChecksum,
}

/// A pdf build with its reports: the steps, and the lilypond files of the
/// song (none for a book).
pub struct PdfJob {
    pub build: PdfBuild,
    pub lyfiles: Vec<String>,
}

/// The orders that carry out a step of the build: each run is reported
/// first; a song that succeeded records its digest before its success is
/// reported; the end is reported last.
pub open spec fn orders_of(is_song: bool, lyfiles: Seq<String>, a: PdfAction) -> Seq<PdfOrder> {
    match a {
        PdfAction::RunLilypond(i) => seq![PdfOrder::Report(ELogType::Lilypond(lyfiles[i as int])), PdfOrder::RunLilypond(i)],
        PdfAction::RunLualatex(c) => seq![PdfOrder::Report(ELogType::Lualatex(c)), PdfOrder::RunLualatex(c)],
        PdfAction::RunPs2pdf => seq![PdfOrder::Report(ELogType::Ps2pdf), PdfOrder::RunPs2pdf],
        PdfAction::Finish(ok) => if ok && is_song {
            seq![PdfOrder::WriteChecksum, PdfOrder::Report(ELogType::Success)]
        } else if ok {
            seq![PdfOrder::Report(ELogType::Success)]
        } else {
            seq![PdfOrder::Report(ELogType::Failed)]
        },
    }
}

/// An order that reports the end of a build.
pub open spec fn is_final_report(o: PdfOrder) -> bool {
    o == PdfOrder::Report(ELogType::Success) || o == PdfOrder::Report(ELogType::Failed)
}

fn orders_for(is_song: bool, lyfiles: &Vec<String>, a: PdfAction) -> (r: Vec<PdfOrder>)
    requires
        a matches PdfAction::RunLilypond(i) ==> i < lyfiles@.len(),
    ensures
        r@ == orders_of(is_song, lyfiles@, a),
{
    match a {
        PdfAction::RunLilypond(i) => vec![PdfOrder::Report(ELogType::Lilypond(lyfiles[i].clone())), PdfOrder::RunLilypond(i)],
        PdfAction::RunLualatex(c) => vec![PdfOrder::Report(ELogType::Lualatex(c)), PdfOrder::RunLualatex(c)],
        PdfAction::RunPs2pdf => vec![PdfOrder::Report(ELogType::Ps2pdf), PdfOrder::RunPs2pdf],
        PdfAction::Finish(ok) => if ok && is_song {
            vec![PdfOrder::WriteChecksum, PdfOrder::Report(ELogType::Success)]
        } else if ok {
            vec![PdfOrder::Report(ELogType::Success)]
        } else {
            vec![PdfOrder::Report(ELogType::Failed)]
        },
    }
}

impl PdfJob {
    /// The steps know the song's lilypond files.
    pub open spec fn wf(&self) -> bool {
        self.build.nb_ly == self.lyfiles@.len()
    }

    /// The build of a song with these lilypond files, forced or not, when it
    /// needs a rebuild (`needs`, read once a forced song's digest record is
    /// removed) or not. A song that needs none and is not forced is reported
    /// as needing none, and that is all; otherwise it is reported as started,
    /// then its first step is reported and run.
    pub fn song(lyfiles: Vec<String>, force: bool, needs: bool) -> (r: (PdfJob, Vec<PdfOrder>))
        ensures
            r.0.wf(),
            r.0.build.is_song,
            r.0.lyfiles@ == lyfiles@,
            !force && !needs ==> r.0.build.phase == PdfPhase::Done && r.1@ == seq![PdfOrder::Report(ELogType::NoNeedSuccess)],
            force || needs ==> {
                &&& r.0.build.success
                &&& r.1@[0] == PdfOrder::Report(ELogType::Started)
                &&& lyfiles@.len() > 0 ==> r.0.build.phase == PdfPhase::Lilypond(0) && r.1@ == seq![PdfOrder::Report(ELogType::Started)]
                    + orders_of(true, lyfiles@, PdfAction::RunLilypond(0))
                &&& lyfiles@.len() == 0 ==> r.0.build.phase == PdfPhase::Lualatex(1) && r.1@ == seq![PdfOrder::Report(ELogType::Started)]
                    + orders_of(true, lyfiles@, PdfAction::RunLualatex(1))
            },
            forall|k: int| 0 <= k < r.1@.len() ==> !is_final_report(#[trigger] r.1@[k]) && r.1@[k] != PdfOrder::WriteChecksum,
    {
        let (b, a) = PdfBuild::song(lyfiles.len());
        if !force && !needs {
            let done = PdfBuild { is_song: true, nb_ly: lyfiles.len(), success: true, phase: PdfPhase::Done };
            let orders = vec![PdfOrder::Report(ELogType::NoNeedSuccess)];
            return (PdfJob { build: done, lyfiles }, orders);
        }
        let first = orders_for(true, &lyfiles, a);
        let mut orders = vec![PdfOrder::Report(ELogType::Started)];
        let ghost head = orders@;
        let mut first = first;
        orders.append(&mut first);
        assert(orders@ == head + orders_of(true, lyfiles@, a));
        (PdfJob { build: b, lyfiles }, orders)
    }

    /// The build of a book, once no song of it needs a rebuild: while
    /// `songs_pending` says some song still does, nothing happens (`None`);
    /// when a song of the book cannot be found, the build ends with that
    /// error and nothing is reported; otherwise the book is reported as
    /// started, then its first lualatex run is reported and run.
    pub fn book(songs_pending: Result<bool, ModelError>) -> (r: Result<Option<(PdfJob, Vec<PdfOrder>)>, ModelError>)
        ensures
            match songs_pending {
                Err(e) => r == Err::<Option<(PdfJob, Vec<PdfOrder>)>, ModelError>(e),
                Ok(true) => r matches Ok(None),
                Ok(false) => r matches Ok(Some((j, o))) && j.wf() && !j.build.is_song && j.build.success
                    && j.build.phase == PdfPhase::Lualatex(1) && o@ == seq![
                    PdfOrder::Report(ELogType::Started),
                    PdfOrder::Report(ELogType::Lualatex(1)),
                    PdfOrder::RunLualatex(1),
                ],
            },
    {
        match songs_pending {
            Err(e) => Err(e),
            Ok(true) => Ok(None),
            Ok(false) => {
                let (b, _) = PdfBuild::book();
                let job = PdfJob { build: b, lyfiles: Vec::new() };
                let orders = vec![
                    PdfOrder::Report(ELogType::Started),
                    PdfOrder::Report(ELogType::Lualatex(1)),
                    PdfOrder::RunLualatex(1),
                ];
                Ok(Some((job, orders)))
            },
        }
    }

    /// The orders after a step, from how it went (see `PdfBuild::step`). The
    /// end of the build, and only it, is reported as a success or a failure,
    /// in the last order; a song's digest is recorded only when it succeeded,
    /// just before its success is reported.
    pub fn step(&mut self, ev: PdfEvent) -> (r: Vec<PdfOrder>)
        requires
            old(self).wf(),
            old(self).build.accepts(ev),
        ensures
            final(self).wf(),
            final(self).lyfiles@ == old(self).lyfiles@,
            final(self).build.is_song == old(self).build.is_song,
            exists|a: PdfAction|
                #[trigger] orders_of(old(self).build.is_song, old(self).lyfiles@, a) == r@ && step_spec(
                    old(self).build,
                    ev,
                    final(self).build,
                    a,
                ),
            r@.len() > 0,
            final(self).build.phase == PdfPhase::Done <==> is_final_report(r@.last()),
            forall|k: int| 0 <= k < r@.len() - 1 ==> !is_final_report(#[trigger] r@[k]),
            forall|k: int|
                0 <= k < r@.len() && #[trigger] r@[k] == PdfOrder::WriteChecksum ==> k == r@.len() - 2 && r@.last()
                    == PdfOrder::Report(ELogType::Success) && final(self).build.is_song,
    {
        let a = self.build.step(ev);
        orders_for(self.build.is_song, &self.lyfiles, a)
    }
}

} // verus!
