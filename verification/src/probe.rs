//! Finding the `openclaw` tool: a search that asks its caller to look at the
//! file system and to run commands, one question at a time.
use vstd::prelude::*;
use crate::command::result_view;
use crate::text::string_views;

verus! {

/// The bash script that asks the user's login shell where `openclaw` is.
pub const SHELL_LOOKUP_SCRIPT: &'static str = "source ~/.zshrc 2>/dev/null || source ~/.bashrc 2>/dev/null; which openclaw 2>/dev/null";

/// The name under which `openclaw` is run when it is on the `PATH`.
pub const OPENCLAW_COMMAND: &'static str = "openclaw";

/// What the search asks its caller to do next.
pub enum ProbeAction {
    /// Check whether this file exists, and answer with `ProbeEvent::Exists`.
    CheckFile(String),
    /// Check whether this command is on the `PATH`, and answer with
    /// `ProbeEvent::CommandFound`.
    CheckCommand(String),
    /// Run this bash script, and answer with its outcome as
    /// `run_bash_output` gives it, in `ProbeEvent::ShellOutput`.
    RunShell(String),
    /// The search is over, with this path if `openclaw` was found.
    Finish(Option<String>),
}

/// The caller's answer to the last action.
pub enum ProbeEvent {
    Exists(bool),
    CommandFound(bool),
    ShellOutput(Result<String, String>),
}

/// Where the search stands.
pub enum ProbeStage {
    /// Waiting to hear whether the candidate with this index exists.
    Candidate(usize),
    /// Waiting to hear whether `openclaw` is on the `PATH`.
    Command,
    /// Waiting for the login shell's answer.
    Shell,
    /// Waiting to hear whether the path the shell gave exists.
    ShellFile(String),
    /// The search is over.
    Done,
}

/// The search for `openclaw`.
pub struct OpenclawProbe {
    /// The installation paths to try, in order.
    pub candidates: Vec<String>,
    pub is_windows: bool,
    pub stage: ProbeStage,
}

/// What the caller's environment would answer: which files exist, whether
/// `openclaw` is on the `PATH`, and what the login shell prints.
pub struct ProbeWorld {
    pub files: Set<Seq<char>>,
    pub command_found: bool,
    pub shell: Result<Seq<char>, Seq<char>>,
}

/// The first of `cands` that exists.
pub open spec fn first_existing(cands: Seq<Seq<char>>, files: Set<Seq<char>>) -> Option<Seq<char>>
    decreases cands.len(),
{
    if cands.len() == 0 {
        None
    } else if files.contains(cands[0]) {
        Some(cands[0])
    } else {
        first_existing(cands.drop_first(), files)
    }
}

/// What the login shell contributes: a non-empty path it printed that
/// exists; never on Windows.
pub open spec fn shell_answer(is_windows: bool, w: ProbeWorld) -> Option<Seq<char>> {
    if is_windows {
        None
    } else {
        match w.shell {
            Ok(p) => if p.len() > 0 && w.files.contains(p) {
                Some(p)
            } else {
                None
            },
            Err(_) => None,
        }
    }
}

/// Where `openclaw` is: the first candidate that exists; else `openclaw`
/// itself when it is on the `PATH`; else what the login shell finds.
pub open spec fn openclaw_location(cands: Seq<Seq<char>>, is_windows: bool, w: ProbeWorld) -> Option<
    Seq<char>,
> {
    match first_existing(cands, w.files) {
        Some(p) => Some(p),
        None => if w.command_found {
            Some(OPENCLAW_COMMAND@)
        } else {
            shell_answer(is_windows, w)
        },
    }
}

impl OpenclawProbe {
    /// The stage is one the search can be in.
    pub open spec fn wf(&self) -> bool {
        match self.stage {
            ProbeStage::Candidate(i) => i < self.candidates@.len(),
            ProbeStage::Shell => !self.is_windows,
            ProbeStage::ShellFile(_) => !self.is_windows,
            _ => true,
        }
    }

    /// How many questions at most remain before the search ends: one per
    /// candidate not yet checked, then the `PATH`, the shell and the path it
    /// gives.
    pub open spec fn rank(&self) -> int {
        match self.stage {
            ProbeStage::Candidate(i) => self.candidates@.len() - i + 3,
            ProbeStage::Command => 3,
            ProbeStage::Shell => 2,
            ProbeStage::ShellFile(_) => 1,
            ProbeStage::Done => 0,
        }
    }

    /// What the search will end with from here, in the world `w`.
    pub open spec fn remaining(&self, w: ProbeWorld) -> Option<Seq<char>> {
        let cands = string_views(self.candidates@);
        match self.stage {
            ProbeStage::Candidate(i) => openclaw_location(cands.skip(i as int), self.is_windows, w),
            ProbeStage::Command => if w.command_found {
                Some(OPENCLAW_COMMAND@)
            } else {
                shell_answer(self.is_windows, w)
            },
            ProbeStage::Shell => shell_answer(self.is_windows, w),
            ProbeStage::ShellFile(p) => if w.files.contains(p@) {
                Some(p@)
            } else {
                None
            },
            ProbeStage::Done => None,
        }
    }

    /// `action` asks what the stage waits for.
    pub open spec fn asks(&self, action: ProbeAction) -> bool {
        match self.stage {
            ProbeStage::Candidate(i) => action matches ProbeAction::CheckFile(p) && p@
                == self.candidates@[i as int]@,
            ProbeStage::Command => action matches ProbeAction::CheckCommand(c) && c@
                == OPENCLAW_COMMAND@,
            ProbeStage::Shell => action matches ProbeAction::RunShell(s) && s@
                == SHELL_LOOKUP_SCRIPT@,
            ProbeStage::ShellFile(p) => action matches ProbeAction::CheckFile(q) && q@ == p@,
            ProbeStage::Done => action is Finish,
        }
    }

    /// `event` is what the world `w` answers to the question of the stage.
    pub open spec fn answered_by(&self, event: ProbeEvent, w: ProbeWorld) -> bool {
        match self.stage {
            ProbeStage::Candidate(i) => event == ProbeEvent::Exists(
                w.files.contains(self.candidates@[i as int]@),
            ),
            ProbeStage::Command => event == ProbeEvent::CommandFound(w.command_found),
            ProbeStage::Shell => event matches ProbeEvent::ShellOutput(r) && result_view(r)
                == w.shell,
            ProbeStage::ShellFile(p) => event == ProbeEvent::Exists(w.files.contains(p@)),
            ProbeStage::Done => true,
        }
    }

    fn enter_command(&mut self) -> (action: ProbeAction)
        ensures
            final(self).candidates == old(self).candidates,
            final(self).is_windows == old(self).is_windows,
            final(self).stage == ProbeStage::Command,
            final(self).asks(action),
    {
        self.stage = ProbeStage::Command;
        ProbeAction::CheckCommand(OPENCLAW_COMMAND.to_owned())
    }

    /// Starts a search through `candidates`, and gives the first question.
    pub fn new(candidates: Vec<String>, is_windows: bool) -> (res: (OpenclawProbe, ProbeAction))
        ensures
            res.0.wf(),
            res.0.asks(res.1),
            0 <= res.0.rank() <= candidates@.len() + 3,
            res.0.candidates == candidates,
            res.0.is_windows == is_windows,
            forall|w: ProbeWorld| #[trigger]
                res.0.remaining(w) == openclaw_location(string_views(candidates@), is_windows, w),
    {
        assert(string_views(candidates@).skip(0) =~= string_views(candidates@));
        if candidates.len() > 0 {
            let first = candidates[0].clone();
            let probe = OpenclawProbe { candidates, is_windows, stage: ProbeStage::Candidate(0) };
            (probe, ProbeAction::CheckFile(first))
        } else {
            let mut probe = OpenclawProbe { candidates, is_windows, stage: ProbeStage::Done };
            let action = probe.enter_command();
            assert forall|w: ProbeWorld| #[trigger]
                probe.remaining(w) == openclaw_location(string_views(probe.candidates@), is_windows, w) by {
                assert(string_views(probe.candidates@).len() == 0);
            }
            (probe, action)
        }
    }

    /// Takes the answer to the last question and gives the next question, or
    /// the end of the search; every question it gives brings the end nearer
    /// (`rank` falls). In every world that gave this answer, the search still
    /// ends where it would have ended, and a finished search ends there.
    pub fn step(&mut self, event: ProbeEvent) -> (action: ProbeAction)
        requires
            old(self).wf(),
        ensures
            final(self).wf(),
            final(self).candidates == old(self).candidates,
            final(self).is_windows == old(self).is_windows,
            final(self).asks(action),
            action is Finish || 0 <= final(self).rank() < old(self).rank(),
            forall|w: ProbeWorld| #[trigger]
                old(self).answered_by(event, w) ==> match action {
                    ProbeAction::Finish(r) => match r {
                        Some(p) => old(self).remaining(w) == Some(p@),
                        None => old(self).remaining(w) is None,
                    },
                    _ => final(self).remaining(w) == old(self).remaining(w),
                },
    {
        let ghost cands = string_views(self.candidates@);
        match &self.stage {
            ProbeStage::Candidate(i) => {
                let i = *i;
                match event {
                    ProbeEvent::Exists(true) => {
                        let found = self.candidates[i].clone();
                        self.stage = ProbeStage::Done;
                        proof {
                            assert forall|w: ProbeWorld| #[trigger]
                                old(self).answered_by(event, w) implies old(self).remaining(w)
                                == Some(found@) by {
                                assert(cands.skip(i as int)[0] == cands[i as int]);
                            }
                        }
                        ProbeAction::Finish(Some(found))
                    },
                    ProbeEvent::Exists(false) => {
                        proof {
                            assert(cands.skip(i as int).drop_first() =~= cands.skip(i + 1));
                            assert(cands.skip(i as int)[0] == cands[i as int]);
                        }
                        assert(i < self.candidates.len());
                        if i + 1 < self.candidates.len() {
                            self.stage = ProbeStage::Candidate(i + 1);
                            let action = ProbeAction::CheckFile(self.candidates[i + 1].clone());
                            assert forall|w: ProbeWorld| #[trigger]
                                old(self).answered_by(event, w) implies self.remaining(w)
                                == old(self).remaining(w) by {
                                assert(!w.files.contains(cands.skip(i as int)[0]));
                            }
                            action
                        } else {
                            proof {
                                assert(cands.skip(i + 1).len() == 0);
                            }
                            let action = self.enter_command();
                            assert forall|w: ProbeWorld| #[trigger]
                                old(self).answered_by(event, w) implies self.remaining(w)
                                == old(self).remaining(w) by {
                                assert(!w.files.contains(cands.skip(i as int)[0]));
                                assert(first_existing(cands.skip(i + 1), w.files) is None);
                                assert(first_existing(cands.skip(i as int), w.files) is None);
                            }
                            action
                        }
                    },
                    _ => {
                        self.stage = ProbeStage::Done;
                        ProbeAction::Finish(None)
                    },
                }
            },
            ProbeStage::Command => {
                match event {
                    ProbeEvent::CommandFound(true) => {
                        self.stage = ProbeStage::Done;
                        ProbeAction::Finish(Some(OPENCLAW_COMMAND.to_owned()))
                    },
                    ProbeEvent::CommandFound(false) => {
                        if self.is_windows {
                            self.stage = ProbeStage::Done;
                            ProbeAction::Finish(None)
                        } else {
                            self.stage = ProbeStage::Shell;
                            ProbeAction::RunShell(SHELL_LOOKUP_SCRIPT.to_owned())
                        }
                    },
                    _ => {
                        self.stage = ProbeStage::Done;
                        ProbeAction::Finish(None)
                    },
                }
            },
            ProbeStage::Shell => {
                match event {
                    ProbeEvent::ShellOutput(Ok(p)) => {
                        if p.as_str().is_empty() {
                            self.stage = ProbeStage::Done;
                            ProbeAction::Finish(None)
                        } else {
                            let q = p.clone();
                            self.stage = ProbeStage::ShellFile(p);
                            ProbeAction::CheckFile(q)
                        }
                    },
                    _ => {
                        self.stage = ProbeStage::Done;
                        ProbeAction::Finish(None)
                    },
                }
            },
            ProbeStage::ShellFile(p) => {
                let q = p.clone();
                self.stage = ProbeStage::Done;
                match event {
                    ProbeEvent::Exists(true) => ProbeAction::Finish(Some(q)),
                    _ => ProbeAction::Finish(None),
                }
            },
            ProbeStage::Done => ProbeAction::Finish(None),
        }
    }
}

} // verus!
