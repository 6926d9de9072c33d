use vstd::prelude::*;
use vstd::string::StringExecFns;

use crate::codec::{deserialize_config, spec_document};
use crate::error::{Diagnostic, Error, Severity};
use crate::imports::{imports, spec_imports, ImportsFault};
use crate::merge::{merge, spec_merge};
use crate::tree::{empty_table, model_wf, TreeModel, TreeValue};

verus! {

broadcast use {vstd::seq::group_seq_axioms, vstd::std_specs::vec::group_vec_axioms};

/// What the caller found when it read a requested file.
pub enum ReadOutcome {
    /// The file's whole text.
    Content(String),
    /// The read failed; `not_found` tells a missing file from other failures.
    Failure { not_found: bool, message: String },
}

/// What the session asks of its caller next.
pub enum Step {
    /// Read this file and hand its outcome to `provide`.
    Read(String),
    /// Call `step` again.
    Progress,
    /// The load is finished; collect it with `into_result`.
    Finished,
}

/// One file whose imports are being expanded: its own tree, the resolved
/// import paths still to process, and the imports merged so far.
struct Frame {
    own: TreeValue,
    pending: Vec<Result<String, String>>,
    next: usize,
    acc: TreeValue,
    budget: u32,
    path: String,
}

/// The model of one frame.
#[verifier::ext_equal]
pub ghost struct FrameModel {
    pub own: TreeModel,
    pub pending: Seq<Result<Seq<char>, ()>>,
    pub next: int,
    pub acc: TreeModel,
    pub budget: int,
    pub path: Seq<char>,
}

impl View for Frame {
    type V = FrameModel;

    closed spec fn view(&self) -> FrameModel {
        FrameModel {
            own: self.own@,
            pending: self.pending@.map_values(
                |r: Result<String, String>|
                    match r {
                        Ok(s) => Ok(s@),
                        Err(_) => Err(()),
                    },
            ),
            next: self.next as int,
            acc: self.acc@,
            budget: self.budget as int,
            path: self.path@,
        }
    }
}

/// The pending list an extraction outcome leaves behind: a fault drops the
/// whole list, so the file contributes nothing but its own content.
pub open spec fn spec_pending(r: Result<Seq<Result<Seq<char>, ()>>, ImportsFault>) -> Seq<
    Result<Seq<char>, ()>,
> {
    match r {
        Ok(list) => list,
        Err(_) => Seq::empty(),
    }
}

/// The recursive load of one root file, driven as a state machine: the
/// session decides, the caller performs the reads. Each file's imports are
/// folded left to right, later imports taking precedence, and the file's own
/// content is merged over them.
pub struct LoadSession {
    stack: Vec<Frame>,
    reading: Option<(String, u32)>,
    done: Option<Result<TreeValue, Error>>,
    config_paths: Vec<String>,
    diagnostics: Vec<Diagnostic>,
    home: Option<String>,
}

/// The model of a session.
#[verifier::ext_equal]
pub ghost struct SessionModel {
    pub stack: Seq<FrameModel>,
    pub reading: Option<(Seq<char>, int)>,
    pub done: Option<Result<TreeModel, Error>>,
    pub paths: Seq<Seq<char>>,
    pub diags: Seq<Diagnostic>,
    pub home: Option<Seq<char>>,
}

impl View for LoadSession {
    type V = SessionModel;

    closed spec fn view(&self) -> SessionModel {
        SessionModel {
            stack: self.stack@.map_values(|f: Frame| f@),
            reading: match self.reading {
                Some((p, b)) => Some((p@, b as int)),
                None => None,
            },
            done: match self.done {
                Some(Ok(t)) => Some(Ok(t@)),
                Some(Err(e)) => Some(Err(e)),
                None => None,
            },
            paths: self.config_paths@.map_values(|s: String| s@),
            diags: self.diagnostics@,
            home: match self.home {
                Some(h) => Some(h@),
                None => None,
            },
        }
    }
}

/// A frame in mid-expansion is well formed: both trees are tables with
/// unique keys throughout, the cursor is inside the list, and a frame that
/// still has work left has budget to descend.
pub open spec fn frame_inv(f: FrameModel) -> bool {
    &&& f.own is Table
    &&& model_wf(f.own)
    &&& f.acc is Table
    &&& model_wf(f.acc)
    &&& 0 <= f.next <= f.pending.len()
    &&& f.budget >= 0
    &&& f.next < f.pending.len() ==> f.budget >= 1
}

impl LoadSession {
    /// The session's state invariant.
    pub open spec fn inv(&self) -> bool {
        &&& forall|i: int| 0 <= i < self@.stack.len() ==> frame_inv(#[trigger] self@.stack[i])
        &&& !(self@.reading is Some && self@.done is Some)
        &&& (self@.reading is None && self@.done is None) ==> self@.stack.len() > 0
        &&& self@.reading matches Some((_, b)) ==> b >= 0
        &&& self@.done matches Some(Ok(t)) ==> t is Table && model_wf(t)
    }

    /// Whether the session waits for a file's content.
    pub fn is_awaiting(&self) -> (r: bool)
        ensures
            r == (self@.reading is Some),
    {
        self.reading.is_some()
    }

    /// Whether the session has finished.
    pub fn is_done(&self) -> (r: bool)
        ensures
            r == (self@.done is Some),
    {
        self.done.is_some()
    }

    /// Start loading `root_path` under the given recursion budget; the
    /// caller reads that file first and hands the outcome to `provide`.
    pub fn begin(root_path: String, budget: u32, home_dir: Option<String>) -> (s: LoadSession)
        ensures
            s.inv(),
            s@.stack == Seq::<FrameModel>::empty(),
            s@.reading == Some((root_path@, budget as int)),
            s@.done is None,
            s@.paths == Seq::<Seq<char>>::empty(),
            s@.diags == Seq::<Diagnostic>::empty(),
            s@.home == match home_dir {
                Some(h) => Some(h@),
                None => None,
            },
    {
        let s = LoadSession {
            stack: Vec::new(),
            reading: Some((root_path, budget)),
            done: None,
            config_paths: Vec::new(),
            diagnostics: Vec::new(),
            home: home_dir,
        };
        proof {
            assert(s@.stack =~= Seq::<FrameModel>::empty());
            assert(s@.paths =~= Seq::<Seq<char>>::empty());
        }
        s
    }

    /// Hand the session what reading the requested file yielded. A read or
    /// parse failure of the root fails the load; the same failure in an
    /// import is recorded and the import skipped. A parsed file becomes a
    /// new frame whose pending imports come from its `import` directive —
    /// or none at all when the directive is faulty or the budget exhausted.
    pub fn provide(&mut self, outcome: ReadOutcome) -> (st: Step)
        requires
            old(self).inv(),
            old(self)@.reading is Some,
            old(self)@.done is None,
        ensures
            final(self).inv(),
            final(self)@.home == old(self)@.home,
            old(self)@.diags.is_prefix_of(final(self)@.diags),
            ({
                let (path, b) = old(self)@.reading->0;
                match outcome {
                    ReadOutcome::Failure { not_found, message } => {
                        &&& final(self)@.paths == old(self)@.paths
                        &&& final(self)@.stack == old(self)@.stack
                        &&& final(self)@.reading is None
                        &&& if old(self)@.stack.len() == 0 {
                            &&& final(self)@.done == Some(
                                Err::<TreeModel, Error>(Error::Io { not_found, message }),
                            )
                            &&& st is Finished
                        } else {
                            &&& final(self)@.done is None
                            &&& st is Progress
                        }
                    },
                    ReadOutcome::Content(text) => {
                        &&& final(self)@.reading is None
                        &&& match spec_document(path, text@) {
                            Some(doc) => {
                                &&& final(self)@.paths == old(self)@.paths.push(path)
                                &&& final(self)@.stack == old(self)@.stack.push(
                                    FrameModel {
                                        own: doc,
                                        pending: spec_pending(
                                            spec_imports(doc, path, b, old(self)@.home),
                                        ),
                                        next: 0,
                                        acc: empty_table(),
                                        budget: b,
                                        path: path,
                                    },
                                )
                                &&& final(self)@.done is None
                                &&& st is Progress
                            },
                            None => {
                                &&& final(self)@.paths == old(self)@.paths
                                &&& final(self)@.stack == old(self)@.stack
                                &&& if old(self)@.stack.len() == 0 {
                                    &&& final(self)@.done matches Some(Err(_))
                                    &&& st is Finished
                                } else {
                                    &&& final(self)@.done is None
                                    &&& st is Progress
                                }
                            },
                        }
                    },
                }
            }),
    {
        let (path, budget) = match &self.reading {
            Some((p, b)) => (p.clone(), *b),
            None => (String::new(), 0),
        };
        self.reading = None;
        match outcome {
            ReadOutcome::Failure { not_found, message } => {
                if self.stack.len() == 0 {
                    self.done = Some(Err(Error::Io { not_found, message }));
                    proof {
                        assert(final(self)@.stack =~= old(self)@.stack);
                        assert(final(self)@.paths =~= old(self)@.paths);
                    }
                    Step::Finished
                } else {
                    let severity = if not_found {
                        Severity::Info
                    } else {
                        Severity::Error
                    };
                    let text = if not_found {
                        String::from_str("Config import not found: ").concat(path.as_str())
                    } else {
                        String::from_str("Unable to import config ").concat(path.as_str()).concat(
                            ": ",
                        ).concat(message.as_str())
                    };
                    self.diagnostics.push(Diagnostic { severity, message: text });
                    proof {
                        assert(final(self)@.stack =~= old(self)@.stack);
                        assert(final(self)@.paths =~= old(self)@.paths);
                        assert(old(self)@.diags.is_prefix_of(final(self)@.diags));
                    }
                    Step::Progress
                }
            },
            ReadOutcome::Content(text) => {
                let (parsed, mut parse_diags) = deserialize_config(
                    path.as_str(),
                    text.as_str(),
                    false,
                );
                self.diagnostics.append(&mut parse_diags);
                match parsed {
                    Ok(tree) => {
                        self.config_paths.push(path.clone());
                        let home_ref: Option<&str> = match &self.home {
                            Some(h) => Some(h.as_str()),
                            None => None,
                        };
                        let pending: Vec<Result<String, String>> = match imports(
                            &tree,
                            path.as_str(),
                            budget,
                            home_ref,
                        ) {
                            Ok(list) => list,
                            Err(e) => {
                                self.diagnostics.push(
                                    Diagnostic {
                                        severity: Severity::Error,
                                        message: e.message(),
                                    },
                                );
                                Vec::new()
                            },
                        };
                        let frame = Frame {
                            own: tree,
                            pending,
                            next: 0,
                            acc: TreeValue::new_table(),
                            budget,
                            path,
                        };
                        proof {
                            let (rpath, rb) = old(self)@.reading->0;
                            let doc = spec_document(rpath, text@);
                            assert(frame@.pending =~= spec_pending(
                                spec_imports(doc->0, rpath, rb, old(self)@.home),
                            ));
                            assert(frame@ =~= FrameModel {
                                own: doc->0,
                                pending: spec_pending(
                                    spec_imports(doc->0, rpath, rb, old(self)@.home),
                                ),
                                next: 0,
                                acc: empty_table(),
                                budget: rb,
                                path: rpath,
                            });
                        }
                        self.stack.push(frame);
                        proof {
                            assert(final(self)@.stack =~= old(self)@.stack.push(frame@));
                            let (rpath, rb) = old(self)@.reading->0;
                            assert(final(self)@.paths =~= old(self)@.paths.push(rpath));
                            assert(old(self)@.diags.is_prefix_of(final(self)@.diags));
                        }
                        Step::Progress
                    },
                    Err(e) => {
                        if self.stack.len() == 0 {
                            self.done = Some(Err(e));
                            proof {
                                assert(final(self)@.stack =~= old(self)@.stack);
                                assert(final(self)@.paths =~= old(self)@.paths);
                            }
                            Step::Finished
                        } else {
                            self.diagnostics.push(
                                Diagnostic {
                                    severity: Severity::Error,
                                    message: String::from_str("Unable to import config ").concat(
                                        path.as_str(),
                                    ).concat(": ").concat(e.message().as_str()),
                                },
                            );
                            proof {
                                assert(final(self)@.stack =~= old(self)@.stack);
                                assert(final(self)@.paths =~= old(self)@.paths);
                                assert(old(self)@.diags.is_prefix_of(final(self)@.diags));
                            }
                            Step::Progress
                        }
                    },
                }
            },
        }
    }

    /// Advance by one decision: request the next pending import of the
    /// newest frame, skip a faulty import element, or fold a finished frame
    /// — its imports merged left to right, its own content over them — into
    /// its parent, or into the final result at the root.
    pub fn step(&mut self) -> (st: Step)
        requires
            old(self).inv(),
            old(self)@.reading is None,
            old(self)@.done is None,
        ensures
            final(self).inv(),
            final(self)@.home == old(self)@.home,
            old(self)@.diags.is_prefix_of(final(self)@.diags),
            final(self)@.paths == old(self)@.paths,
            ({
                let n = old(self)@.stack.len();
                let top = old(self)@.stack.last();
                if top.next < top.pending.len() {
                    let advanced = FrameModel { next: top.next + 1, ..top };
                    &&& final(self)@.stack == old(self)@.stack.update(n - 1, advanced)
                    &&& match top.pending[top.next] {
                        Ok(p) => {
                            &&& final(self)@.reading == Some((p, top.budget - 1))
                            &&& final(self)@.done is None
                            &&& st matches Step::Read(q) && q@ == p
                        },
                        Err(_) => {
                            &&& final(self)@.reading is None
                            &&& final(self)@.done is None
                            &&& st is Progress
                        },
                    }
                } else {
                    let merged = spec_merge(top.acc, top.own);
                    if n == 1 {
                        &&& final(self)@.stack == Seq::<FrameModel>::empty()
                        &&& final(self)@.done == Some(Ok::<TreeModel, Error>(merged))
                        &&& final(self)@.reading is None
                        &&& st is Finished
                    } else {
                        let parent = old(self)@.stack[n - 2];
                        let folded = FrameModel {
                            acc: spec_merge(parent.acc, merged),
                            ..parent
                        };
                        &&& final(self)@.stack == old(self)@.stack.drop_last().update(
                            n - 2,
                            folded,
                        )
                        &&& final(self)@.reading is None
                        &&& final(self)@.done is None
                        &&& st is Progress
                    }
                }
            }),
    {
        let mut f = match self.stack.pop() {
            Some(f) => f,
            None => {
                return Step::Finished;
            },
        };
        proof {
            assert(old(self)@.stack.last() == f@);
            assert(frame_inv(f@));
        }
        if f.next < f.pending.len() {
            let idx = f.next;
            f.next = idx + 1;
            let outcome: Step = match &f.pending[idx] {
                Ok(p) => {
                    let target = p.clone();
                    self.reading = Some((p.clone(), f.budget - 1));
                    Step::Read(target)
                },
                Err(m) => {
                    self.diagnostics.push(
                        Diagnostic {
                            severity: Severity::Error,
                            message: m.clone(),
                        },
                    );
                    Step::Progress
                },
            };
            self.stack.push(f);
            proof {
                let n = old(self)@.stack.len();
                let top = old(self)@.stack.last();
                assert(final(self)@.stack =~= old(self)@.stack.update(
                    n - 1,
                    FrameModel { next: top.next + 1, ..top },
                ));
                assert(old(self)@.diags.is_prefix_of(final(self)@.diags));
                assert(final(self)@.paths =~= old(self)@.paths);
            }
            outcome
        } else {
            let merged = merge(&f.acc, &f.own);
            if self.stack.len() == 0 {
                self.done = Some(Ok(merged));
                proof {
                    assert(final(self)@.stack =~= Seq::<FrameModel>::empty());
                    assert(final(self)@.paths =~= old(self)@.paths);
                }
                Step::Finished
            } else {
                let mut parent = match self.stack.pop() {
                    Some(p) => p,
                    None => {
                        return Step::Finished;
                    },
                };
                proof {
                    let n = old(self)@.stack.len();
                    assert(old(self)@.stack[n - 2] == parent@);
                    assert(frame_inv(parent@));
                }
                let acc2 = merge(&parent.acc, &merged);
                parent.acc = acc2;
                self.stack.push(parent);
                proof {
                    let n = old(self)@.stack.len();
                    let top = old(self)@.stack.last();
                    let par = old(self)@.stack[n - 2];
                    assert(final(self)@.stack =~= old(self)@.stack.drop_last().update(
                        n - 2,
                        FrameModel {
                            acc: spec_merge(par.acc, spec_merge(top.acc, top.own)),
                            ..par
                        },
                    ));
                    assert(final(self)@.paths =~= old(self)@.paths);
                }
                Step::Progress
            }
        }
    }

    /// The finished load: the merged tree or the root failure, the paths of
    /// every successfully parsed file in visit order, and the recorded
    /// diagnostics.
    pub fn into_result(self) -> (r: (Result<TreeValue, Error>, Vec<String>, Vec<Diagnostic>))
        requires
            self.inv(),
            self@.done is Some,
        ensures
            match self@.done->0 {
                Ok(t) => r.0 matches Ok(v) && v@ == t && model_wf(v@) && v@ is Table,
                Err(e) => r.0 == Err::<TreeValue, Error>(e),
            },
            r.1@.map_values(|s: String| s@) == self@.paths,
            r.2@ == self@.diags,
    {
        let LoadSession { done, config_paths, diagnostics, .. } = self;
        let result = match done {
            Some(r) => r,
            None => Ok(TreeValue::new_table()),
        };
        (result, config_paths, diagnostics)
    }
}

} // verus!
