use vstd::prelude::*;

use crate::text::string_views;

verus! {

/// What is being done to a namespace being deleted.
#[derive(Debug, Clone, Copy, PartialEq, Eq, Structural)]
pub enum DeletionStage {
    /// Listing its child namespaces.
    ListingChildren,
    /// Deleting its child namespaces, one after the other.
    DeletingChildren,
    /// Listing its mounts.
    ListingMounts,
    /// Removing its mounts, one after the other.
    RemovingMounts,
    /// Deleting the namespace itself.
    Deleting,
}

/// The kinds of [`DeletionAction`].
#[derive(Debug, Clone, Copy, PartialEq, Eq, Structural)]
pub enum DeletionActionKind {
    ListChildren,
    ListMounts,
    RemoveMount,
    DeleteNamespace,
    Done,
    Fail,
}

/// What the outside world answered.
pub enum DeletionEvent {
    /// The ids of the child namespaces.
    ChildrenListed { ids: Vec<String> },
    /// The paths of the mounts.
    MountsListed { paths: Vec<String> },
    /// The mount was removed.
    MountRemoved,
    /// Whether the namespace was deleted.
    NamespaceDeleted { deleted: bool },
}

/// What to do next.
pub enum DeletionAction {
    /// List the child namespaces of `namespace_id`.
    ListChildren { namespace_id: String },
    /// List the mounts of `namespace_id`.
    ListMounts { namespace_id: String },
    /// Remove the mount at `path` of `namespace_id`.
    RemoveMount { path: String, namespace_id: String },
    /// Delete the namespace `namespace_id`.
    DeleteNamespace { namespace_id: String },
    /// Everything was deleted.
    Done,
    /// The namespace `namespace_id` could not be deleted.
    Fail { namespace_id: String },
}

/// A namespace under deletion: its id, what is being done, and the children
/// or mounts still to go.
struct Frame {
    id: String,
    stage: DeletionStage,
    pending: Vec<String>,
}

/// A frame as text: id, stage, and the children or mounts still to go.
pub type FrameView = (Seq<char>, DeletionStage, Seq<Seq<char>>);

/// An action as its kind and its texts (the path or id it names, then the
/// namespace id of a mount removal).
pub open spec fn action_view(a: DeletionAction) -> (DeletionActionKind, Seq<char>, Seq<char>) {
    match a {
        DeletionAction::ListChildren { namespace_id } => (
            DeletionActionKind::ListChildren,
            namespace_id@,
            Seq::empty(),
        ),
        DeletionAction::ListMounts { namespace_id } => (
            DeletionActionKind::ListMounts,
            namespace_id@,
            Seq::empty(),
        ),
        DeletionAction::RemoveMount { path, namespace_id } => (
            DeletionActionKind::RemoveMount,
            path@,
            namespace_id@,
        ),
        DeletionAction::DeleteNamespace { namespace_id } => (
            DeletionActionKind::DeleteNamespace,
            namespace_id@,
            Seq::empty(),
        ),
        DeletionAction::Done => (DeletionActionKind::Done, Seq::empty(), Seq::empty()),
        DeletionAction::Fail { namespace_id } => (
            DeletionActionKind::Fail,
            namespace_id@,
            Seq::empty(),
        ),
    }
}

/// The next move of the namespace on top of `frames`, which is deleting its
/// children or removing its mounts: the next child is descended into (its
/// children listed first), the next mount removed; when none is left the
/// mounts are listed, or the namespace itself is deleted.
pub open spec fn advance(frames: Seq<FrameView>) -> (Seq<FrameView>, (
    DeletionActionKind,
    Seq<char>,
    Seq<char>,
)) {
    let top = frames.last();
    let last = frames.len() - 1;
    if top.1 == DeletionStage::DeletingChildren {
        if top.2.len() > 0 {
            (
                frames.update(last, (top.0, DeletionStage::DeletingChildren, top.2.drop_first())).push(
                    (top.2[0], DeletionStage::ListingChildren, Seq::empty()),
                ),
                (DeletionActionKind::ListChildren, top.2[0], Seq::empty()),
            )
        } else {
            (
                frames.update(last, (top.0, DeletionStage::ListingMounts, Seq::empty())),
                (DeletionActionKind::ListMounts, top.0, Seq::empty()),
            )
        }
    } else {
        if top.2.len() > 0 {
            (
                frames.update(last, (top.0, DeletionStage::RemovingMounts, top.2.drop_first())),
                (DeletionActionKind::RemoveMount, top.2[0], top.0),
            )
        } else {
            (
                frames.update(last, (top.0, DeletionStage::Deleting, Seq::empty())),
                (DeletionActionKind::DeleteNamespace, top.0, Seq::empty()),
            )
        }
    }
}

/// What taking in `event` leads to: listed children or mounts are taken up
/// one by one; a deleted namespace hands back to its parent, and the last
/// one ends the deletion; a namespace that was not deleted fails it.
pub open spec fn deletion_step(frames: Seq<FrameView>, event: DeletionEvent) -> (Seq<FrameView>, (
    DeletionActionKind,
    Seq<char>,
    Seq<char>,
)) {
    let top = frames.last();
    let last = frames.len() - 1;
    match event {
        DeletionEvent::ChildrenListed { ids } => advance(
            frames.update(last, (top.0, DeletionStage::DeletingChildren, string_views(ids@))),
        ),
        DeletionEvent::MountsListed { paths } => advance(
            frames.update(last, (top.0, DeletionStage::RemovingMounts, string_views(paths@))),
        ),
        DeletionEvent::MountRemoved => advance(frames),
        DeletionEvent::NamespaceDeleted { deleted } => if !deleted {
            (Seq::empty(), (DeletionActionKind::Fail, top.0, Seq::empty()))
        } else if frames.len() == 1 {
            (Seq::empty(), (DeletionActionKind::Done, Seq::empty(), Seq::empty()))
        } else {
            advance(frames.drop_last())
        },
    }
}

/// The deletion of a namespace with everything below it: each child
/// namespace is deleted first (depth first, in the order listed), then each
/// mount removed, then the namespace itself deleted. A namespace that is not
/// deleted stops everything.
pub struct NamespaceDeletion {
    frames: Vec<Frame>,
}

spec fn frame_view(f: Frame) -> FrameView {
    (f.id@, f.stage, string_views(f.pending@))
}

impl NamespaceDeletion {
    /// The namespaces under deletion, the one started with first.
    pub closed spec fn frames(&self) -> Seq<FrameView> {
        self.frames@.map_values(|f: Frame| frame_view(f))
    }

    /// Every namespace but the last is deleting its children.
    pub open spec fn wf(&self) -> bool {
        forall|i: int|
            0 <= i < self.frames().len() - 1 ==> (#[trigger] self.frames()[i]).1
                == DeletionStage::DeletingChildren
    }

    /// Whether `event` answers the action last returned.
    pub open spec fn expects(&self, event: DeletionEvent) -> bool {
        self.frames().len() > 0 && match event {
            DeletionEvent::ChildrenListed { .. } => self.frames().last().1
                == DeletionStage::ListingChildren,
            DeletionEvent::MountsListed { .. } => self.frames().last().1
                == DeletionStage::ListingMounts,
            DeletionEvent::MountRemoved => self.frames().last().1 == DeletionStage::RemovingMounts,
            DeletionEvent::NamespaceDeleted { .. } => self.frames().last().1
                == DeletionStage::Deleting,
        }
    }

    /// Starts deleting the namespace `namespace_id`: its children are listed
    /// first.
    pub fn new(namespace_id: String) -> (r: (Self, DeletionAction))
        ensures
            r.0.wf(),
            r.0.frames() == seq![(namespace_id@, DeletionStage::ListingChildren, Seq::<Seq<char>>::empty())],
            action_view(r.1) == (DeletionActionKind::ListChildren, namespace_id@, Seq::<char>::empty()),
    {
        let action = DeletionAction::ListChildren { namespace_id: namespace_id.clone() };
        let mut frames: Vec<Frame> = Vec::new();
        frames.push(Frame { id: namespace_id, stage: DeletionStage::ListingChildren, pending: Vec::new() });
        let r = NamespaceDeletion { frames };
        proof {
            assert(string_views(Seq::<String>::empty()) =~= Seq::<Seq<char>>::empty());
            assert(r.frames() =~= seq![(namespace_id@, DeletionStage::ListingChildren, Seq::<Seq<char>>::empty())]);
        }
        (r, action)
    }

    /// Takes in the answer to the last action and says what to do next
    /// (see [`deletion_step`]).
    #[verifier::rlimit(30)]
    pub fn step(&mut self, event: DeletionEvent) -> (r: DeletionAction)
        requires
            old(self).wf(),
            old(self).expects(event),
        ensures
            final(self).wf(),
            (final(self).frames(), action_view(r)) == deletion_step(old(self).frames(), event),
            event matches DeletionEvent::ChildrenListed { ids } ==> if ids@.len() > 0 {
                &&& r matches DeletionAction::ListChildren { namespace_id } && namespace_id@ == ids@[0]@
                &&& final(self).frames() == old(self).frames().drop_last().push(
                    (old(self).frames().last().0, DeletionStage::DeletingChildren, string_views(ids@).drop_first()),
                ).push((ids@[0]@, DeletionStage::ListingChildren, Seq::<Seq<char>>::empty()))
            } else {
                &&& r matches DeletionAction::ListMounts { namespace_id } && namespace_id@
                    == old(self).frames().last().0
                &&& final(self).frames() == old(self).frames().drop_last().push(
                    (old(self).frames().last().0, DeletionStage::ListingMounts, Seq::<Seq<char>>::empty()),
                )
            },
            event matches DeletionEvent::MountsListed { paths } ==> if paths@.len() > 0 {
                &&& r matches DeletionAction::RemoveMount { path, namespace_id } && path@ == paths@[0]@
                    && namespace_id@ == old(self).frames().last().0
                &&& final(self).frames() == old(self).frames().drop_last().push(
                    (old(self).frames().last().0, DeletionStage::RemovingMounts, string_views(paths@).drop_first()),
                )
            } else {
                &&& r matches DeletionAction::DeleteNamespace { namespace_id } && namespace_id@
                    == old(self).frames().last().0
                &&& final(self).frames() == old(self).frames().drop_last().push(
                    (old(self).frames().last().0, DeletionStage::Deleting, Seq::<Seq<char>>::empty()),
                )
            },
            event is MountRemoved ==> if old(self).frames().last().2.len() > 0 {
                &&& r matches DeletionAction::RemoveMount { path, namespace_id } && path@
                    == old(self).frames().last().2[0] && namespace_id@ == old(self).frames().last().0
                &&& final(self).frames() == old(self).frames().drop_last().push(
                    (old(self).frames().last().0, DeletionStage::RemovingMounts, old(self).frames().last().2.drop_first()),
                )
            } else {
                &&& r matches DeletionAction::DeleteNamespace { namespace_id } && namespace_id@
                    == old(self).frames().last().0
                &&& final(self).frames() == old(self).frames().drop_last().push(
                    (old(self).frames().last().0, DeletionStage::Deleting, Seq::<Seq<char>>::empty()),
                )
            },
            event matches DeletionEvent::NamespaceDeleted { deleted } ==> {
                &&& !deleted ==> (r matches DeletionAction::Fail { namespace_id } && namespace_id@
                    == old(self).frames().last().0 && final(self).frames().len() == 0)
                &&& deleted && old(self).frames().len() == 1 ==> r is Done && final(self).frames().len() == 0
                &&& deleted && old(self).frames().len() > 1 ==> (r is ListChildren || r is ListMounts)
                    && final(self).frames().len() >= old(self).frames().len() - 1
            },
    {
        let ghost before = self.frames();
        match event {
            DeletionEvent::ChildrenListed { ids } => {
                let ghost listed = string_views(ids@);
                let mut top = self.frames.pop().unwrap();
                top.stage = DeletionStage::DeletingChildren;
                top.pending = ids;
                self.frames.push(top);
                proof {
                    assert(self.frames() =~= before.update(
                        before.len() - 1,
                        (before.last().0, DeletionStage::DeletingChildren, listed),
                    ));
                }
                self.advance_top()
            },
            DeletionEvent::MountsListed { paths } => {
                let ghost listed = string_views(paths@);
                let mut top = self.frames.pop().unwrap();
                top.stage = DeletionStage::RemovingMounts;
                top.pending = paths;
                self.frames.push(top);
                proof {
                    assert(self.frames() =~= before.update(
                        before.len() - 1,
                        (before.last().0, DeletionStage::RemovingMounts, listed),
                    ));
                }
                self.advance_top()
            },
            DeletionEvent::MountRemoved => self.advance_top(),
            DeletionEvent::NamespaceDeleted { deleted } => {
                let top = self.frames.pop().unwrap();
                proof {
                    assert(self.frames() =~= before.drop_last());
                }
                if !deleted {
                    self.frames = Vec::new();
                    proof {
                        assert(self.frames() =~= Seq::<FrameView>::empty());
                    }
                    DeletionAction::Fail { namespace_id: top.id }
                } else if self.frames.len() == 0 {
                    proof {
                        assert(self.frames() =~= Seq::<FrameView>::empty());
                    }
                    DeletionAction::Done
                } else {
                    self.advance_top()
                }
            },
        }
    }

    /// The next move of the top namespace (see [`advance`]).
    #[verifier::rlimit(30)]
    fn advance_top(&mut self) -> (r: DeletionAction)
        requires
            old(self).frames().len() > 0,
            old(self).wf(),
            old(self).frames().last().1 == DeletionStage::DeletingChildren || old(self).frames().last().1
                == DeletionStage::RemovingMounts,
        ensures
            final(self).wf(),
            (final(self).frames(), action_view(r)) == advance(old(self).frames()),
    {
        let ghost before = self.frames();
        let mut top = self.frames.pop().unwrap();
        let ghost rest = self.frames@;
        proof {
            assert(before =~= rest.map_values(|f: Frame| frame_view(f)).push(frame_view(top)));
        }
        if top.pending.len() > 0 {
            let ghost old_pending = string_views(top.pending@);
            let next = top.pending.remove(0);
            proof {
                assert(string_views(top.pending@) =~= old_pending.drop_first());
                assert(old_pending[0] == next@);
            }
            if top.stage == DeletionStage::DeletingChildren {
                let id = top.id.clone();
                let child = Frame { id: next.clone(), stage: DeletionStage::ListingChildren, pending: Vec::new() };
                self.frames.push(top);
                self.frames.push(child);
                proof {
                    assert(string_views(Seq::<String>::empty()) =~= Seq::<Seq<char>>::empty());
                    assert(self.frames() =~= advance(before).0);
                }
                DeletionAction::ListChildren { namespace_id: next }
            } else {
                let id = top.id.clone();
                self.frames.push(top);
                proof {
                    assert(self.frames() =~= advance(before).0);
                }
                DeletionAction::RemoveMount { path: next, namespace_id: id }
            }
        } else {
            let id = top.id.clone();
            proof {
                assert(string_views(top.pending@) =~= Seq::<Seq<char>>::empty());
            }
            if top.stage == DeletionStage::DeletingChildren {
                top.stage = DeletionStage::ListingMounts;
                self.frames.push(top);
                proof {
                    assert(self.frames() =~= advance(before).0);
                }
                DeletionAction::ListMounts { namespace_id: id }
            } else {
                top.stage = DeletionStage::Deleting;
                self.frames.push(top);
                proof {
                    assert(self.frames() =~= advance(before).0);
                }
                DeletionAction::DeleteNamespace { namespace_id: id }
            }
        }
    }
}

/// The frames after `n` answers that a mount was removed.
pub open spec fn after_removals(frames: Seq<FrameView>, n: nat) -> Seq<FrameView>
    decreases n,
{
    if n == 0 {
        frames
    } else {
        deletion_step(after_removals(frames, (n - 1) as nat), DeletionEvent::MountRemoved).0
    }
}

/// Once a namespace is removing its mounts with `pending` still to go, each
/// answer that a mount was removed asks for the next of `pending`, in order,
/// and only after the last of them is the namespace itself deleted: no
/// listed mount is skipped, and the namespaces below it are untouched.
pub proof fn law_every_mount_removed_before_its_namespace(
    frames: Seq<FrameView>,
    id: Seq<char>,
    pending: Seq<Seq<char>>,
    n: nat,
)
    requires
        frames.len() > 0,
        frames.last() == (id, DeletionStage::RemovingMounts, pending),
        n <= pending.len(),
    ensures
        after_removals(frames, n) == frames.drop_last().push((id, DeletionStage::RemovingMounts, pending.skip(n as int))),
        n < pending.len() ==> deletion_step(after_removals(frames, n), DeletionEvent::MountRemoved).1 == (
            DeletionActionKind::RemoveMount,
            pending[n as int],
            id,
        ),
        n == pending.len() ==> deletion_step(after_removals(frames, n), DeletionEvent::MountRemoved).1 == (
            DeletionActionKind::DeleteNamespace,
            id,
            Seq::<char>::empty(),
        ),
    decreases n,
{
    if n == 0 {
        assert(pending.skip(0) =~= pending);
        assert(frames.drop_last().push(frames.last()) =~= frames);
    } else {
        law_every_mount_removed_before_its_namespace(frames, id, pending, (n - 1) as nat);
        let prev = after_removals(frames, (n - 1) as nat);
        assert(pending.skip(n - 1).drop_first() =~= pending.skip(n as int));
        assert(prev.update(prev.len() - 1, (id, DeletionStage::RemovingMounts, pending.skip(n as int)))
            =~= frames.drop_last().push((id, DeletionStage::RemovingMounts, pending.skip(n as int))));
    }
    let cur = after_removals(frames, n);
    assert(cur.last() == (id, DeletionStage::RemovingMounts, pending.skip(n as int)));
    if n < pending.len() {
        assert(pending.skip(n as int)[0] == pending[n as int]);
    }
}

/// A listed set of mounts is taken up in order: the first is removed at
/// once and the others are kept pending, so by
/// `law_every_mount_removed_before_its_namespace` each of them is removed,
/// in the order listed, before the namespace is deleted.
pub proof fn law_listed_mounts_are_taken_in_order(frames: Seq<FrameView>, paths: Vec<String>)
    requires
        frames.len() > 0,
        frames.last().1 == DeletionStage::ListingMounts,
    ensures
        paths@.len() > 0 ==> {
            &&& deletion_step(frames, DeletionEvent::MountsListed { paths }).1 == (
                DeletionActionKind::RemoveMount,
                paths@[0]@,
                frames.last().0,
            )
            &&& deletion_step(frames, DeletionEvent::MountsListed { paths }).0.last() == (
                frames.last().0,
                DeletionStage::RemovingMounts,
                string_views(paths@).drop_first(),
            )
        },
        paths@.len() == 0 ==> deletion_step(frames, DeletionEvent::MountsListed { paths }).1 == (
            DeletionActionKind::DeleteNamespace,
            frames.last().0,
            Seq::<char>::empty(),
        ),
{
}

} // verus!
