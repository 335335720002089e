use vstd::prelude::*;

use crate::explorer::{index_of, strings_view};

verus! {

/// How long a native dialog that came back empty must have been open for its
/// empty answer to count as the user's cancellation: one second. An empty
/// answer that came back in less is taken for a dialog that failed to open.
pub const NATIVE_CANCEL_THRESHOLD_NANOS: u128 = 1_000_000_000;

/// How a picker is shown.
#[derive(Clone, Copy, Debug, PartialEq, Eq, Structural)]
pub enum Presentation {
    /// The operating system's own file dialog.
    NativeDialog,
    /// The built-in browser, in a window of its own.
    Window,
    /// The built-in browser, laid over the current page.
    Overlay,
}

/// A native dialog takes precedence over a window, a window over the overlay.
pub fn presentation(desktop_native: bool, desktop_windowed: bool) -> (r: Presentation)
    ensures
        r == (if desktop_native {
            Presentation::NativeDialog
        } else if desktop_windowed {
            Presentation::Window
        } else {
            Presentation::Overlay
        }),
{
    if desktop_native {
        Presentation::NativeDialog
    } else if desktop_windowed {
        Presentation::Window
    } else {
        Presentation::Overlay
    }
}

/// An empty answer that came back in under a second is taken for a dialog that failed to
/// open, not for a cancellation.
pub open spec fn falls_back(picked: nat, elapsed_nanos: nat) -> bool {
    picked == 0 && elapsed_nanos < NATIVE_CANCEL_THRESHOLD_NANOS
}

/// Whether the built-in browser should be shown after a native dialog that
/// returned `picked` paths after `elapsed_nanos` nanoseconds.
pub fn should_fall_back(picked: usize, elapsed_nanos: u128) -> (r: bool)
    ensures
        r == falls_back(picked as nat, elapsed_nanos as nat),
{
    picked == 0 && elapsed_nanos < NATIVE_CANCEL_THRESHOLD_NANOS
}

/// A set of chosen paths, each held once.
pub struct VirtualPaths {
    paths: Vec<String>,
}

impl View for VirtualPaths {
    type V = Set<Seq<char>>;

    closed spec fn view(&self) -> Set<Seq<char>> {
        strings_view(self.paths@).to_set()
    }
}

impl VirtualPaths {
    pub closed spec fn wf(&self) -> bool {
        strings_view(self.paths@).no_duplicates()
    }

    /// The set of `paths`; a path given twice is held once.
    pub fn native(paths: Vec<String>) -> (r: Self)
        ensures
            r.wf(),
            r@ == strings_view(paths@).to_set(),
    {
        let mut held: Vec<String> = Vec::new();
        let mut i: usize = 0;
        while i < paths.len()
            invariant
                i <= paths@.len(),
                strings_view(held@).no_duplicates(),
                strings_view(held@).to_set() == strings_view(paths@.subrange(0, i as int)).to_set(),
            decreases paths.len() - i,
        {
            let p = &paths[i];
            let ghost before = strings_view(held@);
            proof {
                assert(strings_view(paths@.subrange(0, i + 1)) =~= strings_view(
                    paths@.subrange(0, i as int),
                ).push(p@));
                strings_view(paths@.subrange(0, i as int)).lemma_push_to_set_commute(p@);
            }
            match index_of(&held, p) {
                Some(k) => {
                    proof {
                        assert(before[k as int] == p@);
                        assert(before.to_set().contains(p@));
                        assert(before.to_set().insert(p@) =~= before.to_set());
                    }
                },
                None => {
                    held.push(p.clone());
                    proof {
                        assert(strings_view(held@) =~= before.push(p@));
                        before.lemma_push_to_set_commute(p@);
                        assert forall|a: int, b: int|
                            0 <= a < b < strings_view(held@).len() implies strings_view(held@)[a]
                            != strings_view(held@)[b] by {
                            if b == before.len() {
                                assert(before[a] == strings_view(held@)[a]);
                                assert(before.contains(before[a]));
                            }
                        }
                    }
                },
            }
            i = i + 1;
        }
        proof {
            assert(paths@.subrange(0, paths@.len() as int) =~= paths@);
        }
        VirtualPaths { paths: held }
    }

    /// The number of paths.
    pub fn len(&self) -> (r: usize)
        requires
            self.wf(),
        ensures
            r == self@.len(),
    {
        proof {
            strings_view(self.paths@).unique_seq_to_set();
        }
        self.paths.len()
    }

    /// The paths, each once.
    pub fn paths(&self) -> (r: Vec<String>)
        requires
            self.wf(),
        ensures
            strings_view(r@).no_duplicates(),
            strings_view(r@).to_set() == self@,
    {
        let mut out: Vec<String> = Vec::new();
        let mut i: usize = 0;
        while i < self.paths.len()
            invariant
                i <= self.paths@.len(),
                strings_view(out@) == strings_view(self.paths@.subrange(0, i as int)),
            decreases self.paths.len() - i,
        {
            out.push(self.paths[i].clone());
            proof {
                assert(strings_view(self.paths@.subrange(0, i + 1)) =~= strings_view(
                    self.paths@.subrange(0, i as int),
                ).push(self.paths@[i as int]@));
                assert(strings_view(out@) =~= strings_view(self.paths@.subrange(0, i as int)).push(
                    self.paths@[i as int]@,
                ));
            }
            i = i + 1;
        }
        proof {
            assert(self.paths@.subrange(0, self.paths@.len() as int) =~= self.paths@);
        }
        out
    }
}

/// What follows a native dialog.
pub enum NativeOutcome {
    /// The dialog seems not to have opened: show the built-in browser instead.
    Fallback,
    /// The user's answer, to hand to the submission callback.
    Submit(VirtualPaths),
}

/// Decides what follows a native dialog that returned `files` after
/// `elapsed_nanos` nanoseconds.
pub fn native_outcome(files: Vec<String>, elapsed_nanos: u128) -> (r: NativeOutcome)
    ensures
        r is Fallback <==> falls_back(files@.len(), elapsed_nanos as nat),
        r matches NativeOutcome::Submit(v) ==> v.wf() && v@ == strings_view(files@).to_set(),
{
    if should_fall_back(files.len(), elapsed_nanos) {
        NativeOutcome::Fallback
    } else {
        NativeOutcome::Submit(VirtualPaths::native(files))
    }
}

} // verus!
