use vstd::prelude::*;

use crate::entry::{resolve_all, resolve_listing, EntryView, FileSystemType, RawEntry, TypedPathBuf};
use crate::browser::NavOp;
use crate::error::PickerError;

verus! {

/// What `std::path::Path::parent` gives for a path's text.
pub uninterp spec fn parent_path(p: Seq<char>) -> Option<Seq<char>>;

/// Relies on `std::path::Path::parent`: the path without its final component,
/// or nothing where the path ends in a root or a prefix, as the root `/` does.
/// The result depends on the text of the path alone.
#[verifier::external_body]
fn parent_of(p: &String) -> (r: Option<String>)
    ensures
        r.is_some() == parent_path(p@).is_some(),
        r.is_some() ==> r.unwrap()@ == parent_path(p@).unwrap(),
        p@ == seq!['/'] ==> r.is_none(),
{
    match std::path::Path::new(p.as_str()).parent() {
        Some(q) => Some(q.to_string_lossy().into_owned()),
        None => None,
    }
}

/// Navigation history: visited directories, oldest first, and the distance of
/// the current one from the newest.
pub struct Nav {
    pub history: Seq<Seq<char>>,
    pub position: nat,
}

impl Nav {
    pub open spec fn wf(self) -> bool {
        self.position < self.history.len()
    }

    pub open spec fn current(self) -> Seq<char> {
        self.history[self.history.len() - 1 - self.position]
    }

    pub open spec fn can_back(self) -> bool {
        self.position + 1 < self.history.len()
    }

    pub open spec fn can_forward(self) -> bool {
        self.position > 0
    }

    /// A new navigation: entries newer than the current one are dropped.
    pub open spec fn visit(self, p: Seq<char>) -> Nav {
        Nav {
            history: self.history.subrange(0, self.history.len() - self.position).push(p),
            position: 0,
        }
    }

    pub open spec fn back(self) -> Nav {
        Nav { history: self.history, position: self.position + 1 }
    }

    pub open spec fn forward(self) -> Nav {
        Nav { history: self.history, position: (self.position - 1) as nat }
    }
}

/// The mathematical value of a [`FilesExplorerState`].
pub struct ExplorerView {
    pub nav: Nav,
    pub entries: Seq<EntryView>,
    pub is_root: bool,
    pub selection: Set<Seq<char>>,
    pub is_selecting: bool,
    pub error: Option<PickerError>,
    pub multiple: bool,
}

/// The state after a reload with the given listing of the current directory.
///
/// A listing that failed is recorded as the error and changes nothing else. A
/// listing that succeeded replaces the entries with those that resolve, clears
/// the error and tells whether the current directory has a parent.
pub open spec fn reloaded(
    v: ExplorerView,
    listing: Result<Vec<Option<RawEntry>>, String>,
) -> ExplorerView {
    match listing {
        Ok(raw) => ExplorerView {
            entries: resolve_all(raw@),
            is_root: parent_path(v.nav.current()).is_none(),
            error: None,
            ..v
        },
        Err(msg) => ExplorerView { error: Some(PickerError::ListingFailed(msg)), ..v },
    }
}

/// Whether the entry at `i` is a directory at path `p`.
pub open spec fn dir_at(entries: Seq<EntryView>, i: int, p: Seq<char>) -> bool {
    0 <= i < entries.len() && entries[i].kind == FileSystemType::Directory && entries[i].path == p
}

/// Whether `p` is the path of a directory among `entries`.
pub open spec fn lists_dir(entries: Seq<EntryView>, p: Seq<char>) -> bool {
    exists|i: int| #[trigger] dir_at(entries, i, p)
}

/// The selection after `p` is clicked while selecting.
pub open spec fn toggled(sel: Set<Seq<char>>, p: Seq<char>, multiple: bool) -> Set<Seq<char>> {
    if sel.contains(p) {
        sel.remove(p)
    } else if multiple {
        sel.insert(p)
    } else {
        set![p]
    }
}

/// With single selection, selecting `x` and then another path `y` leaves `y`
/// alone selected.
pub proof fn lemma_single_select_keeps_last(sel: Set<Seq<char>>, x: Seq<char>, y: Seq<char>)
    requires
        !sel.contains(x),
        x != y,
    ensures
        toggled(toggled(sel, x, false), y, false) == set![y],
{
}

/// With multiple selection, selecting `x` and then `y` adds both, and
/// selecting `y` once more takes it out again.
pub proof fn lemma_multi_select_toggles(sel: Set<Seq<char>>, x: Seq<char>, y: Seq<char>)
    requires
        !sel.contains(x),
        !sel.contains(y),
        x != y,
    ensures
        toggled(toggled(sel, x, true), y, true) == sel.insert(x).insert(y),
        toggled(toggled(toggled(sel, x, true), y, true), y, true) == sel.insert(x),
{
    assert(sel.insert(x).insert(y).remove(y) =~= sel.insert(x));
}

pub open spec fn strings_view(v: Seq<String>) -> Seq<Seq<char>> {
    v.map_values(|s: String| s@)
}

/// The state of a directory browser: where it is, where it has been, what the
/// current directory holds and what is selected.
///
/// Navigation changes the current directory only; the caller then lists it and
/// hands the listing to [`FilesExplorerState::reload`].
pub struct FilesExplorerState {
    current_entities: Vec<TypedPathBuf>,
    is_root: bool,
    history: Vec<String>,
    history_position: usize,
    selection: Vec<String>,
    is_selecting: bool,
    error: Option<PickerError>,
    multiple: bool,
}

impl View for FilesExplorerState {
    type V = ExplorerView;

    closed spec fn view(&self) -> ExplorerView {
        ExplorerView {
            nav: Nav { history: strings_view(self.history@), position: self.history_position as nat },
            entries: self.current_entities@.map_values(|t: TypedPathBuf| t@),
            is_root: self.is_root,
            selection: strings_view(self.selection@).to_set(),
            is_selecting: self.is_selecting,
            error: self.error,
            multiple: self.multiple,
        }
    }
}

impl FilesExplorerState {
    /// The history is never empty and the position stays inside it; the
    /// selection holds each path once, at most one without `multiple`, and
    /// none while not selecting.
    pub open spec fn wf(&self) -> bool {
        &&& self@.nav.wf()
        &&& !self@.multiple ==> self@.selection.len() <= 1
        &&& !self@.is_selecting ==> self@.selection == Set::<Seq<char>>::empty()
        &&& self.inv()
    }

    proof fn lemma_selection_bounds(&self)
        requires
            self.inv(),
        ensures
            !self@.multiple ==> self@.selection.len() <= 1,
            !self@.is_selecting ==> self@.selection == Set::<Seq<char>>::empty(),
    {
        let sel = strings_view(self.selection@);
        sel.unique_seq_to_set();
        if sel.len() == 0 {
            assert(sel.to_set() =~= Set::empty());
        }
    }

    pub closed spec fn inv(&self) -> bool {
        &&& self.history_position < self.history@.len()
        &&& strings_view(self.selection@).no_duplicates()
        &&& !self.multiple ==> self.selection@.len() <= 1
        &&& !self.is_selecting ==> self.selection@.len() == 0
    }

    /// A browser at the absolute directory `path`, first loaded with `listing`,
    /// the listing of `path`.
    pub fn init_at(
        path: String,
        multiple: bool,
        listing: Result<Vec<Option<RawEntry>>, String>,
    ) -> (r: Self)
        ensures
            r.wf(),
            r@ == reloaded(
                ExplorerView {
                    nav: Nav { history: seq![path@], position: 0 },
                    entries: Seq::empty(),
                    is_root: false,
                    selection: Set::empty(),
                    is_selecting: false,
                    error: None,
                    multiple: multiple,
                },
                listing,
            ),
    {
        let mut history: Vec<String> = Vec::new();
        history.push(path);
        let mut explorer = FilesExplorerState {
            current_entities: Vec::new(),
            is_root: false,
            history,
            history_position: 0,
            selection: Vec::new(),
            is_selecting: false,
            error: None,
            multiple,
        };
        proof {
            assert(strings_view(explorer.history@) =~= seq![path@]);
            assert(explorer.current_entities@.map_values(|t: TypedPathBuf| t@) =~= Seq::empty());
            assert(strings_view(explorer.selection@) =~= Seq::empty());
            assert(strings_view(explorer.selection@).to_set() =~= Set::empty());
        }
        proof {
            explorer.lemma_selection_bounds();
        }
        explorer.reload(listing);
        explorer
    }

    /// Takes in the listing of the current directory.
    pub fn reload(&mut self, listing: Result<Vec<Option<RawEntry>>, String>)
        requires
            old(self).wf(),
        ensures
            final(self).wf(),
            final(self)@ == reloaded(old(self)@, listing),
            listing.is_ok() && old(self)@.nav.current() == seq!['/'] ==> final(self)@.is_root,
    {
        match listing {
            Ok(raw) => {
                let is_root = parent_of(self.current()).is_none();
                self.current_entities = resolve_listing(&raw);
                self.is_root = is_root;
                self.error = None;
            },
            Err(msg) => {
                self.error = Some(PickerError::ListingFailed(msg));
            },
        }
    }

    /// The directory being shown.
    pub fn current(&self) -> (r: &String)
        requires
            self.wf(),
        ensures
            r@ == self@.nav.current(),
    {
        &self.history[self.history.len() - self.history_position - 1]
    }

    pub fn can_go_back(&self) -> (r: bool)
        requires
            self.wf(),
        ensures
            r == self@.nav.can_back(),
    {
        self.history_position < self.history.len() - 1
    }

    pub fn can_go_forward(&self) -> (r: bool)
        requires
            self.wf(),
        ensures
            r == self@.nav.can_forward(),
    {
        self.history_position > 0
    }

    /// Drops the entries newer than the current one, then appends `path`.
    fn history_add(&mut self, path: String)
        requires
            old(self).wf(),
        ensures
            final(self).wf(),
            final(self)@ == (ExplorerView { nav: old(self)@.nav.visit(path@), ..old(self)@ }),
    {
        if self.history_position != 0 {
            self.history.truncate(self.history.len() - self.history_position);
            self.history_position = 0;
        }
        self.history.push(path);
        proof {
            let old_h = strings_view(old(self).history@);
            assert(strings_view(self.history@) =~= old_h.subrange(
                0,
                old_h.len() - old(self).history_position,
            ).push(path@));
        }
    }

    fn history_back(&mut self)
        requires
            old(self).wf(),
            old(self)@.nav.can_back(),
        ensures
            final(self).wf(),
            final(self)@ == (ExplorerView { nav: old(self)@.nav.back(), ..old(self)@ }),
    {
        let n = self.history.len();
        assert(self.history_position + 1 < n);
        self.history_position = self.history_position + 1;
    }

    fn history_forward(&mut self)
        requires
            old(self).wf(),
            old(self)@.nav.can_forward(),
        ensures
            final(self).wf(),
            final(self)@ == (ExplorerView { nav: old(self)@.nav.forward(), ..old(self)@ }),
    {
        self.history_position = self.history_position - 1;
    }
    /// Moves into `path`, which must be the path of a directory among the
    /// current entries. The caller then lists the new current directory and
    /// hands the listing to `reload`.
    pub fn enter_dir(&mut self, path: String) -> (r: Result<(), PickerError>)
        requires
            old(self).wf(),
        ensures
            final(self).wf(),
            r.is_ok() == lists_dir(old(self)@.entries, path@),
            r.is_ok() ==> final(self)@.nav == old(self)@.nav.step(NavOp::Visit(path@)),
            r.is_ok() ==> final(self)@ == (ExplorerView { nav: old(self)@.nav.visit(path@), ..old(self)@ }),
            r.is_err() ==> r == Err::<(), PickerError>(PickerError::InvalidOperation) && final(self)@ == old(self)@,
    {
        let ghost entries = self@.entries;
        let mut i: usize = 0;
        let mut found = false;
        while i < self.current_entities.len()
            invariant
                entries == self@.entries,
                entries.len() == self.current_entities@.len(),
                i <= entries.len(),
                found == exists|j: int| 0 <= j < i && #[trigger] dir_at(entries, j, path@),
            decreases self.current_entities.len() - i,
        {
            let e = &self.current_entities[i];
            assert(entries[i as int] == e@);
            let is_dir = e.kind == FileSystemType::Directory;
            let same = e.path == path;
            if is_dir && same {
                found = true;
            }
            proof {
                if !found {
                    assert forall|j: int| 0 <= j < i + 1 implies !#[trigger] dir_at(entries, j, path@) by {
                        if j == i as int {
                        }
                    }
                } else if !(is_dir && same) {
                    let w = choose|j: int| 0 <= j < i && #[trigger] dir_at(entries, j, path@);
                    assert(0 <= w < i + 1 && dir_at(entries, w, path@));
                } else {
                    assert(dir_at(entries, i as int, path@));
                }
            }
            i = i + 1;
        }
        if !found {
            return Err(PickerError::InvalidOperation);
        }
        self.history_add(path);
        Ok(())
    }

    /// Moves to the parent of the current directory. Not available at a root.
    pub fn go_up(&mut self) -> (r: Result<(), PickerError>)
        requires
            old(self).wf(),
        ensures
            final(self).wf(),
            r.is_ok() == (!old(self)@.is_root && parent_path(old(self)@.nav.current()).is_some()),
            r.is_ok() ==> final(self)@ == (ExplorerView {
                nav: old(self)@.nav.visit(parent_path(old(self)@.nav.current()).unwrap()),
                ..old(self)@
            }),
            r.is_err() ==> r == Err::<(), PickerError>(PickerError::InvalidOperation) && final(self)@ == old(self)@,
    {
        if self.is_root {
            return Err(PickerError::InvalidOperation);
        }
        match parent_of(self.current()) {
            Some(parent) => {
                self.history_add(parent);
                Ok(())
            },
            None => Err(PickerError::InvalidOperation),
        }
    }

    /// Moves one entry back in the history.
    pub fn go_back(&mut self) -> (r: Result<(), PickerError>)
        requires
            old(self).wf(),
        ensures
            final(self).wf(),
            r.is_ok() == old(self)@.nav.can_back(),
            final(self)@.nav == old(self)@.nav.step(NavOp::Back),
            r.is_ok() ==> final(self)@ == (ExplorerView { nav: old(self)@.nav.back(), ..old(self)@ }),
            r.is_err() ==> r == Err::<(), PickerError>(PickerError::InvalidOperation) && final(self)@ == old(self)@,
    {
        if !self.can_go_back() {
            return Err(PickerError::InvalidOperation);
        }
        self.history_back();
        Ok(())
    }

    /// Moves one entry forward in the history.
    pub fn go_forward(&mut self) -> (r: Result<(), PickerError>)
        requires
            old(self).wf(),
        ensures
            final(self).wf(),
            r.is_ok() == old(self)@.nav.can_forward(),
            final(self)@.nav == old(self)@.nav.step(NavOp::Forward),
            r.is_ok() ==> final(self)@ == (ExplorerView { nav: old(self)@.nav.forward(), ..old(self)@ }),
            r.is_err() ==> r == Err::<(), PickerError>(PickerError::InvalidOperation) && final(self)@ == old(self)@,
    {
        if !self.can_go_forward() {
            return Err(PickerError::InvalidOperation);
        }
        self.history_forward();
        Ok(())
    }
    /// Switches between browsing and selecting; the selection starts empty.
    pub fn toggle_selecting(&mut self)
        requires
            old(self).wf(),
        ensures
            final(self).wf(),
            final(self)@ == (ExplorerView {
                selection: Set::empty(),
                is_selecting: !old(self)@.is_selecting,
                ..old(self)@
            }),
    {
        self.selection.clear();
        self.is_selecting = !self.is_selecting;
        proof {
            self.lemma_selection_bounds();
            assert(strings_view(self.selection@) =~= Seq::empty());
            assert(strings_view(self.selection@).to_set() =~= Set::empty());
        }
    }

    /// Adds `path` to the selection, or takes it out if it is there. Without
    /// `multiple` a new path replaces the one selected before. Only available
    /// while selecting.
    pub fn toggle_selection(&mut self, path: String) -> (r: Result<(), PickerError>)
        requires
            old(self).wf(),
        ensures
            final(self).wf(),
            r.is_ok() == old(self)@.is_selecting,
            r.is_ok() ==> final(self)@ == (ExplorerView {
                selection: toggled(old(self)@.selection, path@, old(self)@.multiple),
                ..old(self)@
            }),
            r.is_err() ==> r == Err::<(), PickerError>(PickerError::InvalidOperation) && final(self)@ == old(self)@,
    {
        if !self.is_selecting {
            return Err(PickerError::InvalidOperation);
        }
        let ghost sel = strings_view(self.selection@);
        let at = index_of(&self.selection, &path);
        match at {
            Some(k) => {
                self.selection.remove(k);
                proof {
                    assert(strings_view(self.selection@) =~= sel.remove(k as int));
                    lemma_remove_unique(sel, k as int);
                }
            },
            None => {
                proof {
                    assert(!sel.contains(path@));
                }
                if !self.multiple {
                    self.selection.clear();
                }
                self.selection.push(path);
                proof {
                    if self.multiple {
                        assert(strings_view(self.selection@) =~= sel.push(path@));
                        lemma_push_unique(sel, path@);
                    } else {
                        assert(strings_view(self.selection@) =~= seq![path@]);
                        let e = Seq::<Seq<char>>::empty();
                        assert(e.to_set() =~= Set::empty());
                        lemma_push_unique(e, path@);
                        assert(e.push(path@) =~= seq![path@]);
                        assert(set![path@] =~= Set::empty().insert(path@));
                    }
                }
            },
        }
        proof {
            self.lemma_selection_bounds();
        }
        Ok(())
    }

    /// A click on an entry. While selecting it toggles the entry's selection;
    /// otherwise it opens a directory and leaves a file alone. `Ok(true)` where
    /// the current directory changed: the caller then lists it and hands the
    /// listing to `reload`.
    pub fn activate(&mut self, entry: &TypedPathBuf) -> (r: Result<bool, PickerError>)
        requires
            old(self).wf(),
        ensures
            final(self).wf(),
            old(self)@.is_selecting ==> r == Ok::<bool, PickerError>(false) && final(self)@ == (
            ExplorerView {
                selection: toggled(old(self)@.selection, entry.path@, old(self)@.multiple),
                ..old(self)@
            }),
            !old(self)@.is_selecting && entry.kind == FileSystemType::Directory ==> {
                &&& r.is_ok() == lists_dir(old(self)@.entries, entry.path@)
                &&& r.is_ok() ==> r == Ok::<bool, PickerError>(true) && final(self)@ == (ExplorerView {
                    nav: old(self)@.nav.visit(entry.path@),
                    ..old(self)@
                })
                &&& r.is_err() ==> r == Err::<bool, PickerError>(PickerError::InvalidOperation)
                    && final(self)@ == old(self)@
            },
            !old(self)@.is_selecting && entry.kind == FileSystemType::File ==> r == Ok::<
                bool,
                PickerError,
            >(false) && final(self)@ == old(self)@,
    {
        if self.is_selecting {
            match self.toggle_selection(entry.path.clone()) {
                Ok(()) => Ok(false),
                Err(e) => Err(e),
            }
        } else if entry.kind == FileSystemType::Directory {
            match self.enter_dir(entry.path.clone()) {
                Ok(()) => Ok(true),
                Err(e) => Err(e),
            }
        } else {
            Ok(false)
        }
    }

    /// Hands out the selection and returns to browsing. Only available while
    /// selecting.
    pub fn submit(&mut self) -> (r: Result<Vec<String>, PickerError>)
        requires
            old(self).wf(),
        ensures
            final(self).wf(),
            r.is_ok() == old(self)@.is_selecting,
            r.is_ok() ==> strings_view(r.unwrap()@).no_duplicates()
                && strings_view(r.unwrap()@).to_set() == old(self)@.selection
                && final(self)@ == (ExplorerView {
                    selection: Set::empty(),
                    is_selecting: false,
                    ..old(self)@
                }),
            r.is_err() ==> r == Err::<Vec<String>, PickerError>(PickerError::InvalidOperation)
                && final(self)@ == old(self)@,
    {
        if !self.is_selecting {
            return Err(PickerError::InvalidOperation);
        }
        let mut taken: Vec<String> = Vec::new();
        std::mem::swap(&mut taken, &mut self.selection);
        self.is_selecting = false;
        proof {
            assert(strings_view(self.selection@) =~= Seq::empty());
            assert(strings_view(self.selection@).to_set() =~= Set::empty());
        }
        proof {
            self.lemma_selection_bounds();
        }
        Ok(taken)
    }
    /// The resolved entries of the current directory, as last listed.
    pub fn entries(&self) -> (r: &Vec<TypedPathBuf>)
        ensures
            r@.map_values(|t: TypedPathBuf| t@) == self@.entries,
    {
        &self.current_entities
    }

    /// Whether the current directory had no parent when it was last listed.
    pub fn is_root(&self) -> (r: bool)
        ensures
            r == self@.is_root,
    {
        self.is_root
    }

    pub fn is_selecting(&self) -> (r: bool)
        ensures
            r == self@.is_selecting,
    {
        self.is_selecting
    }

    /// Whether more than one path may be selected.
    pub fn multiple(&self) -> (r: bool)
        ensures
            r == self@.multiple,
    {
        self.multiple
    }

    /// The error of the last listing, if it failed.
    pub fn last_error(&self) -> (r: &Option<PickerError>)
        ensures
            *r == self@.error,
    {
        &self.error
    }

    /// Forgets the error of the last listing.
    pub fn dismiss_error(&mut self)
        requires
            old(self).wf(),
        ensures
            final(self).wf(),
            final(self)@ == (ExplorerView { error: None, ..old(self)@ }),
    {
        self.error = None;
    }

    /// The selected paths, each once.
    pub fn selection(&self) -> (r: &Vec<String>)
        requires
            self.wf(),
        ensures
            strings_view(r@).no_duplicates(),
            strings_view(r@).to_set() == self@.selection,
    {
        &self.selection
    }

    /// Whether `path` is selected.
    pub fn is_selected(&self, path: &String) -> (r: bool)
        ensures
            r == self@.selection.contains(path@),
    {
        let ghost sel = strings_view(self.selection@);
        match index_of(&self.selection, path) {
            Some(k) => {
                proof {
                    assert(sel[k as int] == path@);
                    assert(sel.contains(path@));
                }
                true
            },
            None => false,
        }
    }
}

/// Where `p` first stands in `v`, if it does.
pub(crate) fn index_of(v: &Vec<String>, p: &String) -> (r: Option<usize>)
    ensures
        r.is_some() ==> r.unwrap() < v@.len() && v@[r.unwrap() as int]@ == p@,
        r.is_none() ==> !strings_view(v@).contains(p@),
{
    let mut i: usize = 0;
    while i < v.len()
        invariant
            i <= v@.len(),
            forall|j: int| 0 <= j < i ==> v@[j]@ != p@,
        decreases v.len() - i,
    {
        if v[i] == *p {
            return Some(i);
        }
        i = i + 1;
    }
    proof {
        if strings_view(v@).contains(p@) {
            let j = choose|j: int| 0 <= j < v@.len() && strings_view(v@)[j] == p@;
            assert(v@[j]@ == p@);
        }
    }
    None
}

proof fn lemma_remove_unique(s: Seq<Seq<char>>, k: int)
    requires
        s.no_duplicates(),
        0 <= k < s.len(),
    ensures
        s.remove(k).no_duplicates(),
        s.remove(k).to_set() == s.to_set().remove(s[k]),
{
    let r = s.remove(k);
    assert forall|a: int, b: int| 0 <= a < b < r.len() implies r[a] != r[b] by {
        let a2 = if a < k { a } else { a + 1 };
        let b2 = if b < k { b } else { b + 1 };
        assert(r[a] == s[a2] && r[b] == s[b2]);
    }
    assert forall|x: Seq<char>| r.to_set().contains(x) <==> s.to_set().remove(s[k]).contains(x) by {
        if r.contains(x) {
            let a = choose|a: int| 0 <= a < r.len() && r[a] == x;
            let a2 = if a < k { a } else { a + 1 };
            assert(s[a2] == x);
            assert(s.contains(x));
        }
        if s.contains(x) && x != s[k] {
            let a = choose|a: int| 0 <= a < s.len() && s[a] == x;
            let a2 = if a < k { a } else { a - 1 };
            assert(r[a2] == x);
            assert(r.contains(x));
        }
    }
    assert(r.to_set() =~= s.to_set().remove(s[k]));
}

proof fn lemma_push_unique(s: Seq<Seq<char>>, x: Seq<char>)
    requires
        s.no_duplicates(),
        !s.contains(x),
    ensures
        s.push(x).no_duplicates(),
        s.push(x).to_set() == s.to_set().insert(x),
{
    let r = s.push(x);
    assert forall|a: int, b: int| 0 <= a < b < r.len() implies r[a] != r[b] by {
        if b == s.len() {
            assert(r[a] == s[a]);
        }
    }
    assert forall|y: Seq<char>| r.to_set().contains(y) <==> s.to_set().insert(x).contains(y) by {
        if r.contains(y) && y != x {
            let a = choose|a: int| 0 <= a < r.len() && r[a] == y;
            assert(s[a] == y);
        }
        if s.contains(y) {
            let a = choose|a: int| 0 <= a < s.len() && s[a] == y;
            assert(r[a] == y);
        }
        if y == x {
            assert(r[s.len() as int] == x);
        }
    }
    assert(r.to_set() =~= s.to_set().insert(x));
}

} // verus!
