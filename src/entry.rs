use vstd::prelude::*;

verus! {

/// What a listed entry is, once any symlink has been followed.
#[derive(Clone, Copy, Debug, PartialEq, Eq, Structural)]
pub enum FileSystemType {
    File,
    Directory,
}

/// A listed entry: its kind, its resolved path and the name shown for it.
#[derive(Clone, Debug, PartialEq, Eq)]
pub struct TypedPathBuf {
    /// The file system entity type.
    pub kind: FileSystemType,
    /// The resolved path; for a symlink, its canonical target.
    pub path: String,
    /// The name of the entry as it stands in its directory, even for a symlink.
    pub name: String,
}

/// The mathematical value of a [`TypedPathBuf`].
pub struct EntryView {
    pub kind: FileSystemType,
    pub path: Seq<char>,
    pub name: Seq<char>,
}

impl View for TypedPathBuf {
    type V = EntryView;

    open spec fn view(&self) -> EntryView {
        EntryView { kind: self.kind, path: self.path@, name: self.name@ }
    }
}

impl TypedPathBuf {
    pub fn new(kind: FileSystemType, path: String, name: String) -> (r: Self)
        ensures
            r@ == (EntryView { kind: kind, path: path@, name: name@ }),
    {
        TypedPathBuf { kind, path, name }
    }
}

/// The type that a directory entry reports for itself, before any symlink is followed.
#[derive(Clone, Copy, Debug, PartialEq, Eq, Structural)]
pub enum RawFileType {
    File,
    Directory,
    Symlink,
    /// A socket, a device, a FIFO or anything else that is neither file, directory nor link.
    Other,
}

/// Where a symlink leads after canonicalization.
#[derive(Clone, Debug, PartialEq, Eq)]
pub struct LinkTarget {
    /// The canonical path of the final target.
    pub path: String,
    /// Whether the final target is a directory.
    pub is_dir: bool,
}

/// An entry as enumerated from a directory, with what the file system said about it.
#[derive(Clone, Debug, PartialEq, Eq)]
pub struct RawEntry {
    /// The entry's path inside the listed directory.
    pub path: String,
    /// The final component of `path`, if it has one.
    pub name: Option<String>,
    /// The entry's own type, if it could be read.
    pub file_type: Option<RawFileType>,
    /// For a symlink: its canonical target, if the link could be followed.
    /// Not consulted for other entries.
    pub target: Option<LinkTarget>,
}

/// What an entry resolves to: `None` where it is left out of the listing.
///
/// Directories and regular files keep their own path. A symlink takes its
/// canonical target's path and kind, or is left out when it cannot be followed.
/// The name is always the entry's own name. Entries without a name, without a
/// readable type, or of another type (sockets, devices, FIFOs) are left out.
pub open spec fn resolve_spec(e: RawEntry) -> Option<EntryView> {
    match e.name {
        None => None,
        Some(name) => match e.file_type {
            Some(RawFileType::Directory) => Some(
                EntryView { kind: FileSystemType::Directory, path: e.path@, name: name@ },
            ),
            Some(RawFileType::File) => Some(
                EntryView { kind: FileSystemType::File, path: e.path@, name: name@ },
            ),
            Some(RawFileType::Symlink) => match e.target {
                Some(t) => Some(
                    EntryView {
                        kind: if t.is_dir {
                            FileSystemType::Directory
                        } else {
                            FileSystemType::File
                        },
                        path: t.path@,
                        name: name@,
                    },
                ),
                None => None,
            },
            _ => None,
        },
    }
}

/// The entries of a listing that resolve, in listing order.
pub open spec fn resolve_all(raw: Seq<Option<RawEntry>>) -> Seq<EntryView>
    decreases raw.len(),
{
    if raw.len() == 0 {
        Seq::empty()
    } else {
        let rest = resolve_all(raw.drop_last());
        match raw.last() {
            Some(e) => match resolve_spec(e) {
                Some(v) => rest.push(v),
                None => rest,
            },
            None => rest,
        }
    }
}

/// Whether the raw entry at `i` of a listing resolves to `v`.
pub open spec fn resolves_to(raw: Seq<Option<RawEntry>>, i: int, v: EntryView) -> bool {
    &&& 0 <= i < raw.len()
    &&& raw[i] is Some
    &&& resolve_spec(raw[i].unwrap()) == Some(v)
}

/// Whether no two raw entries of a listing carry the same name.
pub open spec fn names_unique(raw: Seq<Option<RawEntry>>) -> bool {
    forall|i: int, j: int|
        0 <= i < raw.len() && 0 <= j < raw.len() && i != j && #[trigger] raw[i] is Some
            && #[trigger] raw[j] is Some && raw[i].unwrap().name is Some
            && raw[j].unwrap().name is Some ==> raw[i].unwrap().name.unwrap()@
            != raw[j].unwrap().name.unwrap()@
}

/// The resolved listing holds what each raw entry resolves to, and nothing
/// else.
pub proof fn lemma_resolve_all_members(raw: Seq<Option<RawEntry>>)
    ensures
        forall|i: int, v: EntryView| #[trigger] resolves_to(raw, i, v) ==> resolve_all(raw).contains(v),
        forall|v: EntryView| #[trigger] resolve_all(raw).contains(v) ==> exists|i: int| resolves_to(raw, i, v),
    decreases raw.len(),
{
    if raw.len() > 0 {
        let rest = raw.drop_last();
        lemma_resolve_all_members(rest);
        let n = raw.len() - 1;
        assert forall|i: int, v: EntryView| #[trigger] resolves_to(raw, i, v) implies resolve_all(raw).contains(v) by {
            if i < n {
                assert(resolves_to(rest, i, v));
                let k = choose|k: int| 0 <= k < resolve_all(rest).len() && resolve_all(rest)[k] == v;
                assert(resolve_all(raw)[k] == v);
            } else {
                assert(resolve_all(raw).last() == v);
            }
        }
        assert forall|v: EntryView| #[trigger] resolve_all(raw).contains(v) implies exists|i: int| resolves_to(raw, i, v) by {
            let k = choose|k: int| 0 <= k < resolve_all(raw).len() && resolve_all(raw)[k] == v;
            if k < resolve_all(rest).len() {
                assert(resolve_all(raw)[k] == resolve_all(rest)[k]);
                assert(resolve_all(rest).contains(v));
                let i = choose|i: int| resolves_to(rest, i, v);
                assert(resolves_to(raw, i, v));
            } else {
                assert(resolves_to(raw, n, v));
            }
        }
    }
}

/// A symlink whose target is a directory is listed as a directory at the
/// canonical target, under the link's own name; where names are unique in the
/// listing, it is the one entry of that name.
pub proof fn lemma_symlink_to_dir_listed(raw: Seq<Option<RawEntry>>, i: int)
    requires
        0 <= i < raw.len(),
        raw[i] is Some,
        raw[i].unwrap().name is Some,
        raw[i].unwrap().file_type == Some(RawFileType::Symlink),
        raw[i].unwrap().target is Some,
        raw[i].unwrap().target.unwrap().is_dir,
    ensures
        resolve_all(raw).contains(
            EntryView {
                kind: FileSystemType::Directory,
                path: raw[i].unwrap().target.unwrap().path@,
                name: raw[i].unwrap().name.unwrap()@,
            },
        ),
        names_unique(raw) ==> forall|v: EntryView|
            #[trigger] resolve_all(raw).contains(v) && v.name == raw[i].unwrap().name.unwrap()@
                ==> v == (EntryView {
                kind: FileSystemType::Directory,
                path: raw[i].unwrap().target.unwrap().path@,
                name: raw[i].unwrap().name.unwrap()@,
            }),
{
    lemma_resolve_all_members(raw);
    let e = raw[i].unwrap();
    let w = EntryView { kind: FileSystemType::Directory, path: e.target.unwrap().path@, name: e.name.unwrap()@ };
    assert(resolves_to(raw, i, w));
    if names_unique(raw) {
        assert forall|v: EntryView|
            #[trigger] resolve_all(raw).contains(v) && v.name == e.name.unwrap()@ implies v == w by {
            let j = choose|j: int| resolves_to(raw, j, v);
            if j != i {
                assert(raw[j].unwrap().name.unwrap()@ == v.name);
            }
        }
    }
}

/// A symlink that cannot be followed leaves nothing in the listing: every
/// resolved entry comes from another raw entry, and where names are unique in
/// the listing, none carries the link's name.
pub proof fn lemma_broken_symlink_absent(raw: Seq<Option<RawEntry>>, k: int)
    requires
        0 <= k < raw.len(),
        raw[k] is Some,
        raw[k].unwrap().file_type == Some(RawFileType::Symlink),
        raw[k].unwrap().target is None,
    ensures
        forall|v: EntryView| #[trigger] resolve_all(raw).contains(v) ==> exists|i: int| i != k && resolves_to(raw, i, v),
        names_unique(raw) && raw[k].unwrap().name is Some ==> forall|v: EntryView|
            #[trigger] resolve_all(raw).contains(v) ==> v.name != raw[k].unwrap().name.unwrap()@,
{
    lemma_resolve_all_members(raw);
    assert forall|v: EntryView| #[trigger] resolve_all(raw).contains(v) implies exists|i: int| i != k && resolves_to(raw, i, v) by {
        let i = choose|i: int| resolves_to(raw, i, v);
        assert(i != k);
    }
    if names_unique(raw) && raw[k].unwrap().name is Some {
        assert forall|v: EntryView| #[trigger] resolve_all(raw).contains(v) implies v.name != raw[k].unwrap().name.unwrap()@ by {
            let i = choose|i: int| resolves_to(raw, i, v);
            assert(i != k);
            assert(raw[i].unwrap().name.unwrap()@ == v.name);
        }
    }
}

/// Resolves one directory entry; `None` where it is left out of the listing.
pub fn resolve(e: &RawEntry) -> (r: Option<TypedPathBuf>)
    ensures
        r.is_some() == resolve_spec(*e).is_some(),
        r.is_some() ==> r.unwrap()@ == resolve_spec(*e).unwrap(),
{
    let name = match &e.name {
        Some(n) => n.clone(),
        None => return None,
    };
    match e.file_type {
        Some(RawFileType::Directory) => Some(
            TypedPathBuf::new(FileSystemType::Directory, e.path.clone(), name),
        ),
        Some(RawFileType::File) => Some(TypedPathBuf::new(FileSystemType::File, e.path.clone(), name)),
        Some(RawFileType::Symlink) => match &e.target {
            Some(t) => {
                let kind = if t.is_dir {
                    FileSystemType::Directory
                } else {
                    FileSystemType::File
                };
                Some(TypedPathBuf::new(kind, t.path.clone(), name))
            },
            None => None,
        },
        _ => None,
    }
}

/// Resolves every entry of a listing, leaving out those that do not resolve.
pub fn resolve_listing(raw: &Vec<Option<RawEntry>>) -> (r: Vec<TypedPathBuf>)
    ensures
        r@.map_values(|t: TypedPathBuf| t@) == resolve_all(raw@),
{
    let mut out: Vec<TypedPathBuf> = Vec::new();
    let mut i: usize = 0;
    while i < raw.len()
        invariant
            i <= raw.len(),
            out@.map_values(|t: TypedPathBuf| t@) == resolve_all(raw@.subrange(0, i as int)),
        decreases raw.len() - i,
    {
        assert(raw@.subrange(0, i + 1).drop_last() == raw@.subrange(0, i as int));
        match &raw[i] {
            Some(e) => match resolve(e) {
                Some(t) => {
                    out.push(t);
                },
                None => {},
            },
            None => {},
        }
        assert(out@.map_values(|t: TypedPathBuf| t@) =~= resolve_all(raw@.subrange(0, i + 1)));
        i = i + 1;
    }
    assert(raw@.subrange(0, raw.len() as int) == raw@);
    out
}

} // verus!
