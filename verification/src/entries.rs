use vstd::prelude::*;
use crate::order::{
    law_sort_by_name_permutes, law_sort_by_name_sorted, lowercase_chars, lowercase_of, sort_by_name,
    sort_names, sorted_by_name, views,
};

verus! {

// ---------------------------------------------------------------------------
// Paths (std::path)
// ---------------------------------------------------------------------------

/// The extension of a path as `Path::extension` gives it: the part of the
/// final component after its last `.`, if that component has one that is
/// not its first character.
pub uninterp spec fn extension_of(path: Seq<char>) -> Option<Seq<char>>;

/// The path without its final component, as `Path::parent` gives it.
pub uninterp spec fn parent_of(path: Seq<char>) -> Option<Seq<char>>;

/// `dir` with `name` appended as a component, as `Path::join` gives it.
pub uninterp spec fn joined(dir: Seq<char>, name: Seq<char>) -> Seq<char>;

/// `Path::extension` of a path given as text.
#[verifier::external_body]
fn path_extension(path: &str) -> (r: Option<String>)
    ensures
        r is Some <==> extension_of(path@) is Some,
        r matches Some(e) ==> extension_of(path@) == Some(e@),
{
    match std::path::Path::new(path).extension() {
        Some(e) => Some(e.to_string_lossy().into_owned()),
        None => None,
    }
}

/// `Path::parent` of a path given as text.
#[verifier::external_body]
pub(crate) fn path_parent(path: &str) -> (r: Option<String>)
    ensures
        r is Some <==> parent_of(path@) is Some,
        r matches Some(p) ==> parent_of(path@) == Some(p@),
{
    match std::path::Path::new(path).parent() {
        Some(p) => Some(p.to_string_lossy().into_owned()),
        None => None,
    }
}

/// `Path::join` of two paths given as text.
#[verifier::external_body]
pub(crate) fn path_join(dir: &str, name: &str) -> (r: String)
    ensures
        r@ == joined(dir@, name@),
{
    std::path::Path::new(dir).join(name).to_string_lossy().into_owned()
}

// ---------------------------------------------------------------------------
// Image files
// ---------------------------------------------------------------------------

/// The extensions, in lower case, of the image files the viewer lists.
pub open spec fn image_extensions() -> Seq<Seq<char>> {
    seq![
        seq!['p', 'n', 'g'],
        seq!['j', 'p', 'g'],
        seq!['j', 'p', 'e', 'g'],
        seq!['g', 'i', 'f'],
        seq!['b', 'm', 'p'],
        seq!['w', 'e', 'b', 'p'],
        seq!['t', 'i', 'f', 'f'],
        seq!['t', 'i', 'f'],
        seq!['i', 'c', 'o'],
        seq!['q', 'o', 'i'],
    ]
}

/// A file name names an image: its extension, in lower case, is one of
/// the image extensions.
pub open spec fn is_image_name(name: Seq<char>) -> bool {
    match extension_of(name) {
        Some(ext) => image_extensions().contains(lowercase_of(ext)),
        None => false,
    }
}

fn chars_equal(a: &Vec<char>, b: &[char]) -> (r: bool)
    ensures
        r == (a@ == b@),
{
    if a.len() != b.len() {
        return false;
    }
    let mut i: usize = 0;
    while i < a.len()
        invariant
            a@.len() == b@.len(),
            i <= a@.len(),
            forall|j: int| 0 <= j < i ==> a@[j] == b@[j],
        decreases a@.len() - i,
    {
        if a[i] != b[i] {
            return false;
        }
        i += 1;
    }
    assert(a@ =~= b@);
    true
}

/// Whether a lower-case extension is one of the image extensions.
pub fn is_known_extension(lower: &Vec<char>) -> (r: bool)
    ensures
        r == image_extensions().contains(lower@),
{
    let exts: [&[char]; 10] = [
        &['p', 'n', 'g'],
        &['j', 'p', 'g'],
        &['j', 'p', 'e', 'g'],
        &['g', 'i', 'f'],
        &['b', 'm', 'p'],
        &['w', 'e', 'b', 'p'],
        &['t', 'i', 'f', 'f'],
        &['t', 'i', 'f'],
        &['i', 'c', 'o'],
        &['q', 'o', 'i'],
    ];
    let ghost all = image_extensions();
    assert(forall|k: int| 0 <= k < 10 ==> (#[trigger] exts@[k])@ == all[k]);
    let mut k: usize = 0;
    while k < 10
        invariant
            k <= 10,
            all == image_extensions(),
            forall|m: int| 0 <= m < 10 ==> (#[trigger] exts@[m])@ == all[m],
            forall|m: int| 0 <= m < k ==> all[m] != lower@,
        decreases 10 - k,
    {
        if chars_equal(lower, exts[k]) {
            assert(all[k as int] == lower@);
            return true;
        }
        k += 1;
    }
    assert(!all.contains(lower@));
    false
}

/// Whether a file name has an image extension (in any letter case).
pub fn is_image_file(name: &str) -> (r: bool)
    ensures
        r == is_image_name(name@),
{
    match path_extension(name) {
        Some(ext) => {
            let lower = lowercase_chars(ext.as_str());
            is_known_extension(&lower)
        },
        None => false,
    }
}


// ---------------------------------------------------------------------------
// Directory entries
// ---------------------------------------------------------------------------

/// An entry of the file picker: a directory or an image file, by name.
#[derive(Debug)]
pub enum DirEntry {
    Dir(String),
    File(String),
}

/// What the picker shows of an entry.
pub enum EntryView {
    Dir(Seq<char>),
    File(Seq<char>),
}

impl View for DirEntry {
    type V = EntryView;

    open spec fn view(&self) -> EntryView {
        match self {
            DirEntry::Dir(name) => EntryView::Dir(name@),
            DirEntry::File(name) => EntryView::File(name@),
        }
    }
}

impl EntryView {
    /// The name of the entry.
    pub open spec fn name(self) -> Seq<char> {
        match self {
            EntryView::Dir(name) => name,
            EntryView::File(name) => name,
        }
    }
}

impl DirEntry {
    /// The name of the entry.
    pub fn name(&self) -> (r: &str)
        ensures
            r@ == self@.name(),
    {
        match self {
            DirEntry::Dir(name) => name.as_str(),
            DirEntry::File(name) => name.as_str(),
        }
    }
}

/// The text of an entry's line in the picker: a folder icon, the name and
/// a slash for a directory (the icon followed by `..` for the parent
/// entry), an image icon and the name for a file.
pub open spec fn line_text_of(e: EntryView) -> Seq<char> {
    match e {
        EntryView::Dir(name) => seq![' ', ' ', '📁'] + (if name == seq!['.', '.'] {
            seq![' ', '.', '.']
        } else {
            seq![]
        }) + seq![' '] + name + seq!['/'],
        EntryView::File(name) => seq![' ', ' ', '🖼', ' ', ' '] + name,
    }
}

impl DirEntry {
    /// The text of the entry's line in the picker.
    pub fn line_text(&self) -> (r: String)
        ensures
            r@ == line_text_of(self@),
    {
        let mut out = String::new();
        match self {
            DirEntry::Dir(name) => {
                out.push(' ');
                out.push(' ');
                out.push('📁');
                let n = name.as_str();
                if n.unicode_len() == 2 && n.get_char(0) == '.' && n.get_char(1) == '.' {
                    assert(name@ =~= seq!['.', '.']);
                    out.push(' ');
                    out.push('.');
                    out.push('.');
                } else {
                    assert(name@ != seq!['.', '.']);
                }
                out.push(' ');
                out.append(n);
                out.push('/');
            },
            DirEntry::File(name) => {
                out.push(' ');
                out.push(' ');
                out.push('🖼');
                out.push(' ');
                out.push(' ');
                out.append(name.as_str());
            },
        }
        assert(out@ =~= line_text_of(self@));
        out
    }
}

/// What a directory listing says an item is.
#[derive(Debug, Clone, Copy, PartialEq, Eq, Structural)]
pub enum EntryKind {
    Dir,
    File,
    /// Anything else, or an item whose type could not be read.
    Other,
}

/// One item of a directory listing.
#[derive(Debug)]
pub struct ListingEntry {
    pub name: String,
    pub kind: EntryKind,
}

/// A hidden name starts with a dot.
pub open spec fn is_hidden(name: Seq<char>) -> bool {
    name.len() > 0 && name[0] == '.'
}

/// The names of the visible directories of a listing, in listing order.
pub open spec fn listed_dirs(listing: Seq<ListingEntry>) -> Seq<Seq<char>>
    decreases listing.len(),
{
    if listing.len() == 0 {
        seq![]
    } else {
        let e = listing.last();
        listed_dirs(listing.drop_last()) + if e.kind == EntryKind::Dir && !is_hidden(e.name@) {
            seq![e.name@]
        } else {
            seq![]
        }
    }
}

/// The names of the visible image files of a listing, in listing order.
pub open spec fn listed_images(listing: Seq<ListingEntry>) -> Seq<Seq<char>>
    decreases listing.len(),
{
    if listing.len() == 0 {
        seq![]
    } else {
        let e = listing.last();
        listed_images(listing.drop_last()) + if e.kind == EntryKind::File && !is_hidden(e.name@)
            && is_image_name(e.name@) {
            seq![e.name@]
        } else {
            seq![]
        }
    }
}

/// The entry `..` that leads to the parent directory.
pub open spec fn parent_entry() -> EntryView {
    EntryView::Dir(seq!['.', '.'])
}

/// The picker's entries for a directory: `..` when the directory has a
/// parent; then, when the directory could be read, its visible
/// subdirectories and then its visible image files, each group sorted by
/// lower-case name.
pub open spec fn entries_for(has_parent: bool, listing: Option<Seq<ListingEntry>>) -> Seq<EntryView> {
    (if has_parent {
        seq![parent_entry()]
    } else {
        seq![]
    }) + match listing {
        Some(l) => sort_by_name(listed_dirs(l)).map_values(|n: Seq<char>| EntryView::Dir(n))
            + sort_by_name(listed_images(l)).map_values(|n: Seq<char>| EntryView::File(n)),
        None => seq![],
    }
}

/// The views of a sequence of entries.
pub open spec fn entry_views(s: Seq<DirEntry>) -> Seq<EntryView> {
    Seq::new(s.len(), |i: int| s[i]@)
}

/// Builds the picker's entries from a directory listing (`None` when the
/// directory could not be read): `..` first when the directory has a
/// parent, then the subdirectories, then the image files; names starting
/// with a dot are left out, and each group is sorted by lower-case name.
pub fn build_entries(has_parent: bool, listing: Option<&Vec<ListingEntry>>) -> (entries: Vec<
    DirEntry,
>)
    ensures
        entry_views(entries@) == entries_for(has_parent, match listing {
            Some(l) => Some(l@),
            None => None,
        }),
{
    let mut entries: Vec<DirEntry> = Vec::new();
    if has_parent {
        proof {
            reveal_strlit("..");
        }
        let dotdot = String::from_str("..");
        assert(dotdot@ =~= seq!['.', '.']);
        entries.push(DirEntry::Dir(dotdot));
    }
    let ghost head = entry_views(entries@);
    assert(head =~= if has_parent { seq![parent_entry()] } else { seq![] });
    if let Some(read_dir) = listing {
        let mut dirs: Vec<String> = Vec::new();
        let mut files: Vec<String> = Vec::new();
        let mut i: usize = 0;
        while i < read_dir.len()
            invariant
                i <= read_dir@.len(),
                views(dirs@) == listed_dirs(read_dir@.take(i as int)),
                views(files@) == listed_images(read_dir@.take(i as int)),
            decreases read_dir@.len() - i,
        {
            let entry = &read_dir[i];
            let name = entry.name.clone();
            let len = name.as_str().unicode_len();
            let hidden = len > 0 && name.as_str().get_char(0) == '.';
            proof {
                let t = read_dir@.take(i as int + 1);
                assert(t.drop_last() =~= read_dir@.take(i as int));
                assert(t.last() == read_dir@[i as int]);
                assert(hidden == is_hidden(name@));
            }
            if !hidden {
                match entry.kind {
                    EntryKind::Dir => {
                        dirs.push(name);
                    },
                    EntryKind::File => {
                        if is_image_file(name.as_str()) {
                            files.push(name);
                        }
                    },
                    EntryKind::Other => {},
                }
            }
            assert(views(dirs@) =~= listed_dirs(read_dir@.take(i as int + 1)));
            assert(views(files@) =~= listed_images(read_dir@.take(i as int + 1)));
            i += 1;
        }
        assert(read_dir@.take(read_dir@.len() as int) =~= read_dir@);
        let sorted_dirs = sort_names(&dirs);
        let sorted_files = sort_names(&files);
        let mut k: usize = 0;
        while k < sorted_dirs.len()
            invariant
                k <= sorted_dirs@.len(),
                entry_views(entries@) == head + views(sorted_dirs@).take(k as int).map_values(
                    |n: Seq<char>| EntryView::Dir(n),
                ),
            decreases sorted_dirs@.len() - k,
        {
            let ghost before = entry_views(entries@);
            let name = sorted_dirs[k].clone();
            entries.push(DirEntry::Dir(name));
            assert(entry_views(entries@) =~= before.push(EntryView::Dir(sorted_dirs@[k as int]@)));
            assert(views(sorted_dirs@).take(k as int + 1) =~= views(sorted_dirs@).take(k as int).push(sorted_dirs@[k as int]@));
            assert(entry_views(entries@) =~= head + views(sorted_dirs@).take(k as int + 1).map_values(
                |n: Seq<char>| EntryView::Dir(n),
            ));
            k += 1;
        }
        assert(views(sorted_dirs@).take(sorted_dirs@.len() as int) =~= views(sorted_dirs@));
        let ghost mid = entry_views(entries@);
        let mut k: usize = 0;
        while k < sorted_files.len()
            invariant
                k <= sorted_files@.len(),
                entry_views(entries@) == mid + views(sorted_files@).take(k as int).map_values(
                    |n: Seq<char>| EntryView::File(n),
                ),
            decreases sorted_files@.len() - k,
        {
            let ghost before = entry_views(entries@);
            let name = sorted_files[k].clone();
            entries.push(DirEntry::File(name));
            assert(entry_views(entries@) =~= before.push(EntryView::File(sorted_files@[k as int]@)));
            assert(views(sorted_files@).take(k as int + 1) =~= views(sorted_files@).take(k as int).push(sorted_files@[k as int]@));
            assert(entry_views(entries@) =~= mid + views(sorted_files@).take(k as int + 1).map_values(
                |n: Seq<char>| EntryView::File(n),
            ));
            k += 1;
        }
        assert(views(sorted_files@).take(sorted_files@.len() as int) =~= views(sorted_files@));
        assert(entry_views(entries@) =~= entries_for(has_parent, Some(read_dir@)));
    } else {
        assert(entry_views(entries@) =~= entries_for(has_parent, None));
    }
    entries
}


// ---------------------------------------------------------------------------
// Laws
// ---------------------------------------------------------------------------

proof fn lemma_listed_dirs(listing: Seq<ListingEntry>)
    ensures
        forall|k: int|
            0 <= k < listed_dirs(listing).len() ==> !is_hidden(#[trigger] listed_dirs(listing)[k])
                && exists|j: int|
                0 <= j < listing.len() && listing[j].kind == EntryKind::Dir && listing[j].name@
                    == listed_dirs(listing)[k],
    decreases listing.len(),
{
    if listing.len() > 0 {
        let front = listing.drop_last();
        lemma_listed_dirs(front);
        let d = listed_dirs(listing);
        assert forall|k: int| 0 <= k < d.len() implies !is_hidden(#[trigger] d[k]) && exists|j: int|
            0 <= j < listing.len() && listing[j].kind == EntryKind::Dir && listing[j].name@
                == d[k] by {
            if k < listed_dirs(front).len() {
                assert(d[k] == listed_dirs(front)[k]);
                let j = choose|j: int|
                    0 <= j < front.len() && front[j].kind == EntryKind::Dir && front[j].name@
                        == listed_dirs(front)[k];
                assert(listing[j] == front[j]);
            } else {
                assert(listing[listing.len() - 1] == listing.last());
            }
        }
    }
}

proof fn lemma_listed_images(listing: Seq<ListingEntry>)
    ensures
        forall|k: int|
            0 <= k < listed_images(listing).len() ==> !is_hidden(
                #[trigger] listed_images(listing)[k],
            ) && is_image_name(listed_images(listing)[k]) && exists|j: int|
                0 <= j < listing.len() && listing[j].kind == EntryKind::File && listing[j].name@
                    == listed_images(listing)[k],
    decreases listing.len(),
{
    if listing.len() > 0 {
        let front = listing.drop_last();
        lemma_listed_images(front);
        let d = listed_images(listing);
        assert forall|k: int| 0 <= k < d.len() implies !is_hidden(#[trigger] d[k]) && is_image_name(
            d[k],
        ) && exists|j: int|
            0 <= j < listing.len() && listing[j].kind == EntryKind::File && listing[j].name@
                == d[k] by {
            if k < listed_images(front).len() {
                assert(d[k] == listed_images(front)[k]);
                let j = choose|j: int|
                    0 <= j < front.len() && front[j].kind == EntryKind::File && front[j].name@
                        == listed_images(front)[k];
                assert(listing[j] == front[j]);
            } else {
                assert(listing[listing.len() - 1] == listing.last());
            }
        }
    }
}

/// The picker's entries for a readable directory: `..` first exactly when
/// the directory has a parent; after it, directories only before files;
/// every other entry a visible name that the listing gives with the same
/// kind, files only with image names; each group sorted by lower-case
/// name.
pub proof fn law_entries_layout(has_parent: bool, listing: Seq<ListingEntry>)
    ensures
        ({
            let e = entries_for(has_parent, Some(listing));
            let first = if has_parent {
                1int
            } else {
                0int
            };
            let dirs = sort_by_name(listed_dirs(listing));
            let files = sort_by_name(listed_images(listing));
            &&& e.len() == first + dirs.len() + files.len()
            &&& has_parent ==> e[0] == parent_entry()
            &&& forall|i: int| first <= i < first + dirs.len() ==> #[trigger] e[i] == EntryView::Dir(dirs[i - first])
            &&& forall|i: int|
                first + dirs.len() <= i < e.len() ==> #[trigger] e[i] == EntryView::File(
                    files[i - first - dirs.len()],
                )
            &&& sorted_by_name(dirs)
            &&& sorted_by_name(files)
            &&& forall|k: int|
                0 <= k < dirs.len() ==> !is_hidden(#[trigger] dirs[k]) && exists|j: int|
                    0 <= j < listing.len() && listing[j].kind == EntryKind::Dir
                        && listing[j].name@ == dirs[k]
            &&& forall|k: int|
                0 <= k < files.len() ==> !is_hidden(#[trigger] files[k]) && is_image_name(files[k])
                    && exists|j: int|
                    0 <= j < listing.len() && listing[j].kind == EntryKind::File
                        && listing[j].name@ == files[k]
        }),
{
    broadcast use vstd::seq_lib::group_to_multiset_ensures;

    let dirs0 = listed_dirs(listing);
    let files0 = listed_images(listing);
    let dirs = sort_by_name(dirs0);
    let files = sort_by_name(files0);
    law_sort_by_name_sorted(dirs0);
    law_sort_by_name_sorted(files0);
    law_sort_by_name_permutes(dirs0);
    law_sort_by_name_permutes(files0);
    lemma_listed_dirs(listing);
    lemma_listed_images(listing);
    assert forall|k: int| 0 <= k < dirs.len() implies !is_hidden(#[trigger] dirs[k]) && exists|j: int|
        0 <= j < listing.len() && listing[j].kind == EntryKind::Dir && listing[j].name@ == dirs[k] by {
        assert(dirs.contains(dirs[k]));
        assert(dirs.to_multiset().count(dirs[k]) > 0);
        assert(dirs0.contains(dirs[k]));
        let m = choose|m: int| 0 <= m < dirs0.len() && dirs0[m] == dirs[k];
        assert(!is_hidden(dirs0[m]));
    }
    assert forall|k: int| 0 <= k < files.len() implies !is_hidden(#[trigger] files[k]) && is_image_name(
        files[k],
    ) && exists|j: int|
        0 <= j < listing.len() && listing[j].kind == EntryKind::File && listing[j].name@
            == files[k] by {
        assert(files.contains(files[k]));
        assert(files.to_multiset().count(files[k]) > 0);
        assert(files0.contains(files[k]));
        let m = choose|m: int| 0 <= m < files0.len() && files0[m] == files[k];
        assert(!is_hidden(files0[m]));
    }
}

} // verus!
