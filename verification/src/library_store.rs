//! The list of libraries the application keeps: looking libraries up,
//! adding, deleting and creating them, and updating their entries.
use vstd::prelude::*;
use crate::text::{chars_of, eq_str, eq_chars, push_all, push_str, string_from_chars, decimal, decimal_chars, slice_chars};
use crate::video_element::{Library, LibraryPath, VideoElement};
use crate::ordering::{sort_by_key, sorted_by_key, stable_sort_by};
use crate::file_utils::{create_valid_filename, valid_filename};
use crate::library::strs_of;

verus! {

/// Failures of the library bookkeeping.
#[derive(Clone, Debug)]
pub enum LibraryError {
    /// No library has this id.
    NotFound(String),
    /// No library with this id was there to delete.
    NothingRemoved(String),
    /// The library (second) has no entry for the file (first).
    EntryNotFound(String, String),
    /// The index (first) is not below the number of entries (second).
    IndexOutOfRange(usize, usize),
    /// A library with the requested name exists.
    DuplicateName,
    /// Every candidate id up to the counter's limit is taken.
    NoFreeId,
}

/// The message shown for a library failure.
pub open spec fn library_error_message(e: LibraryError) -> Seq<char> {
    match e {
        LibraryError::NotFound(id) => "Library "@ + id@ + " not found!"@,
        LibraryError::NothingRemoved(id) => "Did not find Library ID '"@ + id@ + "', no removal occurred!"@,
        LibraryError::EntryNotFound(fp, id) => "Could not find '"@ + fp@ + "' in '"@ + id@ + "'"@,
        LibraryError::IndexOutOfRange(i, n) => "Index "@ + decimal(i as nat) + " out of range of library elements ("@
            + decimal(n as nat) + ")"@,
        LibraryError::DuplicateName => "duplicate_name"@,
        LibraryError::NoFreeId => "no_free_id"@,
    }
}

impl LibraryError {
    /// The message shown for the failure.
    pub fn message(&self) -> (r: String)
        ensures
            r@ == library_error_message(*self),
    {
        let mut v: Vec<char> = Vec::new();
        match self {
            LibraryError::NotFound(id) => {
                push_str(&mut v, "Library ");
                push_str(&mut v, id.as_str());
                push_str(&mut v, " not found!");
            },
            LibraryError::NothingRemoved(id) => {
                push_str(&mut v, "Did not find Library ID '");
                push_str(&mut v, id.as_str());
                push_str(&mut v, "', no removal occurred!");
            },
            LibraryError::EntryNotFound(fp, id) => {
                push_str(&mut v, "Could not find '");
                push_str(&mut v, fp.as_str());
                push_str(&mut v, "' in '");
                push_str(&mut v, id.as_str());
                push_str(&mut v, "'");
            },
            LibraryError::IndexOutOfRange(i, n) => {
                push_str(&mut v, "Index ");
                push_all(&mut v, &decimal_chars(*i as u64));
                push_str(&mut v, " out of range of library elements (");
                push_all(&mut v, &decimal_chars(*n as u64));
                push_str(&mut v, ")");
            },
            LibraryError::DuplicateName => {
                push_str(&mut v, "duplicate_name");
            },
            LibraryError::NoFreeId => {
                push_str(&mut v, "no_free_id");
            },
        }
        string_from_chars(&v)
    }
}

/// The ids of the libraries.
pub open spec fn library_ids(libs: Seq<Library>) -> Seq<Seq<char>> {
    libs.map_values(|l: Library| l.id@)
}

/// `(id, name)` of every library, in order.
pub fn get_available_libraries(libraries: &Vec<Library>) -> (r: Vec<(String, String)>)
    ensures
        r.len() == libraries.len(),
        forall|i: int| 0 <= i < r.len() ==> #[trigger] r@[i].0@ == libraries@[i].id@ && r@[i].1@ == libraries@[i].name@,
{
    let mut out: Vec<(String, String)> = Vec::new();
    let mut i: usize = 0;
    while i < libraries.len()
        invariant
            i <= libraries.len(),
            out.len() == i,
            forall|k: int| 0 <= k < i ==> #[trigger] out@[k].0@ == libraries@[k].id@ && out@[k].1@ == libraries@[k].name@,
        decreases libraries.len() - i,
    {
        out.push((libraries[i].id.clone(), libraries[i].name.clone()));
        i = i + 1;
    }
    out
}

/// The ids of all libraries, in order.
pub fn get_all_library_ids(libraries: &Vec<Library>) -> (r: Vec<String>)
    ensures
        strs_of(r@) == library_ids(libraries@),
{
    let mut out: Vec<String> = Vec::new();
    let mut i: usize = 0;
    while i < libraries.len()
        invariant
            i <= libraries.len(),
            out.len() == i,
            forall|k: int| 0 <= k < i ==> #[trigger] out@[k]@ == libraries@[k].id@,
        decreases libraries.len() - i,
    {
        out.push(libraries[i].id.clone());
        i = i + 1;
    }
    assert(strs_of(out@) =~= library_ids(libraries@));
    out
}

/// The names of the libraries, in order.
pub open spec fn library_names(libs: Seq<Library>) -> Seq<Seq<char>> {
    libs.map_values(|l: Library| l.name@)
}

/// The name of every library, in order.
pub fn get_all_library_names(libraries: &Vec<Library>) -> (r: Vec<String>)
    ensures
        strs_of(r@) == library_names(libraries@),
{
    let mut out: Vec<String> = Vec::new();
    let mut i: usize = 0;
    while i < libraries.len()
        invariant
            i <= libraries.len(),
            out.len() == i,
            forall|k: int| 0 <= k < i ==> #[trigger] out@[k]@ == libraries@[k].name@,
        decreases libraries.len() - i,
    {
        out.push(libraries[i].name.clone());
        i = i + 1;
    }
    assert(strs_of(out@) =~= library_names(libraries@));
    out
}

/// Position of the first library with id `id`.
pub open spec fn first_with_id(libs: Seq<Library>, id: Seq<char>) -> Option<int> {
    if exists|i: int| 0 <= i < libs.len() && libs[i].id@ == id {
        Some(choose|i: int| 0 <= i < libs.len() && libs[i].id@ == id && forall|j: int| 0 <= j < i ==> libs[j].id@ != id)
    } else {
        None
    }
}

/// After the libraries with an id are deleted, looking that id up finds
/// nothing.
pub proof fn lemma_deleted_library_not_found(libraries: Seq<Library>, lib_id: Seq<char>)
    ensures
        first_with_id(libraries.filter(other_id(lib_id)), lib_id) is None,
{
    let f = libraries.filter(other_id(lib_id));
    if exists|i: int| 0 <= i < f.len() && f[i].id@ == lib_id {
        let i = choose|i: int| 0 <= i < f.len() && f[i].id@ == lib_id;
        libraries.lemma_filter_pred(other_id(lib_id), i);
    }
}

/// A library made by `create_library` and then added with `add_library` is
/// the one found under its id.
pub proof fn lemma_created_library_is_found(before: Seq<Library>, lib: Library, after: Seq<Library>)
    requires
        !library_ids(before).contains(lib.id@),
        after.to_multiset() == before.push(lib).to_multiset(),
    ensures
        first_with_id(after, lib.id@) matches Some(i) && after[i] == lib,
{
    broadcast use vstd::seq_lib::group_to_multiset_ensures;
    assert(before.push(lib)[before.len() as int] == lib);
    assert(before.push(lib).contains(lib));
    assert(before.push(lib).to_multiset().count(lib) > 0);
    assert(after.to_multiset().count(lib) > 0);
    assert(after.contains(lib));
    let k = choose|k: int| 0 <= k < after.len() && after[k] == lib;
    assert(after[k].id@ == lib.id@);
    let i = choose|i: int|
        0 <= i < after.len() && after[i].id@ == lib.id@ && forall|j: int| 0 <= j < i ==> after[j].id@ != lib.id@;
    assert(exists|i: int|
        0 <= i < after.len() && after[i].id@ == lib.id@ && forall|j: int| 0 <= j < i ==> after[j].id@ != lib.id@) by {
        lemma_least_with_id(after, lib.id@, k);
    }
    assert(after.contains(after[i]));
    assert(after.to_multiset().count(after[i]) > 0);
    assert(before.push(lib).to_multiset().count(after[i]) > 0);
    assert(before.push(lib).contains(after[i]));
    let m = choose|m: int| 0 <= m < before.push(lib).len() && before.push(lib)[m] == after[i];
    if m < before.len() {
        assert(library_ids(before)[m] == lib.id@);
    }
}

/// Some library with id `id` at or before `k` comes before every other one.
proof fn lemma_least_with_id(libs: Seq<Library>, id: Seq<char>, k: int)
    requires
        0 <= k < libs.len(),
        libs[k].id@ == id,
    ensures
        exists|i: int| 0 <= i < libs.len() && libs[i].id@ == id && forall|j: int| 0 <= j < i ==> libs[j].id@ != id,
    decreases k,
{
    if exists|j: int| 0 <= j < k && libs[j].id@ == id {
        let j = choose|j: int| 0 <= j < k && libs[j].id@ == id;
        lemma_least_with_id(libs, id, j);
    } else {
        assert(forall|j: int| 0 <= j < k ==> libs[j].id@ != id);
    }
}


proof fn lemma_first_with_id(libs: Seq<Library>, id: Seq<char>, i: int)
    requires
        0 <= i <= libs.len(),
        forall|j: int| 0 <= j < i ==> #[trigger] libs[j].id@ != id,
        i < libs.len() ==> libs[i].id@ == id,
    ensures
        first_with_id(libs, id) == if i < libs.len() {
            Some(i)
        } else {
            None::<int>
        },
{
    if i < libs.len() {
        assert(exists|k: int| 0 <= k < libs.len() && libs[k].id@ == id);
        let c = choose|k: int| 0 <= k < libs.len() && libs[k].id@ == id && forall|j: int| 0 <= j < k ==> libs[j].id@ != id;
        assert(0 <= c < libs.len() && libs[c].id@ == id && forall|j: int| 0 <= j < c ==> libs[j].id@ != id);
        if c < i {
            assert(libs[c].id@ != id);
        }
        if i < c {
            assert(libs[i].id@ != id);
        }
    } else {
        assert(!exists|k: int| 0 <= k < libs.len() && libs[k].id@ == id);
    }
}

/// Position of the first library with id `lib_id`.
pub fn get_library_index_by_id(libraries: &Vec<Library>, lib_id: &str) -> (r: Result<usize, LibraryError>)
    ensures
        match first_with_id(libraries@, lib_id@) {
            Some(i) => r matches Ok(k) && k == i,
            None => r matches Err(LibraryError::NotFound(id)) && id@ == lib_id@,
        },
        r matches Ok(k) ==> k < libraries.len(),
{
    let mut i: usize = 0;
    while i < libraries.len()
        invariant
            i <= libraries.len(),
            forall|j: int| 0 <= j < i ==> #[trigger] libraries@[j].id@ != lib_id@,
        decreases libraries.len() - i,
    {
        if eq_str(&chars_of(libraries[i].id.as_str()), lib_id) {
            proof {
                lemma_first_with_id(libraries@, lib_id@, i as int);
            }
            return Ok(i);
        }
        i = i + 1;
    }
    proof {
        lemma_first_with_id(libraries@, lib_id@, libraries.len() as int);
    }
    Err(LibraryError::NotFound(String::from_str(lib_id)))
}

/// The name of the first library with id `library_id`.
pub fn get_library_name(libraries: &Vec<Library>, library_id: &str) -> (r: Result<String, LibraryError>)
    ensures
        match first_with_id(libraries@, library_id@) {
            Some(i) => r matches Ok(n) && n@ == libraries@[i].name@,
            None => r matches Err(LibraryError::NotFound(id)) && id@ == library_id@,
        },
{
    match get_library_index_by_id(libraries, library_id) {
        Ok(i) => Ok(libraries[i].name.clone()),
        Err(e) => Err(e),
    }
}

/// The entries of the first library with id `library_id`.
pub fn get_library_videos<'a>(libraries: &'a Vec<Library>, library_id: &str) -> (r: Result<&'a Vec<VideoElement>, LibraryError>)
    ensures
        match first_with_id(libraries@, library_id@) {
            Some(i) => r matches Ok(v) && *v == libraries@[i].video_files,
            None => r matches Err(LibraryError::NotFound(id)) && id@ == library_id@,
        },
{
    match get_library_index_by_id(libraries, library_id) {
        Ok(i) => Ok(&libraries[i].video_files),
        Err(e) => Err(e),
    }
}

/// Adds a library and keeps the list sorted by name (libraries with equal
/// names in their order).
pub fn add_library(libraries: &mut Vec<Library>, lib: Library)
    ensures
        final(libraries)@.to_multiset() == old(libraries)@.push(lib).to_multiset(),
        sorted_by_key(final(libraries)@),
        exists|p: Seq<int>| #[trigger] stable_sort_by(old(libraries)@.push(lib), final(libraries)@, p),
{
    libraries.push(lib);
    sort_by_key(libraries);
}

/// Whether library `l` keeps an id other than `id`.
pub open spec fn other_id(id: Seq<char>) -> spec_fn(Library) -> bool {
    |l: Library| l.id@ != id
}

/// Removes every library with id `lib_id`; an error if there was none.
pub fn delete_library(libraries: &mut Vec<Library>, lib_id: &str) -> (r: Result<(), LibraryError>)
    ensures
        final(libraries)@ == old(libraries)@.filter(other_id(lib_id@)),
        r is Ok <==> exists|i: int| 0 <= i < old(libraries)@.len() && old(libraries)@[i].id@ == lib_id@,
        r matches Err(e) ==> e matches LibraryError::NothingRemoved(id) && id@ == lib_id@,
{
    let ghost orig = libraries@;
    let ghost p = other_id(lib_id@);
    let mut kept: Vec<Library> = Vec::new();
    let mut removed = false;
    let mut rest: Vec<Library> = Vec::new();
    std::mem::swap(&mut rest, libraries);
    let ghost all = rest@;
    assert(all == orig);
    assert(all.subrange(0, 0) =~= Seq::<Library>::empty());
    assert(all.subrange(0, 0).filter(p) == Seq::<Library>::empty()) by {
        reveal(Seq::filter);
    }
    assert(all.subrange(0, all.len() as int) =~= all);
    // move the libraries over in order, dropping those with the id
    while rest.len() > 0
        invariant
            all == orig,
            rest.len() <= all.len(),
            rest@ == all.subrange(all.len() - rest.len(), all.len() as int),
            kept@ == all.subrange(0, all.len() - rest.len()).filter(p),
            p == other_id(lib_id@),
            removed <==> exists|k: int| 0 <= k < all.len() - rest.len() && all[k].id@ == lib_id@,
        decreases rest.len(),
    {
        let ghost before_rest = rest@;
        let ghost done: int = all.len() - before_rest.len();
        assert(before_rest[0] == all[done]);
        let lib = rest.remove(0);
        proof {
            assert(lib == all[done]);
            assert(all.subrange(0, done + 1).drop_last() =~= all.subrange(0, done));
            assert(all.subrange(0, done + 1).last() == all[done]);
            assert(rest@ =~= all.subrange(done + 1, all.len() as int));
        }
        let ghost sub = all.subrange(0, done + 1);
        assert(sub.filter(p) == if p(sub.last()) {
            sub.drop_last().filter(p).push(sub.last())
        } else {
            sub.drop_last().filter(p)
        }) by {
            reveal(Seq::filter);
        }
        if eq_str(&chars_of(lib.id.as_str()), lib_id) {
            removed = true;
        } else {
            kept.push(lib);
        }
        assert(kept@ == sub.filter(p));
    }
    assert(all.subrange(0, all.len() as int) =~= all);
    *libraries = kept;
    if removed {
        Ok(())
    } else {
        Err(LibraryError::NothingRemoved(String::from_str(lib_id)))
    }
}

/// Position of the first entry of `s` equal to `x`.
pub open spec fn first_position<A>(s: Seq<A>, x: A) -> Option<int>
    decreases s.len(),
{
    if s.len() == 0 {
        None
    } else if s[0] == x {
        Some(0)
    } else {
        match first_position(s.drop_first(), x) {
            Some(k) => Some(k + 1),
            None => None,
        }
    }
}

proof fn lemma_first_position<A>(s: Seq<A>, x: A, i: int)
    requires
        0 <= i <= s.len(),
        forall|j: int| 0 <= j < i ==> #[trigger] s[j] != x,
        i < s.len() ==> s[i] == x,
    ensures
        first_position(s, x) == if i < s.len() {
            Some(i)
        } else {
            None::<int>
        },
    decreases s.len(),
{
    if s.len() > 0 && i > 0 {
        assert forall|j: int| 0 <= j < i - 1 implies #[trigger] s.drop_first()[j] != x by {
            assert(s.drop_first()[j] == s[j + 1]);
        }
        if i < s.len() {
            assert(s.drop_first()[i - 1] == s[i]);
        }
        assert(s[0] != x);
        lemma_first_position(s.drop_first(), x, i - 1);
    }
}

/// The file paths of a library's entries.
pub open spec fn entry_paths(v: Seq<VideoElement>) -> Seq<Seq<char>> {
    v.map_values(|e: VideoElement| e.filepath@)
}

/// Replaces the first entry with the same file path as `updated_element`;
/// an error naming the file and the library if there is none.
pub fn update_library_entry(library: &mut Library, updated_element: VideoElement) -> (r: Result<(), LibraryError>)
    ensures
        final(library).id == old(library).id,
        final(library).name == old(library).name,
        final(library).library_paths == old(library).library_paths,
        final(library).child_libraries == old(library).child_libraries,
        match first_position(entry_paths(old(library).video_files@), updated_element.filepath@) {
            Some(i) => r is Ok && final(library).video_files@ == old(library).video_files@.update(i, updated_element),
            None => r matches Err(LibraryError::EntryNotFound(fp, id)) && fp@ == updated_element.filepath@
                && id@ == old(library).id@ && final(library).video_files == old(library).video_files,
        },
{
    let ghost paths = entry_paths(library.video_files@);
    let target = chars_of(updated_element.filepath.as_str());
    let mut i: usize = 0;
    while i < library.video_files.len()
        invariant
            i <= library.video_files.len(),
            *library == *old(library),
            paths == entry_paths(library.video_files@),
            target@ == updated_element.filepath@,
            forall|j: int| 0 <= j < i ==> #[trigger] paths[j] != updated_element.filepath@,
        decreases library.video_files.len() - i,
    {
        if eq_chars(&chars_of(library.video_files[i].filepath.as_str()), &target) {
            proof {
                lemma_first_position(paths, updated_element.filepath@, i as int);
            }
            library.video_files.set(i, updated_element);
            return Ok(());
        }
        i = i + 1;
    }
    proof {
        lemma_first_position(paths, updated_element.filepath@, library.video_files.len() as int);
    }
    Err(LibraryError::EntryNotFound(updated_element.filepath, library.id.clone()))
}

/// Replaces the entry at `index`; an error if there is none.
pub fn update_library_entry_by_index(library: &mut Library, updated_element: VideoElement, index: usize) -> (r: Result<(), LibraryError>)
    ensures
        final(library).id == old(library).id,
        final(library).name == old(library).name,
        final(library).library_paths == old(library).library_paths,
        final(library).child_libraries == old(library).child_libraries,
        index < old(library).video_files.len() ==> r is Ok && final(library).video_files@ == old(library).video_files@.update(index as int, updated_element),
        index >= old(library).video_files.len() ==> r == Err::<(), LibraryError>(LibraryError::IndexOutOfRange(index, old(library).video_files.len()))
            && final(library).video_files == old(library).video_files,
{
    if index >= library.video_files.len() {
        return Err(LibraryError::IndexOutOfRange(index, library.video_files.len()));
    }
    library.video_files.set(index, updated_element);
    Ok(())
}

/// `s` without its last `n` characters (all of them if it is shorter).
/// How many characters of the sanitised name an id keeps when `digits`
/// characters of a number follow it: all of them, unless the id would
/// exceed 255 characters.
pub open spec fn kept_len(base_len: int, digits: int) -> int {
    if digits >= 255 {
        0
    } else if base_len > 255 - digits {
        255 - digits
    } else {
        base_len
    }
}

/// The id tried at counter value `i` (from 2): the sanitised name first,
/// then the name followed by the number `i - 1`, the name shortened so that
/// the id fits in 255 characters.
pub open spec fn id_candidate(base: Seq<char>, i: int) -> Seq<char> {
    if i <= 2 {
        base
    } else {
        let d = decimal((i - 1) as nat);
        base.take(kept_len(base.len() as int, d.len() as int)) + d
    }
}

/// The candidate id at counter `i` is not taken by any library.
pub open spec fn id_free(ids: Seq<Seq<char>>, base: Seq<char>, i: int) -> bool {
    !ids.contains(id_candidate(base, i))
}

fn contains_id(ids: &Vec<String>, id: &Vec<char>) -> (r: bool)
    ensures
        r == strs_of(ids@).contains(id@),
{
    let ghost s = strs_of(ids@);
    let mut i: usize = 0;
    while i < ids.len()
        invariant
            i <= ids.len(),
            s == strs_of(ids@),
            forall|j: int| 0 <= j < i ==> #[trigger] s[j] != id@,
        decreases ids.len() - i,
    {
        if eq_str(id, ids[i].as_str()) {
            assert(s[i as int] == id@);
            return true;
        }
        i = i + 1;
    }
    false
}

/// The record of a new library: the id is the sanitised name (white space
/// and non-ASCII replaced), or the first `id_candidate` no library has;
/// unless duplicates are allowed, a library already named `name` makes it
/// a `DuplicateName` error. It holds the given folders and no entries yet.
pub fn create_library(libraries: &Vec<Library>, name: &str, paths: Vec<LibraryPath>, allow_duplicate_name: bool) -> (r: Result<Library, LibraryError>)
    ensures
        ({
            let ids = library_ids(libraries@);
            let base = valid_filename(name@, true, true);
            if !allow_duplicate_name && library_names(libraries@).contains(name@) {
                r matches Err(LibraryError::DuplicateName)
            } else {
                match r {
                    Ok(lib) => exists|k: int|
                        2 <= k <= i32::MAX && #[trigger] id_free(ids, base, k) && (forall|j: int|
                            2 <= j < k ==> !#[trigger] id_free(ids, base, j)) && lib.id@ == id_candidate(base, k)
                            && lib.name@ == name@ && lib.library_paths@ == paths@ && lib.video_files@.len() == 0
                            && lib.child_libraries@.len() == 0,
                    Err(e) => e matches LibraryError::NoFreeId && forall|j: int|
                        2 <= j <= i32::MAX ==> !#[trigger] id_free(ids, base, j),
                }
            }
        }),
{
    let ghost ids_spec = library_ids(libraries@);
    let base_s = create_valid_filename(name, Some(true), Some(true));
    let ghost base = base_s@;
    assert(base == valid_filename(name@, true, true));
    let ids = get_all_library_ids(libraries);
    if !allow_duplicate_name {
        let nv = chars_of(name);
        if contains_id(&get_all_library_names(libraries), &nv) {
            return Err(LibraryError::DuplicateName);
        }
    }
    let base_v = chars_of(base_s.as_str());
    let mut id = chars_of(base_s.as_str());
    let mut i: i32 = 2;
    loop
        invariant
            2 <= i <= i32::MAX,
            strs_of(ids@) == ids_spec,
            ids_spec == library_ids(libraries@),
            base == valid_filename(name@, true, true),
            !(!allow_duplicate_name && library_names(libraries@).contains(name@)),
            base_v@ == base,
            id@ == id_candidate(base, i as int),
            forall|j: int| 2 <= j < i ==> !#[trigger] id_free(ids_spec, base, j),
        decreases i32::MAX - i,
    {
        if !contains_id(&ids, &id) {
            assert(id_free(ids_spec, base, i as int));
            assert(base == valid_filename(name@, true, true));
            let lib = Library {
                id: string_from_chars(&id),
                name: String::from_str(name),
                library_paths: paths,
                video_files: Vec::new(),
                child_libraries: Vec::new(),
            };
            assert(lib.video_files@.len() == 0 && lib.child_libraries@.len() == 0);
            assert(lib.library_paths@ == paths@);
            return Ok(lib);
        }
        assert(!id_free(ids_spec, base, i as int));
        if i == i32::MAX {
            return Err(LibraryError::NoFreeId);
        }
        let d = decimal_chars(i as u64);
        let keep: usize = if d.len() >= 255 {
            0
        } else if base_v.len() > 255 - d.len() {
            255 - d.len()
        } else {
            base_v.len()
        };
        assert(keep == kept_len(base.len() as int, d@.len() as int));
        id = slice_chars(&base_v, 0, keep);
        push_all(&mut id, &d);
        i = i + 1;
    }
}

} // verus!
