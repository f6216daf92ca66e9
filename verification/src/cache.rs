//! The page cache: rendered pages by path, each with the files it directly
//! depends on and the times at which it was rendered and last served.
//!
//! Times are counted in ticks of the caller's clock, in the unit in which
//! the caller reports the modification times of files.

use vstd::prelude::*;
use vstd::string::*;
use vstd::hash_map::StringHashMap;

verus! {

/// The paths of a vector, as sequences of characters.
pub open spec fn paths_view(paths: Seq<String>) -> Seq<Seq<char>> {
    paths.map_values(|path: String| path@)
}

/// Whether `paths` holds `path`.
pub fn contains_path(paths: &Vec<String>, path: &String) -> (r: bool)
    ensures
        r == paths_view(paths@).contains(path@),
{
    let mut i: usize = 0;
    while i < paths.len()
        invariant
            i <= paths.len(),
            forall|j: int| 0 <= j < i ==> paths_view(paths@)[j] != path@,
        decreases paths.len() - i,
    {
        if paths[i] == *path {
            assert(paths_view(paths@)[i as int] == path@);
            return true;
        }
        i += 1;
    }
    false
}

/// Adds `path` to the set `paths`, at its end, unless it is there already.
pub fn insert_path(paths: &mut Vec<String>, path: String)
    ensures
        paths_view(final(paths)@) == if paths_view(old(paths)@).contains(path@) {
            paths_view(old(paths)@)
        } else {
            paths_view(old(paths)@).push(path@)
        },
        paths_view(old(paths)@).no_duplicates() ==> paths_view(final(paths)@).no_duplicates(),
{
    if !contains_path(paths, &path) {
        paths.push(path);
        assert(paths_view(paths@) =~= paths_view(old(paths)@).push(path@));
    }
}

/// A copy of `paths`.
pub fn clone_paths(paths: &Vec<String>) -> (copy: Vec<String>)
    ensures
        paths_view(copy@) == paths_view(paths@),
{
    let mut copy: Vec<String> = Vec::new();
    let mut i: usize = 0;
    while i < paths.len()
        invariant
            i <= paths.len(),
            copy.len() == i,
            forall|j: int| 0 <= j < i ==> copy@[j]@ == paths@[j]@,
        decreases paths.len() - i,
    {
        copy.push(paths[i].clone());
        i += 1;
    }
    assert(paths_view(copy@) =~= paths_view(paths@));
    copy
}

/// A rendered page: its text, and the set of files it directly depends
/// on, each listed once, in the order in which the page asks for them.
#[derive(Debug, PartialEq, Eq)]
pub struct HTMLFile {
    pub content: String,
    pub dependencies: Vec<String>,
}

/// An `HTMLFile` as a mathematical value.
pub struct HTMLFileView {
    pub content: Seq<char>,
    pub dependencies: Seq<Seq<char>>,
}

impl View for HTMLFile {
    type V = HTMLFileView;

    open spec fn view(&self) -> HTMLFileView {
        HTMLFileView { content: self.content@, dependencies: paths_view(self.dependencies@) }
    }
}

impl Clone for HTMLFile {
    fn clone(&self) -> (copy: Self)
        ensures
            copy@ == self@,
    {
        HTMLFile { content: self.content.clone(), dependencies: clone_paths(&self.dependencies) }
    }
}

/// What the cache knows of one page.
#[derive(Debug, PartialEq, Eq)]
pub struct PageInfo {
    /// The text of the page as it was last rendered; `None` only until the
    /// page has been rendered for the first time.
    pub contents: Option<String>,
    /// The files that the page asked for when it was last rendered, each
    /// listed once: those it names itself, not those that they name.
    pub dependencies: Vec<String>,
    /// When the page was last rendered.
    pub last_modified: u64,
    /// When the page was last served or rendered.
    pub last_accessed: u64,
    /// How often the page was asked for.
    pub req_count: u64,
}

/// A `PageInfo` as a mathematical value.
pub struct PageInfoView {
    pub contents: Option<Seq<char>>,
    pub dependencies: Seq<Seq<char>>,
    pub last_modified: u64,
    pub last_accessed: u64,
    pub req_count: u64,
}

impl PageInfoView {
    /// The dependencies form a set, and a page that has dependencies has
    /// the contents that they were found in.
    pub open spec fn wf(self) -> bool {
        &&& self.dependencies.no_duplicates()
        &&& self.dependencies.len() > 0 ==> self.contents is Some
    }
}

impl View for PageInfo {
    type V = PageInfoView;

    open spec fn view(&self) -> PageInfoView {
        PageInfoView {
            contents: match self.contents {
                Some(text) => Some(text@),
                None => None,
            },
            dependencies: paths_view(self.dependencies@),
            last_modified: self.last_modified,
            last_accessed: self.last_accessed,
            req_count: self.req_count,
        }
    }
}

impl Clone for PageInfo {
    fn clone(&self) -> (copy: Self)
        ensures
            copy@ == self@,
    {
        PageInfo {
            contents: match &self.contents {
                Some(text) => Some(text.clone()),
                None => None,
            },
            dependencies: clone_paths(&self.dependencies),
            last_modified: self.last_modified,
            last_accessed: self.last_accessed,
            req_count: self.req_count,
        }
    }
}

/// The entry of a page that is new at the time `now`: empty contents, no
/// dependencies, never asked for.
pub open spec fn new_entry(now: u64) -> PageInfoView {
    PageInfoView {
        contents: Some(Seq::<char>::empty()),
        dependencies: Seq::<Seq<char>>::empty(),
        last_modified: now,
        last_accessed: now,
        req_count: 0,
    }
}

/// The entry of a page that was rendered to `file` at the time `now`.
pub open spec fn entry_of(file: HTMLFileView, now: u64) -> PageInfoView {
    PageInfoView {
        contents: Some(file.content),
        dependencies: file.dependencies,
        last_modified: now,
        last_accessed: now,
        req_count: 0,
    }
}

/// The rendered page that an entry holds; a page without text where the
/// entry has no contents yet.
pub open spec fn file_of(entry: PageInfoView) -> HTMLFileView {
    HTMLFileView {
        content: match entry.contents {
            Some(text) => text,
            None => Seq::<char>::empty(),
        },
        dependencies: entry.dependencies,
    }
}

/// Whether no path occurs twice in `paths`.
pub fn all_distinct(paths: &Vec<String>) -> (r: bool)
    ensures
        r == paths_view(paths@).no_duplicates(),
{
    let mut i: usize = 0;
    while i < paths.len()
        invariant
            i <= paths.len(),
            forall|a: int, b: int|
                0 <= a < b < i ==> paths_view(paths@)[a] != paths_view(paths@)[b],
        decreases paths.len() - i,
    {
        let mut j: usize = 0;
        while j < i
            invariant
                j <= i < paths.len(),
                forall|a: int| 0 <= a < j ==> paths_view(paths@)[a] != paths_view(paths@)[i as int],
            decreases i - j,
        {
            if paths[j] == paths[i] {
                assert(paths_view(paths@)[j as int] == paths_view(paths@)[i as int]);
                return false;
            }
            j += 1;
        }
        i += 1;
    }
    true
}

impl PageInfo {
    /// Whether the entry is well formed, so that a cache can hold it.
    pub fn is_well_formed(&self) -> (r: bool)
        ensures
            r == self@.wf(),
    {
        all_distinct(&self.dependencies) && (self.dependencies.len() == 0
            || self.contents.is_some())
    }

    /// The entry of a page that is new at the time `now`.
    pub fn new(now: u64) -> (entry: Self)
        ensures
            entry@ == new_entry(now),
    {
        let entry = PageInfo {
            contents: Some(String::new()),
            dependencies: Vec::new(),
            last_modified: now,
            last_accessed: now,
            req_count: 0,
        };
        assert(entry@.dependencies =~= Seq::<Seq<char>>::empty());
        entry
    }

    /// The entry of a page that was rendered to `file` at the time `now`.
    pub fn from_file(file: HTMLFile, now: u64) -> (entry: Self)
        ensures
            entry@ == entry_of(file@, now),
    {
        PageInfo {
            contents: Some(file.content),
            dependencies: file.dependencies,
            last_modified: now,
            last_accessed: now,
            req_count: 0,
        }
    }
}

impl HTMLFile {
    /// The rendered page that `entry` holds.
    pub fn from_entry(entry: PageInfo) -> (file: Self)
        ensures
            file@ == file_of(entry@),
    {
        HTMLFile {
            content: match entry.contents {
                Some(text) => text,
                None => String::new(),
            },
            dependencies: entry.dependencies,
        }
    }
}

/// The entry that an update of `path` starts from: the one the cache holds,
/// or a new one.
pub open spec fn start_entry(
    cache: Map<Seq<char>, PageInfoView>,
    path: Seq<char>,
    now: u64,
) -> PageInfoView {
    if cache.contains_key(path) {
        cache[path]
    } else {
        new_entry(now)
    }
}

/// `entry` after the page was asked for at the time `now`. The count stops
/// at the largest number it can hold.
pub open spec fn accessed(entry: PageInfoView, now: u64) -> PageInfoView {
    PageInfoView {
        last_accessed: now,
        req_count: if entry.req_count < u64::MAX {
            (entry.req_count + 1) as u64
        } else {
            entry.req_count
        },
        ..entry
    }
}

/// The table of the pages that were rendered so far, by path. Every entry
/// in it is well formed; none ever leaves it.
pub struct PageCache {
    pages: StringHashMap<PageInfo>,
}

impl View for PageCache {
    type V = Map<Seq<char>, PageInfoView>;

    closed spec fn view(&self) -> Map<Seq<char>, PageInfoView> {
        self.pages@.map_values(|page: PageInfo| page@)
    }
}

impl PageCache {
    #[verifier::type_invariant]
    spec fn entries_wf(self) -> bool {
        forall|path: Seq<char>| #[trigger]
            self.pages@.contains_key(path) ==> self.pages@[path]@.wf()
    }

    /// A cache without entries.
    pub fn new() -> (cache: Self)
        ensures
            cache@ == Map::<Seq<char>, PageInfoView>::empty(),
    {
        let cache = PageCache { pages: StringHashMap::new() };
        assert(cache@ =~= Map::<Seq<char>, PageInfoView>::empty());
        cache
    }

    /// Stores `page` under `path`.
    fn store(&mut self, path: String, page: PageInfo)
        requires
            page@.wf(),
        ensures
            final(self)@ == old(self)@.insert(path@, page@),
    {
        proof {
            use_type_invariant(&*self);
        }
        // The table is taken out while it changes, so that `self` is well
        // formed at every moment.
        let mut pages: StringHashMap<PageInfo> = StringHashMap::new();
        std::mem::swap(&mut self.pages, &mut pages);
        pages.insert(path, page);
        std::mem::swap(&mut self.pages, &mut pages);
        assert(self@ =~= old(self)@.insert(path@, page@));
    }

    /// Stores `page` under `path` and returns the entry that it replaces.
    pub fn add_page(&mut self, path: String, page: PageInfo) -> (replaced: Option<PageInfo>)
        requires
            page@.wf(),
        ensures
            final(self)@ == old(self)@.insert(path@, page@),
            match replaced {
                Some(entry) => old(self)@.contains_key(path@) && entry@ == old(self)@[path@],
                None => !old(self)@.contains_key(path@),
            },
    {
        proof {
            use_type_invariant(&*self);
        }
        let replaced = match self.pages.get(path.as_str()) {
            Some(entry) => Some(entry.clone()),
            None => None,
        };
        self.store(path, page);
        replaced
    }

    /// The entry of `path`, if there is one.
    pub fn get_page(&self, path: &str) -> (found: Option<&PageInfo>)
        ensures
            match found {
                Some(entry) => self@.contains_key(path@) && entry@ == self@[path@] && entry@.wf(),
                None => !self@.contains_key(path@),
            },
    {
        proof {
            use_type_invariant(self);
        }
        self.pages.get(path)
    }

    /// Whether `path` has an entry.
    pub fn has_page(&self, path: &str) -> (found: bool)
        ensures
            found == self@.contains_key(path@),
    {
        self.pages.contains_key(path)
    }

    /// Applies `f` to the entry of `path`, or to a new entry where `path`
    /// has none, and stores what `f` made of it.
    pub fn update_page<F: Fn(&mut PageInfo)>(&mut self, path: String, now: u64, f: F)
        requires
            forall|entry: &mut PageInfo|
                (*entry)@ == start_entry(old(self)@, path@, now) ==> call_requires(f, (entry,)),
            forall|entry: &mut PageInfo|
                (*entry)@.wf() && call_ensures(f, (entry,), ()) ==> (*final(entry))@.wf(),
        ensures
            exists|entry: &mut PageInfo|
                (*entry)@ == start_entry(old(self)@, path@, now) && call_ensures(f, (entry,), ())
                    && final(self)@ == old(self)@.insert(path@, (*final(entry))@),
    {
        proof {
            use_type_invariant(&*self);
        }
        let mut entry = match self.pages.get(path.as_str()) {
            Some(entry) => entry.clone(),
            None => PageInfo::new(now),
        };
        f(&mut entry);
        self.store(path, entry);
    }

    /// Records that `path` was asked for at the time `now`.
    pub fn page_accessed_now(&mut self, path: String, now: u64)
        ensures
            final(self)@ == old(self)@.insert(
                path@,
                accessed(start_entry(old(self)@, path@, now), now),
            ),
    {
        let touch = |entry: &mut PageInfo|
            ensures
                (*final(entry))@ == accessed((*old(entry))@, now),
            {
                entry.last_accessed = now;
                if entry.req_count < u64::MAX {
                    entry.req_count = entry.req_count + 1;
                }
            };
        self.update_page(path, now, touch);
    }
}

} // verus!
