//! The directory subtree and the recursive walk.
//!
//! A `Directory` owns its base name, its full path and the entries that
//! enumerating it yielded, in enumeration order.  A `File` owns its base
//! name, its path and its decoded contents — or no contents, for a file
//! that could not be read or decoded as text, which contributes zero
//! content occurrences.  An entry that could not be read or classified is
//! kept as such: it contributes no occurrences, only a warning.
//!
//! Walking a directory first checks its own name (when names are
//! searched), then each entry in order: a subdirectory is walked
//! recursively when recursion is on and skipped entirely otherwise, a file
//! is always walked, and results bubble up by concatenation, so the flat
//! result list keeps the depth-first, per-directory enumeration order.

use vstd::prelude::*;

use crate::matching::contains_keyword;
use crate::matching::name_contains;
use crate::occurrence::Occurrence;
use crate::occurrence::OccurrenceView;
use crate::occurrence::views_of;
use crate::occurrence::lemma_views_of_push;
use crate::occurrence::lemma_views_of_add;
use crate::scan::scan_spec;
use crate::scan::scan_contents;
use crate::scan::lemma_scan_occurrences_exact;

verus! {

broadcast use vstd::std_specs::vec::axiom_vec_index_decreases;

/// A single file: base name, full path, and decoded contents.  `None`
/// contents stand for a file that could not be read or decoded as text.
#[derive(Debug)]
pub struct File {
    pub name: String,
    pub path: String,
    pub contents: Option<String>,
}

/// A directory: base name, full path, and its entries in enumeration
/// order.
#[derive(Debug)]
pub struct Directory {
    pub name: String,
    pub path: String,
    pub entries: Vec<FsEntry>,
}

/// One enumerated child of a directory.
#[derive(Debug)]
pub enum FsEntry {
    /// A child that qualified as a directory.
    Dir(Directory),
    /// A child that qualified as a regular file.
    File(File),
    /// A child that could not be read or classified as either: it
    /// contributes no occurrences, only a warning.
    Unreadable,
}

impl File {
    /// The name occurrence this file reports: one, when names are
    /// searched and the keyword occurs in the base name.
    pub open spec fn name_occurrences(self, include_filenames: bool, k: Seq<char>) -> Seq<
        OccurrenceView,
    > {
        if include_filenames && contains_keyword(self.name@, k) {
            seq![(OccurrenceView::FileName { matching_text: k, path: self.path@ })]
        } else {
            Seq::empty()
        }
    }

    /// The content occurrences this file reports: the scan of its
    /// contents, or nothing when the contents could not be read.
    pub open spec fn content_occurrences(self, k: Seq<char>) -> Seq<OccurrenceView> {
        match self.contents {
            Some(c) => scan_spec(c@, k, self.path@),
            None => Seq::empty(),
        }
    }

    /// Everything walking this file reports: the optional name match,
    /// then the content occurrences when contents are searched.
    pub open spec fn walk_spec(
        self,
        include_filenames: bool,
        include_file_contents: bool,
        k: Seq<char>,
    ) -> Seq<OccurrenceView> {
        self.name_occurrences(include_filenames, k) + (if include_file_contents {
            self.content_occurrences(k)
        } else {
            Seq::empty()
        })
    }

    /// Walks this file: reports the name match first (when names are
    /// searched and the keyword occurs in the base name), then every
    /// content occurrence (when contents are searched).  The `_recurse`
    /// flag is accepted for interface uniformity with `Directory` and has
    /// no effect on a leaf.
    pub fn walk(
        &self,
        _recurse: bool,
        include_filenames: bool,
        include_file_contents: bool,
        keyword: &str,
    ) -> (r: Vec<Occurrence>)
        ensures
            views_of(r@) == self.walk_spec(include_filenames, include_file_contents, keyword@),
    {
        let mut r: Vec<Occurrence> = Vec::new();
        proof {
            assert(views_of(r@) =~= Seq::<OccurrenceView>::empty());
        }
        if include_filenames {
            if name_contains(self.name.as_str(), keyword) {
                let occ = Occurrence::FileName {
                    matching_text: String::from_str(keyword),
                    path: self.path.clone(),
                };
                proof {
                    lemma_views_of_push(r@, occ);
                }
                r.push(occ);
            }
        }
        assert(views_of(r@) == self.name_occurrences(include_filenames, keyword@));
        if include_file_contents {
            let mut found = get_occurrences_in_file_contents(self, keyword);
            proof {
                lemma_views_of_add(r@, found@);
            }
            r.append(&mut found);
        } else {
            assert(views_of(r@) + Seq::<OccurrenceView>::empty() =~= views_of(r@));
        }
        r
    }
}

/// Lists occurrences of the keyword in the contents of the file: one per
/// matching character position, ascending, each with the zero-based line
/// number of its match's start.  A file without readable contents
/// contributes zero occurrences.
pub fn get_occurrences_in_file_contents(file: &File, keyword: &str) -> (r: Vec<Occurrence>)
    ensures
        views_of(r@) == file.content_occurrences(keyword@),
{
    match &file.contents {
        Some(c) => scan_contents(c.as_str(), keyword, file.path.as_str()),
        None => {
            let r: Vec<Occurrence> = Vec::new();
            proof {
                assert(views_of(r@) =~= Seq::<OccurrenceView>::empty());
            }
            r
        },
    }
}

impl FsEntry {
    /// Everything walking this entry reports: a subdirectory is walked
    /// only when recursion is on, a file is always walked, an unreadable
    /// entry reports nothing.
    pub open spec fn walk_spec(
        self,
        recurse: bool,
        include_filenames: bool,
        include_file_contents: bool,
        k: Seq<char>,
    ) -> Seq<OccurrenceView>
        decreases self, 0nat, 0nat,
    {
        match self {
            FsEntry::Dir(d) => {
                if recurse {
                    d.walk_spec(recurse, include_filenames, include_file_contents, k)
                } else {
                    Seq::empty()
                }
            },
            FsEntry::File(f) => f.walk_spec(include_filenames, include_file_contents, k),
            FsEntry::Unreadable => Seq::empty(),
        }
    }
}

impl Directory {
    /// The name occurrence this directory reports: one, when names are
    /// searched and the keyword occurs in the base name.
    pub open spec fn name_occurrences(self, include_filenames: bool, k: Seq<char>) -> Seq<
        OccurrenceView,
    > {
        if include_filenames && contains_keyword(self.name@, k) {
            seq![(OccurrenceView::FileName { matching_text: k, path: self.path@ })]
        } else {
            Seq::empty()
        }
    }

    /// What the entries from index `i` on report, concatenated in order.
    pub open spec fn entries_occurrences(
        self,
        i: int,
        recurse: bool,
        include_filenames: bool,
        include_file_contents: bool,
        k: Seq<char>,
    ) -> Seq<OccurrenceView>
        decreases self, self.entries@.len() - i, 0nat,
    {
        if 0 <= i < self.entries@.len() {
            self.entries@[i].walk_spec(recurse, include_filenames, include_file_contents, k)
                + self.entries_occurrences(
                i + 1,
                recurse,
                include_filenames,
                include_file_contents,
                k,
            )
        } else {
            Seq::empty()
        }
    }

    /// Everything walking this directory reports: its own optional name
    /// match first, then each entry's occurrences in enumeration order,
    /// depth first.
    pub open spec fn walk_spec(
        self,
        recurse: bool,
        include_filenames: bool,
        include_file_contents: bool,
        k: Seq<char>,
    ) -> Seq<OccurrenceView>
        decreases self, self.entries@.len(), 1nat,
    {
        self.name_occurrences(include_filenames, k) + self.entries_occurrences(
            0,
            recurse,
            include_filenames,
            include_file_contents,
            k,
        )
    }

    /// The warnings the entries from index `i` on surface: one per
    /// unreadable entry, carrying the path of the directory that holds
    /// it, in walk order.
    pub open spec fn entries_warnings(self, i: int, recurse: bool) -> Seq<Seq<char>>
        decreases self, self.entries@.len() - i, 0nat,
    {
        if 0 <= i < self.entries@.len() {
            (match self.entries@[i] {
                FsEntry::Unreadable => seq![self.path@],
                FsEntry::Dir(d) => {
                    if recurse {
                        d.warnings_spec(recurse)
                    } else {
                        Seq::empty()
                    }
                },
                FsEntry::File(_) => Seq::empty(),
            }) + self.entries_warnings(i + 1, recurse)
        } else {
            Seq::empty()
        }
    }

    /// The warnings walking this directory surfaces, in walk order.
    pub open spec fn warnings_spec(self, recurse: bool) -> Seq<Seq<char>>
        decreases self, self.entries@.len(), 1nat,
    {
        self.entries_warnings(0, recurse)
    }

    /// Walks this directory: reports its own name match first (when names
    /// are searched and the keyword occurs in the base name), then each
    /// entry in enumeration order — a subdirectory recursively when
    /// `recurse` is on and not at all otherwise, a file as a leaf, an
    /// unreadable entry not at all.  A recoverable condition at one entry
    /// never discards occurrences collected from prior entries.
    pub fn walk(
        &self,
        recurse: bool,
        include_filenames: bool,
        include_file_contents: bool,
        keyword: &str,
    ) -> (r: Vec<Occurrence>)
        ensures
            views_of(r@) == self.walk_spec(
                recurse,
                include_filenames,
                include_file_contents,
                keyword@,
            ),
        decreases *self,
    {
        let mut r: Vec<Occurrence> = Vec::new();
        proof {
            assert(views_of(r@) =~= Seq::<OccurrenceView>::empty());
        }
        if include_filenames {
            if name_contains(self.name.as_str(), keyword) {
                let occ = Occurrence::FileName {
                    matching_text: String::from_str(keyword),
                    path: self.path.clone(),
                };
                proof {
                    lemma_views_of_push(r@, occ);
                }
                r.push(occ);
            }
        }
        assert(views_of(r@) == self.name_occurrences(include_filenames, keyword@));
        let ghost total = self.walk_spec(recurse, include_filenames, include_file_contents, keyword@);
        let n = self.entries.len();
        let mut idx: usize = 0;
        proof {
            assert(views_of(r@) + self.entries_occurrences(
                0,
                recurse,
                include_filenames,
                include_file_contents,
                keyword@,
            ) =~= total);
        }
        while idx < n
            invariant
                n == self.entries@.len(),
                0 <= idx <= n,
                total == self.walk_spec(recurse, include_filenames, include_file_contents, keyword@),
                views_of(r@) + self.entries_occurrences(
                    idx as int,
                    recurse,
                    include_filenames,
                    include_file_contents,
                    keyword@,
                ) == total,
            decreases n - idx,
        {
            let ghost entry_occs = self.entries@[idx as int].walk_spec(
                recurse,
                include_filenames,
                include_file_contents,
                keyword@,
            );
            let ghost rest = self.entries_occurrences(
                idx as int + 1,
                recurse,
                include_filenames,
                include_file_contents,
                keyword@,
            );
            match &self.entries[idx] {
                FsEntry::Dir(d) => {
                    if recurse {
                        proof {
                            assert(self.entries@[idx as int] == FsEntry::Dir(*d));
                            assert(decreases_to!(self.entries => self.entries@[idx as int]));
                        }
                        let mut sub = d.walk(
                            recurse,
                            include_filenames,
                            include_file_contents,
                            keyword,
                        );
                        proof {
                            lemma_views_of_add(r@, sub@);
                            assert((views_of(r@) + views_of(sub@)) + rest =~= views_of(r@) + (
                            entry_occs + rest));
                        }
                        r.append(&mut sub);
                    } else {
                        assert(views_of(r@) + (entry_occs + rest) =~= views_of(r@) + rest);
                    }
                },
                FsEntry::File(f) => {
                    let mut sub = f.walk(recurse, include_filenames, include_file_contents, keyword);
                    proof {
                        lemma_views_of_add(r@, sub@);
                        assert((views_of(r@) + views_of(sub@)) + rest =~= views_of(r@) + (entry_occs
                            + rest));
                    }
                    r.append(&mut sub);
                },
                FsEntry::Unreadable => {
                    assert(views_of(r@) + (entry_occs + rest) =~= views_of(r@) + rest);
                },
            }
            idx += 1;
        }
        proof {
            assert(views_of(r@) + Seq::<OccurrenceView>::empty() =~= views_of(r@));
        }
        r
    }

    /// Collects, in walk order, one warning per directory entry that
    /// could not be read: the path of the directory holding the entry.
    /// This is the side diagnostic channel for skipped entries; it never
    /// interleaves with the occurrence list.
    pub fn walk_warnings(&self, recurse: bool) -> (w: Vec<String>)
        ensures
            string_views(w@) == self.warnings_spec(recurse),
        decreases *self,
    {
        let mut w: Vec<String> = Vec::new();
        proof {
            assert(string_views(w@) =~= Seq::<Seq<char>>::empty());
        }
        let ghost total = self.warnings_spec(recurse);
        let n = self.entries.len();
        let mut idx: usize = 0;
        proof {
            assert(string_views(w@) + self.entries_warnings(0, recurse) =~= total);
        }
        while idx < n
            invariant
                n == self.entries@.len(),
                0 <= idx <= n,
                total == self.warnings_spec(recurse),
                string_views(w@) + self.entries_warnings(idx as int, recurse) == total,
            decreases n - idx,
        {
            let ghost here = match self.entries@[idx as int] {
                FsEntry::Unreadable => seq![self.path@],
                FsEntry::Dir(d) => {
                    if recurse {
                        d.warnings_spec(recurse)
                    } else {
                        Seq::empty()
                    }
                },
                FsEntry::File(_) => Seq::empty(),
            };
            let ghost rest = self.entries_warnings(idx as int + 1, recurse);
            match &self.entries[idx] {
                FsEntry::Dir(d) => {
                    if recurse {
                        proof {
                            assert(self.entries@[idx as int] == FsEntry::Dir(*d));
                            assert(decreases_to!(self.entries => self.entries@[idx as int]));
                        }
                        let mut sub = d.walk_warnings(recurse);
                        proof {
                            lemma_string_views_add(w@, sub@);
                            assert((string_views(w@) + string_views(sub@)) + rest =~= string_views(
                                w@,
                            ) + (here + rest));
                        }
                        w.append(&mut sub);
                    } else {
                        assert(string_views(w@) + (here + rest) =~= string_views(w@) + rest);
                    }
                },
                FsEntry::File(_) => {
                    assert(string_views(w@) + (here + rest) =~= string_views(w@) + rest);
                },
                FsEntry::Unreadable => {
                    let warning = self.path.clone();
                    proof {
                        lemma_string_views_push(w@, warning);
                        assert(string_views(w@).push(warning@) + rest =~= string_views(w@) + (here
                            + rest));
                    }
                    w.push(warning);
                },
            }
            idx += 1;
        }
        proof {
            assert(string_views(w@) + Seq::<Seq<char>>::empty() =~= string_views(w@));
        }
        w
    }
}

/// The views of a sequence of strings, element by element.
pub open spec fn string_views(s: Seq<String>) -> Seq<Seq<char>> {
    s.map_values(|x: String| x.view())
}

proof fn lemma_string_views_push(s: Seq<String>, x: String)
    ensures
        string_views(s.push(x)) == string_views(s).push(x@),
{
    assert(string_views(s.push(x)) =~= string_views(s).push(x@));
}

proof fn lemma_string_views_add(s: Seq<String>, t: Seq<String>)
    ensures
        string_views(s + t) == string_views(s) + string_views(t),
{
    assert(string_views(s + t) =~= string_views(s) + string_views(t));
}

proof fn lemma_entries_occurrences_all_dirs_empty(
    d: Directory,
    i: int,
    include_filenames: bool,
    include_file_contents: bool,
    k: Seq<char>,
)
    requires
        forall|j: int| 0 <= j < d.entries@.len() ==> d.entries@[j] is Dir,
    ensures
        d.entries_occurrences(i, false, include_filenames, include_file_contents, k)
            == Seq::<OccurrenceView>::empty(),
    decreases d.entries@.len() - i,
{
    if 0 <= i < d.entries@.len() {
        lemma_entries_occurrences_all_dirs_empty(d, i + 1, include_filenames, include_file_contents, k);
        assert(d.entries@[i].walk_spec(false, include_filenames, include_file_contents, k)
            =~= Seq::<OccurrenceView>::empty());
        assert(d.entries_occurrences(i, false, include_filenames, include_file_contents, k)
            =~= Seq::<OccurrenceView>::empty());
    }
}

/// Law: with recursion off, subdirectory entries contribute nothing.  A
/// directory all of whose entries are subdirectories reports only its own
/// optional name match, however deep those subdirectories' own matches
/// would reach.
pub proof fn lemma_recurse_off_skips_subdirectories(
    d: Directory,
    include_filenames: bool,
    include_file_contents: bool,
    k: Seq<char>,
)
    requires
        forall|j: int| 0 <= j < d.entries@.len() ==> d.entries@[j] is Dir,
    ensures
        d.walk_spec(false, include_filenames, include_file_contents, k) == d.name_occurrences(
            include_filenames,
            k,
        ),
{
    lemma_entries_occurrences_all_dirs_empty(d, 0, include_filenames, include_file_contents, k);
    assert(d.name_occurrences(include_filenames, k) + Seq::<OccurrenceView>::empty()
        =~= d.name_occurrences(include_filenames, k));
}

/// Law: a file whose name contains the keyword, walked with names
/// searched, reports exactly one name occurrence — the first element —
/// whatever the content flag and whatever the contents; every later
/// element is a content occurrence.
pub proof fn lemma_file_name_match_is_single(f: File, include_file_contents: bool, k: Seq<char>)
    requires
        contains_keyword(f.name@, k),
    ensures
        f.walk_spec(true, include_file_contents, k).len() >= 1,
        f.walk_spec(true, include_file_contents, k)[0] == (OccurrenceView::FileName {
            matching_text: k,
            path: f.path@,
        }),
        forall|j: int|
            1 <= j < f.walk_spec(true, include_file_contents, k).len()
                ==> #[trigger] f.walk_spec(true, include_file_contents, k)[j] is FileContent,
{
    let name_part = f.name_occurrences(true, k);
    let rest = if include_file_contents {
        f.content_occurrences(k)
    } else {
        Seq::<OccurrenceView>::empty()
    };
    assert(f.walk_spec(true, include_file_contents, k) == name_part + rest);
    if include_file_contents {
        match f.contents {
            Some(c) => {
                lemma_scan_occurrences_exact(c@, k, f.path@);
            },
            None => {},
        }
    }
    assert forall|j: int|
        1 <= j < f.walk_spec(true, include_file_contents, k).len() implies #[trigger] f.walk_spec(
        true,
        include_file_contents,
        k,
    )[j] is FileContent by {
        assert(f.walk_spec(true, include_file_contents, k)[j] == rest[j - 1]);
    }
}

} // verus!
