//! The stateful decision engine: given the configured target file names and
//! excluded folder names, decides per member path whether it is admitted for
//! extraction, and remembers which targets the current archive has already
//! satisfied.

use vstd::prelude::*;
use vstd::string::*;
use crate::member_path::MemberPath;

verus! {

/// Mathematical state of a [`PathVerifier`]: the excluded folder names, the
/// target base file names in the order they were added, and the set of
/// targets already matched within the current archive.
pub ghost struct VerifierModel {
    /// Folder names that veto a match anywhere in a path.
    pub restricted: Set<Seq<char>>,
    /// Target base file names, in order of addition, without duplicates.
    pub targets: Seq<Seq<char>>,
    /// Target names already satisfied in the current archive.
    pub matched: Set<Seq<char>>,
}

impl VerifierModel {
    /// A path is admitted when its base name is a still-unmatched target and
    /// no component anywhere in the path is a restricted folder name.
    pub open spec fn admits(self, p: Seq<Seq<char>>) -> bool {
        &&& p.len() > 0
        &&& self.targets.contains(p.last())
        &&& !self.matched.contains(p.last())
        &&& forall|i: int| 0 <= i < p.len() ==> !self.restricted.contains(#[trigger] p[i])
    }

    /// The state one `verify` call on `p` leaves behind: an admitted path
    /// marks its base name as matched; a rejected one changes nothing.
    pub open spec fn step(self, p: Seq<Seq<char>>) -> VerifierModel {
        if self.admits(p) {
            VerifierModel { matched: self.matched.insert(p.last()), ..self }
        } else {
            self
        }
    }

    /// The state `reset` leaves behind: every target is unmatched again.
    pub open spec fn clear_matched(self) -> VerifierModel {
        VerifierModel { matched: Set::empty(), ..self }
    }

    /// The state after adding target `name`: its flag is cleared, and the
    /// name is appended to the targets unless already present.
    pub open spec fn add_target(self, name: Seq<char>) -> VerifierModel {
        VerifierModel {
            targets: if self.targets.contains(name) {
                self.targets
            } else {
                self.targets.push(name)
            },
            matched: self.matched.remove(name),
            ..self
        }
    }

    /// The state after adding a restricted folder name.
    pub open spec fn add_restricted(self, name: Seq<char>) -> VerifierModel {
        VerifierModel { restricted: self.restricted.insert(name), ..self }
    }

    /// Target names have no duplicates.
    pub open spec fn wf(self) -> bool {
        self.targets.no_duplicates()
    }
}

/// The diagnostic line reported for a target not found in an archive.
pub open spec fn not_found_line(name: Seq<char>, folder: Seq<char>) -> Seq<char> {
    name + " was not found in "@ + folder
}

/// The diagnostic lines for every target of `targets` (in order) that is not
/// in `matched`.
pub open spec fn report_lines(
    targets: Seq<Seq<char>>,
    matched: Set<Seq<char>>,
    folder: Seq<char>,
) -> Seq<Seq<char>>
    decreases targets.len(),
{
    if targets.len() == 0 {
        Seq::empty()
    } else {
        let rest = report_lines(targets.drop_last(), matched, folder);
        if matched.contains(targets.last()) {
            rest
        } else {
            rest.push(not_found_line(targets.last(), folder))
        }
    }
}

struct SearchEntry {
    name: String,
    matched: bool,
}

/// Verifies member paths against the configured targets and exclusions.
///
/// Holds the excluded folder names and, for each target file name, whether
/// the current archive has already satisfied it.
pub struct PathVerifier {
    restricted_folders: Vec<String>,
    search_files: Vec<SearchEntry>,
}

impl View for PathVerifier {
    type V = VerifierModel;

    closed spec fn view(&self) -> VerifierModel {
        VerifierModel {
            restricted: Set::new(
                |n: Seq<char>|
                    exists|k: int|
                        0 <= k < self.restricted_folders@.len()
                            && self.restricted_folders@[k]@ == n,
            ),
            targets: self.search_files@.map_values(|e: SearchEntry| e.name@),
            matched: Set::new(
                |n: Seq<char>|
                    exists|k: int|
                        0 <= k < self.search_files@.len() && self.search_files@[k].name@ == n
                            && self.search_files@[k].matched,
            ),
        }
    }
}

impl PathVerifier {
    /// Representation invariant: target names are distinct, as they are the
    /// keys of the match state.
    pub open spec fn inv(&self) -> bool {
        self@.wf()
    }

    /// Add a new file name to search for. Its match flag starts cleared, even
    /// when the name was already a target. Returns a copy of the updated
    /// verifier.
    pub fn add_search_file(&mut self, file_name: &str) -> (r: Self)
        requires
            old(self).inv(),
        ensures
            final(self).inv(),
            final(self)@ == old(self)@.add_target(file_name@),
            r.inv(),
            r@ == final(self)@,
    {
        let name: String = file_name.to_owned();
        let len = self.search_files.len();
        let mut i: usize = 0;
        let mut found = false;
        while i < len
            invariant
                old(self).inv(),
                len == self.search_files@.len(),
                i <= len,
                name@ == file_name@,
                self.restricted_folders == old(self).restricted_folders,
                !found ==> self.search_files@ =~= old(self).search_files@,
                !found ==> forall|k: int|
                    0 <= k < i ==> old(self).search_files@[k].name@ != file_name@,
                found ==> exists|k: int|
                    0 <= k < len && old(self).search_files@[k].name@ == file_name@,
                found ==> self.search_files@.len() == old(self).search_files@.len(),
                found ==> forall|k: int|
                    0 <= k < len ==> (#[trigger] self.search_files@[k]).name@ == old(
                        self,
                    ).search_files@[k].name@,
                found ==> forall|k: int|
                    0 <= k < len ==> self.search_files@[k].matched == (old(
                        self,
                    ).search_files@[k].matched && old(self).search_files@[k].name@ != file_name@),
            decreases len - i,
        {
            if !found && self.search_files[i].name == name {
                let ghost pre = self.search_files@;
                self.search_files[i].matched = false;
                found = true;
                proof {
                    assert forall|k: int| 0 <= k < len implies self.search_files@[k].matched == (
                    old(self).search_files@[k].matched && old(self).search_files@[k].name@
                        != file_name@) by {
                        if k != i {
                            assert(self.search_files@[k] == pre[k]);
                            if old(self).search_files@[k].name@ == file_name@ {
                                assert(old(self).search_files@.map_values(
                                    |e: SearchEntry| e.name@,
                                )[k] == old(self).search_files@.map_values(
                                    |e: SearchEntry| e.name@,
                                )[i as int]);
                                assert(false);
                            }
                        }
                    }
                }
            }
            i = i + 1;
        }
        if !found {
            self.search_files.push(SearchEntry { name, matched: false });
        }
        proof {
            let m0 = old(self)@;
            let m1 = self@;
            if found {
                assert(m0.targets.contains(file_name@)) by {
                    let k = choose|k: int|
                        0 <= k < len && old(self).search_files@[k].name@ == file_name@;
                    assert(m0.targets[k] == file_name@);
                }
                assert(m1.targets =~= m0.targets);
                assert(m1.matched =~= m0.matched.remove(file_name@));
                assert(m1.restricted =~= m0.restricted);
            } else {
                assert(!m0.targets.contains(file_name@)) by {
                    if m0.targets.contains(file_name@) {
                        let k = choose|k: int| 0 <= k < m0.targets.len() && m0.targets[k]
                            == file_name@;
                        assert(old(self).search_files@[k].name@ == file_name@);
                    }
                }
                assert(m1.targets =~= m0.targets.push(file_name@));
                assert(m1.matched =~= m0.matched.remove(file_name@)) by {
                    assert forall|n: Seq<char>| m1.matched.contains(n) implies m0.matched.remove(
                        file_name@,
                    ).contains(n) by {
                        let k = choose|k: int|
                            0 <= k < self.search_files@.len() && self.search_files@[k].name@ == n
                                && self.search_files@[k].matched;
                        assert(k < len);
                        assert(old(self).search_files@[k].name@ == n);
                    }
                    assert forall|n: Seq<char>|
                        m0.matched.remove(file_name@).contains(n) implies m1.matched.contains(
                        n,
                    ) by {
                        let k = choose|k: int|
                            0 <= k < old(self).search_files@.len() && old(
                                self,
                            ).search_files@[k].name@ == n && old(self).search_files@[k].matched;
                        assert(self.search_files@[k].name@ == n);
                        assert(self.search_files@[k].matched);
                    }
                }
                assert(m1.restricted =~= m0.restricted);
                assert(m1.targets.no_duplicates());
            }
            assert(m1 == m0.add_target(file_name@));
        }
        self.duplicate()
    }

    /// Add a new folder name to exclude from the search. Returns a copy of
    /// the updated verifier.
    pub fn add_restricted_folder(&mut self, folder_name: &str) -> (r: Self)
        requires
            old(self).inv(),
        ensures
            final(self).inv(),
            final(self)@ == old(self)@.add_restricted(folder_name@),
            r.inv(),
            r@ == final(self)@,
    {
        self.restricted_folders.push(folder_name.to_owned());
        proof {
            let m0 = old(self)@;
            let m1 = self@;
            assert(m1.restricted =~= m0.restricted.insert(folder_name@)) by {
                assert forall|n: Seq<char>| m1.restricted.contains(n) implies m0.restricted.insert(
                    folder_name@,
                ).contains(n) by {
                    let k = choose|k: int|
                        0 <= k < self.restricted_folders@.len() && self.restricted_folders@[k]@
                            == n;
                    if k < old(self).restricted_folders@.len() {
                        assert(old(self).restricted_folders@[k]@ == n);
                    }
                }
                assert forall|n: Seq<char>|
                    m0.restricted.insert(folder_name@).contains(n) implies m1.restricted.contains(
                    n,
                ) by {
                    if m0.restricted.contains(n) {
                        let k = choose|k: int|
                            0 <= k < old(self).restricted_folders@.len() && old(
                                self,
                            ).restricted_folders@[k]@ == n;
                        assert(self.restricted_folders@[k]@ == n);
                    } else {
                        assert(self.restricted_folders@.last()@ == folder_name@);
                    }
                }
            }
            assert(m1.targets =~= m0.targets);
            assert(m1.matched =~= m0.matched);
            assert(m1 == m0.add_restricted(folder_name@));
        }
        self.duplicate()
    }

    /// Read-only admissibility test for one path, against the current state.
    pub(crate) fn check(&self, path: &MemberPath) -> (r: bool)
        requires
            self.inv(),
        ensures
            r == self@.admits(path@),
    {
        if path.len() == 0 {
            return false;
        }
        let base = path.base_name();
        match self.find_target(base) {
            None => false,
            Some(i) => {
                if self.search_files[i].matched {
                    proof {
                        assert(self@.matched.contains(path@.last()));
                    }
                    false
                } else {
                    proof {
                        assert forall|k: int|
                            0 <= k < self.search_files@.len() && self.search_files@[k].name@
                                == base@ implies !self.search_files@[k].matched by {
                            let tv = self.search_files@.map_values(|e: SearchEntry| e.name@);
                            assert(tv[k] == tv[i as int]);
                        }
                        assert(!self@.matched.contains(path@.last()));
                    }
                    !self.has_restricted_component(path)
                }
            },
        }
    }

    /// Index of the entry whose name is `name`, if the name is a target.
    fn find_target(&self, name: &String) -> (r: Option<usize>)
        ensures
            match r {
                Some(i) => i < self.search_files@.len() && self.search_files@[i as int].name@
                    == name@ && self@.targets.contains(name@),
                None => !self@.targets.contains(name@),
            },
    {
        let len = self.search_files.len();
        let mut i: usize = 0;
        while i < len
            invariant
                len == self.search_files@.len(),
                i <= len,
                forall|k: int| 0 <= k < i ==> self.search_files@[k].name@ != name@,
            decreases len - i,
        {
            if self.search_files[i].name == *name {
                proof {
                    assert(self@.targets[i as int] == name@);
                }
                return Some(i);
            }
            i = i + 1;
        }
        proof {
            if self@.targets.contains(name@) {
                let k = choose|k: int| 0 <= k < self@.targets.len() && self@.targets[k] == name@;
                assert(self.search_files@[k].name@ == name@);
            }
        }
        None
    }

    /// Whether any component of `path` is a restricted folder name.
    fn has_restricted_component(&self, path: &MemberPath) -> (r: bool)
        ensures
            r == exists|i: int|
                0 <= i < path@.len() && self@.restricted.contains(#[trigger] path@[i]),
    {
        let n = path.len();
        let mut i: usize = 0;
        while i < n
            invariant
                n == path@.len(),
                i <= n,
                forall|k: int| 0 <= k < i ==> !self@.restricted.contains(#[trigger] path@[k]),
            decreases n - i,
        {
            if self.is_restricted_name(path.component(i)) {
                return true;
            }
            i = i + 1;
        }
        false
    }

    /// Whether `name` is one of the restricted folder names.
    fn is_restricted_name(&self, name: &String) -> (r: bool)
        ensures
            r == self@.restricted.contains(name@),
    {
        let len = self.restricted_folders.len();
        let mut i: usize = 0;
        while i < len
            invariant
                len == self.restricted_folders@.len(),
                i <= len,
                forall|k: int| 0 <= k < i ==> self.restricted_folders@[k]@ != name@,
            decreases len - i,
        {
            if self.restricted_folders[i] == *name {
                proof {
                    assert(self.restricted_folders@[i as int]@ == name@);
                }
                return true;
            }
            i = i + 1;
        }
        proof {
            if self@.restricted.contains(name@) {
                let k = choose|k: int|
                    0 <= k < self.restricted_folders@.len() && self.restricted_folders@[k]@
                        == name@;
            }
        }
        false
    }

    /// Marks target `name` as matched.
    fn set_matched(&mut self, name: &String)
        requires
            old(self).inv(),
            old(self)@.targets.contains(name@),
        ensures
            final(self).inv(),
            final(self)@ == (VerifierModel {
                matched: old(self)@.matched.insert(name@),
                ..old(self)@
            }),
    {
        let len = self.search_files.len();
        let mut i: usize = 0;
        while i < len
            invariant
                old(self).inv(),
                old(self)@.targets.contains(name@),
                len == self.search_files@.len(),
                i <= len,
                self == old(self),
                forall|k: int| 0 <= k < i ==> self.search_files@[k].name@ != name@,
            decreases len - i,
        {
            if self.search_files[i].name == *name {
                let ghost pre = self.search_files@;
                self.search_files[i].matched = true;
                proof {
                    let m0 = old(self)@;
                    let m1 = self@;
                    assert(m1.targets =~= m0.targets);
                    assert(m1.restricted =~= m0.restricted);
                    assert(m1.matched =~= m0.matched.insert(name@)) by {
                        assert forall|n: Seq<char>| m1.matched.contains(n) implies m0.matched.insert(
                            name@,
                        ).contains(n) by {
                            let k = choose|k: int|
                                0 <= k < self.search_files@.len() && self.search_files@[k].name@
                                    == n && self.search_files@[k].matched;
                            if k != i {
                                assert(pre[k] == self.search_files@[k]);
                                assert(m0.matched.contains(n));
                            }
                        }
                        assert forall|n: Seq<char>|
                            m0.matched.insert(name@).contains(n) implies m1.matched.contains(n) by {
                            if n == name@ {
                                assert(self.search_files@[i as int].name@ == n);
                                assert(self.search_files@[i as int].matched);
                            } else {
                                let k = choose|k: int|
                                    0 <= k < old(self).search_files@.len() && old(
                                        self,
                                    ).search_files@[k].name@ == n && old(
                                        self,
                                    ).search_files@[k].matched;
                                assert(self.search_files@[k].name@ == n);
                                assert(self.search_files@[k].matched);
                            }
                        }
                    }
                }
                return ;
            }
            i = i + 1;
        }
        proof {
            let k = choose|k: int| 0 <= k < self@.targets.len() && self@.targets[k] == name@;
            assert(self.search_files@[k].name@ == name@);
            assert(false);
        }
    }

    /// Test whether the path is admitted, and record an admission.
    ///
    /// The path must not contain any restricted folder component, and its
    /// base name must be a target that the current archive has not satisfied
    /// yet; an admission marks that target as matched, so a later path with
    /// the same base name is rejected until [`Self::reset`].
    pub fn verify(&mut self, path: &MemberPath) -> (r: bool)
        requires
            old(self).inv(),
        ensures
            final(self).inv(),
            r == old(self)@.admits(path@),
            final(self)@ == old(self)@.step(path@),
    {
        let admitted = self.check(path);
        if admitted {
            let base = path.base_name();
            self.set_matched(base);
        }
        admitted
    }

    /// Resets the match state: every target becomes eligible again.
    pub fn reset(&mut self)
        requires
            old(self).inv(),
        ensures
            final(self).inv(),
            final(self)@ == old(self)@.clear_matched(),
    {
        let len = self.search_files.len();
        let mut i: usize = 0;
        while i < len
            invariant
                len == self.search_files@.len(),
                i <= len,
                self.restricted_folders == old(self).restricted_folders,
                forall|k: int|
                    0 <= k < len ==> (#[trigger] self.search_files@[k]).name@ == old(
                        self,
                    ).search_files@[k].name@,
                forall|k: int| 0 <= k < i ==> !self.search_files@[k].matched,
            decreases len - i,
        {
            self.search_files[i].matched = false;
            i = i + 1;
        }
        proof {
            let m0 = old(self)@;
            let m1 = self@;
            assert(m1.targets =~= m0.targets);
            assert(m1.restricted =~= m0.restricted);
            assert(m1.matched =~= Set::<Seq<char>>::empty());
            assert(m1 == m0.clear_matched());
        }
    }

    /// The diagnostic lines for the targets that the archive named `folder_name`
    /// did not satisfy, one line per unmatched target, in order of addition.
    pub fn print_progress(&self, folder_name: &String) -> (r: Vec<String>)
        requires
            self.inv(),
        ensures
            r.deep_view() == report_lines(self@.targets, self@.matched, folder_name@),
    {
        let len = self.search_files.len();
        let mut r: Vec<String> = Vec::new();
        let mut i: usize = 0;
        proof {
            assert(self@.targets.take(0) =~= Seq::<Seq<char>>::empty());
            assert(r.deep_view() =~= report_lines(
                self@.targets.take(0),
                self@.matched,
                folder_name@,
            ));
        }
        while i < len
            invariant
                self.inv(),
                len == self.search_files@.len(),
                i <= len,
                r.deep_view() == report_lines(
                    self@.targets.take(i as int),
                    self@.matched,
                    folder_name@,
                ),
            decreases len - i,
        {
            let ghost pre = r.deep_view();
            let ghost t = self@.targets;
            if !self.search_files[i].matched {
                proof {
                    if self@.matched.contains(t[i as int]) {
                        let k = choose|k: int|
                            0 <= k < self.search_files@.len() && self.search_files@[k].name@
                                == t[i as int] && self.search_files@[k].matched;
                        assert(t[k] == self.search_files@[k].name@);
                        if k != i as int {
                            assert(t[k] != t[i as int]);
                        }
                        assert(false);
                    }
                }
                let mut line: String = self.search_files[i].name.clone();
                line.append(" was not found in ");
                line.append(folder_name.as_str());
                r.push(line);
                proof {
                    assert(r.deep_view() =~= pre.push(
                        not_found_line(t[i as int], folder_name@),
                    ));
                }
            } else {
                proof {
                    assert(self.search_files@[i as int].name@ == t[i as int]
                        && self.search_files@[i as int].matched);
                    assert(self@.matched.contains(t[i as int]));
                }
            }
            proof {
                assert(t.take(i + 1).drop_last() =~= t.take(i as int));
                assert(t.take(i + 1).last() == t[i as int]);
            }
            i = i + 1;
        }
        proof {
            assert(self@.targets.take(len as int) =~= self@.targets);
        }
        r
    }

    /// A copy with the same configuration and match state.
    fn duplicate(&self) -> (r: Self)
        ensures
            r@ == self@,
    {
        let rf_len = self.restricted_folders.len();
        let mut restricted_folders: Vec<String> = Vec::new();
        let mut i: usize = 0;
        while i < rf_len
            invariant
                rf_len == self.restricted_folders@.len(),
                i <= rf_len,
                restricted_folders@.len() == i,
                forall|k: int|
                    0 <= k < i ==> restricted_folders@[k] == self.restricted_folders@[k],
            decreases rf_len - i,
        {
            restricted_folders.push(self.restricted_folders[i].clone());
            i = i + 1;
        }
        let sf_len = self.search_files.len();
        let mut search_files: Vec<SearchEntry> = Vec::new();
        let mut j: usize = 0;
        while j < sf_len
            invariant
                sf_len == self.search_files@.len(),
                j <= sf_len,
                search_files@.len() == j,
                forall|k: int| 0 <= k < j ==> search_files@[k] == self.search_files@[k],
            decreases sf_len - j,
        {
            search_files.push(
                SearchEntry {
                    name: self.search_files[j].name.clone(),
                    matched: self.search_files[j].matched,
                },
            );
            j = j + 1;
        }
        let r = PathVerifier { restricted_folders, search_files };
        proof {
            assert(r.restricted_folders@ =~= self.restricted_folders@);
            assert(r.search_files@ =~= self.search_files@);
            assert(r@.restricted =~= self@.restricted);
            assert(r@.targets =~= self@.targets);
            assert(r@.matched =~= self@.matched);
            assert(r@ == self@);
        }
        r
    }
}

impl Default for PathVerifier {
    /// The starting configuration: no targets, and the built-in excluded
    /// folder names `__MACOSX` and `node_modules`.
    fn default() -> (r: Self)
        ensures
            r.inv(),
            r@.targets == Seq::<Seq<char>>::empty(),
            r@.matched =~= Set::<Seq<char>>::empty(),
            r@.restricted =~= set!["__MACOSX"@, "node_modules"@],
    {
        let mut restricted_folders: Vec<String> = Vec::new();
        restricted_folders.push("__MACOSX".to_owned());
        restricted_folders.push("node_modules".to_owned());
        let r = PathVerifier { restricted_folders, search_files: Vec::new() };
        proof {
            assert(r@.targets =~= Seq::<Seq<char>>::empty());
            assert(r@.matched =~= Set::<Seq<char>>::empty());
            assert(r@.restricted =~= set!["__MACOSX"@, "node_modules"@]) by {
                assert(r.restricted_folders@[0]@ == "__MACOSX"@);
                assert(r.restricted_folders@[1]@ == "node_modules"@);
                assert forall|n: Seq<char>| r@.restricted.contains(n) implies set![
                    "__MACOSX"@,
                    "node_modules"@,
                ].contains(n) by {
                    let k = choose|k: int|
                        0 <= k < r.restricted_folders@.len() && r.restricted_folders@[k]@ == n;
                    assert(k == 0 || k == 1);
                }
            }
        }
        r
    }
}

/// A path with a restricted folder component anywhere in it is never
/// admitted, whatever its base name and whatever the match state.
pub proof fn lemma_excluded_folder_vetoes(m: VerifierModel, p: Seq<Seq<char>>, i: int)
    requires
        0 <= i < p.len(),
        m.restricted.contains(p[i]),
    ensures
        !m.admits(p),
{
}

/// Once a path is admitted, every later path with the same base name is
/// rejected, as long as no reset intervenes.
pub proof fn lemma_first_match_consumes(m: VerifierModel, p: Seq<Seq<char>>, q: Seq<Seq<char>>)
    requires
        m.admits(p),
        q.len() > 0,
        q.last() == p.last(),
    ensures
        !m.step(p).admits(q),
{
}

/// After a reset, a previously matched target is eligible again: any path
/// that only its match flag kept out is admitted.
pub proof fn lemma_reset_restores_eligibility(m: VerifierModel, p: Seq<Seq<char>>)
    requires
        p.len() > 0,
        m.targets.contains(p.last()),
        forall|i: int| 0 <= i < p.len() ==> !m.restricted.contains(#[trigger] p[i]),
    ensures
        m.clear_matched().admits(p),
{
}

} // verus!
