//! Archive discovery: which file names in a source directory are archives,
//! the identifier derived from each, and the order in which the archives are
//! processed. The caller lists the directory and opens the files; this module
//! decides, from the names alone, what counts and in what order it comes.

use vstd::prelude::*;
use vstd::string::*;
use vstd::seq_lib::lemma_multiset_commutative;
use crate::lex::{lex_le, lex_lt, lemma_lex_le_total, lemma_lex_le_trans, str_le};

verus! {

/// Whether `s` ends in the archive extension `.zip`.
pub open spec fn is_zip_name(s: Seq<char>) -> bool {
    s.len() >= 4 && s.subrange(s.len() - 4, s.len() as int) == ".zip"@
}

/// The archive identifier derived from a file name: the name with its
/// `.zip` extension removed. A name without the extension stands for
/// itself.
pub open spec fn strip_zip(s: Seq<char>) -> Seq<char> {
    if is_zip_name(s) {
        s.take(s.len() - 4)
    } else {
        s
    }
}

/// On archive names the derived identifier is injective: the name is the
/// identifier with `.zip` appended.
proof fn lemma_strip_zip_injective(a: Seq<char>, b: Seq<char>)
    requires
        is_zip_name(a),
        is_zip_name(b),
        strip_zip(a) == strip_zip(b),
    ensures
        a == b,
{
    assert(a =~= strip_zip(a) + a.subrange(a.len() - 4, a.len() as int));
    assert(b =~= strip_zip(b) + b.subrange(b.len() - 4, b.len() as int));
}

/// An archive slated for processing: the file name it was found under and
/// the identifier derived from that name.
pub struct ArchiveCandidate {
    pub identifier: String,
    pub file_name: String,
}

/// Mathematical content of an [`ArchiveCandidate`].
pub ghost struct CandidateModel {
    pub identifier: Seq<char>,
    pub file_name: Seq<char>,
}

impl View for ArchiveCandidate {
    type V = CandidateModel;

    open spec fn view(&self) -> CandidateModel {
        CandidateModel { identifier: self.identifier@, file_name: self.file_name@ }
    }
}

impl DeepView for ArchiveCandidate {
    type V = CandidateModel;

    open spec fn deep_view(&self) -> CandidateModel {
        self@
    }
}

/// The candidates the file names `names` give rise to, in input order: one
/// per name with the archive extension, carrying its derived identifier.
pub open spec fn candidates_of(names: Seq<Seq<char>>) -> Seq<CandidateModel>
    decreases names.len(),
{
    if names.len() == 0 {
        Seq::empty()
    } else {
        let rest = candidates_of(names.drop_last());
        if is_zip_name(names.last()) {
            rest.push(
                CandidateModel { identifier: strip_zip(names.last()), file_name: names.last() },
            )
        } else {
            rest
        }
    }
}

/// Candidates ordered by identifier, lexicographically non-decreasing.
pub open spec fn sorted_by_identifier(s: Seq<CandidateModel>) -> bool {
    forall|i: int, j: int| 0 <= i < j < s.len() ==> lex_le(
        #[trigger] s[i].identifier,
        #[trigger] s[j].identifier,
    )
}

/// Candidates in strictly ascending lexicographic order by identifier.
pub open spec fn strictly_sorted_by_identifier(s: Seq<CandidateModel>) -> bool {
    forall|i: int, j: int| 0 <= i < j < s.len() ==> lex_lt(
        #[trigger] s[i].identifier,
        #[trigger] s[j].identifier,
    )
}

/// Whether the file name carries the archive extension `.zip`.
pub fn path_is_zip(name: &str) -> (r: bool)
    ensures
        r == is_zip_name(name@),
{
    let len = name.unicode_len();
    if len < 4 {
        return false;
    }
    let c0 = name.get_char(len - 4);
    let c1 = name.get_char(len - 3);
    let c2 = name.get_char(len - 2);
    let c3 = name.get_char(len - 1);
    let r = c0 == '.' && c1 == 'z' && c2 == 'i' && c3 == 'p';
    proof {
        reveal_strlit(".zip");
        let tail = name@.subrange(name@.len() - 4, name@.len() as int);
        if r {
            assert(tail =~= ".zip"@);
        } else {
            if tail == ".zip"@ {
                assert(tail[0] == '.' && tail[1] == 'z' && tail[2] == 'i' && tail[3] == 'p');
                assert(false);
            }
        }
    }
    r
}

/// The identifier derived from an archive file name: the name with its
/// `.zip` extension removed. A name without the extension is returned
/// unchanged.
pub fn strip_zip_suffix(name: &str) -> (r: String)
    ensures
        r@ == strip_zip(name@),
{
    if path_is_zip(name) {
        let len = name.unicode_len();
        let r = name.substring_char(0, len - 4).to_owned();
        proof {
            assert(name@.subrange(0, name@.len() - 4) =~= name@.take(name@.len() - 4));
        }
        r
    } else {
        name.to_owned()
    }
}

/// Inserting an element anywhere adds exactly it to the multiset.
proof fn lemma_insert_to_multiset<A>(s: Seq<A>, i: int, x: A)
    requires
        0 <= i <= s.len(),
    ensures
        s.insert(i, x).to_multiset() =~= s.to_multiset().insert(x),
{
    broadcast use vstd::seq_lib::group_to_multiset_ensures;

    assert(s.insert(i, x) =~= s.take(i).push(x) + s.skip(i));
    lemma_multiset_commutative(s.take(i).push(x), s.skip(i));
    assert(s.take(i).push(x).to_multiset() =~= s.take(i).to_multiset().insert(x));
    assert(s =~= s.take(i) + s.skip(i));
    lemma_multiset_commutative(s.take(i), s.skip(i));
}

/// A copy of one candidate.
fn duplicate_candidate(c: &ArchiveCandidate) -> (r: ArchiveCandidate)
    ensures
        r == *c,
{
    ArchiveCandidate { identifier: c.identifier.clone(), file_name: c.file_name.clone() }
}

/// Every candidate of `names` carries one of the names, with the archive
/// extension, and derives its identifier from it.
proof fn lemma_candidates_of_shape(names: Seq<Seq<char>>)
    ensures
        forall|i: int|
            0 <= i < candidates_of(names).len() ==> names.contains(
                (#[trigger] candidates_of(names)[i]).file_name,
            ) && is_zip_name(candidates_of(names)[i].file_name) && candidates_of(
                names,
            )[i].identifier == strip_zip(candidates_of(names)[i].file_name),
    decreases names.len(),
{
    if names.len() > 0 {
        lemma_candidates_of_shape(names.drop_last());
        let c = candidates_of(names);
        let rest = candidates_of(names.drop_last());
        assert forall|i: int| 0 <= i < c.len() implies names.contains(
            (#[trigger] c[i]).file_name,
        ) && is_zip_name(c[i].file_name) && c[i].identifier == strip_zip(c[i].file_name) by {
            if i < rest.len() {
                assert(c[i] == rest[i]);
                let k = choose|k: int|
                    0 <= k < names.drop_last().len() && names.drop_last()[k] == rest[i].file_name;
                assert(names[k] == rest[i].file_name);
            } else {
                assert(names[names.len() - 1] == names.last());
            }
        }
    }
}

/// Distinct file names derive pairwise distinct identifiers.
proof fn lemma_candidates_of_distinct_ids(names: Seq<Seq<char>>)
    requires
        names.no_duplicates(),
    ensures
        forall|i: int, j: int|
            0 <= i < j < candidates_of(names).len() ==> (#[trigger] candidates_of(
                names,
            )[i]).identifier != (#[trigger] candidates_of(names)[j]).identifier,
    decreases names.len(),
{
    if names.len() > 0 {
        assert(names.drop_last().no_duplicates()) by {
            assert(forall|k: int|
                0 <= k < names.drop_last().len() ==> names.drop_last()[k] == names[k]);
        }
        lemma_candidates_of_distinct_ids(names.drop_last());
        lemma_candidates_of_shape(names.drop_last());
        let c = candidates_of(names);
        let rest = candidates_of(names.drop_last());
        if is_zip_name(names.last()) {
            assert forall|i: int, j: int| 0 <= i < j < c.len() implies (#[trigger] c[i]).identifier
                != (#[trigger] c[j]).identifier by {
                if j < rest.len() {
                    assert(c[i] == rest[i] && c[j] == rest[j]);
                } else {
                    assert(c[i] == rest[i]);
                    assert(c[j].identifier == strip_zip(names.last()));
                    if c[i].identifier == c[j].identifier {
                        lemma_strip_zip_injective(rest[i].file_name, names.last());
                        let k = choose|k: int|
                            0 <= k < names.drop_last().len() && names.drop_last()[k]
                                == rest[i].file_name;
                        assert(names[k] == names.last());
                        assert(names[k] == names[names.len() - 1]);
                        assert(false);
                    }
                }
            }
        }
    }
}

/// A multiset-equal reordering keeps identifiers pairwise distinct.
proof fn lemma_distinct_ids_transfer(src: Seq<CandidateModel>, dst: Seq<CandidateModel>)
    requires
        forall|i: int, j: int|
            0 <= i < j < src.len() ==> (#[trigger] src[i]).identifier != (
            #[trigger] src[j]).identifier,
        dst.to_multiset() == src.to_multiset(),
    ensures
        forall|i: int, j: int|
            0 <= i < j < dst.len() ==> (#[trigger] dst[i]).identifier != (
            #[trigger] dst[j]).identifier,
{
    broadcast use vstd::seq_lib::group_to_multiset_ensures;

    assert(src.no_duplicates()) by {
        assert forall|a: int, b: int|
            0 <= a < src.len() && 0 <= b < src.len() && a != b implies src[a] != src[b] by {
            if a < b {
                assert(src[a].identifier != src[b].identifier);
            } else {
                assert(src[b].identifier != src[a].identifier);
            }
        }
    }
    src.lemma_multiset_has_no_duplicates();
    dst.lemma_multiset_has_no_duplicates_conv();
    assert forall|i: int, j: int| 0 <= i < j < dst.len() implies (#[trigger] dst[i]).identifier != (
    #[trigger] dst[j]).identifier by {
        if dst[i].identifier == dst[j].identifier {
            assert(dst[i] != dst[j]);
            assert(dst.contains(dst[i]));
            assert(dst.contains(dst[j]));
            assert(dst.to_multiset().count(dst[i]) > 0);
            assert(dst.to_multiset().count(dst[j]) > 0);
            assert(src.to_multiset().count(dst[i]) > 0);
            assert(src.to_multiset().count(dst[j]) > 0);
            assert(src.contains(dst[i]));
            assert(src.contains(dst[j]));
            let a = choose|a: int| 0 <= a < src.len() && src[a] == dst[i];
            let b = choose|b: int| 0 <= b < src.len() && src[b] == dst[j];
            if a < b {
                assert(src[a].identifier != src[b].identifier);
            } else {
                assert(src[b].identifier != src[a].identifier);
            }
            assert(false);
        }
    }
}

/// From the file names a source directory holds, the archives to process:
/// every name with the archive extension, paired with its derived
/// identifier, in strictly ascending lexicographic order by identifier.
/// One directory lists each name once, so the names are distinct, and
/// distinct names derive distinct identifiers.
pub fn collect_archive_candidates(names: &Vec<String>) -> (r: Vec<ArchiveCandidate>)
    requires
        names.deep_view().no_duplicates(),
    ensures
        r.deep_view().to_multiset() == candidates_of(names.deep_view()).to_multiset(),
        strictly_sorted_by_identifier(r.deep_view()),
{
    broadcast use vstd::seq_lib::group_to_multiset_ensures;

    let ghost nv = names.deep_view();
    let n = names.len();
    let mut cands: Vec<ArchiveCandidate> = Vec::new();
    let mut i: usize = 0;
    proof {
        assert(nv.take(0) =~= Seq::<Seq<char>>::empty());
        assert(cands.deep_view() =~= candidates_of(nv.take(0)));
    }
    while i < n
        invariant
            n == names@.len(),
            nv == names.deep_view(),
            i <= n,
            cands.deep_view() == candidates_of(nv.take(i as int)),
        decreases n - i,
    {
        let ghost pre = cands.deep_view();
        proof {
            assert(nv.take(i + 1).drop_last() =~= nv.take(i as int));
            assert(nv.take(i + 1).last() == nv[i as int]);
            assert(nv[i as int] == names@[i as int]@);
        }
        let name = &names[i];
        if path_is_zip(name.as_str()) {
            let ident = strip_zip_suffix(name.as_str());
            cands.push(ArchiveCandidate { identifier: ident, file_name: name.clone() });
            proof {
                assert(cands.deep_view() =~= pre.push(
                    CandidateModel { identifier: strip_zip(nv[i as int]), file_name: nv[i as int] },
                ));
            }
        }
        i = i + 1;
    }
    proof {
        assert(nv.take(n as int) =~= nv);
    }
    // insertion sort by identifier
    let ghost all = cands.deep_view();
    let m = cands.len();
    let mut out: Vec<ArchiveCandidate> = Vec::new();
    let mut j: usize = 0;
    proof {
        assert(all.take(0) =~= Seq::<CandidateModel>::empty());
        assert(out.deep_view() =~= all.take(0));
    }
    while j < m
        invariant
            m == cands@.len(),
            all == cands.deep_view(),
            j <= m,
            out.deep_view().to_multiset() == all.take(j as int).to_multiset(),
            sorted_by_identifier(out.deep_view()),
        decreases m - j,
    {
        let c = duplicate_candidate(&cands[j]);
        proof {
            assert(c@ == all[j as int]);
        }
        let out_len = out.len();
        let mut pos: usize = 0;
        while pos < out_len && str_le(out[pos].identifier.as_str(), c.identifier.as_str())
            invariant
                out_len == out@.len(),
                pos <= out_len,
                c@ == all[j as int],
                forall|k: int| 0 <= k < pos ==> lex_le(
                    #[trigger] out.deep_view()[k].identifier,
                    c@.identifier,
                ),
            decreases out_len - pos,
        {
            proof {
                assert(out.deep_view()[pos as int].identifier == out@[pos as int].identifier@);
            }
            pos = pos + 1;
        }
        proof {
            if (pos as int) < out.deep_view().len() {
                lemma_lex_le_total(out.deep_view()[pos as int].identifier, c@.identifier);
                assert(lex_le(c@.identifier, out.deep_view()[pos as int].identifier));
            }
        }
        let ghost pre_out = out.deep_view();
        out.insert(pos, c);
        proof {
            assert(out.deep_view() =~= pre_out.insert(pos as int, c@));
            lemma_insert_to_multiset(pre_out, pos as int, c@);
            assert(all.take(j + 1) =~= all.take(j as int).push(all[j as int]));
            all.take(j as int).to_multiset_ensures();
            assert(all.take(j as int).push(all[j as int]).to_multiset() =~= all.take(
                j as int,
            ).to_multiset().insert(all[j as int]));
            let now = out.deep_view();
            assert forall|a: int, b: int| 0 <= a < b < now.len() implies lex_le(
                #[trigger] now[a].identifier,
                #[trigger] now[b].identifier,
            ) by {
                if b < pos as int {
                    assert(now[a] == pre_out[a] && now[b] == pre_out[b]);
                    assert(lex_le(pre_out[a].identifier, pre_out[b].identifier));
                } else if a > pos as int {
                    assert(now[a] == pre_out[a - 1] && now[b] == pre_out[b - 1]);
                    assert(lex_le(pre_out[a - 1].identifier, pre_out[b - 1].identifier));
                } else if a == pos as int {
                    // now[a] is the new element, b > pos
                    assert(now[b] == pre_out[b - 1]);
                    assert(lex_le(c@.identifier, pre_out[pos as int].identifier));
                    if b - 1 > pos as int {
                        assert(lex_le(
                            pre_out[pos as int].identifier,
                            pre_out[b - 1].identifier,
                        ));
                        lemma_lex_le_trans(
                            c@.identifier,
                            pre_out[pos as int].identifier,
                            pre_out[b - 1].identifier,
                        );
                    }
                } else if b == pos as int {
                    // a < pos, now[b] is the new element
                    assert(now[a] == pre_out[a]);
                    assert(lex_le(pre_out[a].identifier, c@.identifier));
                } else {
                    // a < pos < b
                    assert(now[a] == pre_out[a] && now[b] == pre_out[b - 1]);
                    assert(lex_le(pre_out[a].identifier, pre_out[b - 1].identifier));
                }
            }
        }
        j = j + 1;
    }
    proof {
        assert(all.take(m as int) =~= all);
        lemma_candidates_of_distinct_ids(nv);
        lemma_distinct_ids_transfer(all, out.deep_view());
        lemma_sorted_distinct_strictly_ascending(out.deep_view());
    }
    out
}

/// A non-strictly sorted run of candidates with pairwise distinct
/// identifiers is strictly ascending.
proof fn lemma_sorted_distinct_strictly_ascending(s: Seq<CandidateModel>)
    requires
        sorted_by_identifier(s),
        forall|i: int, j: int| 0 <= i < j < s.len() ==> (#[trigger] s[i].identifier) != (
        #[trigger] s[j].identifier),
    ensures
        forall|i: int, j: int| 0 <= i < j < s.len() ==> lex_lt(
            #[trigger] s[i].identifier,
            #[trigger] s[j].identifier,
        ),
{
}

} // verus!
